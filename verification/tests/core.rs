//! The tile engine: configuration, encoding, properties, tile generation.
use std::io::Read;

use vtile::config::{PropertyPolicy, TileConfig};
use vtile::double::Double;
use vtile::error::TileError;
use vtile::geometry::{Coord, Geometry, Polygon};
use vtile::gzip::gzip;
use vtile::json::{JsonMap, JsonValue};
use vtile::model::{
    Bbox, GeometryKind, JobStatus, LayerCategory, SecurityClassification, SourceFormat, ZoomRange,
};
use vtile::mvt::decode::{decode_gzipped_tile, decode_tile};
use vtile::mvt::pbf::PbfWriter;
use vtile::mvt::{
    encode_lines, encode_points, encode_rings, signed_area2, GeomKind, GeometryCommands, MvtLayer,
    MvtValue, Ring,
};
use vtile::properties::{
    json_to_mvt_properties, json_value_to_mvt, property_payload_bytes, AttrMode,
};
use vtile::sink::{MemoryTileSink, TileObjectMeta, TileSink};
use vtile::tile_geometry::{can_be_drawn, encode_geometry, TileGeometry, TilePolygon};
use vtile::tilemath::{TileId, TileTransform};
use vtile::tileset::ladder::{build_tile, escalate, judge, sort_heaviest_first, Rung, TileFeature, Verdict};
use vtile::tileset::run::{
    assign_tiles, build_tiles_sequential, finish_accum, merge_accum, run_zoom, TileInput,
    TileRange, ZoomAccum, ZoomInput,
};
use vtile::tileset::{generate_tiles, prepare_features, PreparedDataset, RawFeature, TileStats};

fn num(x: f64) -> Double {
    Double { bits: x.to_bits() }
}

fn at(x: f64, y: f64) -> Coord {
    Coord { x: num(x), y: num(y) }
}

fn text(s: &str) -> JsonValue {
    JsonValue::Text(s.to_string())
}

fn map(entries: Vec<(&str, JsonValue)>) -> JsonMap {
    let mut m = JsonMap::new();
    for (k, v) in entries {
        m.insert(k.to_string(), v);
    }
    m
}

// Configuration and model.

#[test]
fn policy_filters_pii_case_insensitively() {
    let p = PropertyPolicy::default();
    assert!(!p.is_allowed("ownerName"));
    assert!(!p.is_allowed("OWNER_NAME"));
    assert!(p.is_allowed("parcelId"));
}

#[test]
fn policy_allowlist_wins() {
    let mut p = PropertyPolicy::default();
    p.allowlist = Some(vec!["parcelId".into()]);
    assert!(p.is_allowed("parcelId"));
    assert!(!p.is_allowed("market"));
}

#[test]
fn denied_keys_are_dropped_whatever_the_allowlist() {
    let mut p = PropertyPolicy::default();
    p.allowlist = Some(vec!["Email".into(), "parcelId".into()]);
    assert!(p.is_denied("EMAIL"));
    assert!(!p.is_allowed("email"));
    assert!(p.is_allowed("PARCELID"));
}

#[test]
fn default_config_validates() {
    TileConfig::default().validate().unwrap();
}

#[test]
fn layer_categories_have_zoom_ranges() {
    assert_eq!(LayerCategory::Parcel.default_zoom_range(), ZoomRange::new(10, 16));
    assert_eq!(LayerCategory::Macro.default_zoom_range(), ZoomRange::new(0, 8));
}

#[test]
fn bad_configurations_are_refused() {
    let fault = |change: fn(&mut TileConfig)| {
        let mut c = TileConfig::default();
        change(&mut c);
        c.validate().unwrap_err()
    };
    assert_eq!(fault(|c| c.extent = 0), "extent must be > 0");
    assert_eq!(
        fault(|c| c.zoom_range = ZoomRange::new(0, 21)),
        "max_zoom > 20 is unsupported (integer overflow)"
    );
    assert_eq!(fault(|c| c.gzip_level = 10), "gzip_level must be in 1..=9");
    assert_eq!(
        fault(|c| c.target_max_tile_bytes = c.hard_max_tile_bytes + 1),
        "target_max_tile_bytes must be <= hard_max_tile_bytes"
    );
}

#[test]
fn job_states_move_along_the_workflow() {
    assert!(JobStatus::UploadPending.can_transition_to(JobStatus::Queued));
    assert!(!JobStatus::UploadPending.can_transition_to(JobStatus::Completed));
    assert!(JobStatus::Publishing.can_transition_to(JobStatus::Completed));
    assert!(!JobStatus::Cancelled.can_transition_to(JobStatus::Queued));
    assert!(JobStatus::Failed.can_transition_to(JobStatus::Queued));
    assert!(JobStatus::Completed.is_terminal());
    assert!(!JobStatus::Completed.is_active());
    assert!(JobStatus::Tiling.is_active());
    assert!(JobStatus::Queued.is_runnable());
    assert_eq!(JobStatus::UploadPending.as_str(), "UPLOAD_PENDING");
}

#[test]
fn formats_and_kinds_have_names() {
    assert!(SourceFormat::GeoJson.is_supported_in_mvp());
    assert!(!SourceFormat::Kml.is_supported_in_mvp());
    assert_eq!(SourceFormat::Shapefile.as_str(), "SHAPEFILE");
    assert_eq!(GeometryKind::MultiPolygon.as_str(), "MULTIPOLYGON");
    assert_eq!(SecurityClassification::default(), SecurityClassification::Internal);
}

#[test]
fn zoom_ranges_are_inclusive() {
    let r = ZoomRange::new(5, 3);
    assert_eq!(r, ZoomRange::new(5, 5));
    let r = ZoomRange::new(2, 4);
    assert!(r.contains(2) && r.contains(4) && !r.contains(5));
    assert_eq!(r.iter(), vec![2, 3, 4]);
}

#[test]
fn boxes_join_and_list_their_bounds() {
    let a = Bbox::new(num(-1.0), num(2.0), num(3.0), num(4.0));
    let b = Bbox::new(num(-5.0), num(3.0), num(1.0), num(9.0));
    let c = a.union(&b);
    assert_eq!(c.to_vec(), vec![num(-5.0), num(2.0), num(3.0), num(9.0)]);
    assert_eq!(b.union(&a), c);
    assert_eq!(Bbox::from_vec(&c.to_vec()).unwrap(), c);
    assert_eq!(
        Bbox::from_vec(&[num(1.0)]).unwrap_err(),
        "bbox must have exactly 4 values"
    );
}

// The wire format.

#[test]
fn varint_encoding_matches_known_vectors() {
    let mut w = PbfWriter::new();
    w.write_varint(0);
    w.write_varint(1);
    w.write_varint(127);
    w.write_varint(128);
    w.write_varint(300);
    assert_eq!(w.into_bytes(), vec![0x00, 0x01, 0x7f, 0x80, 0x01, 0xac, 0x02]);
}

#[test]
fn zigzag_known_vectors() {
    assert_eq!(PbfWriter::zigzag32(0), 0);
    assert_eq!(PbfWriter::zigzag32(-1), 1);
    assert_eq!(PbfWriter::zigzag32(1), 2);
    assert_eq!(PbfWriter::zigzag32(-2), 3);
    assert_eq!(PbfWriter::zigzag64(-1), 1);
}

#[test]
fn tag_layout() {
    // Field 1, wire type 2 => key byte 0x0a (the classic "name" field).
    let mut w = PbfWriter::new();
    w.string_field(1, "");
    assert_eq!(w.into_bytes(), vec![0x0a, 0x00]);
}

#[test]
fn single_precision_fields_hold_four_bytes() {
    let mut w = PbfWriter::new();
    w.float_field(3, 1.5f32.to_bits());
    assert_eq!(w.into_bytes(), vec![0x1d, 0, 0, 0xc0, 0x3f]);
}

#[test]
fn texts_are_escaped_in_json() {
    assert_eq!(text("a\"b\\c\n\u{1f}\u{8}\u{e9}/").to_json(), "\"a\\\"b\\\\c\\n\\u001f\\b\u{e9}/\"");
    assert_eq!(JsonValue::whole(-3).to_json(), "-3");
    assert_eq!(JsonValue::Null.to_json(), "null");
}

#[test]
fn keys_are_compared_in_lower_case_beyond_ascii_too() {
    let mut p = PropertyPolicy::default();
    p.denylist = vec!["\u{c9}tage[1]".to_string()];
    assert!(p.is_denied("\u{e9}TAGE[1]"));
    assert!(!p.is_denied("\u{e9}TAGE{1}"));
}

#[test]
fn fields_have_their_wire_types() {
    let mut w = PbfWriter::with_capacity(64);
    assert!(w.is_empty());
    w.varint_field(1, 150);
    w.bool_field(2, true);
    w.sint_field(3, -1);
    w.int64_field(4, 5);
    w.double_field(5, num(1.0).bits);
    w.bytes_field(6, &[7, 8]);
    w.packed_varint_field(7, &[1, 300]);
    assert_eq!(
        w.as_bytes(),
        &[
            0x08, 0x96, 0x01, 0x10, 0x01, 0x18, 0x01, 0x20, 0x05, 0x29, 0, 0, 0, 0, 0, 0, 0xf0,
            0x3f, 0x32, 0x02, 7, 8, 0x3a, 0x03, 0x01, 0xac, 0x02
        ]
    );
    assert_eq!(w.len(), 27);
}

#[test]
fn rejects_garbage_gracefully() {
    // 0xff 0xff ... is a varint that never terminates.
    assert!(decode_tile(&[0xff, 0xff, 0xff]).is_err());
}

#[test]
fn decoding_faults_are_told_apart() {
    // An eleven-byte varint, a length past the end, truncated fixed fields, a bad wire type.
    assert!(decode_tile(&[0xff; 11]).is_err());
    assert!(decode_tile(&[0x1a, 0x05, 0x00]).is_err());
    assert!(decode_tile(&[0x09, 0x00]).is_err());
    assert!(decode_tile(&[0x0d, 0x00]).is_err());
    assert!(decode_tile(&[0x0b]).is_err());
    assert!(decode_gzipped_tile(&[1, 2, 3]).is_err());
    assert!(decode_tile(&[]).unwrap().layers.is_empty());
}

// Geometry commands.

#[test]
fn point_geometry_command_sequence() {
    // MoveTo(1) at (25, 17): command int = (1 & 7) | (1 << 3) = 9,
    // params zigzag(25)=50, zigzag(17)=34.
    let cmds = encode_points(&[(25, 17)]);
    assert_eq!(cmds, vec![9, 50, 34]);
}

#[test]
fn line_of_two_points_is_one_step() {
    let cmds = encode_lines(&[vec![(2, 2), (10, 10)]]);
    assert_eq!(cmds, vec![9, 4, 4, 10, 16, 16]);
}

#[test]
fn exterior_rings_are_reversed_to_positive_area() {
    let ring = Ring { points: vec![(0, 0), (0, 10), (10, 10), (10, 0)], exterior: true };
    assert_eq!(signed_area2(&ring.points), -200);
    let cmds = encode_rings(&[ring]);
    assert_eq!(cmds, vec![9, 20, 0, 26, 0, 20, 19, 0, 0, 19, 15]);
}

#[test]
fn degenerate_rings_dropped() {
    let ring = Ring { points: vec![(0, 0), (5, 5)], exterior: true };
    assert!(encode_rings(&[ring]).is_empty());
    let collinear = Ring { points: vec![(0, 0), (5, 0), (10, 0)], exterior: true };
    assert!(encode_rings(&[collinear]).is_empty());
}

#[test]
fn commands_are_relative_to_the_cursor() {
    let mut g = GeometryCommands::new();
    assert!(g.is_empty());
    g.move_to(&[(3, 6)]);
    g.line_to(&[(8, 12), (20, 34)]);
    g.close_path();
    assert_eq!(g.into_commands(), vec![9, 6, 12, 18, 10, 12, 24, 44, 15]);
}

// Layers.

#[test]
fn layer_roundtrips_through_decoder() {
    let mut layer = MvtLayer::new("parcel_boundary".to_string(), 4096);
    layer.add_feature(
        Some(42),
        GeomKind::Point,
        encode_points(&[(100, 200)]),
        &[
            ("parcelId".to_string(), MvtValue::String("NYC-1".into())),
            ("far".to_string(), MvtValue::Double(num(10.5))),
            ("floors".to_string(), MvtValue::Int(12)),
            ("active".to_string(), MvtValue::Bool(true)),
        ],
    );
    layer.add_feature(
        None,
        GeomKind::Point,
        encode_points(&[(300, 400)]),
        &[("parcelId".to_string(), MvtValue::String("NYC-2".into()))],
    );

    let bytes = layer.to_tile_bytes();
    let decoded = decode_tile(&bytes).expect("tile should decode");
    assert_eq!(decoded.layers.len(), 1);
    let l = &decoded.layers[0];
    assert_eq!(l.name, "parcel_boundary");
    assert_eq!(l.version, 2);
    assert_eq!(l.extent, 4096);
    assert_eq!(l.feature_count, 2);
    assert_eq!(l.keys, vec!["parcelId", "far", "floors", "active"]);
    // 4 unique values: "NYC-1", 10.5, 12, true, "NYC-2" => 5
    assert_eq!(l.value_count, 5);
    assert_eq!(l.feature_ids, vec![Some(42), None]);
    assert_eq!(l.geom_types, vec![1, 1]);
}

#[test]
fn values_are_deduplicated() {
    let mut layer = MvtLayer::new("l".to_string(), 4096);
    for i in 0..3u64 {
        layer.add_feature(
            Some(i),
            GeomKind::Point,
            encode_points(&[(i as i32, 0)]),
            &[("market".to_string(), MvtValue::String("NYC".into()))],
        );
    }
    let decoded = decode_tile(&layer.to_tile_bytes()).unwrap();
    assert_eq!(decoded.layers[0].value_count, 1);
    assert_eq!(decoded.layers[0].keys.len(), 1);
}

#[test]
fn layer_size_is_estimated() {
    let mut layer = MvtLayer::new("roads".to_string(), 4096);
    assert_eq!(layer.approximate_bytes(), 5 + 32);
    layer.add_feature(
        None,
        GeomKind::Point,
        encode_points(&[(1, 1)]),
        &[("k".to_string(), MvtValue::String("four".into()))],
    );
    // Three commands, two tags, a key of one byte and a value of four.
    assert_eq!(layer.approximate_bytes(), (12 + 4 + 16) + (1 + 4) + (4 + 4) + 5 + 32);
    assert_eq!(layer.name(), "roads");
    assert_eq!(layer.feature_count(), 1);
    assert!(!layer.is_empty());
}

// Properties.

#[test]
fn converts_number_types() {
    assert_eq!(json_value_to_mvt(&JsonValue::Unsigned(5)), Some(MvtValue::Int(5)));
    assert_eq!(
        json_value_to_mvt(&JsonValue::Float { value: num(10.5), spelling: "10.5".into() }),
        Some(MvtValue::Double(num(10.5)))
    );
    assert_eq!(json_value_to_mvt(&JsonValue::Bool(true)), Some(MvtValue::Bool(true)));
    assert_eq!(json_value_to_mvt(&JsonValue::Null), None);
    assert_eq!(json_value_to_mvt(&text("x")), Some(MvtValue::String("x".into())));
    assert_eq!(
        json_value_to_mvt(&JsonValue::Unsigned(u64::MAX)),
        Some(MvtValue::Uint(u64::MAX))
    );
    assert_eq!(
        json_value_to_mvt(&JsonValue::Nested("[1,2]".into())),
        Some(MvtValue::String("[1,2]".into()))
    );
}

#[test]
fn strips_pii_and_sorts_keys() {
    let policy = PropertyPolicy::default();
    let props = map(vec![
        ("ownerName", text("Jane Doe")),
        ("parcelId", text("NYC-1")),
        ("market", text("New York")),
    ]);
    let out = json_to_mvt_properties(&props, &policy, AttrMode::Full);
    let keys: Vec<&str> = out.iter().map(|(k, _)| k.as_str()).collect();
    assert_eq!(keys, vec!["market", "parcelId"]);
}

#[test]
fn core_mode_keeps_only_core_fields() {
    let policy = PropertyPolicy::default();
    let props = map(vec![
        ("parcelId", text("NYC-1")),
        ("market", text("New York")),
        ("zoning", text("C4")),
    ]);
    let out = json_to_mvt_properties(&props, &policy, AttrMode::Core);
    assert_eq!(out.len(), 1);
    assert_eq!(out[0].0, "parcelId");
    let none = json_to_mvt_properties(&props, &policy, AttrMode::NoProperties);
    assert!(none.is_empty());
}

#[test]
fn denied_keys_are_no_core_fields() {
    let policy = PropertyPolicy {
        core_properties: vec!["parcelId".to_string(), "ownerName".to_string()],
        ..PropertyPolicy::default()
    };
    let props = map(vec![("parcelId", text("A-1")), ("ownerName", text("Jane"))]);
    let out = json_to_mvt_properties(&props, &policy, AttrMode::Core);
    assert_eq!(out, vec![("parcelId".to_string(), MvtValue::String("A-1".to_string()))]);
}

#[test]
fn payload_budget_enforced() {
    let mut policy = PropertyPolicy::default();
    policy.max_property_bytes_per_feature = 16;
    policy.max_fields_per_feature = 100;
    let props = map(vec![
        ("a", text("0123456789")),
        ("b", text("0123456789")),
        ("c", text("0123456789")),
    ]);
    let out = json_to_mvt_properties(&props, &policy, AttrMode::Full);
    // "a"(1 key + 10 value = 11) fits; adding "b" exceeds 16.
    assert_eq!(out.len(), 1);
}

#[test]
fn serialized_sizes_count_quotes() {
    let props = map(vec![("a", text("x\"y")), ("bc", JsonValue::Negative(-12))]);
    // "x\"y" is six bytes of JSON.
    assert_eq!(property_payload_bytes(&props), 1 + 6 + 2 + 3);
}

#[test]
fn same_properties_in_any_order_give_the_same_tile_properties() {
    let policy = PropertyPolicy::default();
    let a = map(vec![("x", text("1")), ("y", text("2"))]);
    let b = map(vec![("y", text("2")), ("x", text("1"))]);
    assert_eq!(
        json_to_mvt_properties(&a, &policy, AttrMode::Full),
        json_to_mvt_properties(&b, &policy, AttrMode::Full)
    );
}

// Tiles.

fn nyc_square(size: f64) -> Geometry {
    let (lon, lat) = (-73.9855, 40.7580);
    Geometry::Polygon(Polygon::new(
        vec![
            at(lon, lat),
            at(lon + size, lat),
            at(lon + size, lat + size),
            at(lon, lat + size),
            at(lon, lat),
        ],
        vec![],
    ))
}

fn config(max_zoom: u8) -> TileConfig {
    TileConfig {
        layer_name: "parcel_boundary".into(),
        zoom_range: ZoomRange::new(0, max_zoom),
        parallel: false,
        ..Default::default()
    }
}

fn dataset_with(n: usize, size: f64) -> PreparedDataset {
    let raw: Vec<RawFeature> = (0..n)
        .map(|i| RawFeature {
            id: Some(i as u64),
            geometry: nyc_square(size),
            properties: map(vec![
                ("parcelId", text(&format!("NYC-{i}"))),
                ("ownerName", text("SECRET")),
            ]),
        })
        .collect();
    prepare_features(raw, &config(16))
}

#[test]
fn prepare_strips_pii_and_computes_bbox() {
    let ds = dataset_with(2, 0.001);
    assert_eq!(ds.feature_count(), 2);
    let bbox = ds.bbox.unwrap();
    let min = f64::from_bits(bbox.min_lon.bits);
    let max = f64::from_bits(bbox.max_lon.bits);
    assert!(min <= -73.9855 && max >= -73.9855);
    assert_eq!(ds.geometry_kind, GeometryKind::Polygon);
    // PII removed:
    for f in &ds.features {
        assert!(f.properties.iter().all(|(k, _)| k != "ownerName"));
        assert!(f.properties.iter().any(|(k, _)| k == "parcelId"));
    }
}

#[test]
fn property_policy_applies_during_preparation() {
    let policy = PropertyPolicy::default();
    assert!(policy.is_denied("ownerName"));
}

fn square_feature(id: u64, side: i32) -> TileFeature {
    let ring = vec![(0, 0), (side, 0), (side, side), (0, side), (0, 0)];
    TileFeature {
        id: Some(id),
        properties: vec![("parcelId".to_string(), MvtValue::String(format!("NYC-{id}")))],
        vertex_count: 5,
        geometry: Some(TileGeometry::Polygon(TilePolygon {
            exterior: ring.clone(),
            interiors: vec![],
        })),
        coarse: Some(TileGeometry::Polygon(TilePolygon { exterior: ring, interiors: vec![] })),
    }
}

fn zooms(max: u8) -> Vec<ZoomInput> {
    (0..=max)
        .map(|z| ZoomInput {
            z,
            entries: vec![TileInput {
                tile: TileId::new(z, 0, 0),
                features: vec![square_feature(0, 100)],
            }],
        })
        .collect()
}

#[test]
fn generated_tiles_are_counted_stored_and_carry_the_layer() {
    let ds = dataset_with(1, 0.001);
    let cfg = config(2);
    let mut sink = MemoryTileSink::new();
    let meta = TileObjectMeta::default();
    let stats = generate_tiles(&ds, &cfg, &meta, &mut sink, &zooms(2)).unwrap();
    assert_eq!(stats.tiles_written, 3);
    assert_eq!(sink.len(), stats.tiles_written as usize);
    assert_eq!(stats.per_zoom.len(), 3);
    assert_eq!(stats.feature_instances, 3);
    let any_tile = sink.get(&sink.tile_at(0)).unwrap();
    assert!(stats.max_gzip_bytes >= any_tile.len());
    let decoded = decode_gzipped_tile(&any_tile).unwrap();
    assert_eq!(decoded.layers[0].name, "parcel_boundary");
    assert_eq!(decoded.layers[0].extent, 4096);
    assert_eq!(decoded.layers[0].version, 2);
    assert_eq!(decoded.layers[0].feature_ids, vec![Some(0)]);
}

#[test]
fn empty_dataset_errors() {
    let ds = PreparedDataset::default();
    let cfg = config(2);
    let mut sink = MemoryTileSink::new();
    let meta = TileObjectMeta::default();
    assert!(generate_tiles(&ds, &cfg, &meta, &mut sink, &[]).is_err());
}

#[test]
fn invalid_configuration_stops_a_run() {
    let ds = dataset_with(1, 0.001);
    let mut cfg = config(2);
    cfg.extent = 0;
    let mut sink = MemoryTileSink::new();
    let meta = TileObjectMeta::default();
    let err = generate_tiles(&ds, &cfg, &meta, &mut sink, &[]).unwrap_err();
    assert!(err.message().contains("extent"), "{}", err.message());
    assert!(sink.is_empty());
}

#[test]
fn gzip_roundtrip() {
    let data = b"hello vector tiles";
    let gz = gzip(data, 6).unwrap();
    let mut out = Vec::new();
    flate2::read::GzDecoder::new(&gz[..]).read_to_end(&mut out).unwrap();
    assert_eq!(out, data);
}

#[test]
fn void_tiles_are_not_written() {
    let cfg = config(2);
    let features = vec![TileFeature { geometry: None, coarse: None, ..square_feature(1, 10) }];
    assert!(build_tile(&features, &cfg, TileId::new(3, 1, 1), &[0]).unwrap().is_none());
}

#[test]
fn oversized_tiles_climb_the_ladder() {
    let features: Vec<TileFeature> = (0..4).map(|i| square_feature(i, 50)).collect();
    let first = Rung { mode: AttrMode::Full, coarse: false, dropped: 0, active: vec![0, 1, 2, 3] };
    let second = match judge(100, 10, first, &features, true) {
        Verdict::Retry(r) => r,
        Verdict::Publish(_) => panic!("the tile is over its cap"),
    };
    assert_eq!(second.mode, AttrMode::Core);
    let third = escalate(second, &features, true).unwrap();
    assert_eq!(third.mode, AttrMode::NoProperties);
    let fourth = escalate(third, &features, true).unwrap();
    assert!(fourth.coarse);
    let fifth = escalate(fourth, &features, true).unwrap();
    assert!(fifth.dropped > 0);
    assert_eq!(fifth.dropped as usize + fifth.active.len(), 4);
}

#[test]
fn hard_cap_drops_the_heaviest_first() {
    let mut features: Vec<TileFeature> = (0..3).map(|i| square_feature(i, 50)).collect();
    features[1].vertex_count = 9;
    assert_eq!(sort_heaviest_first(&[0, 1, 2], &features), vec![1, 0, 2]);
    let mut cfg = config(2);
    cfg.hard_max_tile_bytes = 1;
    let built = build_tile(&features, &cfg, TileId::new(2, 0, 0), &[0, 1, 2]).unwrap().unwrap();
    assert!(built.mitigated);
    assert_eq!(built.dropped, 2);
    // The lightest feature stays; of two that weigh the same the later one does.
    let tile = decode_gzipped_tile(&built.bytes).unwrap();
    assert_eq!(tile.layers[0].feature_ids, vec![Some(2)]);
    features[0].vertex_count = 7;
    features[2].vertex_count = 8;
    let worn = Rung { mode: AttrMode::NoProperties, coarse: true, dropped: 0, active: vec![0, 1, 2] };
    let next = escalate(worn, &features, true).unwrap();
    assert_eq!((next.dropped, next.active), (1, vec![2, 0]));
    let next = escalate(
        Rung { mode: AttrMode::NoProperties, coarse: true, dropped: 1, active: vec![2, 0] },
        &features,
        true,
    )
    .unwrap();
    assert_eq!((next.dropped, next.active), (2, vec![0]));
}

#[test]
fn features_are_assigned_to_the_tiles_they_cover() {
    let ranges = vec![
        Some(TileRange { x0: 0, x1: 1, y0: 0, y1: 0 }),
        None,
        Some(TileRange { x0: 1, x1: 1, y0: 0, y1: 1 }),
        Some(TileRange { x0: 0, x1: 65_535, y0: 0, y1: 1 }),
    ];
    let a = assign_tiles(1, &ranges);
    assert_eq!(a.skipped, 1);
    let list = |x: u32, y: u32| {
        a.entries
            .iter()
            .find(|(t, _)| *t == TileId::new(1, x, y))
            .map(|(_, l)| l.clone())
            .unwrap_or_default()
    };
    assert_eq!(list(0, 0), vec![0]);
    assert_eq!(list(1, 0), vec![0, 2]);
    assert_eq!(list(1, 1), vec![2]);
    assert_eq!(a.entries.len(), 3);
}

#[test]
fn splitting_a_zoom_counts_the_same() {
    let cfg = config(2);
    let features = vec![square_feature(1, 100)];
    let a = build_tile(&features, &cfg, TileId::new(2, 0, 0), &[0]).unwrap();
    let b = build_tile(&features, &cfg, TileId::new(2, 1, 0), &[0]).unwrap();
    let mut whole = ZoomAccum::default();
    whole.record(TileId::new(2, 0, 0), &a);
    whole.record(TileId::new(2, 1, 0), &b);
    let mut left = ZoomAccum::default();
    left.record(TileId::new(2, 0, 0), &a);
    let mut right = ZoomAccum::default();
    right.record(TileId::new(2, 1, 0), &b);
    let joined = merge_accum(left, right);
    assert_eq!(joined.tiles_written, whole.tiles_written);
    assert_eq!(joined.gzip_bytes, whole.gzip_bytes);
    assert_eq!(joined.largest, whole.largest);
    let mut stats = TileStats::default();
    let outcome = finish_accum(joined, &mut stats).unwrap();
    assert_eq!(outcome.tiles_written, 2);
    assert_eq!(stats.tiles_written, 2);
}

#[test]
fn a_zoom_is_built_in_order() {
    let cfg = config(2);
    let meta = TileObjectMeta::default();
    let mut sink = MemoryTileSink::new();
    let mut stats = TileStats::default();
    let zoom = &zooms(1)[1];
    run_zoom(zoom, &cfg, &meta, &mut sink, &mut stats).unwrap();
    assert_eq!(stats.per_zoom[0].0, 1);
    assert_eq!(stats.per_zoom[0].1.tiles, 1);
    let z = build_tiles_sequential(&cfg, &meta, &mut sink, &zoom.entries, &mut stats).unwrap();
    assert_eq!(z.tiles_written, 1);
    // The same tile takes its own place.
    assert_eq!(sink.len(), 1);
}

struct FullSink;

impl TileSink for FullSink {
    fn write_tile(&mut self, _: &TileId, _: &[u8], _: &TileObjectMeta) -> Result<(), TileError> {
        Err(TileError::Sink("full".to_string()))
    }

    fn finish(&mut self) -> Result<(), TileError> {
        Err(TileError::Io("late".to_string()))
    }
}

/// Keeps a line for every call.
#[derive(Default)]
struct LogSink {
    calls: Vec<String>,
    sizes: Vec<usize>,
    refuse_from: Option<usize>,
    refuse_finish: bool,
}

impl TileSink for LogSink {
    fn write_tile(
        &mut self,
        tile: &TileId,
        gzipped: &[u8],
        meta: &TileObjectMeta,
    ) -> Result<(), TileError> {
        if self.refuse_from == Some(self.calls.len()) {
            return Err(TileError::Io("disk full".to_string()));
        }
        self.calls.push(format!("{} {} {}", tile.path(), meta.tenant_id, meta.max_zoom));
        self.sizes.push(gzipped.len());
        Ok(())
    }

    fn finish(&mut self) -> Result<(), TileError> {
        if self.refuse_finish {
            return Err(TileError::Io("late".to_string()));
        }
        self.calls.push("finish".to_string());
        Ok(())
    }
}

fn alpha_meta() -> TileObjectMeta {
    TileObjectMeta { tenant_id: "alpha".to_string(), max_zoom: 2, ..TileObjectMeta::default() }
}

#[test]
fn a_run_writes_each_tile_once_and_finishes_the_sink() {
    let ds = dataset_with(1, 0.001);
    let mut sink = LogSink::default();
    let stats = generate_tiles(&ds, &config(2), &alpha_meta(), &mut sink, &zooms(2)).unwrap();
    assert_eq!(
        sink.calls,
        vec!["0/0/0.pbf alpha 2", "1/0/0.pbf alpha 2", "2/0/0.pbf alpha 2", "finish"]
    );
    assert_eq!(stats.tiles_written, 3);
    assert_eq!(stats.total_gzip_bytes as usize, sink.sizes.iter().sum::<usize>());
    assert_eq!(Some(&stats.max_gzip_bytes), sink.sizes.iter().max());
    assert_eq!(stats.per_zoom.iter().map(|(_, z)| z.tiles).sum::<u64>(), 3);
    assert_eq!(stats.per_zoom.iter().map(|(z, _)| *z).collect::<Vec<u8>>(), vec![0, 1, 2]);
}

#[test]
fn a_run_that_is_refused_asks_nothing_of_the_sink() {
    let ds = dataset_with(1, 0.001);
    let mut cfg = config(2);
    cfg.gzip_level = 0;
    let mut sink = LogSink::default();
    let err = generate_tiles(&ds, &cfg, &alpha_meta(), &mut sink, &[]).unwrap_err();
    assert!(matches!(err, TileError::Config(_)));
    let none = PreparedDataset::default();
    let err = generate_tiles(&none, &config(2), &alpha_meta(), &mut sink, &[]).unwrap_err();
    assert!(matches!(err, TileError::Geometry(m) if m == "dataset has no features"));
    assert!(sink.calls.is_empty());
}

#[test]
fn a_refusing_sink_ends_the_run_with_its_error() {
    let ds = dataset_with(1, 0.001);
    let mut sink = LogSink { refuse_from: Some(1), ..LogSink::default() };
    let err = generate_tiles(&ds, &config(2), &alpha_meta(), &mut sink, &zooms(2)).unwrap_err();
    assert!(matches!(err, TileError::Io(m) if m == "disk full"));
    assert_eq!(sink.calls, vec!["0/0/0.pbf alpha 2"]);
    let mut sink = LogSink { refuse_finish: true, ..LogSink::default() };
    let err = generate_tiles(&ds, &config(2), &alpha_meta(), &mut sink, &zooms(2)).unwrap_err();
    assert!(matches!(err, TileError::Sink(m) if m == "late"));
    assert_eq!(sink.calls.len(), 3);
}

#[test]
fn a_zoom_keeps_its_first_error() {
    let mut acc = ZoomAccum::default();
    acc.settle(TileId::new(1, 0, 0), Ok(None));
    acc.settle(TileId::new(1, 0, 1), Err(TileError::Io("first".to_string())));
    acc.settle(TileId::new(1, 1, 0), Err(TileError::Io("second".to_string())));
    assert_eq!(acc.empty, 1);
    let mut stats = TileStats::default();
    let err = finish_accum(acc, &mut stats).unwrap_err();
    assert!(matches!(err, TileError::Io(m) if m == "first"));
}

#[test]
fn a_refused_tile_ends_the_zoom() {
    let cfg = config(2);
    let meta = TileObjectMeta::default();
    let mut stats = TileStats::default();
    let zoom = &zooms(1)[1];
    let err = run_zoom(zoom, &cfg, &meta, &mut FullSink, &mut stats).unwrap_err();
    assert!(matches!(err, TileError::Sink(msg) if msg == "full"));
    assert_eq!(stats.tiles_written, 0);
    assert!(stats.per_zoom.is_empty());
    // Where no tile has anything to show, the sink is not asked.
    let empty = TileInput { tile: zoom.entries[0].tile, features: vec![] };
    let z = build_tiles_sequential(&cfg, &meta, &mut FullSink, &[empty], &mut stats).unwrap();
    assert_eq!(z.tiles_written, 0);
    assert_eq!(stats.empty_tiles_skipped, 1);
}

#[test]
fn sinks_keep_the_last_tile() {
    let mut sink = MemoryTileSink::new();
    let meta = TileObjectMeta::default();
    let t = TileId::new(1, 0, 1);
    sink.write_tile(&t, &[1, 2], &meta).unwrap();
    sink.write_tile(&t, &[3], &meta).unwrap();
    sink.finish().unwrap();
    assert_eq!(sink.get(&t), Some(vec![3]));
    assert_eq!(sink.get(&TileId::new(1, 1, 1)), None);
    assert_eq!(sink.len(), 1);
}

#[test]
fn tile_names_and_grids() {
    let t = TileId::new(3, 5, 7);
    assert_eq!(t.path(), "3/5/7.pbf");
    assert_eq!(t.axis_count(), 8);
    let frame = TileTransform { tile: t, extent: 4096, buffer: 64 };
    assert!(frame.contains_buffered((-64, 4160)));
    assert!(!frame.contains_buffered((-65, 0)));
}

#[test]
fn geometries_are_encoded_by_kind() {
    let frame = TileTransform { tile: TileId::new(0, 0, 0), extent: 4096, buffer: 64 };
    let (kind, cmds) = encode_geometry(&TileGeometry::Point((25, 17)), &frame).unwrap();
    assert_eq!(kind, GeomKind::Point);
    assert_eq!(cmds, vec![9, 50, 34]);
    assert!(encode_geometry(&TileGeometry::Point((9000, 0)), &frame).is_none());
    let line = TileGeometry::LineString(vec![(2, 2), (2, 2), (10, 10)]);
    let (kind, cmds) = encode_geometry(&line, &frame).unwrap();
    assert_eq!(kind, GeomKind::LineString);
    assert_eq!(cmds, vec![9, 4, 4, 10, 16, 16]);
    // A square that rounding shrinks to a point is not drawn.
    let dot = TileGeometry::Polygon(TilePolygon {
        exterior: vec![(7, 7), (7, 7), (7, 7), (7, 7), (7, 7)],
        interiors: vec![],
    });
    assert!(encode_geometry(&dot, &frame).is_none());
    let flat = TileGeometry::Polygon(TilePolygon {
        exterior: vec![(0, 0), (5, 5), (10, 10), (0, 0)],
        interiors: vec![],
    });
    assert!(encode_geometry(&flat, &frame).is_none());
    assert!(can_be_drawn(&flat, &frame));
    let leap = TileGeometry::LineString(vec![(i32::MIN, 0), (i32::MAX, 0)]);
    assert!(!can_be_drawn(&leap, &frame));
    assert!(can_be_drawn(&TileGeometry::LineString(vec![(i32::MIN, 0), (-1, 0)]), &frame));
    let wide = TileGeometry::Polygon(TilePolygon {
        exterior: vec![(0, 0), (i32::MAX, 0), (i32::MAX, 9), (-9, 9), (0, 0)],
        interiors: vec![],
    });
    assert!(!can_be_drawn(&wide, &frame));
    assert!(encode_geometry(&TileGeometry::Other, &frame).is_none());
}
