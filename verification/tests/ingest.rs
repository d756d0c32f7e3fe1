//! Reading and normalizing source files.
use std::io::{Cursor, Write};

use vtile::config::PropertyPolicy;
use vtile::double::Double;
use vtile::geometry::{Coord, Geometry, Polygon};
use vtile::ingest::artifact::{geometry_to_geojson, write_normalized_geojson};
use vtile::ingest::crs::{
    classify_crs, detect_crs, extract_epsg_code, reprojection_for, CrsInfo, CrsKind, Reprojection,
};
use vtile::ingest::document::{
    convert_feature, convert_geometry_value, describe_lonlat, parse_geojson, validate_lonlat,
    FeatureId, GeoJsonValue, GeometryFault, LonLatFault, ParsedFeature, Place,
};
use vtile::ingest::normalize::{
    clean_properties, collect_normalized, finish_normalization, normalize_rows, normalize_source,
    CrsPolicy, Normalization, NormalizeOptions, NormalizedDataset, SourceFile,
};
use vtile::ingest::shapefile::bundle::{
    judge_header, role_of_extension, Found, MemberRole, MAX_MEMBER_BYTES,
};
use vtile::ingest::shapefile::archive::MemberHeader;
use vtile::ingest::shapefile::dbf::{decode_dbf_string, numeric_value, parse_dbf};
use vtile::ingest::shapefile::shp::{
    group_polygon_parts, parse_shp, shp_to_geometry, RingTurn, ShpGeometry,
};
use vtile::ingest::shapefile::write::{
    sample_parcel_bundle, sample_parcel_dbf, sample_parcel_rings, write_dbf, write_polygon_shp,
    write_shx_header, zip_entries, DbfFieldSpec, WGS84_PRJ,
};
use vtile::ingest::shapefile::{extract_bundle, read_bundle, rows_to_features, ShapefileBundle};
use vtile::ingest::validate::{
    check_feature_count, check_payload_size, count_duplicate_ids, count_null_island,
    require_non_empty, validate_file_type,
};
use vtile::ingest::IngestError;
use vtile::json::{JsonMap, JsonValue};
use vtile::model::SourceFormat;
use vtile::repair::{repair_geometry, repair_line, repair_polygon, repair_ring};

fn num(x: f64) -> Double {
    Double { bits: x.to_bits() }
}

fn at(x: f64, y: f64) -> Coord {
    Coord { x: num(x), y: num(y) }
}

fn text(s: &str) -> JsonValue {
    JsonValue::Text(s.to_string())
}

fn map(entries: Vec<(&str, JsonValue)>) -> JsonMap {
    let mut m = JsonMap::new();
    for (k, v) in entries {
        m.insert(k.to_string(), v);
    }
    m
}

/// Twice the signed area of a ring, in a plane whose y goes up.
fn signed_area2(ring: &[Coord]) -> f64 {
    let n = ring.len();
    let mut sum = 0.0;
    for i in 0..n {
        let a = ring[i];
        let b = ring[(i + 1) % n];
        sum += f64::from_bits(a.x.bits) * f64::from_bits(b.y.bits)
            - f64::from_bits(b.x.bits) * f64::from_bits(a.y.bits);
    }
    sum
}

fn turn(ring: &[Coord]) -> RingTurn {
    let area = signed_area2(ring);
    if area.abs() < f64::EPSILON {
        RingTurn::Flat
    } else if area < 0.0 {
        RingTurn::Clockwise
    } else {
        RingTurn::CounterClockwise
    }
}

fn turns_of(rows: &[(ShpGeometry, JsonMap)]) -> Vec<Vec<RingTurn>> {
    rows.iter()
        .map(|(shape, _)| match shape {
            ShpGeometry::Polygon { parts } => parts.iter().map(|p| turn(p)).collect(),
            _ => vec![],
        })
        .collect()
}

fn done(n: Normalization) -> NormalizedDataset {
    match n {
        Normalization::Done(d) => d,
        other => panic!("not finished: {other:?}"),
    }
}

// CRS detection.

#[test]
fn extracts_last_epsg_authority() {
    let wkt = r#"PROJCS["NAD_1983_StatePlane_New_York_Long_Island_FIPS_3104_Feet",
            GEOGCS["GCS_North_American_1983",AUTHORITY["EPSG","4269"]],
            PROJECTION["Lambert_Conformal_Conic"],
            AUTHORITY["EPSG","2263"]]"#;
    assert_eq!(extract_epsg_code(wkt), Some(2263));
}

#[test]
fn detects_wgs84() {
    let info = detect_crs(Some(r#"GEOGCS["GCS_WGS_1984",AUTHORITY["EPSG","4326"]]"#));
    assert_eq!(info.kind, CrsKind::Wgs84);
}

#[test]
fn missing_prj_is_unknown() {
    let info = detect_crs(None);
    assert_eq!(info.kind, CrsKind::Unknown);
    assert!(reprojection_for(&info).is_err());
}

#[test]
fn unsupported_code_rejects() {
    let info = detect_crs(Some(r#"PROJCS["x",AUTHORITY["EPSG","2263"]]"#));
    assert_eq!(info.kind, CrsKind::Unsupported);
    assert!(reprojection_for(&info).is_err());
}

#[test]
fn keywords_stand_in_for_codes() {
    assert_eq!(classify_crs("GEOGCS[\"wgs_1984\"]", "GEOGCS[\"WGS_1984\"]").0, CrsKind::Wgs84);
    let info = detect_crs(Some("PROJCS[\"x\",AUTHORITY[\"EPSG\",\"3857\"]]"));
    assert_eq!(info.kind, CrsKind::WebMercator);
    assert_eq!(info.epsg, Some(3857));
    assert_eq!(info.label(), "EPSG:3857");
    assert_eq!(reprojection_for(&info).unwrap(), Reprojection::InverseMercator);
    let info = detect_crs(Some("geogcs[\"x\",authority[\"epsg\",\"4269\"]]"));
    assert_eq!(info.kind, CrsKind::Nad83);
    assert_eq!(reprojection_for(&info).unwrap(), Reprojection::Identity);
}

// Validation.

#[test]
fn sizes_and_counts_are_limited() {
    assert!(check_payload_size(10, 10).is_ok());
    assert!(matches!(
        check_payload_size(11, 10),
        Err(IngestError::PayloadTooLarge { size: 11, max: 10 })
    ));
    let err = check_feature_count(3, 2).unwrap_err();
    assert_eq!(err.error_code(), "FILE_TOO_LARGE");
    assert_eq!(err.message(), "dataset too large: 3 features exceeds limit of 2");
    assert!(matches!(
        require_non_empty(0, "GEOJSON"),
        Err(IngestError::EmptyDataset(m)) if m == "GEOJSON contained no usable features"
    ));
}

#[test]
fn file_types_have_to_match() {
    assert!(validate_file_type("A.GEOJSON", None, SourceFormat::GeoJson).is_ok());
    assert!(validate_file_type("a.zip", Some("application/zip"), SourceFormat::Shapefile).is_ok());
    let err = validate_file_type("a.zip", None, SourceFormat::GeoJson).unwrap_err();
    assert_eq!(err.error_code(), "INVALID_FILE_TYPE");
    assert!(err.message().contains("\"a.zip\""));
    assert!(validate_file_type("a.json", Some("application/zip"), SourceFormat::GeoJson).is_err());
    assert!(validate_file_type("a.kml", None, SourceFormat::Kml).is_err());
}

#[test]
fn odd_features_are_counted() {
    let geoms = vec![
        Geometry::Point(at(0.0, 0.0)),
        Geometry::Point(at(0.0, 1.0)),
        Geometry::MultiPoint(vec![at(0.0, 0.0), at(0.0, 0.0)]),
    ];
    assert_eq!(count_null_island(&geoms), 1);
    let maps = vec![
        map(vec![("parcelId", text("a"))]),
        map(vec![("parcelId", text("a"))]),
        map(vec![("parcelId", text("b"))]),
    ];
    assert_eq!(count_duplicate_ids(&maps), 1);
}

#[test]
fn every_error_has_its_code() {
    let s = || "x".to_string();
    let all: Vec<(IngestError, &str)> = vec![
        (IngestError::InvalidShapefile(s()), "INVALID_SHAPEFILE"),
        (IngestError::MissingShapefileComponents(s()), "MISSING_SHAPEFILE_COMPONENTS"),
        (IngestError::InvalidFileType(s()), "INVALID_FILE_TYPE"),
        (IngestError::InvalidGeoJson(s()), "INVALID_GEOJSON"),
        (IngestError::EmptyDataset(s()), "EMPTY_DATASET"),
        (IngestError::PayloadTooLarge { size: 2, max: 1 }, "PAYLOAD_TOO_LARGE"),
        (IngestError::DatasetTooLarge { features: 2, max: 1 }, "FILE_TOO_LARGE"),
        (IngestError::UnsupportedCrs(s()), "UNSUPPORTED_CRS"),
        (IngestError::UnknownCrs(s()), "UNKNOWN_CRS"),
        (IngestError::GeometryErrors { unrecoverable: 1, first: s() }, "GEOMETRY_ERRORS"),
        (IngestError::Encoding(s()), "ENCODING_ERROR"),
        (IngestError::Zip(s()), "INVALID_SHAPEFILE"),
        (IngestError::Io(s()), "INTERNAL_ERROR"),
        (IngestError::Other(s()), "INGEST_FAILED"),
    ];
    for (e, code) in all {
        assert_eq!(e.error_code(), code);
        assert!(e.message().ends_with('x') || e.message().contains('1'));
    }
}

// Repair.

#[test]
fn closes_open_ring() {
    let open = vec![at(0.0, 0.0), at(1.0, 0.0), at(1.0, 1.0), at(0.0, 1.0)];
    let repaired = repair_ring(&open).unwrap();
    assert_eq!(repaired.first(), repaired.last());
    assert_eq!(repaired.len(), 5);
}

#[test]
fn drops_degenerate_ring() {
    let tiny = vec![at(0.0, 0.0), at(1.0, 1.0)];
    assert!(repair_ring(&tiny).is_none());
}

#[test]
fn rings_need_three_distinct_points() {
    let (a, b, c) = (at(0.0, 0.0), at(1.0, 1.0), at(1.0, 0.0));
    assert!(repair_ring(&[a, b, a, b]).is_none());
    assert!(repair_ring(&[a, b, a]).is_none());
    assert_eq!(repair_ring(&[a, b, a, c]).unwrap(), vec![a, b, a, c, a]);
}

#[test]
fn lines_need_two_distinct_points() {
    let (a, b) = (at(0.0, 0.0), at(1.0, 1.0));
    let nan = at(f64::NAN, 0.0);
    assert!(repair_line(&[a, nan, a]).is_none());
    assert_eq!(repair_line(&[a, nan, a, b]).unwrap(), vec![a, b]);
}

#[test]
fn unrecoverable_polygon_is_none() {
    let bad = Polygon::new(vec![at(0.0, 0.0), at(1.0, 1.0)], vec![]);
    assert!(repair_polygon(&bad).is_none());
}

#[test]
fn dedupes_repeated_vertices() {
    let ls = vec![at(0.0, 0.0), at(0.0, 0.0), at(1.0, 1.0)];
    let repaired = repair_line(&ls).unwrap();
    assert_eq!(repaired.len(), 2);
}

#[test]
fn repair_is_idempotent() {
    let ring = vec![
        at(0.0, 0.0),
        at(0.0, 0.0),
        at(f64::NAN, 1.0),
        at(1.0, 0.0),
        at(1.0, 1.0),
        at(0.0, 1.0),
    ];
    let once = repair_ring(&ring).unwrap();
    assert_eq!(repair_ring(&once).unwrap(), once);
    assert!(repair_geometry(Geometry::Point(at(f64::INFINITY, 0.0))).is_none());
    assert!(repair_geometry(Geometry::Collection(vec![at(0.0, 0.0)])).is_none());
    assert!(matches!(
        repair_geometry(Geometry::Rect(at(0.0, 0.0), at(1.0, 1.0))),
        Some(Geometry::Polygon(_))
    ));
}

// GeoJSON.

#[test]
fn parses_feature_collection() {
    let doc = r#"{
            "type": "FeatureCollection",
            "features": [
                {"type": "Feature", "id": 7,
                 "geometry": {"type": "Point", "coordinates": [-73.98, 40.75]},
                 "properties": {"parcelId": "NYC-1"}},
                {"type": "Feature",
                 "geometry": null,
                 "properties": {}}
            ]
        }"#;
    let feats = parse_geojson(doc.as_bytes()).unwrap();
    assert_eq!(feats.len(), 1);
    assert_eq!(feats[0].id, Some(7));
}

#[test]
fn rejects_out_of_range_coordinates() {
    let doc = r#"{"type": "Point", "coordinates": [200.0, 0.0]}"#;
    assert!(parse_geojson(doc.as_bytes()).is_err());
}

#[test]
fn parses_polygon_with_hole() {
    let doc = r#"{
            "type": "Polygon",
            "coordinates": [
                [[0,0],[10,0],[10,10],[0,10],[0,0]],
                [[2,2],[3,2],[3,3],[2,3],[2,2]]
            ]
        }"#;
    let feats = parse_geojson(doc.as_bytes()).unwrap();
    assert_eq!(feats.len(), 1);
    match &feats[0].geometry {
        Geometry::Polygon(p) => assert_eq!(p.interiors.len(), 1),
        other => panic!("unexpected: {other:?}"),
    }
}

#[test]
fn rejects_geometry_collections() {
    let doc = r#"{"type": "GeometryCollection", "geometries": []}"#;
    assert!(parse_geojson(doc.as_bytes()).is_err());
}

#[test]
fn documents_keep_their_numbers_and_properties() {
    let doc = r#"{"type": "Feature", "id": "seven",
        "geometry": {"type": "MultiLineString", "coordinates": [[[1.5, 2.5, 9], [3, 4]], [[5, 6], [7, 8]]]},
        "properties": {"n": null, "b": true, "u": 18446744073709551615, "i": -3, "f": 0.5,
                       "s": "t", "a": [1, {"k": "v"}]}}"#;
    let feats = parse_geojson(doc.as_bytes()).unwrap();
    assert_eq!(feats[0].id, None);
    match &feats[0].geometry {
        Geometry::MultiLineString(ls) => {
            assert_eq!(ls[0], vec![at(1.5, 2.5), at(3.0, 4.0)]);
            assert_eq!(ls[1], vec![at(5.0, 6.0), at(7.0, 8.0)]);
        }
        other => panic!("unexpected: {other:?}"),
    }
    let p = &feats[0].properties;
    assert_eq!(p.len(), 7);
    assert_eq!(p.get("n"), Some(&JsonValue::Null));
    assert_eq!(p.get("b"), Some(&JsonValue::Bool(true)));
    assert_eq!(p.get("u"), Some(&JsonValue::Unsigned(u64::MAX)));
    assert_eq!(p.get("i"), Some(&JsonValue::Negative(-3)));
    assert_eq!(
        p.get("f"),
        Some(&JsonValue::Float { value: num(0.5), spelling: "0.5".to_string() })
    );
    assert_eq!(p.get("s"), Some(&text("t")));
    assert_eq!(p.get("a"), Some(&JsonValue::Nested(r#"[1,{"k":"v"}]"#.to_string())));
}

#[test]
fn all_kinds_of_geometry_are_read() {
    let kinds = [
        r#"{"type":"Point","coordinates":[1,2]}"#,
        r#"{"type":"MultiPoint","coordinates":[[1,2],[3,4]]}"#,
        r#"{"type":"LineString","coordinates":[[1,2],[3,4]]}"#,
        r#"{"type":"MultiPolygon","coordinates":[[[[0,0],[1,0],[1,1],[0,0]]]]}"#,
    ];
    let read: Vec<Geometry> = kinds
        .iter()
        .map(|k| parse_geojson(k.as_bytes()).unwrap().remove(0).geometry)
        .collect();
    assert!(matches!(&read[0], Geometry::Point(c) if *c == at(1.0, 2.0)));
    assert!(matches!(&read[1], Geometry::MultiPoint(ps) if ps[1] == at(3.0, 4.0)));
    assert!(matches!(&read[2], Geometry::LineString(l) if l.len() == 2));
    assert!(matches!(&read[3], Geometry::MultiPolygon(ps) if ps[0].exterior.len() == 4));
}

#[test]
fn bad_documents_say_why() {
    let why = |bytes: &[u8]| parse_geojson(bytes).unwrap_err().message();
    assert!(why(&[0xff, 0xfe]).starts_with("invalid geojson: not UTF-8: "));
    assert_eq!(
        why(b"{}"),
        "invalid geojson: document is not a FeatureCollection, Feature, or Geometry"
    );
    let bare = |geometry: &str| why(geometry.as_bytes());
    assert_eq!(
        bare(r#"{"type": "Point", "coordinates": [200.0, 0.5]}"#),
        "invalid geojson: coordinate (200, 0.5) outside WGS84 range"
    );
    assert_eq!(
        bare(r#"{"type": "MultiPoint", "coordinates": [[1, 2], [-180.25, -0.0]]}"#),
        "invalid geojson: coordinate (-180.25, -0) outside WGS84 range"
    );
    assert_eq!(
        bare(r#"{"type": "LineString", "coordinates": [[1, 2], [3, 90.1], [4, 91]]}"#),
        "invalid geojson: coordinate (3, 90.1) outside WGS84 range"
    );
    assert_eq!(
        bare(r#"{"type": "MultiLineString", "coordinates": [[[1, 2]], [[3, 4], [5, 96]]]}"#),
        "invalid geojson: coordinate (5, 96) outside WGS84 range"
    );
    assert_eq!(
        bare(r#"{"type": "Polygon", "coordinates": [[[0, 0], [1, 0]], [[181, 7]]]}"#),
        "invalid geojson: coordinate (181, 7) outside WGS84 range"
    );
    assert_eq!(
        bare(r#"{"type": "MultiPolygon", "coordinates": [[[[0, 0]]], [[[0, 0]], [[8, 9], [8, 99]]]]}"#),
        "invalid geojson: coordinate (8, 99) outside WGS84 range"
    );
    assert_eq!(
        bare(r#"{"type": "GeometryCollection", "geometries": []}"#),
        "invalid geojson: GeometryCollection is not supported by the MVP tiler; flatten upstream"
    );
    assert_eq!(
        bare(r#"{"type": "Polygon", "coordinates": []}"#),
        "invalid geojson: polygon has no rings"
    );
}

#[test]
fn bad_geometries_are_told_apart() {
    let value = |v: GeoJsonValue| convert_geometry_value(&v).unwrap_err();
    assert_eq!(value(GeoJsonValue::Point(vec![num(1.0)])), GeometryFault::ShortPoint);
    assert_eq!(value(GeoJsonValue::MultiPoint(vec![vec![]])), GeometryFault::ShortPoint);
    assert_eq!(
        value(GeoJsonValue::LineString(vec![vec![num(1.0)]])),
        GeometryFault::ShortPosition
    );
    assert_eq!(value(GeoJsonValue::Polygon(vec![])), GeometryFault::NoRings);
    assert_eq!(value(GeoJsonValue::GeometryCollection), GeometryFault::Collection);
    assert_eq!(
        value(GeoJsonValue::Point(vec![num(f64::NAN), num(0.0)])),
        GeometryFault::LonLat {
            place: Place { polygon: 0, ring: 0, position: 0 },
            fault: LonLatFault::NonFinite,
        }
    );
    let spot = |x: f64, y: f64| vec![num(x), num(y)];
    assert_eq!(
        value(GeoJsonValue::MultiPolygon(vec![
            vec![vec![spot(0.0, 0.0)]],
            vec![vec![spot(0.0, 0.0)], vec![spot(1.0, 1.0), spot(0.0, 90.1)]],
        ])),
        GeometryFault::LonLat {
            place: Place { polygon: 1, ring: 1, position: 1 },
            fault: LonLatFault::OutOfRange,
        }
    );
    assert_eq!(
        describe_lonlat(LonLatFault::NonFinite, "NaN", "0"),
        "non-finite coordinate (NaN, 0)"
    );
    assert_eq!(
        describe_lonlat(LonLatFault::OutOfRange, "0", "90.1"),
        "coordinate (0, 90.1) outside WGS84 range"
    );
    assert!(validate_lonlat(num(180.0), num(-90.0)).is_ok());
    assert!(validate_lonlat(num(-180.1), num(0.0)).is_err());
}

#[test]
fn features_without_geometry_are_left_out() {
    assert!(convert_feature(None, None, None).unwrap().is_none());
    let f = convert_feature(
        Some(FeatureId::Number(Some(9))),
        None,
        Some(GeoJsonValue::Point(vec![num(1.0), num(2.0)])),
    )
    .unwrap()
    .unwrap();
    assert_eq!(f.id, Some(9));
    assert_eq!(f.properties.len(), 0);
}

// Shapefiles.

fn zip_with(entries: &[(&str, &[u8])]) -> Vec<u8> {
    let mut buf = Cursor::new(Vec::new());
    {
        let mut zip = zip::ZipWriter::new(&mut buf);
        let options = zip::write::SimpleFileOptions::default()
            .compression_method(zip::CompressionMethod::Deflated);
        for (name, content) in entries {
            zip.start_file(*name, options).unwrap();
            zip.write_all(content).unwrap();
        }
        zip.finish().unwrap();
    }
    buf.into_inner()
}

#[test]
fn bundle_without_dbf_fails_component_check() {
    let zip = sample_parcel_bundle(false, true).unwrap();
    let err = extract_bundle(&zip).expect_err("must fail");
    assert_eq!(err.error_code(), "MISSING_SHAPEFILE_COMPONENTS");
}

#[test]
fn rejects_bundle_missing_dbf() {
    let data = zip_with(&[("a.shp", b"x"), ("a.shx", b"y")]);
    let err = extract_bundle(&data).unwrap_err();
    assert!(matches!(err, IngestError::InvalidShapefile(msg) if msg.contains(".dbf")));
}

#[test]
fn rejects_traversal_paths() {
    let data = zip_with(&[("../evil.shp", b"x"), ("a.dbf", b"y")]);
    assert!(extract_bundle(&data).is_err());
}

#[test]
fn accepts_nested_bundle() {
    let data = zip_with(&[
        ("folder/parcels.shp", b"s"),
        ("folder/parcels.dbf", b"d"),
        ("folder/parcels.prj", b"GEOGCS[\"GCS_WGS_1984\"]"),
    ]);
    let bundle = extract_bundle(&data).unwrap();
    assert!(bundle.prj.is_some());
    assert!(!bundle.shx_present);
}

#[test]
fn bundles_are_read_by_extension() {
    let data = zip_with(&[
        ("old.shp", b"first"),
        ("A.SHP", b"second"),
        ("a.Dbf", b"table"),
        ("a.shx", b""),
        ("readme.txt", b"hello"),
    ]);
    let bundle = extract_bundle(&data).unwrap();
    assert_eq!(bundle.shp, b"second");
    assert_eq!(bundle.dbf, b"table");
    assert!(bundle.shx_present);
    assert!(bundle.prj.is_none());
    let err = extract_bundle(b"no archive").unwrap_err();
    assert!(matches!(err, IngestError::Zip(m) if m.contains("zip") || m.contains("Zip") || !m.is_empty()));
    let err = extract_bundle(&zip_with(&[("a.dbf", b"y")])).unwrap_err();
    assert_eq!(err.message(), "invalid shapefile: Missing required .shp file.");
}

#[test]
fn members_are_judged_by_their_headers() {
    let header = |base: Option<&str>, size: u64| MemberHeader {
        is_file: true,
        name: "dir/../../a.shp".to_string(),
        base: base.map(|s| s.to_string()),
        size,
    };
    assert_eq!(judge_header(&header(Some("a.SHP"), 1)).unwrap(), MemberRole::Shp);
    assert_eq!(judge_header(&header(Some("prj"), 1)).unwrap(), MemberRole::Prj);
    assert_eq!(
        judge_header(&header(None, 1)).unwrap_err().message(),
        "invalid shapefile: archive entry with unsafe path rejected: \"dir/../../a.shp\""
    );
    assert_eq!(
        judge_header(&header(Some("a.dbf"), MAX_MEMBER_BYTES + 1)).unwrap_err().message(),
        "invalid shapefile: member a.dbf exceeds the 4 GB member limit"
    );
    let mut dir = header(None, 0);
    dir.is_file = false;
    assert_eq!(judge_header(&dir).unwrap(), MemberRole::Other);
    assert_eq!(role_of_extension("shx"), MemberRole::Shx);
    let mut found = Found::new();
    found.store(MemberRole::Shp, vec![1]);
    found.store(MemberRole::Dbf, vec![2]);
    found.store(MemberRole::Prj, vec![0xff, b'a']);
    let bundle = found.finish().unwrap();
    assert_eq!(bundle.prj.as_deref(), Some("\u{fffd}a"));
}

fn build_dbf() -> Vec<u8> {
    // Two fields: NAME (C,8), VALUE (N,6,2); two records.
    let mut data = Vec::new();
    let header_size: u16 = 32 + 2 * 32 + 1; // terminator
    let record_size: u16 = 1 + 8 + 6;
    data.push(0x03); // dBASE III
    data.extend_from_slice(&[26, 6, 17]); // date
    data.extend_from_slice(&2u32.to_le_bytes());
    data.extend_from_slice(&header_size.to_le_bytes());
    data.extend_from_slice(&record_size.to_le_bytes());
    data.extend_from_slice(&[0u8; 20]); // reserved

    // Field 1: NAME C 8
    data.extend_from_slice(b"NAME\0\0\0\0\0\0\0");
    data.push(b'C');
    data.extend_from_slice(&[0u8; 4]);
    data.push(8);
    data.push(0);
    data.extend_from_slice(&[0u8; 14]);
    // Field 2: VALUE N 6.2
    data.extend_from_slice(b"VALUE\0\0\0\0\0\0");
    data.push(b'N');
    data.extend_from_slice(&[0u8; 4]);
    data.push(6);
    data.push(2);
    data.extend_from_slice(&[0u8; 14]);
    data.push(0x0d); // header terminator

    // Record 1
    data.push(b' ');
    data.extend_from_slice(b"EMPIRE  ");
    data.extend_from_slice(b" 10.50");
    // Record 2
    data.push(b' ');
    data.extend_from_slice(b"FLATIRON");
    data.extend_from_slice(b"     7");

    data.push(0x1a);
    data
}

#[test]
fn parses_fields_and_records() {
    let table = parse_dbf(&build_dbf()).unwrap();
    assert_eq!(table.fields.len(), 2);
    assert_eq!(table.fields[0].name, "NAME");
    assert_eq!(table.fields[1].ftype, b'N');
    assert_eq!(table.records.len(), 2);

    let r0 = &table.records[0];
    assert_eq!(r0.get("NAME"), Some(&text("EMPIRE")));
    assert_eq!(
        r0.get("VALUE"),
        Some(&JsonValue::Float { value: num(10.5), spelling: "10.5".to_string() })
    );

    let r1 = &table.records[1];
    // decimal_count == 0 branch is only for fields declared 0; VALUE has
    // decimal_count 2 so integral text becomes float 7.0.
    assert_eq!(
        r1.get("VALUE"),
        Some(&JsonValue::Float { value: num(7.0), spelling: "7.0".to_string() })
    );
}

#[test]
fn latin1_fallback() {
    // 0xE9 is é in Latin-1 but invalid UTF-8 on its own.
    let s = decode_dbf_string(&[b'C', b'a', b'f', 0xe9]);
    assert_eq!(s, "Café");
}

#[test]
fn tables_have_to_be_whole() {
    let data = build_dbf();
    assert_eq!(parse_dbf(&data[..20]).unwrap_err().message(), "invalid shapefile: dbf too small");
    let err = parse_dbf(&data[..100]).unwrap_err().message();
    assert_eq!(err, "invalid shapefile: dbf truncated: need 127 bytes, have 100");
    let mut bad = data.clone();
    bad[10] = 0;
    bad[11] = 0;
    assert_eq!(parse_dbf(&bad).unwrap_err().message(), "invalid shapefile: corrupt dbf header");
    let mut deleted = data.clone();
    deleted[97] = b'*';
    assert_eq!(parse_dbf(&deleted).unwrap().records.len(), 1);
    assert_eq!(numeric_value("12".to_string(), 0, None), JsonValue::Unsigned(12));
    assert_eq!(numeric_value("-12".to_string(), 0, None), JsonValue::Negative(-12));
    assert_eq!(numeric_value("1x".to_string(), 0, None), text("1x"));
    assert_eq!(numeric_value(String::new(), 0, None), JsonValue::Null);
}

fn build_point_shp(words: i32, x: f64, y: f64) -> Vec<u8> {
    let mut data = Vec::new();
    // 100-byte header
    data.extend_from_slice(&9994i32.to_be_bytes());
    data.extend_from_slice(&[0u8; 20]);
    data.extend_from_slice(&words.to_be_bytes()); // file length words
    data.extend_from_slice(&1000i32.to_le_bytes());
    data.extend_from_slice(&1i32.to_le_bytes()); // point type
    data.extend_from_slice(&[0u8; 64]);
    // Record: header (8 bytes) + content (20 bytes => 10 words)
    data.extend_from_slice(&1i32.to_be_bytes());
    data.extend_from_slice(&10i32.to_be_bytes());
    data.extend_from_slice(&1i32.to_le_bytes()); // shape type POINT
    data.extend_from_slice(&x.to_le_bytes());
    data.extend_from_slice(&y.to_le_bytes());
    data
}

#[test]
fn parses_point_record() {
    let data = build_point_shp(58, -73.9855, 40.7580);
    let shapes = parse_shp(&data).unwrap();
    assert_eq!(shapes.len(), 1);
    match &shapes[0] {
        ShpGeometry::Point(c) => {
            assert_eq!(c.x, num(-73.9855));
            assert_eq!(c.y, num(40.7580));
        }
        other => panic!("unexpected: {other:?}"),
    }
}

#[test]
fn records_are_scanned_up_to_the_declared_length() {
    // The record starts at byte 100 and ends at byte 128; its header ends at byte 108.
    for words in [-1, 54, 58, 64, 1000] {
        let mut shapes = parse_shp(&build_point_shp(words, 1.0, 2.0)).unwrap();
        assert_eq!(shapes.len(), 1, "{words}");
        let point = shp_to_geometry(shapes.remove(0), &[]);
        assert!(matches!(point, Some(Geometry::Point(c)) if c == at(1.0, 2.0)));
    }
    for words in [50, 52, 53] {
        assert!(parse_shp(&build_point_shp(words, 1.0, 2.0)).unwrap().is_empty(), "{words}");
    }
    // What stands behind the declared end is no record.
    let mut padded = build_point_shp(64, 1.0, 2.0);
    padded.extend_from_slice(&[0; 8]);
    assert_eq!(parse_shp(&padded).unwrap().len(), 1);
    let mut bare = build_point_shp(50, 1.0, 2.0);
    bare.truncate(100);
    bare.extend_from_slice(&[0; 8]);
    assert!(parse_shp(&bare).unwrap().is_empty());
    let err = parse_shp(&build_point_shp(49, 1.0, 2.0)).unwrap_err().message();
    assert_eq!(err, "invalid shapefile: declared length smaller than the 100-byte header");
}

#[test]
fn rejects_bad_magic() {
    let mut data = build_point_shp(58, 0.0, 0.0);
    // The number is 00 00 27 0a: the first byte alone does not change it.
    data[0] = 0;
    data[2] = 0;
    assert!(parse_shp(&data).is_err());
}

#[test]
fn bad_shapes_say_why() {
    let why = |data: &[u8]| parse_shp(data).unwrap_err().message();
    assert_eq!(why(&[0; 10]), "invalid shapefile: file smaller than the 100-byte header");
    let mut magic = build_point_shp(64, 0.0, 0.0);
    magic[3] = 0;
    assert!(why(&magic).starts_with("invalid shapefile: bad magic number "));
    let mut kind = build_point_shp(64, 0.0, 0.0);
    kind[108] = 31;
    assert_eq!(
        why(&kind),
        "invalid shapefile: unsupported shape type 31 (MVP supports point/multipoint/polyline/polygon)"
    );
    let mut long = build_point_shp(64, 0.0, 0.0);
    long[107] = 11;
    assert_eq!(why(&long), "invalid shapefile: record length exceeds remaining file");
    let mut null = build_point_shp(64, 0.0, 0.0);
    null[108] = 0;
    assert!(parse_shp(&null).unwrap().is_empty());
}

#[test]
fn groups_rings_by_orientation() {
    // Outer ring clockwise (negative area in y-up), hole CCW.
    let outer = vec![at(0.0, 0.0), at(0.0, 10.0), at(10.0, 10.0), at(10.0, 0.0), at(0.0, 0.0)];
    assert!(signed_area2(&outer) < 0.0);
    let hole = vec![at(2.0, 2.0), at(3.0, 2.0), at(3.0, 3.0), at(2.0, 3.0), at(2.0, 2.0)];
    assert!(signed_area2(&hole) > 0.0);
    let turns = [turn(&outer), turn(&hole)];
    let geom = group_polygon_parts(vec![outer, hole], &turns).unwrap();
    match geom {
        Geometry::Polygon(p) => assert_eq!(p.interiors.len(), 1),
        other => panic!("unexpected: {other:?}"),
    }
}

#[test]
fn written_bundle_roundtrips_through_readers() {
    let zip = sample_parcel_bundle(true, true).unwrap();
    let bundle = extract_bundle(&zip).expect("bundle extracts");
    assert!(bundle.prj.is_some());
    assert!(bundle.shx_present);

    let rows = read_bundle(&bundle).expect("bundle parses");
    let turns = turns_of(&rows);
    let pairs = rows_to_features(rows, &turns);
    assert_eq!(pairs.len(), 3);
    let (geom, props) = &pairs[0];
    assert!(matches!(geom, Geometry::Polygon(_)));
    assert_eq!(props.get("PARCELID"), Some(&text("NYC-BB-000001")));
    assert_eq!(props.get("PROPTYPE"), Some(&text("OFFICE")));
}

#[test]
fn written_files_have_their_layout() {
    let rings = sample_parcel_rings();
    assert_eq!(rings[0][0], at(-73.990, 40.750));
    assert_eq!(rings[0][2], at(-73.985, 40.755));
    assert_eq!(rings[1][2], at(-73.975, 40.745));
    assert_eq!(rings[2][2], at(-73.965, 40.765));
    let shp = write_polygon_shp(&rings);
    assert_eq!(shp.len(), 508);
    assert_eq!(&shp[24..28], &254i32.to_be_bytes());
    assert_eq!(&shp[36..44], &(-73.990f64).to_le_bytes());
    assert_eq!(&shp[60..68], &40.765f64.to_le_bytes());
    let shapes = parse_shp(&shp).unwrap();
    assert_eq!(shapes.len(), 3);
    match &shapes[2] {
        ShpGeometry::Polygon { parts } => assert_eq!(parts[0], rings[2]),
        other => panic!("unexpected: {other:?}"),
    }
    let shx = write_shx_header();
    assert_eq!(shx.len(), 100);
    assert_eq!(&shx[24..28], &50i32.to_be_bytes());
    let empty = write_polygon_shp(&[]);
    assert_eq!(&empty[36..68], &[0u8; 32]);
    assert!(parse_shp(&empty).unwrap().is_empty());
}

#[test]
fn written_tables_are_aligned() {
    let (fields, records) = sample_parcel_dbf();
    let table = parse_dbf(&write_dbf(&fields, &records)).unwrap();
    assert_eq!(table.fields.len(), 4);
    assert_eq!(table.records[2].get("MARKET"), Some(&text("New York")));
    let fields = vec![
        DbfFieldSpec { name: "N".into(), ftype: b'N', length: 4, decimal_count: 0 },
        DbfFieldSpec { name: "C".into(), ftype: b'C', length: 3, decimal_count: 0 },
    ];
    let data = write_dbf(&fields, &[vec!["42".to_string(), "toolong".to_string()]]);
    assert_eq!(&data[97..105], b"   42too");
    assert_eq!(data[105], 0x1a);
    let table = parse_dbf(&data).unwrap();
    assert_eq!(table.records[0].get("N"), Some(&JsonValue::Unsigned(42)));
}

#[test]
fn text_tables_come_back_trimmed() {
    let column = |name: &str, length: usize| DbfFieldSpec {
        name: name.to_string(),
        ftype: b'C',
        length,
        decimal_count: 0,
    };
    let fields = vec![column("CITY", 12), column("ZIP5", 5)];
    let records = vec![
        vec!["  New York".to_string(), "10001".to_string()],
        vec!["Albany  ".to_string(), String::new()],
    ];
    let table = parse_dbf(&write_dbf(&fields, &records)).unwrap();
    let names: Vec<&str> = table.fields.iter().map(|f| f.name.as_str()).collect();
    assert_eq!(names, vec!["CITY", "ZIP5"]);
    assert_eq!(table.records.len(), 2);
    assert_eq!(table.records[0].get("CITY"), Some(&text("New York")));
    assert_eq!(table.records[0].get("ZIP5"), Some(&text("10001")));
    assert_eq!(table.records[1].get("CITY"), Some(&text("Albany")));
    assert_eq!(table.records[1].get("ZIP5"), Some(&text("")));
}

#[test]
fn archives_give_back_what_was_packed() {
    let zip = zip_entries(&[("a.shp", b"shapes"), ("a.dbf", b"table"), ("a.prj", b"wkt")]).unwrap();
    let bundle = extract_bundle(&zip).unwrap();
    assert_eq!(bundle.shp, b"shapes");
    assert_eq!(bundle.dbf, b"table");
    assert_eq!(bundle.prj.as_deref(), Some("wkt"));
    assert_eq!(detect_crs(Some(WGS84_PRJ)).kind, CrsKind::Wgs84);
}

#[test]
fn rows_pair_to_the_shorter_list() {
    let (fields, mut records) = sample_parcel_dbf();
    records.pop();
    let bundle = ShapefileBundle {
        shp: write_polygon_shp(&sample_parcel_rings()),
        dbf: write_dbf(&fields, &records),
        shx_present: false,
        prj: None,
    };
    assert_eq!(read_bundle(&bundle).unwrap().len(), 2);
}

// Normalization.

#[test]
fn geojson_end_to_end() {
    let doc = r#"{
            "type": "FeatureCollection",
            "features": [{
                "type": "Feature",
                "geometry": {"type": "Point", "coordinates": [-73.98, 40.75]},
                "properties": {"parcelId": "NYC-1", "ownerName": "SECRET"}
            }]
        }"#;
    let ds = done(
        normalize_source(
            SourceFile::GeoJson { bytes: doc.as_bytes().to_vec() },
            &NormalizeOptions::default(),
        )
        .unwrap(),
    );
    assert_eq!(ds.feature_count(), 1);
    assert!(ds.features[0].properties.get("ownerName").is_none());
    assert!(ds.features[0].properties.get("parcelId").is_some());
    assert!(!ds.crs.assumed);
}

#[test]
fn empty_collection_rejected() {
    let doc = r#"{"type": "FeatureCollection", "features": []}"#;
    let err = normalize_source(
        SourceFile::GeoJson { bytes: doc.as_bytes().to_vec() },
        &NormalizeOptions::default(),
    )
    .unwrap_err();
    assert!(matches!(err, IngestError::EmptyDataset(_)));
}

#[test]
fn null_island_warns() {
    let doc = r#"{
            "type": "FeatureCollection",
            "features": [{
                "type": "Feature",
                "geometry": {"type": "Point", "coordinates": [0.0, 0.0]},
                "properties": {}
            }]
        }"#;
    let ds = done(
        normalize_source(
            SourceFile::GeoJson { bytes: doc.as_bytes().to_vec() },
            &NormalizeOptions::default(),
        )
        .unwrap(),
    );
    assert!(ds.warnings.iter().any(|w| w.contains("null island")));
}

#[test]
fn normalized_geojson_roundtrip() {
    let doc = r#"{
            "type": "FeatureCollection",
            "features": [{
                "type": "Feature",
                "geometry": {"type": "Polygon", "coordinates": [[[0,0],[1,0],[1,1],[0,1],[0,0]]]},
                "properties": {"parcelId": "X"}
            }]
        }"#;
    let ds = done(
        normalize_source(
            SourceFile::GeoJson { bytes: doc.as_bytes().to_vec() },
            &NormalizeOptions::default(),
        )
        .unwrap(),
    );
    let out = write_normalized_geojson(&ds);
    assert_eq!(out.features.len(), 1);
    assert!(matches!(out.features[0].geometry, Some(GeoJsonValue::Polygon(_))));
    assert_eq!(out.bbox, Some(vec![num(0.0), num(0.0), num(1.0), num(1.0)]));
    // The reader takes it back.
    let again = convert_geometry_value(out.features[0].geometry.as_ref().unwrap()).unwrap();
    match (&again, &ds.features[0].geometry) {
        (Geometry::Polygon(a), Geometry::Polygon(b)) => assert_eq!(a.exterior, b.exterior),
        other => panic!("unexpected: {other:?}"),
    }
}

#[test]
fn payload_too_large_rejected() {
    let mut opts = NormalizeOptions::default();
    opts.max_upload_bytes = 10;
    let err = normalize_source(SourceFile::GeoJson { bytes: vec![0u8; 100] }, &opts).unwrap_err();
    assert!(matches!(err, IngestError::PayloadTooLarge { .. }));
}

fn parsed(geometry: Geometry, properties: JsonMap) -> ParsedFeature {
    ParsedFeature { id: None, geometry, properties }
}

fn wgs84() -> CrsInfo {
    CrsInfo { kind: CrsKind::Wgs84, epsg: Some(4326), raw: None, assumed: false }
}

#[test]
fn shapefiles_normalize_step_by_step() {
    let zip = sample_parcel_bundle(true, true).unwrap();
    let opts = NormalizeOptions::default();
    let (rows, crs) =
        match normalize_source(SourceFile::ShapefileZip { bytes: zip }, &opts).unwrap() {
            Normalization::Shapes { rows, crs } => (rows, crs),
            other => panic!("unexpected: {other:?}"),
        };
    assert_eq!(crs.kind, CrsKind::Wgs84);
    let turns = turns_of(&rows);
    let ds = done(normalize_rows(rows, &turns, &crs, &opts).unwrap());
    assert_eq!(ds.feature_count(), 3);
    assert_eq!(ds.features[0].id, Some(1));
    assert_eq!(ds.features[2].id, Some(3));
    assert_eq!(
        ds.bbox.unwrap().to_vec(),
        vec![num(-73.990), num(40.740), num(-73.965), num(40.765)]
    );
    assert!(ds.warnings.is_empty());
    let few = NormalizeOptions { max_features: 2, ..NormalizeOptions::default() };
    let zip = sample_parcel_bundle(true, true).unwrap();
    let rows = match normalize_source(SourceFile::ShapefileZip { bytes: zip }, &few).unwrap() {
        Normalization::Shapes { rows, .. } => rows,
        other => panic!("unexpected: {other:?}"),
    };
    let turns = turns_of(&rows);
    let err = normalize_rows(rows, &turns, &crs, &few).unwrap_err();
    assert!(matches!(err, IngestError::DatasetTooLarge { features: 3, max: 2 }));
}

#[test]
fn missing_prj_follows_the_policy() {
    let zip = sample_parcel_bundle(true, false).unwrap();
    let err = normalize_source(
        SourceFile::ShapefileZip { bytes: zip.clone() },
        &NormalizeOptions::default(),
    )
    .unwrap_err();
    assert_eq!(err.error_code(), "UNKNOWN_CRS");
    let opts = NormalizeOptions {
        crs_policy: CrsPolicy::AssumeWgs84,
        ..NormalizeOptions::default()
    };
    let (rows, crs) =
        match normalize_source(SourceFile::ShapefileZip { bytes: zip }, &opts).unwrap() {
            Normalization::Shapes { rows, crs } => (rows, crs),
            other => panic!("unexpected: {other:?}"),
        };
    assert!(crs.assumed);
    let turns = turns_of(&rows);
    let ds = done(normalize_rows(rows, &turns, &crs, &opts).unwrap());
    assert_eq!(
        ds.warnings,
        vec!["CRS missing in source; EPSG:4326 assumed (flagged in metadata)"]
    );
}

#[test]
fn other_coordinate_systems_are_refused_or_handed_out() {
    let policy = PropertyPolicy::default();
    let features = || vec![parsed(Geometry::Point(at(5.0, 6.0)), JsonMap::new())];
    let state_plane = CrsInfo {
        kind: CrsKind::Unsupported,
        epsg: Some(2263),
        raw: None,
        assumed: false,
    };
    let err = finish_normalization(features(), &state_plane, &policy, "SHAPEFILE").unwrap_err();
    assert!(matches!(err, IngestError::UnsupportedCrs(_)));
    let mercator = CrsInfo {
        kind: CrsKind::WebMercator,
        epsg: Some(3857),
        raw: None,
        assumed: false,
    };
    let (moved, rejected) =
        match finish_normalization(features(), &mercator, &policy, "SHAPEFILE").unwrap() {
            Normalization::Mercator { features, rejected, .. } => (features, rejected),
            other => panic!("unexpected: {other:?}"),
        };
    let ds = collect_normalized(moved, rejected, &mercator, &policy, "SHAPEFILE").unwrap();
    assert_eq!(ds.crs.kind, CrsKind::WebMercator);
    assert_eq!(ds.feature_count(), 1);
}

#[test]
fn every_feature_is_kept_or_counted() {
    let policy = PropertyPolicy::default();
    let features = vec![
        parsed(Geometry::Point(at(1.0, 2.0)), map(vec![("parcelId", text("a"))])),
        parsed(Geometry::Point(at(f64::NAN, 2.0)), JsonMap::new()),
        parsed(Geometry::Point(at(3.0, 4.0)), map(vec![("parcelId", text("a"))])),
    ];
    let ds = done(finish_normalization(features, &wgs84(), &policy, "GEOJSON").unwrap());
    assert_eq!(ds.feature_count() as u64 + ds.rejected_features, 3);
    assert_eq!(
        ds.warnings,
        vec![
            "1 duplicate parcel/asset identifier(s) detected",
            "1 feature(s) rejected as unrecoverable"
        ]
    );
    let bad = vec![parsed(Geometry::Point(at(f64::NAN, 2.0)), JsonMap::new())];
    let err = finish_normalization(bad, &wgs84(), &policy, "GEOJSON").unwrap_err();
    assert!(matches!(err, IngestError::GeometryErrors { unrecoverable: 1, .. }));
}

#[test]
fn cleaning_keeps_to_the_policy() {
    let mut policy = PropertyPolicy::default();
    let props = map(vec![
        ("zoning", text("C4")),
        ("ownerName", text("Jane")),
        ("market", JsonValue::Null),
    ]);
    let out = clean_properties(&props, &policy);
    assert_eq!(out.len(), 2);
    assert_eq!(out.entry(0).0, "market");
    assert_eq!(out.entry(1).0, "zoning");
    assert_eq!(clean_properties(&out, &policy).len(), 2);
    policy.max_fields_per_feature = 1;
    assert_eq!(clean_properties(&props, &policy).len(), 1);
    policy.max_fields_per_feature = 10;
    // "market" takes ten bytes with its null, "zoning" ten with its quotes.
    policy.max_property_bytes_per_feature = 19;
    assert_eq!(clean_properties(&props, &policy).len(), 1);
    policy.max_property_bytes_per_feature = 20;
    assert_eq!(clean_properties(&props, &policy).len(), 2);
}

#[test]
fn geometries_are_written_by_kind() {
    assert!(matches!(
        geometry_to_geojson(&Geometry::Point(at(1.0, 2.0))),
        Some(GeoJsonValue::Point(p)) if p == vec![num(1.0), num(2.0)]
    ));
    assert!(matches!(
        geometry_to_geojson(&Geometry::Triangle(at(0.0, 0.0), at(1.0, 0.0), at(0.0, 1.0))),
        Some(GeoJsonValue::Polygon(rings)) if rings[0].len() == 4
    ));
    assert!(geometry_to_geojson(&Geometry::Line(at(0.0, 0.0), at(1.0, 1.0))).is_none());
    assert!(matches!(
        geometry_to_geojson(&Geometry::Collection(vec![])),
        Some(GeoJsonValue::GeometryCollection)
    ));
    let line = vec![at(1.0, 2.0), at(3.0, 4.0)];
    let value = geometry_to_geojson(&Geometry::MultiLineString(vec![line.clone()])).unwrap();
    match convert_geometry_value(&value).unwrap() {
        Geometry::MultiLineString(ls) => assert_eq!(ls, vec![line]),
        other => panic!("unexpected: {other:?}"),
    }
}
