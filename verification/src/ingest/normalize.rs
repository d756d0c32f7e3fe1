//! Normalization: a source file is read, its geometries are repaired and brought to longitude and
//! latitude, and its properties are cleaned.
//!
//! Two steps need floating-point arithmetic and are made outside: how the rings of a shapefile turn,
//! and where a point in Web Mercator lies. [`Normalization`] says which of them comes next.
use vstd::prelude::*;
use vstd::utf8::*;
use crate::config;
use crate::config::PropertyPolicy;
use crate::geometry;
use crate::geometry::Coord;
use crate::geometry::Geometry;
use crate::geometry::GeometryView;
use crate::ingest::crs;
use crate::ingest::crs::detect_crs;
use crate::ingest::crs::CrsInfo;
use crate::ingest::crs::CrsKind;
use crate::ingest::document;
use crate::ingest::document::parse_geojson;
use crate::ingest::document::ParsedFeature;
use crate::ingest::document::ParsedView;
use crate::ingest::error::IngestError;
use crate::ingest::error::IngestResult;
use crate::ingest::shapefile::archive;
use crate::ingest::shapefile::bundle;
use crate::ingest::shapefile::extract_bundle;
use crate::ingest::shapefile::read_bundle;
use crate::ingest::shapefile::rows_to_features;
use crate::ingest::shapefile::shp;
use crate::ingest::shapefile::shp::RingTurn;
use crate::ingest::shapefile::shp::ShpGeometry;
use crate::ingest::validate;
use crate::ingest::validate::check_feature_count;
use crate::ingest::validate::check_payload_size;
use crate::ingest::validate::count_duplicate_ids;
use crate::ingest::validate::is_null_island;
use crate::ingest::validate::require_non_empty;
use crate::ingest::validate::DEFAULT_MAX_FEATURES;
use crate::ingest::validate::DEFAULT_MAX_UPLOAD_BYTES;
use crate::json;
use crate::json::Entry;
use crate::json::JsonMap;
use crate::model::Bbox;
use crate::repair;
use crate::repair::repair_geometry;
use crate::sorted;
use crate::sorted::key_order;
use crate::text;

verus! {

/// What to do when a shapefile has no `.prj`.
#[derive(Debug, Clone, Copy, PartialEq, Eq, Structural)]
pub enum CrsPolicy {
    /// Reject an unknown CRS.
    RequireKnown,
    /// Assume EPSG:4326 and flag it in the metadata.
    AssumeWgs84,
}

impl Default for CrsPolicy {
    fn default() -> (p: Self)
        ensures
            p == CrsPolicy::RequireKnown,
    {
        CrsPolicy::RequireKnown
    }
}

/// An uploaded file.
#[derive(Debug, Clone)]
pub enum SourceFile {
    GeoJson { bytes: Vec<u8> },
    ShapefileZip { bytes: Vec<u8> },
}

#[derive(Debug, Clone)]
pub struct NormalizeOptions {
    pub max_upload_bytes: u64,
    /// More features than this are refused before any tile is made.
    pub max_features: u64,
    pub crs_policy: CrsPolicy,
    pub property_policy: PropertyPolicy,
}

impl Default for NormalizeOptions {
    fn default() -> (o: Self)
        ensures
            o.max_upload_bytes == DEFAULT_MAX_UPLOAD_BYTES,
            o.max_features == DEFAULT_MAX_FEATURES,
            o.crs_policy == CrsPolicy::RequireKnown,
            o.property_policy.is_default(),
    {
        NormalizeOptions {
            max_upload_bytes: DEFAULT_MAX_UPLOAD_BYTES,
            max_features: DEFAULT_MAX_FEATURES,
            crs_policy: CrsPolicy::RequireKnown,
            property_policy: PropertyPolicy::default(),
        }
    }
}

/// The bytes that an entry counts for: key and JSON text.
pub open spec fn entry_size(e: Entry) -> nat {
    encode_utf8(e.0).len() + encode_utf8(json::json_text(e.1)).len()
}

/// The entries that cleaning keeps of ordered ones, of which `taken` with `used` bytes went before:
/// the allowed ones in order, up to the field cap and up to the first that breaks the byte cap.
pub open spec fn clean(
    entries: Seq<Entry>,
    policy: PropertyPolicy,
    taken: nat,
    used: nat,
) -> Seq<Entry>
    decreases entries.len(),
{
    if entries.len() == 0 {
        Seq::empty()
    } else {
        let e = entries[0];
        if !policy.allows(e.0) {
            clean(entries.skip(1), policy, taken, used)
        } else if taken >= policy.max_fields_per_feature || used + entry_size(e)
            > policy.max_property_bytes_per_feature {
            Seq::empty()
        } else {
            seq![e] + clean(entries.skip(1), policy, taken + 1, used + entry_size(e))
        }
    }
}

/// The properties that cleaning keeps.
pub open spec fn cleaned(props: Seq<Entry>, policy: PropertyPolicy) -> Seq<Entry> {
    clean(sorted::by_key(props), policy, 0, 0)
}

/// Cleans properties: allowlist and denylist, field count and payload caps, keys in order.
pub fn clean_properties(props: &JsonMap, policy: &PropertyPolicy) -> (out: JsonMap)
    requires
        props.wf(),
    ensures
        out.wf(),
        out@ == cleaned(props@, *policy),
{
    let order = key_order(props);
    let ghost entries = sorted::by_key(props@);
    proof {
        sorted::order_is_strict(props@);
    }
    let mut out = JsonMap::new();
    let mut used: usize = 0;
    let mut i: usize = 0;
    assert(entries.skip(0) =~= entries);
    assert(out@ + clean(entries, *policy, 0, 0) =~= clean(entries, *policy, 0, 0));
    while i < order.len()
        invariant
            i <= order@.len(),
            order@.len() == props@.len(),
            forall|k: int| 0 <= k < order@.len() ==> (#[trigger] order@[k]) < props@.len(),
            entries.len() == order@.len(),
            entries == Seq::new(order@.len(), |k: int| props@[order@[k] as int]),
            sorted::strictly_ordered(entries),
            used <= policy.max_property_bytes_per_feature,
            out.wf(),
            forall|k: int|
                0 <= k < out@.len() ==> exists|j: int|
                    0 <= j < i && (#[trigger] entries[j]).0 == (#[trigger] out@[k]).0,
            out@ + clean(entries.skip(i as int), *policy, out@.len(), used as nat) == cleaned(
                props@,
                *policy,
            ),
        ensures
            out.wf(),
            out@ == cleaned(props@, *policy),
        decreases order@.len() - i,
    {
        let ghost rest = entries.skip(i as int);
        let ghost so_far = out@;
        let (key, value) = props.entry(order[i]);
        assert(rest[0] == (key@, value@));
        assert(entries[i as int] == rest[0]);
        assert(rest.skip(1) =~= entries.skip(i + 1));
        if policy.is_allowed(key) {
            let rendered = value.to_json();
            let key_len: usize = key.as_bytes().len();
            let size: usize = rendered.as_str().as_bytes().len();
            let room: usize = policy.max_property_bytes_per_feature - used;
            if out.len() >= policy.max_fields_per_feature || key_len > room || size > room
                - key_len {
                assert(so_far + Seq::<Entry>::empty() =~= so_far);
                break;
            }
            used = used + key_len + size;
            proof {
                json::key_place_props(so_far, key@);
                if json::key_place(so_far, key@) is Some {
                    let k = json::key_place(so_far, key@)->Some_0;
                    let j = choose|j: int| 0 <= j < i && (#[trigger] entries[j]).0 == so_far[k].0;
                    assert(text::lex_less(entries[j].0, entries[i as int].0));
                    text::lex_irreflexive(key@);
                }
            }
            out.insert(key.to_string(), value.clone());
            proof {
                assert(out@ =~= so_far.push((key@, value@)));
                let tail = clean(entries.skip(i + 1), *policy, out@.len(), used as nat);
                assert(so_far + (seq![(key@, value@)] + tail) =~= out@ + tail);
                assert forall|k: int| 0 <= k < out@.len() implies exists|j: int|
                    0 <= j < i + 1 && (#[trigger] entries[j]).0 == (#[trigger] out@[k]).0 by {
                    if k < so_far.len() {
                        assert(so_far[k] == out@[k]);
                        let j = choose|j: int|
                            0 <= j < i && (#[trigger] entries[j]).0 == so_far[k].0;
                        assert(entries[j].0 == out@[k].0);
                    } else {
                        assert(entries[i as int].0 == out@[k].0);
                    }
                }
            }
        }
        i = i + 1;
    }
    proof {
        if i == order@.len() {
            assert(out@ + Seq::<Entry>::empty() =~= out@);
        }
    }
    out
}

/// A normalized feature: its geometry in longitude and latitude, its properties cleaned.
#[derive(Debug, Clone)]
pub struct NormalizedFeature {
    pub id: Option<u64>,
    pub geometry: Geometry,
    pub properties: JsonMap,
}

impl View for NormalizedFeature {
    type V = ParsedView;

    open spec fn view(&self) -> ParsedView {
        ParsedView { id: self.id, geometry: self.geometry@, properties: self.properties@ }
    }
}

/// The features, in order.
pub open spec fn normalized_views(s: Seq<NormalizedFeature>) -> Seq<ParsedView> {
    Seq::new(s.len(), |i: int| s[i]@)
}

/// What normalization gives: everything that tiling and the catalog need.
#[derive(Debug)]
pub struct NormalizedDataset {
    pub features: Vec<NormalizedFeature>,
    pub bbox: Option<Bbox>,
    pub crs: CrsInfo,
    pub warnings: Vec<String>,
    pub rejected_features: u64,
}

/// What normalization gives.
#[verifier::ext_equal]
pub struct DatasetView {
    pub features: Seq<ParsedView>,
    pub bbox: Option<Bbox>,
    pub crs: CrsInfo,
    pub warnings: Seq<Seq<char>>,
    pub rejected_features: u64,
}

impl View for NormalizedDataset {
    type V = DatasetView;

    open spec fn view(&self) -> DatasetView {
        DatasetView {
            features: normalized_views(self.features@),
            bbox: self.bbox,
            crs: self.crs,
            warnings: config::strings(self.warnings@),
            rejected_features: self.rejected_features,
        }
    }
}

impl NormalizedDataset {
    pub fn feature_count(&self) -> (n: usize)
        ensures
            n == self@.features.len(),
    {
        self.features.len()
    }
}

/// The features whose geometry can be repaired, with the repaired geometry.
pub open spec fn repaired_features(fs: Seq<ParsedView>) -> Seq<ParsedView>
    decreases fs.len(),
{
    if fs.len() == 0 {
        fs
    } else {
        let before = repaired_features(fs.drop_last());
        match repair::repaired(fs.last().geometry) {
            Some(geometry) => before.push(ParsedView { geometry, ..fs.last() }),
            None => before,
        }
    }
}

/// Repairs the features; says how many cannot be repaired.
fn repair_features(features: Vec<ParsedFeature>) -> (r: (Vec<ParsedFeature>, u64))
    requires
        forall|i: int| 0 <= i < features@.len() ==> (#[trigger] features@[i]).properties.wf(),
    ensures
        document::parsed_views(r.0@) == repaired_features(document::parsed_views(features@)),
        r.1 + r.0@.len() == features@.len(),
        forall|i: int| 0 <= i < r.0@.len() ==> (#[trigger] r.0@[i]).properties.wf(),
{
    let ghost all = features@;
    let ghost views = document::parsed_views(all);
    let ghost total = features.len();
    let mut out: Vec<ParsedFeature> = Vec::new();
    let mut rejected: u64 = 0;
    assert(views.take(0) =~= Seq::empty());
    assert(document::parsed_views(out@) =~= repaired_features(views.take(0)));
    for f in it: features
        invariant
            it.seq() == all,
            total == all.len(),
            total <= usize::MAX,
            views == document::parsed_views(all),
            rejected + out@.len() == it.index(),
            document::parsed_views(out@) == repaired_features(views.take(it.index() as int)),
            forall|i: int| 0 <= i < all.len() ==> (#[trigger] all[i]).properties.wf(),
            forall|i: int| 0 <= i < out@.len() ==> (#[trigger] out@[i]).properties.wf(),
    {
        let ghost k = it.index() as int;
        let ghost before = out@;
        assert(all[k] == f);
        assert(views.take(k + 1).drop_last() =~= views.take(k));
        assert(views.take(k + 1).last() == f@);
        let ParsedFeature { id, geometry, properties } = f;
        match repair_geometry(geometry) {
            Some(g) => {
                let fixed = ParsedFeature { id, geometry: g, properties };
                out.push(fixed);
                assert(document::parsed_views(out@) =~= document::parsed_views(before).push(
                    fixed@,
                ));
            },
            None => {
                rejected = rejected + 1;
            },
        }
    }
    assert(views.take(views.len() as int) =~= views);
    (out, rejected)
}

/// The box widened by points.
pub open spec fn widened(b: Option<Bbox>, cs: Seq<Coord>) -> Option<Bbox>
    decreases cs.len(),
{
    if cs.len() == 0 {
        b
    } else {
        let c = cs.last();
        let point = Bbox { min_lon: c.x, min_lat: c.y, max_lon: c.x, max_lat: c.y };
        match widened(b, cs.drop_last()) {
            Some(before) => Some(before.joined(point)),
            None => Some(point),
        }
    }
}

fn widen(b: Option<Bbox>, cs: &[Coord]) -> (r: Option<Bbox>)
    ensures
        r == widened(b, cs@),
{
    let mut acc = b;
    let mut i: usize = 0;
    assert(cs@.take(0) =~= Seq::empty());
    while i < cs.len()
        invariant
            i <= cs@.len(),
            acc == widened(b, cs@.take(i as int)),
        decreases cs@.len() - i,
    {
        let c = cs[i];
        let point = Bbox::new(c.x, c.y, c.x, c.y);
        assert(cs@.take(i + 1).drop_last() =~= cs@.take(i as int));
        acc =
        match acc {
            Some(before) => Some(before.union(&point)),
            None => Some(point),
        };
        i = i + 1;
    }
    assert(cs@.take(i as int) =~= cs@);
    acc
}

/// The features that have a coordinate, with their properties cleaned.
pub open spec fn usable(fs: Seq<ParsedView>, policy: PropertyPolicy) -> Seq<ParsedView>
    decreases fs.len(),
{
    if fs.len() == 0 {
        fs
    } else {
        let before = usable(fs.drop_last(), policy);
        let f = fs.last();
        if geometry::coords(f.geometry).len() == 0 {
            before
        } else {
            before.push(ParsedView { properties: cleaned(f.properties, policy), ..f })
        }
    }
}

/// The box around all features.
pub open spec fn extent(fs: Seq<ParsedView>) -> Option<Bbox>
    decreases fs.len(),
{
    if fs.len() == 0 {
        None
    } else {
        widened(extent(fs.drop_last()), geometry::coords(fs.last().geometry))
    }
}

/// The geometries of features.
pub open spec fn geometries(fs: Seq<ParsedView>) -> Seq<GeometryView> {
    Seq::new(fs.len(), |i: int| fs[i].geometry)
}

/// The properties of features.
pub open spec fn property_maps(fs: Seq<ParsedView>) -> Seq<Seq<Entry>> {
    Seq::new(fs.len(), |i: int| fs[i].properties)
}

/// A warning where its condition holds.
pub open spec fn warn(holds: bool, warning: Seq<char>) -> Seq<Seq<char>> {
    if holds {
        seq![warning]
    } else {
        Seq::empty()
    }
}

/// The warnings of a dataset, in order.
pub open spec fn warnings(assumed: bool, islands: nat, dupes: nat, rejected: nat) -> Seq<
    Seq<char>,
> {
    warn(assumed, "CRS missing in source; EPSG:4326 assumed (flagged in metadata)"@) + warn(
        islands > 0,
        text::decimal(islands) + " feature(s) located exactly at null island (0,0)"@,
    ) + warn(
        dupes > 0,
        text::decimal(dupes) + " duplicate parcel/asset identifier(s) detected"@,
    ) + warn(rejected > 0, text::decimal(rejected) + " feature(s) rejected as unrecoverable"@)
}

fn list_warnings(assumed: bool, islands: u64, dupes: u64, rejected: u64) -> (out: Vec<String>)
    ensures
        config::strings(out@) == warnings(
            assumed,
            islands as nat,
            dupes as nat,
            rejected as nat,
        ),
{
    let mut out: Vec<String> = Vec::new();
    if assumed {
        out.push("CRS missing in source; EPSG:4326 assumed (flagged in metadata)".to_string());
    }
    if islands > 0 {
        let n = text::decimal_text(islands);
        out.push(text::join2(n.as_str(), " feature(s) located exactly at null island (0,0)"));
    }
    if dupes > 0 {
        let n = text::decimal_text(dupes);
        out.push(text::join2(n.as_str(), " duplicate parcel/asset identifier(s) detected"));
    }
    if rejected > 0 {
        let n = text::decimal_text(rejected);
        out.push(text::join2(n.as_str(), " feature(s) rejected as unrecoverable"));
    }
    assert(config::strings(out@) =~= warnings(
        assumed,
        islands as nat,
        dupes as nat,
        rejected as nat,
    ));
    out
}

/// Whether `r` is what repaired features in longitude and latitude give, of a file of which
/// `rejected` features could not be repaired.
pub open spec fn collects(
    r: IngestResult<NormalizedDataset>,
    fs: Seq<ParsedView>,
    rejected: nat,
    crs: CrsInfo,
    policy: PropertyPolicy,
    format: Seq<char>,
) -> bool {
    let kept = usable(fs, policy);
    let lost = (rejected + fs.len() - kept.len()) as nat;
    if kept.len() == 0 && lost > 0 {
        r matches Err(IngestError::GeometryErrors { unrecoverable, first }) && unrecoverable == lost
            && first@
            == "all features failed geometry repair (degenerate rings, non-finite coordinates)"@
    } else if kept.len() == 0 {
        r matches Err(IngestError::EmptyDataset(m)) && m@ == format
            + " contained no usable features"@
    } else {
        &&& r matches Ok(d)
        &&& d@ == (DatasetView {
            features: kept,
            bbox: extent(fs),
            crs,
            warnings: warnings(
                crs.assumed,
                validate::null_islands(geometries(kept)),
                validate::repeats(validate::all_markers(property_maps(kept)))
                    % 0x1_0000_0000_0000_0000,
                lost,
            ),
            rejected_features: lost as u64,
        })
        &&& forall|i: int| 0 <= i < d.features@.len() ==> (#[trigger] d.features@[i]).properties.wf()
    }
}

/// Collects repaired features in longitude and latitude into a dataset: the box around them, their
/// cleaned properties, what to warn of. `rejected` features of the file could not be repaired.
pub fn collect_normalized(
    features: Vec<ParsedFeature>,
    rejected: u64,
    crs: &CrsInfo,
    policy: &PropertyPolicy,
    format: &str,
) -> (r: IngestResult<NormalizedDataset>)
    requires
        rejected + features@.len() <= u64::MAX,
        forall|i: int| 0 <= i < features@.len() ==> (#[trigger] features@[i]).properties.wf(),
    ensures
        collects(
            r,
            document::parsed_views(features@),
            rejected as nat,
            *crs,
            *policy,
            format@,
        ),
{
    let ghost all = features@;
    let ghost views = document::parsed_views(all);
    let mut out: Vec<NormalizedFeature> = Vec::new();
    let mut maps: Vec<JsonMap> = Vec::new();
    let mut lost: u64 = rejected;
    let mut islands: u64 = 0;
    let mut bbox: Option<Bbox> = None;
    assert(views.take(0) =~= Seq::empty());
    assert(normalized_views(out@) =~= usable(views.take(0), *policy));
    assert(geometries(usable(views.take(0), *policy)) =~= Seq::empty());
    assert(validate::map_views(maps@) =~= property_maps(usable(views.take(0), *policy)));
    for f in it: features
        invariant
            it.seq() == all,
            views == document::parsed_views(all),
            rejected + all.len() <= u64::MAX,
            lost + out@.len() == rejected + it.index(),
            islands <= out@.len(),
            islands == validate::null_islands(
                geometries(usable(views.take(it.index() as int), *policy)),
            ),
            normalized_views(out@) == usable(views.take(it.index() as int), *policy),
            validate::map_views(maps@) == property_maps(
                usable(views.take(it.index() as int), *policy),
            ),
            bbox == extent(views.take(it.index() as int)),
            forall|i: int| 0 <= i < all.len() ==> (#[trigger] all[i]).properties.wf(),
            forall|i: int| 0 <= i < out@.len() ==> (#[trigger] out@[i]).properties.wf(),
    {
        let ghost k = it.index() as int;
        let ghost before = out@;
        let ghost maps_before = maps@;
        let ghost kept_before = usable(views.take(k), *policy);
        assert(all[k] == f);
        assert(views.take(k + 1).drop_last() =~= views.take(k));
        assert(views.take(k + 1).last() == f@);
        let cs = f.geometry.coords();
        bbox = widen(bbox, cs.as_slice());
        if cs.len() == 0 {
            lost = lost + 1;
        } else {
            let properties = clean_properties(&f.properties, policy);
            let island = is_null_island(&f.geometry);
            maps.push(properties.clone());
            let done = NormalizedFeature { id: f.id, geometry: f.geometry, properties };
            out.push(done);
            proof {
                let kept = usable(views.take(k + 1), *policy);
                assert(kept == kept_before.push(done@));
                assert(normalized_views(out@) =~= normalized_views(before).push(done@));
                assert(geometries(kept).drop_last() =~= geometries(kept_before));
                assert(geometries(kept).last() == f.geometry@);
                assert(validate::map_views(maps@) =~= validate::map_views(maps_before).push(
                    done.properties@,
                ));
                assert(property_maps(kept) =~= property_maps(kept_before).push(
                    done.properties@,
                ));
            }
            if island {
                islands = islands + 1;
            }
        }
    }
    assert(views.take(views.len() as int) =~= views);
    if out.len() == 0 && lost > 0 {
        return Err(
            IngestError::GeometryErrors {
                unrecoverable: lost,
                first: "all features failed geometry repair (degenerate rings, non-finite coordinates)".to_string(),
            },
        );
    }
    match require_non_empty(out.len(), format) {
        Ok(_) => {},
        Err(e) => {
            return Err(e);
        },
    }
    let dupes = count_duplicate_ids(maps.as_slice());
    let warnings = list_warnings(crs.assumed, islands, dupes, lost);
    Ok(
        NormalizedDataset {
            features: out,
            bbox,
            crs: crs.clone(),
            warnings,
            rejected_features: lost,
        },
    )
}

/// Where normalization stands.
#[derive(Debug)]
pub enum Normalization {
    /// It is finished.
    Done(NormalizedDataset),
    /// The rows of a shapefile are read; how their rings turn is to be found.
    Shapes { rows: Vec<(ShpGeometry, JsonMap)>, crs: CrsInfo },
    /// The features are repaired; their coordinates are to be brought from Web Mercator to
    /// longitude and latitude.
    Mercator { features: Vec<ParsedFeature>, rejected: u64, crs: CrsInfo },
}

/// Whether some feature has a coordinate.
pub open spec fn has_coords(fs: Seq<ParsedView>) -> bool {
    exists|i: int| 0 <= i < fs.len() && geometry::coords((#[trigger] fs[i]).geometry).len() > 0
}

fn any_coords(features: &[ParsedFeature]) -> (b: bool)
    ensures
        b == has_coords(document::parsed_views(features@)),
{
    let ghost views = document::parsed_views(features@);
    let mut i: usize = 0;
    while i < features.len()
        invariant
            views == document::parsed_views(features@),
            i <= features@.len(),
            forall|k: int|
                0 <= k < i ==> geometry::coords((#[trigger] views[k]).geometry).len() == 0,
        decreases features@.len() - i,
    {
        let cs = features[i].geometry.coords();
        assert(views[i as int] == features@[i as int]@);
        if cs.len() > 0 {
            return true;
        }
        i = i + 1;
    }
    false
}

/// Whether `r` is what the features of a file give: they are repaired, and finished where their
/// coordinates are longitude and latitude. Coordinates in a system that cannot be brought there are
/// refused.
pub open spec fn finishes(
    r: IngestResult<Normalization>,
    fs: Seq<ParsedView>,
    crs: CrsInfo,
    policy: PropertyPolicy,
    format: Seq<char>,
) -> bool {
    let repaired = repaired_features(fs);
    let rejected = (fs.len() - repaired.len()) as nat;
    match crs.kind {
        CrsKind::WebMercator => r matches Ok(Normalization::Mercator { features, rejected: n, crs: c })
            && document::parsed_views(features@) == repaired && n == rejected && c == crs && (
        forall|i: int| 0 <= i < features@.len() ==> (#[trigger] features@[i]).properties.wf()),
        _ => if !(crs.kind is Wgs84) && !(crs.kind is Nad83) && has_coords(repaired) {
            r matches Err(IngestError::UnsupportedCrs(m)) && m@ == crs.name()
        } else {
            match r {
                Ok(Normalization::Done(d)) => collects(
                    Ok(d),
                    repaired,
                    rejected,
                    crs,
                    policy,
                    format,
                ),
                Ok(_) => false,
                Err(e) => collects(Err(e), repaired, rejected, crs, policy, format),
            }
        },
    }
}

/// The shared tail of all formats: repair, then what the coordinate system asks for, then cleaning
/// and the collection of what there is to know of the dataset.
pub fn finish_normalization(
    features: Vec<ParsedFeature>,
    crs: &CrsInfo,
    policy: &PropertyPolicy,
    format: &str,
) -> (r: IngestResult<Normalization>)
    requires
        forall|i: int| 0 <= i < features@.len() ==> (#[trigger] features@[i]).properties.wf(),
    ensures
        finishes(r, document::parsed_views(features@), *crs, *policy, format@),
{
    let ghost views = document::parsed_views(features@);
    let ghost total = features.len();
    let (repaired, rejected) = repair_features(features);
    match crs.kind {
        CrsKind::WebMercator => Ok(
            Normalization::Mercator { features: repaired, rejected, crs: crs.clone() },
        ),
        CrsKind::Wgs84 | CrsKind::Nad83 => {
            match collect_normalized(repaired, rejected, crs, policy, format) {
                Ok(d) => Ok(Normalization::Done(d)),
                Err(e) => Err(e),
            }
        },
        CrsKind::Unsupported | CrsKind::Unknown => {
            if any_coords(repaired.as_slice()) {
                return Err(IngestError::UnsupportedCrs(crs.label().to_string()));
            }
            match collect_normalized(repaired, rejected, crs, policy, format) {
                Ok(d) => Ok(Normalization::Done(d)),
                Err(e) => Err(e),
            }
        },
    }
}

/// The features of a shapefile, numbered from one.
pub open spec fn numbered(pairs: Seq<(GeometryView, Seq<Entry>)>) -> Seq<ParsedView> {
    Seq::new(
        pairs.len(),
        |i: int|
            ParsedView { id: Some((i + 1) as u64), geometry: pairs[i].0, properties: pairs[i].1 },
    )
}

/// Goes on with the rows of a shapefile, once it is known how their rings turn. Rows get sequential
/// numbers, which keep the link to the table.
pub fn normalize_rows(
    rows: Vec<(ShpGeometry, JsonMap)>,
    turns: &[Vec<RingTurn>],
    crs: &CrsInfo,
    opts: &NormalizeOptions,
) -> (r: IngestResult<Normalization>)
    requires
        turns@.len() == rows@.len(),
        forall|i: int|
            0 <= i < rows@.len() ==> (#[trigger] turns@[i])@.len() == shp::rings_of(rows@[i].0@),
        forall|i: int| 0 <= i < rows@.len() ==> (#[trigger] rows@[i]).1.wf(),
    ensures
        ({
            let pairs = bundle::row_features(
                bundle::row_views(rows@),
                bundle::turn_lists(turns@),
                rows@.len(),
            );
            if pairs.len() > opts.max_features {
                r matches Err(IngestError::DatasetTooLarge { features, max }) && features
                    == pairs.len() && max == opts.max_features
            } else {
                finishes(r, numbered(pairs), *crs, opts.property_policy, "SHAPEFILE"@)
            }
        }),
{
    let pairs = rows_to_features(rows, turns);
    match check_feature_count(pairs.len() as u64, opts.max_features) {
        Ok(_) => {},
        Err(e) => {
            return Err(e);
        },
    }
    let ghost all = pairs@;
    let ghost views = bundle::feature_pairs(all);
    let mut features: Vec<ParsedFeature> = Vec::new();
    let ghost total = pairs.len();
    for pair in it: pairs
        invariant
            it.seq() == all,
            total == all.len(),
            views == bundle::feature_pairs(all),
            features@.len() == it.index(),
            document::parsed_views(features@) == numbered(views).take(it.index() as int),
            forall|i: int| 0 <= i < all.len() ==> (#[trigger] all[i]).1.wf(),
            forall|i: int| 0 <= i < features@.len() ==> (#[trigger] features@[i]).properties.wf(),
    {
        let ghost k = it.index() as int;
        let ghost before = features@;
        assert(all[k] == pair);
        let id: u64 = features.len() as u64 + 1;
        let (geometry, properties) = pair;
        let f = ParsedFeature { id: Some(id), geometry, properties };
        features.push(f);
        proof {
            assert(views[k] == (geometry@, properties@));
            assert(numbered(views).take(k + 1) =~= numbered(views).take(k).push(f@));
            assert(document::parsed_views(features@) =~= document::parsed_views(before).push(f@));
        }
    }
    assert(numbered(views).take(views.len() as int) =~= numbered(views));
    finish_normalization(features, crs, &opts.property_policy, "SHAPEFILE")
}

/// The CRS of every GeoJSON document.
pub open spec fn geojson_crs() -> CrsInfo {
    CrsInfo { kind: CrsKind::Wgs84, epsg: Some(4326), raw: None, assumed: false }
}

/// The CRS that stands in for an unknown one.
pub open spec fn assumed_crs() -> CrsInfo {
    CrsInfo { kind: CrsKind::Wgs84, epsg: Some(4326), raw: None, assumed: true }
}

/// The kind of CRS that a `.prj` declares.
pub open spec fn declared_kind(prj: Option<Seq<char>>) -> CrsKind {
    match prj {
        None => CrsKind::Unknown,
        Some(wkt) => crs::kind_and_code(wkt, crs::uppercase(wkt)).0,
    }
}

/// Whether `c` is the CRS to take a bundle's coordinates in: the declared one, or the assumed one
/// where none is known.
pub open spec fn settles(c: CrsInfo, prj: Option<Seq<char>>) -> bool {
    if declared_kind(prj) is Unknown {
        c == assumed_crs()
    } else {
        &&& prj matches Some(wkt)
        &&& (c.kind, c.epsg) == crs::kind_and_code(wkt, crs::uppercase(wkt))
        &&& c.raw matches Some(raw) && raw@ == wkt
        &&& !c.assumed
    }
}

/// Whether `r` is what a bundle gives: its rows and its CRS.
pub open spec fn opens(
    r: IngestResult<Normalization>,
    b: bundle::BundleView,
    policy: CrsPolicy,
) -> bool {
    if declared_kind(b.prj) is Unknown && policy is RequireKnown {
        r matches Err(IngestError::UnknownCrs(m)) && m@
            == "missing .prj; resubmit with CRS confirmation (AssumeWgs84) or a .prj file"@
    } else {
        match bundle::bundle_rows(b) {
            Err(msg) => r matches Err(e) && e.is_shapefile(msg),
            Ok(views) => {
                &&& r matches Ok(Normalization::Shapes { rows, crs })
                &&& bundle::row_views(rows@) == views
                &&& settles(crs, b.prj)
                &&& forall|i: int| 0 <= i < rows@.len() ==> (#[trigger] rows@[i]).1.wf()
            },
        }
    }
}

fn normalize_geojson(bytes: &[u8], opts: &NormalizeOptions) -> (r: IngestResult<Normalization>)
    ensures
        match document::document(bytes@) {
            Err(msg) => r matches Err(e) && e.is_geojson(msg),
            Ok(fs) => if fs.len() > opts.max_features {
                r matches Err(IngestError::DatasetTooLarge { features, max }) && features == fs.len()
                    && max == opts.max_features
            } else {
                finishes(r, fs, geojson_crs(), opts.property_policy, "GEOJSON"@)
            },
        },
{
    let parsed = match parse_geojson(bytes) {
        Ok(fs) => fs,
        Err(e) => {
            return Err(e);
        },
    };
    match check_feature_count(parsed.len() as u64, opts.max_features) {
        Ok(_) => {},
        Err(e) => {
            return Err(e);
        },
    }
    let crs = CrsInfo { kind: CrsKind::Wgs84, epsg: Some(4326), raw: None, assumed: false };
    finish_normalization(parsed, &crs, &opts.property_policy, "GEOJSON")
}

fn normalize_shapefile(bytes: &[u8], opts: &NormalizeOptions) -> (r: IngestResult<Normalization>)
    ensures
        match archive::zip_members(bytes@) {
            Err(msg) => r matches Err(IngestError::Zip(m)) && m@ == msg,
            Ok(members) => match bundle::bundle_of(members) {
                Err(fault) => r matches Err(e) && bundle::error_of(e, fault),
                Ok(b) => opens(r, b, opts.crs_policy),
            },
        },
{
    let bundle = match extract_bundle(bytes) {
        Ok(b) => b,
        Err(e) => {
            return Err(e);
        },
    };
    let declared = match &bundle.prj {
        Some(prj) => detect_crs(Some(prj.as_str())),
        None => detect_crs(None),
    };
    let crs = match declared.kind {
        CrsKind::Unknown => match opts.crs_policy {
            CrsPolicy::RequireKnown => {
                return Err(
                    IngestError::UnknownCrs(
                        "missing .prj; resubmit with CRS confirmation (AssumeWgs84) or a .prj file".to_string(),
                    ),
                );
            },
            CrsPolicy::AssumeWgs84 => CrsInfo {
                kind: CrsKind::Wgs84,
                epsg: Some(4326),
                raw: None,
                assumed: true,
            },
        },
        _ => declared,
    };
    match read_bundle(&bundle) {
        Ok(rows) => Ok(Normalization::Shapes { rows, crs }),
        Err(e) => Err(e),
    }
}

/// The bytes of a file.
pub open spec fn source_bytes(source: SourceFile) -> Seq<u8> {
    match source {
        SourceFile::GeoJson { bytes } => bytes@,
        SourceFile::ShapefileZip { bytes } => bytes@,
    }
}

/// Reads a source file and carries normalization as far as it goes without outside work: to its end
/// for GeoJSON, to the rows for a shapefile.
pub fn normalize_source(source: SourceFile, opts: &NormalizeOptions) -> (r: IngestResult<
    Normalization,
>)
    ensures
        ({
            let bytes = source_bytes(source);
            if bytes.len() > opts.max_upload_bytes {
                r matches Err(IngestError::PayloadTooLarge { size, max }) && size == bytes.len()
                    && max == opts.max_upload_bytes
            } else {
                match source {
                    SourceFile::GeoJson { .. } => match document::document(bytes) {
                        Err(msg) => r matches Err(e) && e.is_geojson(msg),
                        Ok(fs) => if fs.len() > opts.max_features {
                            r matches Err(IngestError::DatasetTooLarge { features, max })
                                && features == fs.len() && max == opts.max_features
                        } else {
                            finishes(r, fs, geojson_crs(), opts.property_policy, "GEOJSON"@)
                        },
                    },
                    SourceFile::ShapefileZip { .. } => match archive::zip_members(bytes) {
                        Err(msg) => r matches Err(IngestError::Zip(m)) && m@ == msg,
                        Ok(members) => match bundle::bundle_of(members) {
                            Err(fault) => r matches Err(e) && bundle::error_of(e, fault),
                            Ok(b) => opens(r, b, opts.crs_policy),
                        },
                    },
                }
            }
        }),
{
    match source {
        SourceFile::GeoJson { bytes } => {
            match check_payload_size(bytes.len() as u64, opts.max_upload_bytes) {
                Ok(_) => normalize_geojson(bytes.as_slice(), opts),
                Err(e) => Err(e),
            }
        },
        SourceFile::ShapefileZip { bytes } => {
            match check_payload_size(bytes.len() as u64, opts.max_upload_bytes) {
                Ok(_) => normalize_shapefile(bytes.as_slice(), opts),
                Err(e) => Err(e),
            }
        },
    }
}

} // verus!
