//! Validation rules that apply before normalization.
use vstd::prelude::*;
use vstd::hash_map::StringHashMap;
use crate::geometry;
use crate::geometry::{Geometry, GeometryView};
use crate::ingest::error::{IngestError, IngestResult};
use crate::json;
use crate::json::{Entry, JsonMap};
use crate::model::SourceFormat;
use crate::scan;
use crate::scan::{ends_with, split_piece, trim};
use crate::text;
use crate::text::{debug_text, join2, join3, str_equal, to_lower};
use vstd::string::*;

verus! {

/// Default limit of the upload size: two gigabytes.
pub const DEFAULT_MAX_UPLOAD_BYTES: u64 = 2_147_483_648;

/// Default limit of the feature count.
pub const DEFAULT_MAX_FEATURES: u64 = 1_000_000;

/// Rejects oversized uploads.
pub fn check_payload_size(size: u64, max: u64) -> (r: IngestResult<()>)
    ensures
        size <= max ==> r == IngestResult::<()>::Ok(()),
        size > max ==> r == IngestResult::<()>::Err(IngestError::PayloadTooLarge { size, max }),
{
    if size > max {
        return Err(IngestError::PayloadTooLarge { size, max });
    }
    Ok(())
}

/// Rejects oversized datasets before the expensive tile-generation stage.
pub fn check_feature_count(count: u64, max: u64) -> (r: IngestResult<()>)
    ensures
        count <= max ==> r == IngestResult::<()>::Ok(()),
        count > max ==> r == IngestResult::<()>::Err(
            IngestError::DatasetTooLarge { features: count, max },
        ),
{
    if count > max {
        return Err(IngestError::DatasetTooLarge { features: count, max });
    }
    Ok(())
}

/// Whether a file name in lower case has an extension of the format.
pub open spec fn extension_fits(lower: Seq<char>, format: SourceFormat) -> bool {
    match format {
        SourceFormat::GeoJson => scan::has_suffix(lower, ".geojson"@) || scan::has_suffix(
            lower,
            ".json"@,
        ),
        SourceFormat::Shapefile => scan::has_suffix(lower, ".zip"@),
        _ => false,
    }
}

/// The extensions of a format, as the error names them.
pub open spec fn expected_extension(format: SourceFormat) -> Seq<char> {
    match format {
        SourceFormat::GeoJson => ".geojson/.json"@,
        SourceFormat::Shapefile => ".zip"@,
        _ => "no supported extension"@,
    }
}

/// Whether a bare content type in lower case is one of the format.
pub open spec fn content_type_fits(ct: Seq<char>, format: SourceFormat) -> bool {
    match format {
        SourceFormat::GeoJson => ct == "application/geo+json"@ || ct == "application/json"@ || ct
            == "text/plain"@ || ct == "application/octet-stream"@,
        SourceFormat::Shapefile => ct == "application/zip"@ || ct
            == "application/x-zip-compressed"@ || ct == "application/octet-stream"@,
        _ => false,
    }
}

/// A content type without its parameters, in lower case.
pub open spec fn bare_content_type(ct: Seq<char>) -> Seq<char> {
    text::lowercase(scan::trimmed(scan::piece(ct, ';', 0)->Some_0))
}

/// Whether a file name in lower case has an extension of the format.
pub fn extension_ok(lower: &str, format: SourceFormat) -> (b: bool)
    ensures
        b == extension_fits(lower@, format),
{
    match format {
        SourceFormat::GeoJson => ends_with(lower, ".geojson") || ends_with(lower, ".json"),
        SourceFormat::Shapefile => ends_with(lower, ".zip"),
        _ => false,
    }
}

/// Whether a bare content type in lower case is one of the format.
pub fn content_type_ok(ct: &str, format: SourceFormat) -> (b: bool)
    ensures
        b == content_type_fits(ct@, format),
{
    match format {
        SourceFormat::GeoJson => str_equal(ct, "application/geo+json") || str_equal(
            ct,
            "application/json",
        ) || str_equal(ct, "text/plain") || str_equal(ct, "application/octet-stream"),
        SourceFormat::Shapefile => str_equal(ct, "application/zip") || str_equal(
            ct,
            "application/x-zip-compressed",
        ) || str_equal(ct, "application/octet-stream"),
        _ => false,
    }
}

/// What is wrong with the file name and content type of an upload.
pub open spec fn file_type_fault(
    file_name: Seq<char>,
    content_type: Option<Seq<char>>,
    format: SourceFormat,
) -> Option<Seq<char>> {
    if !extension_fits(text::lowercase(file_name), format) {
        Some(
            "file "@ + text::debug_quoted(file_name) + " does not match declared format "@
                + format.name() + " (expected "@ + expected_extension(format) + ")"@,
        )
    } else {
        match content_type {
            Some(ct) if !content_type_fits(bare_content_type(ct), format) => Some(
                "content type "@ + text::debug_quoted(bare_content_type(ct))
                    + " does not match declared format "@ + format.name(),
            ),
            _ => None,
        }
    }
}

/// An optional text, by what it holds.
pub open spec fn opt_str(s: Option<&str>) -> Option<Seq<char>> {
    match s {
        Some(s) => Some(s@),
        None => None,
    }
}

/// Input validation gate: the file name extension and, when supplied, the content type must match
/// the declared source format. Runs at upload time, before any parsing work.
pub fn validate_file_type(file_name: &str, content_type: Option<&str>, format: SourceFormat) -> (r:
    IngestResult<()>)
    ensures
        match file_type_fault(file_name@, opt_str(content_type), format) {
            Some(msg) => r matches Err(IngestError::InvalidFileType(m)) && m@ == msg,
            None => r is Ok,
        },
{
    let lower = to_lower(file_name);
    if !extension_ok(lower.as_str(), format) {
        let expected = match format {
            SourceFormat::GeoJson => ".geojson/.json",
            SourceFormat::Shapefile => ".zip",
            _ => "no supported extension",
        };
        let mut msg = join2("file ", debug_text(file_name).as_str());
        msg.append(" does not match declared format ");
        msg.append(format.as_str());
        msg.append(" (expected ");
        msg.append(expected);
        msg.append(")");
        return Err(IngestError::InvalidFileType(msg));
    }
    if let Some(ct) = content_type {
        // Parameters (`application/zip; charset=...`) are stripped.
        let bare = match split_piece(ct, ';', 0) {
            Some(bare) => bare,
            None => String::from_str(ct),
        };
        let bare = to_lower(trim(bare.as_str()).as_str());
        if !content_type_ok(bare.as_str(), format) {
            let mut msg = join2("content type ", debug_text(bare.as_str()).as_str());
            msg.append(" does not match declared format ");
            msg.append(format.as_str());
            return Err(IngestError::InvalidFileType(msg));
        }
    }
    Ok(())
}

/// Whether a geometry is the single point where both axes are zero.
pub open spec fn at_null_island(g: GeometryView) -> bool {
    let coords = geometry::coords(g);
    coords.len() == 1 && coords[0].x.rank() == 0 && coords[0].y.rank() == 0
}

/// Whether a geometry is the single point where both axes are zero: a classic geocoding failure.
pub fn is_null_island(geom: &Geometry) -> (b: bool)
    ensures
        b == at_null_island(geom@),
{
    let coords = geom.coords();
    let zero = crate::double::Double { bits: 0 };
    coords.len() == 1 && coords[0].x.same_number(zero) && coords[0].y.same_number(zero)
}

/// How many of the geometries are at null island.
pub open spec fn null_islands(geoms: Seq<GeometryView>) -> nat
    decreases geoms.len(),
{
    if geoms.len() == 0 {
        0
    } else {
        null_islands(geoms.drop_last()) + if at_null_island(geoms.last()) {
            1nat
        } else {
            0nat
        }
    }
}

/// Features sitting exactly at null island. Counted and warned, not rejected.
pub fn count_null_island(geoms: &[Geometry]) -> (n: u64)
    ensures
        n == null_islands(geoms@.map_values(|g: Geometry| g@)),
{
    let ghost all = geoms@.map_values(|g: Geometry| g@);
    let mut n: u64 = 0;
    let mut i: usize = 0;
    while i < geoms.len()
        invariant
            i <= geoms@.len(),
            all == geoms@.map_values(|g: Geometry| g@),
            n <= i,
            n == null_islands(all.take(i as int)),
        decreases geoms@.len() - i,
    {
        assert(all.take(i + 1).drop_last() =~= all.take(i as int));
        assert(all.take(i + 1).last() == geoms@[i as int]@);
        if is_null_island(&geoms[i]) {
            n = n + 1;
        }
        i = i + 1;
    }
    assert(all.take(i as int) =~= all);
    n
}

/// The key `k` of the identifiers that are looked at.
pub open spec fn identifier_key(k: int) -> Seq<char> {
    if k == 0 {
        "parcelId"@
    } else if k == 1 {
        "assetId"@
    } else {
        "propertyId"@
    }
}

/// How an identifier is remembered: its key and its JSON text.
pub open spec fn marker(props: Seq<Entry>, key: Seq<char>) -> Option<Seq<char>> {
    match json::key_place(props, key) {
        Some(i) => Some(key + ":"@ + json::json_text(props[i].1)),
        None => None,
    }
}

/// The identifiers of a feature among the first `n` keys.
pub open spec fn markers_of(props: Seq<Entry>, n: nat) -> Seq<Seq<char>>
    decreases n,
{
    if n == 0 {
        Seq::empty()
    } else {
        let rest = markers_of(props, (n - 1) as nat);
        match marker(props, identifier_key(n - 1)) {
            Some(m) => rest.push(m),
            None => rest,
        }
    }
}

/// The identifiers of all features, in order.
pub open spec fn all_markers(maps: Seq<Seq<Entry>>) -> Seq<Seq<char>>
    decreases maps.len(),
{
    if maps.len() == 0 {
        Seq::empty()
    } else {
        all_markers(maps.drop_last()) + markers_of(maps.last(), 3)
    }
}

/// How many of the identifiers stood before.
pub open spec fn repeats(markers: Seq<Seq<char>>) -> nat
    decreases markers.len(),
{
    if markers.len() == 0 {
        0
    } else {
        repeats(markers.drop_last()) + if markers.drop_last().contains(markers.last()) {
            1nat
        } else {
            0nat
        }
    }
}

/// Property maps, by what they hold.
pub open spec fn map_views(maps: Seq<JsonMap>) -> Seq<Seq<Entry>> {
    maps.map_values(|m: JsonMap| m@)
}

/// The identifiers that were seen, with the number of repeats modulo two to the power of 64.
struct Seen {
    seen: StringHashMap<bool>,
    dupes: u64,
}

impl Seen {
    spec fn tracks(&self, markers: Seq<Seq<char>>) -> bool {
        &&& forall|m: Seq<char>| #[trigger]
            self.seen@.contains_key(m) <==> markers.contains(m)
        &&& self.dupes == repeats(markers) % 0x1_0000_0000_0000_0000
    }

    fn note(&mut self, m: String, Ghost(markers): Ghost<Seq<Seq<char>>>)
        requires
            old(self).tracks(markers),
        ensures
            final(self).tracks(markers.push(m@)),
    {
        if self.seen.contains_key(m.as_str()) {
            self.dupes = self.dupes.wrapping_add(1);
        }
        let ghost name = m@;
        self.seen.insert(m, true);
        proof {
            assert(markers.push(name).drop_last() =~= markers);
            assert forall|x: Seq<char>| #[trigger]
                self.seen@.contains_key(x) <==> markers.push(name).contains(x) by {
                crate::mvt::layer::place_push(markers, x, name);
            }
        }
    }
}

/// Duplicate identifiers. Returns the number of repeated ones so that callers can warn; the count
/// wraps at 64 bits.
pub fn count_duplicate_ids(properties: &[JsonMap]) -> (n: u64)
    ensures
        n == repeats(all_markers(map_views(properties@))) % 0x1_0000_0000_0000_0000,
{
    let ghost all = map_views(properties@);
    let mut seen = Seen { seen: StringHashMap::new(), dupes: 0 };
    let mut i: usize = 0;
    while i < properties.len()
        invariant
            i <= properties@.len(),
            all == map_views(properties@),
            seen.tracks(all_markers(all.take(i as int))),
        decreases properties@.len() - i,
    {
        let props = &properties[i];
        let ghost before = all_markers(all.take(i as int));
        assert(all.take(i + 1).drop_last() =~= all.take(i as int));
        assert(all.take(i + 1).last() == props@);
        let mut k: usize = 0;
        assert(before + markers_of(props@, 0) =~= before);
        while k < 3
            invariant
                k <= 3,
                seen.tracks(before + markers_of(props@, k as nat)),
            decreases 3 - k,
        {
            let key = if k == 0 {
                "parcelId"
            } else if k == 1 {
                "assetId"
            } else {
                "propertyId"
            };
            let ghost so_far = before + markers_of(props@, k as nat);
            if let Some(v) = props.get(key) {
                let m = join3(key, ":", v.to_json().as_str());
                assert(so_far.push(m@) =~= before + markers_of(props@, k as nat).push(m@));
                seen.note(m, Ghost(so_far));
            }
            k = k + 1;
        }
        i = i + 1;
    }
    assert(all.take(i as int) =~= all);
    seen.dupes
}

/// Rejects an empty normalized dataset.
pub fn require_non_empty(feature_count: usize, format: &str) -> (r: IngestResult<()>)
    ensures
        feature_count > 0 ==> r is Ok,
        feature_count == 0 ==> (r matches Err(IngestError::EmptyDataset(m)) && m@ == format@
            + " contained no usable features"@),
{
    if feature_count == 0 {
        return Err(IngestError::EmptyDataset(join2(format, " contained no usable features")));
    }
    Ok(())
}

} // verus!
