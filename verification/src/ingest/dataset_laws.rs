//! What a file becomes: every usable feature, cleaned, with the box around all of them and what
//! there is to warn of.
use vstd::prelude::*;
use vstd::utf8::*;
use crate::config::PropertyPolicy;
use crate::geometry;
use crate::geometry::{Coord, GeometryView};
use crate::ingest::crs;
use crate::ingest::crs::CrsInfo;
use crate::ingest::document::ParsedView;
use crate::ingest::error::{IngestError, IngestResult};
use crate::ingest::normalize;
use crate::ingest::normalize::{CrsPolicy, Normalization, NormalizedDataset};
use crate::ingest::normalize_laws;
use crate::ingest::shapefile::bundle;
use crate::ingest::validate;
use crate::json;
use crate::json::Entry;
use crate::model::Bbox;
use crate::picking;
use crate::properties::AttrMode;
use crate::property_laws;
use crate::repair;
use crate::sorted;
use crate::text;

verus! {

/// An entry counts for the bytes of its key and of its JSON text.
pub proof fn entries_count_for_their_bytes(key: Seq<char>, v: json::JsonView)
    ensures
        normalize::entry_size((key, v)) == encode_utf8(key).len() + encode_utf8(
            json::json_text(v),
        ).len(),
{
}

/// An entry whose key the policy lets in.
pub open spec fn if_let_in(policy: PropertyPolicy) -> spec_fn(Entry) -> Option<Entry> {
    |e: Entry|
        if property_laws::lets_in(policy, AttrMode::Full, e.0) {
            Some(e)
        } else {
            None
        }
}

/// `out` is the front of what the policy lets in, cut off only where a cap is reached.
pub open spec fn cut_at_caps(full: Seq<Entry>, out: Seq<Entry>, fields: nat, bytes: nat) -> bool {
    &&& out.len() <= full.len()
    &&& out == full.take(out.len() as int)
    &&& out.len() < full.len() ==> out.len() >= fields || normalize_laws::total_size(out)
        + normalize::entry_size(full[out.len() as int]) > bytes
}

proof fn cleaning(entries: Seq<Entry>, policy: PropertyPolicy, taken: nat, used: nat) -> (full: Seq<
    Entry,
>)
    requires
        taken <= policy.max_fields_per_feature,
        used <= policy.max_property_bytes_per_feature,
    ensures
        picking::picked(entries, if_let_in(policy), full),
        cut_at_caps(
            full,
            normalize::clean(entries, policy, taken, used),
            (policy.max_fields_per_feature - taken) as nat,
            (policy.max_property_bytes_per_feature - used) as nat,
        ),
    decreases entries.len(),
{
    let f = if_let_in(policy);
    let out = normalize::clean(entries, policy, taken, used);
    if entries.len() == 0 {
        picking::picked_of_nothing(entries, f);
        assert(Seq::<Entry>::empty().take(0) =~= out);
        Seq::empty()
    } else {
        let e = entries[0];
        let rest = entries.skip(1);
        property_laws::policies_go_by_their_lists(policy, AttrMode::Full, e.0);
        if f(e) is None {
            let tail = cleaning(rest, policy, taken, used);
            picking::picked_starts(entries, f, tail);
            tail
        } else {
            let more = used + normalize::entry_size(e);
            if taken < policy.max_fields_per_feature && more
                <= policy.max_property_bytes_per_feature {
                let tail = cleaning(rest, policy, taken + 1, more);
                picking::picked_starts(entries, f, tail);
                let full = seq![e] + tail;
                let t = normalize::clean(rest, policy, taken + 1, more);
                assert(out =~= seq![e] + t);
                assert(out.skip(1) =~= t);
                assert(out[0] == e);
                assert(normalize_laws::total_size(out) == normalize::entry_size(e)
                    + normalize_laws::total_size(t));
                assert(full.take(out.len() as int) =~= seq![e] + tail.take(t.len() as int));
                assert(out =~= full.take(out.len() as int));
                if out.len() < full.len() {
                    assert(full[out.len() as int] == tail[t.len() as int]);
                }
                full
            } else {
                let tail = picking::can_pick(rest, f);
                picking::picked_starts(entries, f, tail);
                let full = seq![e] + tail;
                assert(out =~= Seq::empty());
                assert(full.take(0) =~= out);
                assert(full[0] == e);
                assert(normalize_laws::total_size(out) == 0);
                full
            }
        }
    }
}

/// Cleaning keeps every property that the policy lets in, unchanged and in the order of the keys,
/// until the number of fields or of bytes is used up.
pub proof fn cleaning_keeps_what_is_let_in(props: Seq<Entry>, policy: PropertyPolicy)
    ensures
        exists|full: Seq<Entry>|
            {
                &&& #[trigger] picking::picked(sorted::by_key(props), if_let_in(policy), full)
                &&& cut_at_caps(
                    full,
                    normalize::cleaned(props, policy),
                    policy.max_fields_per_feature as nat,
                    policy.max_property_bytes_per_feature as nat,
                )
            },
{
    let full = cleaning(sorted::by_key(props), policy, 0, 0);
}

/// A feature with its geometry repaired, where that can be done.
pub open spec fn if_repairable() -> spec_fn(ParsedView) -> Option<ParsedView> {
    |f: ParsedView|
        match repair::repaired(f.geometry) {
            Some(geometry) => Some(
                ParsedView { id: f.id, geometry, properties: f.properties },
            ),
            None => None,
        }
}

/// Every feature whose geometry can be repaired stays, with its id and its properties.
pub proof fn repairable_features_stay(fs: Seq<ParsedView>)
    ensures
        picking::picked(fs, if_repairable(), normalize::repaired_features(fs)),
    decreases fs.len(),
{
    if fs.len() == 0 {
        picking::picked_of_nothing(fs, if_repairable());
        assert(fs =~= Seq::empty());
    } else {
        repairable_features_stay(fs.drop_last());
        picking::picked_grows(
            fs,
            if_repairable(),
            normalize::repaired_features(fs.drop_last()),
            normalize::repaired_features(fs),
        );
    }
}

/// A feature with coordinates, its properties cleaned.
pub open spec fn if_usable(policy: PropertyPolicy) -> spec_fn(ParsedView) -> Option<ParsedView> {
    |f: ParsedView|
        if geometry::coords(f.geometry).len() > 0 {
            Some(
                ParsedView {
                    id: f.id,
                    geometry: f.geometry,
                    properties: normalize::cleaned(f.properties, policy),
                },
            )
        } else {
            None
        }
}

/// Every feature with coordinates stays, with its id, its geometry and its cleaned properties.
pub proof fn usable_features_stay(fs: Seq<ParsedView>, policy: PropertyPolicy)
    ensures
        picking::picked(fs, if_usable(policy), normalize::usable(fs, policy)),
    decreases fs.len(),
{
    if fs.len() == 0 {
        picking::picked_of_nothing(fs, if_usable(policy));
        assert(fs =~= Seq::empty());
    } else {
        usable_features_stay(fs.drop_last(), policy);
        picking::picked_grows(
            fs,
            if_usable(policy),
            normalize::usable(fs.drop_last(), policy),
            normalize::usable(fs, policy),
        );
    }
}

/// A feature as a dataset has it: repaired, with coordinates, its properties cleaned.
pub open spec fn if_kept(policy: PropertyPolicy) -> spec_fn(ParsedView) -> Option<ParsedView> {
    |f: ParsedView|
        match repair::repaired(f.geometry) {
            Some(geometry) => if geometry::coords(geometry).len() > 0 {
                Some(
                    ParsedView {
                        id: f.id,
                        geometry,
                        properties: normalize::cleaned(f.properties, policy),
                    },
                )
            } else {
                None
            },
            None => None,
        }
}

/// A dataset in longitude and latitude has every feature of its file that can be repaired and has
/// coordinates, in order; the others are counted as rejected; and it names the system of the file.
pub proof fn datasets_have_every_usable_feature(
    d: NormalizedDataset,
    fs: Seq<ParsedView>,
    crs: CrsInfo,
    policy: PropertyPolicy,
    format: Seq<char>,
)
    requires
        fs.len() <= u64::MAX,
        normalize::finishes(Ok(Normalization::Done(d)), fs, crs, policy, format),
    ensures
        picking::picked(fs, if_kept(policy), d@.features),
        d@.features.len() > 0,
        d@.rejected_features == fs.len() - d@.features.len(),
        d@.crs == crs,
{
    let repaired = normalize::repaired_features(fs);
    repairable_features_stay(fs);
    usable_features_stay(repaired, policy);
    picking::picked_twice(
        fs,
        if_repairable(),
        repaired,
        if_usable(policy),
        d@.features,
        if_kept(policy),
    );
    normalize_laws::features_are_kept_or_counted(d, fs, crs, policy, format);
}

/// The coordinates of features, one feature after the other.
pub open spec fn all_coords(fs: Seq<ParsedView>) -> Seq<Coord>
    decreases fs.len(),
{
    if fs.len() == 0 {
        Seq::empty()
    } else {
        all_coords(fs.drop_last()) + geometry::coords(fs.last().geometry)
    }
}

/// Every bound of a box is the number of one of the points.
pub open spec fn touches(b: Bbox, cs: Seq<Coord>) -> bool {
    &&& exists|i: int| 0 <= i < cs.len() && (#[trigger] cs[i]).x == b.min_lon
    &&& exists|i: int| 0 <= i < cs.len() && (#[trigger] cs[i]).y == b.min_lat
    &&& exists|i: int| 0 <= i < cs.len() && (#[trigger] cs[i]).x == b.max_lon
    &&& exists|i: int| 0 <= i < cs.len() && (#[trigger] cs[i]).y == b.max_lat
}

proof fn touching_goes_on(b: Bbox, cs: Seq<Coord>, more: Seq<Coord>)
    requires
        touches(b, cs),
    ensures
        touches(b, cs + more),
{
    let all = cs + more;
    let a = choose|i: int| 0 <= i < cs.len() && (#[trigger] cs[i]).x == b.min_lon;
    let c = choose|i: int| 0 <= i < cs.len() && (#[trigger] cs[i]).y == b.min_lat;
    let d = choose|i: int| 0 <= i < cs.len() && (#[trigger] cs[i]).x == b.max_lon;
    let e = choose|i: int| 0 <= i < cs.len() && (#[trigger] cs[i]).y == b.max_lat;
    assert(all[a] == cs[a] && all[c] == cs[c] && all[d] == cs[d] && all[e] == cs[e]);
}

proof fn widened_boxes_touch(b: Option<Bbox>, before: Seq<Coord>, cs: Seq<Coord>)
    requires
        match b {
            Some(x) => touches(x, before),
            None => before.len() == 0,
        },
    ensures
        match normalize::widened(b, cs) {
            Some(x) => touches(x, before + cs),
            None => b is None && cs.len() == 0,
        },
    decreases cs.len(),
{
    if cs.len() == 0 {
        assert(before + cs =~= before);
    } else {
        let d = cs.drop_last();
        let c = cs.last();
        let all = before + cs;
        widened_boxes_touch(b, before, d);
        let n = all.len() - 1;
        assert(all[n] == c);
        assert(all =~= (before + d) + seq![c]);
        let x = normalize::widened(b, cs)->Some_0;
        match normalize::widened(b, d) {
            Some(y) => {
                touching_goes_on(y, before + d, seq![c]);
                let p = choose|i: int| 0 <= i < all.len() && (#[trigger] all[i]).x == y.min_lon;
                let q = choose|i: int| 0 <= i < all.len() && (#[trigger] all[i]).y == y.min_lat;
                let r = choose|i: int| 0 <= i < all.len() && (#[trigger] all[i]).x == y.max_lon;
                let s = choose|i: int| 0 <= i < all.len() && (#[trigger] all[i]).y == y.max_lat;
                assert(x.min_lon == all[p].x || x.min_lon == all[n].x);
                assert(x.min_lat == all[q].y || x.min_lat == all[n].y);
                assert(x.max_lon == all[r].x || x.max_lon == all[n].x);
                assert(x.max_lat == all[s].y || x.max_lat == all[n].y);
            },
            None => {
                assert(all[n].x == x.min_lon && all[n].y == x.min_lat);
                assert(all[n].x == x.max_lon && all[n].y == x.max_lat);
            },
        }
    }
}

/// The box of a dataset is no wider than its coordinates: every bound is one of them. There is none
/// only where there are no coordinates.
pub proof fn extents_touch_their_coordinates(fs: Seq<ParsedView>)
    ensures
        match normalize::extent(fs) {
            Some(b) => touches(b, all_coords(fs)),
            None => all_coords(fs).len() == 0,
        },
    decreases fs.len(),
{
    if fs.len() > 0 {
        let d = fs.drop_last();
        let cs = geometry::coords(fs.last().geometry);
        extents_touch_their_coordinates(d);
        widened_boxes_touch(normalize::extent(d), all_coords(d), cs);
    }
}

/// Whether a box holds a point; a number that is none has no place.
pub open spec fn encloses(b: Bbox, c: Coord) -> bool {
    &&& !c.x.nan() ==> !b.min_lon.nan() && !b.max_lon.nan() && !c.x.lt_num(b.min_lon)
        && !b.max_lon.lt_num(c.x)
    &&& !c.y.nan() ==> !b.min_lat.nan() && !b.max_lat.nan() && !c.y.lt_num(b.min_lat)
        && !b.max_lat.lt_num(c.y)
}

proof fn joined_boxes_enclose(a: Bbox, b: Bbox, c: Coord)
    requires
        encloses(a, c) || encloses(b, c),
    ensures
        encloses(a.joined(b), c),
{
}

proof fn widened_boxes_enclose(b: Option<Bbox>, cs: Seq<Coord>, c: Coord)
    requires
        (b is Some && encloses(b->Some_0, c)) || cs.contains(c),
    ensures
        normalize::widened(b, cs) matches Some(w) && encloses(w, c),
    decreases cs.len(),
{
    if cs.len() > 0 {
        let d = cs.drop_last();
        let p = cs.last();
        let point = Bbox { min_lon: p.x, min_lat: p.y, max_lon: p.x, max_lat: p.y };
        assert(encloses(point, p));
        if (b is Some && encloses(b->Some_0, c)) || d.contains(c) {
            widened_boxes_enclose(b, d, c);
            joined_boxes_enclose(normalize::widened(b, d)->Some_0, point, c);
        } else {
            let k = choose|k: int| 0 <= k < cs.len() && cs[k] == c;
            if k < d.len() {
                assert(d[k] == c);
            }
            assert(c == p);
            if let Some(before) = normalize::widened(b, d) {
                joined_boxes_enclose(before, point, c);
            }
        }
    }
}

/// The box of features holds every coordinate of every feature.
pub proof fn extents_hold_every_coordinate(fs: Seq<ParsedView>, k: int, i: int)
    requires
        0 <= k < fs.len(),
        0 <= i < geometry::coords(fs[k].geometry).len(),
    ensures
        normalize::extent(fs) matches Some(b) && encloses(b, geometry::coords(fs[k].geometry)[i]),
    decreases fs.len(),
{
    let d = fs.drop_last();
    let cs = geometry::coords(fs.last().geometry);
    let c = geometry::coords(fs[k].geometry)[i];
    if k < d.len() {
        assert(d[k] == fs[k]);
        extents_hold_every_coordinate(d, k, i);
    } else {
        assert(cs.contains(c));
    }
    widened_boxes_enclose(normalize::extent(d), cs, c);
}

/// The box of a dataset holds every coordinate of every feature of it.
pub proof fn dataset_boxes_hold_their_features(
    d: NormalizedDataset,
    fs: Seq<ParsedView>,
    crs: CrsInfo,
    policy: PropertyPolicy,
    format: Seq<char>,
    k: int,
    i: int,
)
    requires
        normalize::finishes(Ok(Normalization::Done(d)), fs, crs, policy, format),
        0 <= k < d@.features.len(),
        0 <= i < geometry::coords(d@.features[k].geometry).len(),
    ensures
        d@.bbox matches Some(b) && encloses(b, geometry::coords(d@.features[k].geometry)[i]),
{
    let repaired = normalize::repaired_features(fs);
    usable_features_stay(repaired, policy);
    let out = d@.features;
    let at = choose|at: Seq<int>| #[trigger]
        picking::picks(repaired, if_usable(policy), out, at);
    assert(0 <= at[k] < repaired.len());
    assert(if_usable(policy)(repaired[at[k]]) == Some(out[k]));
    extents_hold_every_coordinate(repaired, at[k], i);
}

/// A bundle with a description comes out with the system that the description gives, code and all.
pub proof fn bundles_take_the_described_system(
    r: IngestResult<Normalization>,
    b: bundle::BundleView,
    policy: CrsPolicy,
    wkt: Seq<char>,
)
    requires
        normalize::opens(r, b, policy),
        b.prj == Some(wkt),
        bundle::bundle_rows(b) is Ok,
    ensures
        r matches Ok(Normalization::Shapes { rows, crs }) && crs.kind == crs::kind_and_code(
            wkt,
            crs::uppercase(wkt),
        ).0 && crs.epsg == crs::kind_and_code(wkt, crs::uppercase(wkt)).1 && !crs.assumed,
{
}

/// The box of a dataset is the one around the coordinates of its repaired features.
pub proof fn datasets_have_their_box(
    d: NormalizedDataset,
    fs: Seq<ParsedView>,
    crs: CrsInfo,
    policy: PropertyPolicy,
    format: Seq<char>,
)
    requires
        normalize::finishes(Ok(Normalization::Done(d)), fs, crs, policy, format),
    ensures
        d@.bbox matches Some(b) && touches(b, all_coords(normalize::repaired_features(fs))),
        d@.bbox == normalize::extent(normalize::repaired_features(fs)),
{
    let repaired = normalize::repaired_features(fs);
    extents_touch_their_coordinates(repaired);
    usable_features_stay(repaired, policy);
    let out = d@.features;
    let at = choose|at: Seq<int>| #[trigger]
        picking::picks(repaired, if_usable(policy), out, at);
    assert(out.len() > 0);
    assert(0 <= at[0] < repaired.len());
    some_coordinates(repaired, at[0]);
}

proof fn some_coordinates(fs: Seq<ParsedView>, i: int)
    requires
        0 <= i < fs.len(),
        geometry::coords(fs[i].geometry).len() > 0,
    ensures
        all_coords(fs).len() > 0,
    decreases fs.len(),
{
    if i < fs.len() - 1 {
        assert(fs.drop_last()[i] == fs[i]);
        some_coordinates(fs.drop_last(), i);
    }
}

/// Success is owed: a file in longitude and latitude of which one feature is usable becomes a
/// dataset.
pub proof fn usable_files_become_datasets(
    r: IngestResult<Normalization>,
    fs: Seq<ParsedView>,
    crs: CrsInfo,
    policy: PropertyPolicy,
    format: Seq<char>,
    i: int,
)
    requires
        normalize::finishes(r, fs, crs, policy, format),
        crs.kind is Wgs84 || crs.kind is Nad83,
        0 <= i < fs.len(),
        if_kept(policy)(fs[i]) is Some,
    ensures
        r matches Ok(Normalization::Done(_)),
{
    let repaired = normalize::repaired_features(fs);
    repairable_features_stay(fs);
    usable_features_stay(repaired, policy);
    picking::picked_twice(
        fs,
        if_repairable(),
        repaired,
        if_usable(policy),
        normalize::usable(repaired, policy),
        if_kept(policy),
    );
    let out = normalize::usable(repaired, policy);
    let at = choose|at: Seq<int>| #[trigger] picking::picks(fs, if_kept(policy), out, at);
    assert(at.contains(i));
}

/// A file without usable features is refused: with the number of its features where there are any,
/// as empty where there are none.
pub proof fn useless_files_are_refused(
    r: IngestResult<Normalization>,
    fs: Seq<ParsedView>,
    crs: CrsInfo,
    policy: PropertyPolicy,
    format: Seq<char>,
)
    requires
        fs.len() <= u64::MAX,
        normalize::finishes(r, fs, crs, policy, format),
        crs.kind is Wgs84 || crs.kind is Nad83,
        forall|i: int| 0 <= i < fs.len() ==> if_kept(policy)(#[trigger] fs[i]) is None,
    ensures
        fs.len() > 0 ==> (r matches Err(IngestError::GeometryErrors { unrecoverable, first })
            && unrecoverable == fs.len() && first@
            == "all features failed geometry repair (degenerate rings, non-finite coordinates)"@),
        fs.len() == 0 ==> (r matches Err(IngestError::EmptyDataset(m)) && m@ == format
            + " contained no usable features"@),
{
    let repaired = normalize::repaired_features(fs);
    let kept = normalize::usable(repaired, policy);
    repairable_features_stay(fs);
    usable_features_stay(repaired, policy);
    picking::picked_twice(
        fs,
        if_repairable(),
        repaired,
        if_usable(policy),
        kept,
        if_kept(policy),
    );
    picking::picked_is_not_longer(fs, if_repairable(), repaired);
    let at = choose|at: Seq<int>| #[trigger] picking::picks(fs, if_kept(policy), kept, at);
    if kept.len() > 0 {
        assert(if_kept(policy)(fs[at[0]]) is Some);
    }
}

/// Coordinates in Web Mercator are handed on with every repaired feature; coordinates in a system
/// that is not supported are refused by its name.
pub proof fn other_systems_are_not_finished(
    r: IngestResult<Normalization>,
    fs: Seq<ParsedView>,
    crs: CrsInfo,
    policy: PropertyPolicy,
    format: Seq<char>,
)
    requires
        normalize::finishes(r, fs, crs, policy, format),
    ensures
        crs.kind is WebMercator ==> (r matches Ok(
            Normalization::Mercator { features, rejected, crs: c },
        ) && picking::picked(
            fs,
            if_repairable(),
            crate::ingest::document::parsed_views(features@),
        ) && rejected == fs.len() - features@.len() && c == crs),
        (crs.kind is Unsupported || crs.kind is Unknown) && (exists|i: int|
            0 <= i < fs.len() && (repair::repaired((#[trigger] fs[i]).geometry) matches Some(g)
                && geometry::coords(g).len() > 0)) ==> (r matches Err(
            IngestError::UnsupportedCrs(m),
        ) && m@ == crs.name()),
{
    let repaired = normalize::repaired_features(fs);
    repairable_features_stay(fs);
    picking::picked_is_not_longer(fs, if_repairable(), repaired);
    if (crs.kind is Unsupported || crs.kind is Unknown) && (exists|i: int|
        0 <= i < fs.len() && (repair::repaired((#[trigger] fs[i]).geometry) matches Some(g)
            && geometry::coords(g).len() > 0)) {
        let i = choose|i: int|
            0 <= i < fs.len() && (repair::repaired((#[trigger] fs[i]).geometry) matches Some(g)
                && geometry::coords(g).len() > 0);
        let at = choose|at: Seq<int>| #[trigger]
            picking::picks(fs, if_repairable(), repaired, at);
        assert(if_repairable()(fs[i]) is Some);
        assert(at.contains(i));
        let k = choose|k: int| 0 <= k < at.len() && at[k] == i;
        assert(geometry::coords(repaired[k].geometry).len() > 0);
        assert(normalize::has_coords(repaired));
    }
}

/// What there is to warn of: an assumed system, features at null island, repeated identifiers,
/// rejected features; each where it happened, in this order, with its number.
pub proof fn warnings_say_what_happened(assumed: bool, islands: nat, dupes: nat, rejected: nat)
    ensures
        ({
            let w = normalize::warnings(assumed, islands, dupes, rejected);
            let a: int = if assumed {
                1
            } else {
                0
            };
            let b: int = if islands > 0 {
                a + 1
            } else {
                a
            };
            let c: int = if dupes > 0 {
                b + 1
            } else {
                b
            };
            let d: int = if rejected > 0 {
                c + 1
            } else {
                c
            };
            &&& w.len() == d
            &&& assumed ==> w[0] == "CRS missing in source; EPSG:4326 assumed (flagged in metadata)"@
            &&& islands > 0 ==> w[a] == text::decimal(islands)
                + " feature(s) located exactly at null island (0,0)"@
            &&& dupes > 0 ==> w[b] == text::decimal(dupes)
                + " duplicate parcel/asset identifier(s) detected"@
            &&& rejected > 0 ==> w[c] == text::decimal(rejected)
                + " feature(s) rejected as unrecoverable"@
        }),
{
}

/// A dataset warns of what happened to it: the numbers are those of its own features.
pub proof fn datasets_warn_of_their_features(
    d: NormalizedDataset,
    fs: Seq<ParsedView>,
    crs: CrsInfo,
    policy: PropertyPolicy,
    format: Seq<char>,
)
    requires
        fs.len() <= u64::MAX,
        normalize::finishes(Ok(Normalization::Done(d)), fs, crs, policy, format),
    ensures
        d@.warnings == normalize::warnings(
            d@.crs.assumed,
            validate::null_islands(Seq::new(d@.features.len(), |i: int| d@.features[i].geometry)),
            validate::repeats(
                validate::all_markers(
                    Seq::new(d@.features.len(), |i: int| d@.features[i].properties),
                ),
            ) % 0x1_0000_0000_0000_0000,
            d@.rejected_features as nat,
        ),
{
    let repaired = normalize::repaired_features(fs);
    repairable_features_stay(fs);
    picking::picked_is_not_longer(fs, if_repairable(), repaired);
    usable_features_stay(repaired, policy);
    picking::picked_is_not_longer(repaired, if_usable(policy), d@.features);
    assert(normalize::geometries(d@.features) =~= Seq::new(
        d@.features.len(),
        |i: int| d@.features[i].geometry,
    ));
    assert(normalize::property_maps(d@.features) =~= Seq::new(
        d@.features.len(),
        |i: int| d@.features[i].properties,
    ));
}

/// The rows of a shapefile are numbered from one, each with its own geometry and properties.
pub proof fn rows_are_numbered_from_one(pairs: Seq<(GeometryView, Seq<Entry>)>, i: int)
    requires
        0 <= i < pairs.len() < u64::MAX,
    ensures
        normalize::numbered(pairs).len() == pairs.len(),
        normalize::numbered(pairs)[i].id == Some((i + 1) as u64),
        normalize::numbered(pairs)[i].geometry == pairs[i].0,
        normalize::numbered(pairs)[i].properties == pairs[i].1,
{
}

/// GeoJSON is always in longitude and latitude. A system that nothing is known of is assumed to be
/// the same, and marked as assumed.
pub proof fn systems_without_a_description()
    ensures
        normalize::geojson_crs().kind is Wgs84,
        normalize::geojson_crs().epsg == Some(4326u32),
        !normalize::geojson_crs().assumed,
        normalize::assumed_crs().kind is Wgs84,
        normalize::assumed_crs().epsg == Some(4326u32),
        normalize::assumed_crs().assumed,
        normalize::declared_kind(None) is Unknown,
{
}

/// A bundle without a description of its system is refused where a known one is required, whatever
/// its rows; otherwise its rows come out with the assumed system. With a description they come out
/// with the described one, under either policy.
pub proof fn bundles_without_a_description(
    r: IngestResult<Normalization>,
    b: bundle::BundleView,
    policy: CrsPolicy,
)
    requires
        normalize::opens(r, b, policy),
    ensures
        b.prj is None && policy is RequireKnown ==> (r matches Err(IngestError::UnknownCrs(m))
            && m@ == "missing .prj; resubmit with CRS confirmation (AssumeWgs84) or a .prj file"@),
        b.prj is None && policy is AssumeWgs84 && bundle::bundle_rows(b) is Ok ==> (r matches Ok(
            Normalization::Shapes { rows, crs },
        ) && crs.kind is Wgs84 && crs.assumed && bundle::row_views(rows@)
            == bundle::bundle_rows(b)->Ok_0),
        b.prj is Some && bundle::bundle_rows(b) is Ok ==> (r matches Ok(
            Normalization::Shapes { rows, crs },
        ) && !crs.assumed && (crs.raw matches Some(raw) && Some(raw@) == b.prj)
            && bundle::row_views(rows@) == bundle::bundle_rows(b)->Ok_0),
        (b.prj is Some || policy is AssumeWgs84) && bundle::bundle_rows(b) is Err ==> (r matches Err(
            e,
        ) && e.is_shapefile(bundle::bundle_rows(b)->Err_0)),
{
    if let Some(wkt) = b.prj {
        described_systems_are_known(wkt);
    }
}

proof fn described_systems_are_known(wkt: Seq<char>)
    ensures
        !(normalize::declared_kind(Some(wkt)) is Unknown),
{
}

} // verus!
