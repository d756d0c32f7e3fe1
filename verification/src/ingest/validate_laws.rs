//! Which uploads are let through, and what is counted to warn of.
use vstd::prelude::*;
use crate::double::Double;
use crate::geometry;
use crate::geometry::GeometryView;
use crate::ingest::validate;
use crate::json;
use crate::json::Entry;
use crate::model::SourceFormat;
use crate::picking;
use crate::scan;
use crate::text;
use crate::text_laws;

verus! {

/// A content type that GeoJSON comes with.
pub open spec fn geojson_type(ct: Seq<char>) -> bool {
    ct == "application/geo+json"@ || ct == "application/json"@ || ct == "text/plain"@ || ct
        == "application/octet-stream"@
}

/// A content type that zipped shapefiles come with.
pub open spec fn zip_type(ct: Seq<char>) -> bool {
    ct == "application/zip"@ || ct == "application/x-zip-compressed"@ || ct
        == "application/octet-stream"@
}

/// An upload is let through exactly where its name ends, in whatever case, with an extension of
/// its format and its content type, where it gives one, is one of that format; no other format
/// is let through.
pub proof fn uploads_match_their_format(name: Seq<char>, ct: Option<Seq<char>>)
    ensures
        validate::file_type_fault(name, ct, SourceFormat::GeoJson) is None <==> (scan::has_suffix(
            text::lowercase(name),
            ".geojson"@,
        ) || scan::has_suffix(text::lowercase(name), ".json"@)) && (ct matches Some(t)
            ==> geojson_type(validate::bare_content_type(t))),
        validate::file_type_fault(name, ct, SourceFormat::Shapefile) is None <==> scan::has_suffix(
            text::lowercase(name),
            ".zip"@,
        ) && (ct matches Some(t) ==> zip_type(validate::bare_content_type(t))),
        validate::file_type_fault(name, ct, SourceFormat::Kml) is Some,
        validate::file_type_fault(name, ct, SourceFormat::GeoPackage) is Some,
        validate::file_type_fault(name, ct, SourceFormat::FlatGeobuf) is Some,
{
}

/// What is said of an upload with the wrong name names it, the format and what was expected; what
/// is said of a wrong content type names that and the format.
pub proof fn refusals_name_the_upload(name: Seq<char>, ct: Option<Seq<char>>, format: SourceFormat)
    requires
        validate::file_type_fault(name, ct, format) is Some,
    ensures
        ({
            let msg = validate::file_type_fault(name, ct, format)->Some_0;
            let expected = match format {
                SourceFormat::GeoJson => ".geojson/.json"@,
                SourceFormat::Shapefile => ".zip"@,
                _ => "no supported extension"@,
            };
            if validate::file_type_fault(name, None, format) is Some {
                msg == "file "@ + text::debug_quoted(name) + " does not match declared format "@
                    + format.name() + " (expected "@ + expected + ")"@
            } else {
                ct matches Some(t) && msg == "content type "@ + text::debug_quoted(
                    validate::bare_content_type(t),
                ) + " does not match declared format "@ + format.name()
            }
        }),
{
}

/// A content type counts without its parameters, without white space around it and in lower case.
pub proof fn parameters_do_not_count(ct: Seq<char>, parameters: Seq<char>)
    requires
        !ct.contains(';'),
    ensures
        validate::bare_content_type(ct) == text::lowercase(scan::trimmed(ct)),
        validate::bare_content_type(ct + seq![';'] + parameters) == validate::bare_content_type(ct),
{
    text_laws::pieces_stand_between_separators(ct, ';', parameters, 0);
}

/// A zero, of either sign.
pub open spec fn zero(d: Double) -> bool {
    d.bits == 0 || d.bits == 0x8000_0000_0000_0000
}

/// A geometry sits at null island exactly where it is a single point and both its coordinates are
/// zero.
pub proof fn null_island_is_at_zero(g: GeometryView)
    ensures
        validate::at_null_island(g) <==> geometry::coords(g).len() == 1 && zero(
            geometry::coords(g)[0].x,
        ) && zero(geometry::coords(g)[0].y),
{
}

/// A geometry at null island.
pub open spec fn if_at_null_island() -> spec_fn(GeometryView) -> Option<GeometryView> {
    |g: GeometryView|
        if validate::at_null_island(g) {
            Some(g)
        } else {
            None
        }
}

/// The geometries at null island are counted, each of them once.
pub proof fn null_islands_are_counted(geoms: Seq<GeometryView>)
    ensures
        exists|out: Seq<GeometryView>|
            out.len() == validate::null_islands(geoms) && #[trigger] picking::picked(
                geoms,
                if_at_null_island(),
                out,
            ),
    decreases geoms.len(),
{
    if geoms.len() == 0 {
        picking::picked_of_nothing(geoms, if_at_null_island());
    } else {
        let d = geoms.drop_last();
        null_islands_are_counted(d);
        let rest = choose|out: Seq<GeometryView>|
            out.len() == validate::null_islands(d) && #[trigger] picking::picked(
                d,
                if_at_null_island(),
                out,
            );
        let out = match if_at_null_island()(geoms.last()) {
            Some(g) => rest.push(g),
            None => rest,
        };
        picking::picked_grows(geoms, if_at_null_island(), rest, out);
    }
}

/// The keys of the identifiers that are looked at.
pub open spec fn identifier_keys() -> Seq<Seq<char>> {
    seq!["parcelId"@, "assetId"@, "propertyId"@]
}

/// How the identifier under a key is remembered, where the feature has one.
pub open spec fn remembered(props: Seq<Entry>) -> spec_fn(Seq<char>) -> Option<Seq<char>> {
    |key: Seq<char>|
        match json::value_of(props, key) {
            Some(v) => Some(key + ":"@ + json::json_text(v)),
            None => None,
        }
}

/// Every identifier of a feature is looked at, with its key and its value.
pub proof fn identifiers_are_looked_at(props: Seq<Entry>)
    ensures
        picking::picked(identifier_keys(), remembered(props), validate::markers_of(props, 3)),
{
    let keys = identifier_keys();
    let f = remembered(props);
    assert(keys.take(3) =~= keys);
    assert(keys.take(0).len() == 0);
    picking::picked_of_nothing(keys.take(0), f);
    assert(validate::markers_of(props, 0) =~= Seq::empty());
    assert(keys.take(1).drop_last() =~= keys.take(0));
    picking::picked_grows(
        keys.take(1),
        f,
        validate::markers_of(props, 0),
        validate::markers_of(props, 1),
    );
    assert(keys.take(2).drop_last() =~= keys.take(1));
    picking::picked_grows(
        keys.take(2),
        f,
        validate::markers_of(props, 1),
        validate::markers_of(props, 2),
    );
    assert(keys.take(3).drop_last() =~= keys.take(2));
    picking::picked_grows(
        keys.take(3),
        f,
        validate::markers_of(props, 2),
        validate::markers_of(props, 3),
    );
}

/// The identifiers of a feature, as a function.
pub open spec fn markers() -> spec_fn(Seq<Entry>) -> Seq<Seq<char>> {
    |props: Seq<Entry>| validate::markers_of(props, 3)
}

/// The identifiers of all features are looked at, feature by feature.
pub proof fn all_features_are_looked_at(maps: Seq<Seq<Entry>>)
    ensures
        validate::all_markers(maps) == maps.map_values(markers()).flatten(),
    decreases maps.len(),
{
    let lists = maps.map_values(markers());
    if maps.len() == 0 {
        assert(lists =~= Seq::empty());
        assert(lists.flatten() =~= Seq::empty());
    } else {
        let d = maps.drop_last();
        all_features_are_looked_at(d);
        let front = d.map_values(markers());
        assert(lists =~= front.push(validate::markers_of(maps.last(), 3)));
        front.lemma_flatten_push(validate::markers_of(maps.last(), 3));
    }
}

/// As many identifiers repeat one before them as there are more of them than different ones.
pub proof fn repeats_are_what_is_not_new(markers: Seq<Seq<char>>)
    ensures
        validate::repeats(markers) + markers.to_set().len() == markers.len(),
    decreases markers.len(),
{
    if markers.len() == 0 {
        assert(markers.to_set() =~= Set::empty());
    } else {
        let d = markers.drop_last();
        let m = markers.last();
        repeats_are_what_is_not_new(d);
        assert(markers =~= d.push(m));
        vstd::seq_lib::seq_to_set_is_finite(d);
        assert(markers.to_set() =~= d.to_set().insert(m)) by {
            assert forall|x: Seq<char>| markers.to_set().contains(x) <==> d.to_set().insert(
                m,
            ).contains(x) by {
                if markers.contains(x) {
                    let i = choose|i: int| 0 <= i < markers.len() && markers[i] == x;
                    if i < d.len() {
                        assert(d[i] == x);
                    }
                }
                if d.contains(x) {
                    let i = choose|i: int| 0 <= i < d.len() && d[i] == x;
                    assert(markers[i] == x);
                }
                assert(markers[markers.len() - 1] == m);
            }
        }
    }
}

} // verus!
