//! What holds of every prepared dataset.
use vstd::prelude::*;
use crate::config::PropertyPolicy;
use crate::double::Double;
use crate::geometry;
use crate::geometry::Coord;
use crate::geometry::GeometryView;
use crate::model::{Bbox, GeometryKind};
use crate::picking;
use crate::properties;
use crate::properties::AttrMode;
use crate::tileset::prepare;
use crate::tileset::prepare::{PreparedView, RawView};

verus! {

/// The first number is not larger than the second.
pub open spec fn at_most(a: Double, b: Double) -> bool {
    !b.lt_num(a)
}

/// A box holds a point.
pub open spec fn holds(b: Bbox, c: Coord) -> bool {
    &&& at_most(b.min_lon, c.x) && at_most(c.x, b.max_lon)
    &&& at_most(b.min_lat, c.y) && at_most(c.y, b.max_lat)
}

/// A box is tight around points: every bound of it is the number of one of them.
pub open spec fn touches(b: Bbox, cs: Seq<Coord>) -> bool {
    &&& exists|i: int| 0 <= i < cs.len() && (#[trigger] cs[i]).x == b.min_lon
    &&& exists|i: int| 0 <= i < cs.len() && (#[trigger] cs[i]).y == b.min_lat
    &&& exists|i: int| 0 <= i < cs.len() && (#[trigger] cs[i]).x == b.max_lon
    &&& exists|i: int| 0 <= i < cs.len() && (#[trigger] cs[i]).y == b.max_lat
}

/// Points that are all finite.
pub open spec fn all_finite(cs: Seq<Coord>) -> bool {
    forall|i: int| 0 <= i < cs.len() ==> (#[trigger] cs[i]).finite()
}

/// A box whose bounds are numbers.
pub open spec fn numeric(b: Bbox) -> bool {
    !b.min_lon.nan() && !b.min_lat.nan() && !b.max_lon.nan() && !b.max_lat.nan()
}

/// The box around points holds each of them and touches them on every side.
pub proof fn boxes_fit_their_points(cs: Seq<Coord>)
    requires
        cs.len() > 0,
        all_finite(cs),
    ensures
        numeric(prepare::box_around(cs)),
        forall|i: int| 0 <= i < cs.len() ==> holds(prepare::box_around(cs), #[trigger] cs[i]),
        touches(prepare::box_around(cs), cs),
    decreases cs.len(),
{
    let b = prepare::box_around(cs);
    assert(cs[0].finite());
    if cs.len() == 1 {
        assert(cs[0].x == b.min_lon && cs[0].y == b.min_lat);
        assert(cs[0].x == b.max_lon && cs[0].y == b.max_lat);
    } else {
        let d = cs.drop_last();
        let before = prepare::box_around(d);
        let last = cs.last();
        assert(all_finite(d)) by {
            assert forall|i: int| 0 <= i < d.len() implies (#[trigger] d[i]).finite() by {
                assert(d[i] == cs[i]);
            }
        }
        boxes_fit_their_points(d);
        assert(cs[cs.len() - 1].finite());
        assert forall|i: int| 0 <= i < cs.len() implies holds(b, #[trigger] cs[i]) by {
            if i < d.len() {
                assert(d[i] == cs[i]);
                assert(holds(before, d[i]));
            }
        }
        let n = cs.len() - 1;
        assert(cs[n] == last);
        let i1 = choose|i: int| 0 <= i < d.len() && (#[trigger] d[i]).x == before.min_lon;
        let i2 = choose|i: int| 0 <= i < d.len() && (#[trigger] d[i]).y == before.min_lat;
        let i3 = choose|i: int| 0 <= i < d.len() && (#[trigger] d[i]).x == before.max_lon;
        let i4 = choose|i: int| 0 <= i < d.len() && (#[trigger] d[i]).y == before.max_lat;
        assert(cs[i1] == d[i1] && cs[i2] == d[i2] && cs[i3] == d[i3] && cs[i4] == d[i4]);
        assert(b.min_lon == cs[i1].x || b.min_lon == cs[n].x);
        assert(b.min_lat == cs[i2].y || b.min_lat == cs[n].y);
        assert(b.max_lon == cs[i3].x || b.max_lon == cs[n].x);
        assert(b.max_lat == cs[i4].y || b.max_lat == cs[n].y);
    }
}

/// The coordinates of features, one feature after the other.
pub open spec fn all_coords(features: Seq<PreparedView>) -> Seq<Coord>
    decreases features.len(),
{
    if features.len() == 0 {
        Seq::empty()
    } else {
        all_coords(features.drop_last()) + geometry::coords(features.last().geometry)
    }
}

/// Features as preparation leaves them: with coordinates, all finite, and with the box around them.
pub open spec fn boxed(features: Seq<PreparedView>) -> bool {
    forall|i: int|
        0 <= i < features.len() ==> prepare::tileable((#[trigger] features[i]).geometry)
            && features[i].bbox == prepare::box_around(geometry::coords(features[i].geometry))
}

proof fn dataset_box_fits(features: Seq<PreparedView>)
    requires
        boxed(features),
        features.len() > 0,
    ensures
        prepare::dataset_box(features) matches Some(b) && numeric(b) && (forall|i: int|
            0 <= i < all_coords(features).len() ==> holds(b, #[trigger] all_coords(features)[i]))
            && touches(b, all_coords(features)),
    decreases features.len(),
{
    let d = features.drop_last();
    let f = features.last();
    let cs = geometry::coords(f.geometry);
    let all = all_coords(features);
    assert(features[features.len() - 1] == f);
    boxes_fit_their_points(cs);
    let b = prepare::dataset_box(features)->Some_0;
    assert(boxed(d)) by {
        assert forall|i: int| 0 <= i < d.len() implies prepare::tileable(
            (#[trigger] d[i]).geometry,
        ) && d[i].bbox == prepare::box_around(geometry::coords(d[i].geometry)) by {
            assert(d[i] == features[i]);
        }
    }
    let rest = all_coords(d);
    assert(all == rest + cs);
    if d.len() == 0 {
        assert(d =~= Seq::empty());
        assert(all =~= cs);
    } else {
        dataset_box_fits(d);
        let before = prepare::dataset_box(d)->Some_0;
        assert forall|i: int| 0 <= i < all.len() implies holds(b, #[trigger] all[i]) by {
            if i < rest.len() {
                assert(all[i] == rest[i]);
                assert(holds(before, rest[i]));
                in_order(rest[i], d, i);
            } else {
                assert(all[i] == cs[i - rest.len()]);
                assert(holds(f.bbox, cs[i - rest.len()]));
                assert(cs[i - rest.len()].finite());
            }
        }
        joined_touches(before, f.bbox, rest, cs);
    }
}

/// The coordinates of prepared features are finite.
proof fn in_order(c: Coord, features: Seq<PreparedView>, i: int)
    requires
        boxed(features),
        0 <= i < all_coords(features).len(),
        c == all_coords(features)[i],
    ensures
        c.finite(),
    decreases features.len(),
{
    let d = features.drop_last();
    let cs = geometry::coords(features.last().geometry);
    assert(features[features.len() - 1] == features.last());
    assert(boxed(d)) by {
        assert forall|k: int| 0 <= k < d.len() implies prepare::tileable(
            (#[trigger] d[k]).geometry,
        ) && d[k].bbox == prepare::box_around(geometry::coords(d[k].geometry)) by {
            assert(d[k] == features[k]);
        }
    }
    if i < all_coords(d).len() {
        in_order(c, d, i);
    } else {
        assert(c == cs[i - all_coords(d).len()]);
        assert(prepare::tileable(features.last().geometry));
    }
}

proof fn joined_touches(a: Bbox, b: Bbox, cs: Seq<Coord>, ds: Seq<Coord>)
    requires
        touches(a, cs),
        touches(b, ds),
    ensures
        touches(a.joined(b), cs + ds),
{
    let all = cs + ds;
    let j = a.joined(b);
    let n = cs.len() as int;
    let i1 = choose|i: int| 0 <= i < cs.len() && (#[trigger] cs[i]).x == a.min_lon;
    let i2 = choose|i: int| 0 <= i < cs.len() && (#[trigger] cs[i]).y == a.min_lat;
    let i3 = choose|i: int| 0 <= i < cs.len() && (#[trigger] cs[i]).x == a.max_lon;
    let i4 = choose|i: int| 0 <= i < cs.len() && (#[trigger] cs[i]).y == a.max_lat;
    let k1 = choose|i: int| 0 <= i < ds.len() && (#[trigger] ds[i]).x == b.min_lon;
    let k2 = choose|i: int| 0 <= i < ds.len() && (#[trigger] ds[i]).y == b.min_lat;
    let k3 = choose|i: int| 0 <= i < ds.len() && (#[trigger] ds[i]).x == b.max_lon;
    let k4 = choose|i: int| 0 <= i < ds.len() && (#[trigger] ds[i]).y == b.max_lat;
    assert(all[i1] == cs[i1] && all[i2] == cs[i2] && all[i3] == cs[i3] && all[i4] == cs[i4]);
    assert(all[n + k1] == ds[k1] && all[n + k2] == ds[k2]);
    assert(all[n + k3] == ds[k3] && all[n + k4] == ds[k4]);
    assert(all[i1].x == j.min_lon || all[n + k1].x == j.min_lon);
    assert(all[i2].y == j.min_lat || all[n + k2].y == j.min_lat);
    assert(all[i3].x == j.max_lon || all[n + k3].x == j.max_lon);
    assert(all[i4].y == j.max_lat || all[n + k4].y == j.max_lat);
}

/// A feature, prepared, where it can be tiled.
pub open spec fn if_tileable(policy: PropertyPolicy) -> spec_fn(RawView) -> Option<PreparedView> {
    |raw: RawView|
        if prepare::tileable(raw.geometry) {
            Some(prepare::prepared(raw, policy))
        } else {
            None
        }
}

/// Preparation keeps the features that have coordinates, all of them finite: none of these is
/// missing, no other is there, and they keep their order.
pub proof fn preparation_loses_no_feature(raw: Seq<RawView>, policy: PropertyPolicy)
    ensures
        picking::picked(raw, if_tileable(policy), prepare::prepared_all(raw, policy)),
    decreases raw.len(),
{
    if raw.len() == 0 {
        picking::picked_of_nothing(raw, if_tileable(policy));
    } else {
        preparation_loses_no_feature(raw.drop_last(), policy);
        picking::picked_grows(
            raw,
            if_tileable(policy),
            prepare::prepared_all(raw.drop_last(), policy),
            prepare::prepared_all(raw, policy),
        );
    }
}

/// A prepared feature is its source: the id and the geometry are the same, the vertices are
/// counted, the box is the one around them, and the properties are those that the policy lets into
/// a tile.
pub proof fn preparation_keeps_the_feature(raw: RawView, policy: PropertyPolicy)
    requires
        prepare::tileable(raw.geometry),
    ensures
        ({
            let p = prepare::prepared(raw, policy);
            let cs = geometry::coords(raw.geometry);
            &&& p.id == raw.id
            &&& p.geometry == raw.geometry
            &&& p.vertex_count == cs.len()
            &&& forall|i: int| 0 <= i < cs.len() ==> holds(p.bbox, #[trigger] cs[i])
            &&& touches(p.bbox, cs)
            &&& p.properties == properties::tile_properties(raw.properties, policy, AttrMode::Full)
        }),
{
    boxes_fit_their_points(geometry::coords(raw.geometry));
}

/// A geometry can be tiled exactly where it has a coordinate and no coordinate that is not finite.
pub proof fn only_finite_geometries_are_tiled(g: GeometryView)
    ensures
        prepare::tileable(g) <==> geometry::coords(g).len() > 0 && !exists|i: int|
            0 <= i < geometry::coords(g).len() && !((#[trigger] geometry::coords(g)[i]).x.finite()
                && geometry::coords(g)[i].y.finite()),
{
}

proof fn prepared_are_boxed(raw: Seq<RawView>, policy: PropertyPolicy)
    ensures
        boxed(prepare::prepared_all(raw, policy)),
{
    let out = prepare::prepared_all(raw, policy);
    preparation_loses_no_feature(raw, policy);
    let at = choose|at: Seq<int>| #[trigger] picking::picks(raw, if_tileable(policy), out, at);
    assert forall|i: int| 0 <= i < out.len() implies prepare::tileable(
        (#[trigger] out[i]).geometry,
    ) && out[i].bbox == prepare::box_around(geometry::coords(out[i].geometry)) by {
        assert(0 <= at[i] < raw.len());
    }
}

/// The box of a dataset holds every coordinate of every retained feature, and each of its four
/// bounds is the number of one of them. A dataset without features has none.
pub proof fn dataset_boxes_hold_every_feature(raw: Seq<RawView>, policy: PropertyPolicy)
    ensures
        ({
            let features = prepare::prepared_all(raw, policy);
            match prepare::dataset_box(features) {
                Some(b) => {
                    &&& forall|k: int, i: int|
                        0 <= k < features.len() && 0 <= i < geometry::coords(
                            features[k].geometry,
                        ).len() ==> holds(b, #[trigger] geometry::coords(features[k].geometry)[i])
                    &&& touches(b, all_coords(features))
                },
                None => features.len() == 0,
            }
        }),
{
    let features = prepare::prepared_all(raw, policy);
    prepared_are_boxed(raw, policy);
    if features.len() > 0 {
        dataset_box_fits(features);
        let b = prepare::dataset_box(features)->Some_0;
        assert forall|k: int, i: int|
            0 <= k < features.len() && 0 <= i < geometry::coords(
                features[k].geometry,
            ).len() implies holds(b, #[trigger] geometry::coords(features[k].geometry)[i]) by {
            let j = place_of(features, k, i);
            assert(holds(b, all_coords(features)[j]));
        }
    }
}

/// Where a coordinate of a feature stands among all.
proof fn place_of(features: Seq<PreparedView>, k: int, i: int) -> (j: int)
    requires
        0 <= k < features.len(),
        0 <= i < geometry::coords(features[k].geometry).len(),
    ensures
        0 <= j < all_coords(features).len(),
        all_coords(features)[j] == geometry::coords(features[k].geometry)[i],
    decreases features.len(),
{
    let d = features.drop_last();
    if k < d.len() {
        assert(d[k] == features[k]);
        let j = place_of(d, k, i);
        assert(all_coords(features)[j] == all_coords(d)[j]);
        j
    } else {
        all_coords(d).len() + i
    }
}

/// A dataset has the kind of its features where they are all of one kind that has a name, and is
/// mixed otherwise.
pub proof fn datasets_have_the_kind_of_all(features: Seq<PreparedView>)
    ensures
        ({
            let kind = prepare::dataset_kind(features);
            &&& kind != GeometryKind::Mixed ==> features.len() > 0 && forall|i: int|
                0 <= i < features.len() ==> prepare::kind_of((#[trigger] features[i]).geometry)
                    == kind
            &&& kind == GeometryKind::Mixed ==> features.len() == 0 || exists|i: int|
                0 <= i < features.len() && (prepare::kind_of((#[trigger] features[i]).geometry)
                    != prepare::kind_of(features[0].geometry) || prepare::kind_of(
                    features[i].geometry,
                ) == GeometryKind::Mixed)
        }),
    decreases features.len(),
{
    if features.len() > 1 {
        let d = features.drop_last();
        let n = features.len() - 1;
        datasets_have_the_kind_of_all(d);
        assert(d[0] == features[0]);
        assert(features[n] == features.last());
        let kind = prepare::dataset_kind(features);
        if kind != GeometryKind::Mixed {
            assert forall|i: int| 0 <= i < features.len() implies prepare::kind_of(
                (#[trigger] features[i]).geometry,
            ) == kind by {
                if i < n {
                    assert(d[i] == features[i]);
                }
            }
        } else if prepare::dataset_kind(d) == GeometryKind::Mixed {
            let i = choose|i: int|
                0 <= i < d.len() && (prepare::kind_of((#[trigger] d[i]).geometry)
                    != prepare::kind_of(d[0].geometry) || prepare::kind_of(d[i].geometry)
                    == GeometryKind::Mixed);
            assert(features[i] == d[i]);
        } else {
            assert(prepare::kind_of(d[0].geometry) == prepare::dataset_kind(d));
            assert(prepare::kind_of(features[n].geometry) != prepare::kind_of(
                features[0].geometry,
            ) || prepare::kind_of(features[n].geometry) == GeometryKind::Mixed);
        }
    } else if features.len() == 1 {
    }
}

/// Each of the six kinds of geometry has its name; the others count as mixed.
pub proof fn kinds_have_names(g: GeometryView)
    ensures
        prepare::kind_of(g) == GeometryKind::Point <==> g is Point,
        prepare::kind_of(g) == GeometryKind::MultiPoint <==> g is MultiPoint,
        prepare::kind_of(g) == GeometryKind::LineString <==> g is LineString,
        prepare::kind_of(g) == GeometryKind::MultiLineString <==> g is MultiLineString,
        prepare::kind_of(g) == GeometryKind::Polygon <==> g is Polygon,
        prepare::kind_of(g) == GeometryKind::MultiPolygon <==> g is MultiPolygon,
{
}

} // verus!
