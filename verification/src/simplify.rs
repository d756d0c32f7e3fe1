//! What simplification leaves of a geometry.
//!
//! Below a threshold zoom the lines and rings of a geometry are thinned. Thinning can leave less
//! than a shape needs; such parts are dropped here.
use vstd::prelude::*;
use crate::geometry;
use crate::geometry::{Coord, Geometry, GeometryView, Polygon, PolygonView};
use crate::picking;

verus! {

/// Whether geometry is thinned at a zoom: only below the threshold, and never for an empty extent.
pub open spec fn thinned_at(z: u8, simplify_below_zoom: u8, extent: u32) -> bool {
    z < simplify_below_zoom && extent != 0
}

/// Whether geometry is thinned at a zoom; otherwise it is preserved verbatim.
pub fn thins_at(z: u8, simplify_below_zoom: u8, extent: u32) -> (b: bool)
    ensures
        b == thinned_at(z, simplify_below_zoom, extent),
{
    z < simplify_below_zoom && extent != 0
}

/// A ring is valid when it has at least four coordinates (three distinct ones and the closure).
pub fn valid_ring(ring: &[Coord]) -> (b: bool)
    ensures
        b == (ring@.len() >= 4),
{
    ring.len() >= 4
}

/// The lists with at least `least` coordinates.
pub open spec fn long_enough(lists: Seq<Seq<Coord>>, least: nat) -> Seq<Seq<Coord>>
    decreases lists.len(),
{
    if lists.len() == 0 {
        lists
    } else {
        let rest = long_enough(lists.drop_last(), least);
        if lists.last().len() >= least {
            rest.push(lists.last())
        } else {
            rest
        }
    }
}

/// A thinned polygon with its valid rings, where its exterior is one.
pub open spec fn kept_polygon(p: PolygonView) -> Option<PolygonView> {
    if p.exterior.len() >= 4 {
        Some(Polygon::made(p.exterior, long_enough(p.interiors, 4)))
    } else {
        None
    }
}

/// The thinned polygons that are left.
pub open spec fn kept_polygons(polygons: Seq<PolygonView>) -> Seq<PolygonView>
    decreases polygons.len(),
{
    if polygons.len() == 0 {
        polygons
    } else {
        let rest = kept_polygons(polygons.drop_last());
        match kept_polygon(polygons.last()) {
            Some(p) => rest.push(p),
            None => rest,
        }
    }
}

/// What is left of a geometry whose lines and rings were thinned.
pub open spec fn kept_shape(g: GeometryView) -> Option<GeometryView> {
    match g {
        GeometryView::LineString(l) => if l.len() >= 2 {
            Some(g)
        } else {
            None
        },
        GeometryView::MultiLineString(ls) => if long_enough(ls, 2).len() > 0 {
            Some(GeometryView::MultiLineString(long_enough(ls, 2)))
        } else {
            None
        },
        GeometryView::Polygon(p) => match kept_polygon(p) {
            Some(p) => Some(GeometryView::Polygon(p)),
            None => None,
        },
        GeometryView::MultiPolygon(ps) => if kept_polygons(ps).len() > 0 {
            Some(GeometryView::MultiPolygon(kept_polygons(ps)))
        } else {
            None
        },
        _ => Some(g),
    }
}

pub fn keep_long(lists: Vec<Vec<Coord>>, least: usize) -> (out: Vec<Vec<Coord>>)
    ensures
        geometry::coord_lists(out@) == long_enough(
            geometry::coord_lists(lists@),
            least as nat,
        ),
{
    let ghost all = geometry::coord_lists(lists@);
    let mut out: Vec<Vec<Coord>> = Vec::new();
    assert(geometry::coord_lists(out@) =~= long_enough(all.take(0), least as nat));
    for list in it: lists
        invariant
            it.seq() == lists@,
            all == geometry::coord_lists(lists@),
            geometry::coord_lists(out@) == long_enough(
                all.take(it.index() as int),
                least as nat,
            ),
    {
        let ghost i = it.index() as int;
        assert(all.take(i + 1).drop_last() =~= all.take(i));
        assert(all.take(i + 1).last() == list@);
        if list.len() >= least {
            let ghost before = geometry::coord_lists(out@);
            out.push(list);
            assert(geometry::coord_lists(out@) =~= before.push(list@));
        }
    }
    assert(all.take(all.len() as int) =~= all);
    out
}

fn keep_polygon(p: Polygon) -> (r: Option<Polygon>)
    ensures
        match r {
            Some(out) => kept_polygon(p@) == Some(out@),
            None => kept_polygon(p@) is None,
        },
{
    if valid_ring(p.exterior.as_slice()) {
        Some(Polygon::new(p.exterior, keep_long(p.interiors, 4)))
    } else {
        None
    }
}

/// What is left of a geometry whose lines and rings were thinned. Returns `None` if thinning
/// collapsed the geometry below its minimum viable shape.
pub fn drop_collapsed(thinned: Geometry) -> (r: Option<Geometry>)
    ensures
        match r {
            Some(g) => kept_shape(thinned@) == Some(g@),
            None => kept_shape(thinned@) is None,
        },
{
    match thinned {
        Geometry::LineString(l) => if l.len() >= 2 {
            Some(Geometry::LineString(l))
        } else {
            None
        },
        Geometry::MultiLineString(ls) => {
            let lines = keep_long(ls, 2);
            if lines.len() > 0 {
                Some(Geometry::MultiLineString(lines))
            } else {
                None
            }
        },
        Geometry::Polygon(p) => match keep_polygon(p) {
            Some(p) => Some(Geometry::Polygon(p)),
            None => None,
        },
        Geometry::MultiPolygon(ps) => {
            let ghost all = geometry::polygon_views(ps@);
            let mut out: Vec<Polygon> = Vec::new();
            assert(geometry::polygon_views(out@) =~= kept_polygons(all.take(0)));
            for p in it: ps
                invariant
                    it.seq() == ps@,
                    all == geometry::polygon_views(ps@),
                    geometry::polygon_views(out@) == kept_polygons(all.take(it.index() as int)),
            {
                let ghost i = it.index() as int;
                assert(all.take(i + 1).drop_last() =~= all.take(i));
                assert(all.take(i + 1).last() == p@);
                if let Some(kept) = keep_polygon(p) {
                    let ghost before = geometry::polygon_views(out@);
                    out.push(kept);
                    assert(geometry::polygon_views(out@) =~= before.push(kept@));
                }
            }
            assert(all.take(all.len() as int) =~= all);
            if out.len() > 0 {
                Some(Geometry::MultiPolygon(out))
            } else {
                None
            }
        },
        other => Some(other),
    }
}

/// A list with at least `least` coordinates.
pub open spec fn if_long(least: nat) -> spec_fn(Seq<Coord>) -> Option<Seq<Coord>> {
    |l: Seq<Coord>|
        if l.len() >= least {
            Some(l)
        } else {
            None
        }
}

/// Every list that is long enough stays, unchanged and in order; the others go.
pub proof fn long_lists_stay(lists: Seq<Seq<Coord>>, least: nat)
    ensures
        picking::picked(lists, if_long(least), long_enough(lists, least)),
    decreases lists.len(),
{
    if lists.len() == 0 {
        picking::picked_of_nothing(lists, if_long(least));
        assert(lists =~= Seq::empty());
    } else {
        long_lists_stay(lists.drop_last(), least);
        picking::picked_grows(
            lists,
            if_long(least),
            long_enough(lists.drop_last(), least),
            long_enough(lists, least),
        );
    }
}

/// The coordinates of a ring whose last one repeats its first one.
pub open spec fn closed(ring: Seq<Coord>) -> bool {
    ring.len() > 0 && ring[0].same(ring[ring.len() - 1])
}

/// A polygon stays exactly where its exterior has four coordinates, with that exterior and every
/// hole of four coordinates or more.
pub proof fn polygons_stay_with_their_rings(p: PolygonView)
    requires
        closed(p.exterior),
        forall|i: int| 0 <= i < p.interiors.len() ==> closed(#[trigger] p.interiors[i]),
    ensures
        match kept_polygon(p) {
            Some(out) => {
                &&& p.exterior.len() >= 4
                &&& out.exterior == p.exterior
                &&& picking::picked(p.interiors, if_long(4), out.interiors)
            },
            None => p.exterior.len() < 4,
        },
{
    long_lists_stay(p.interiors, 4);
    if let Some(out) = kept_polygon(p) {
        let holes = long_enough(p.interiors, 4);
        let at = choose|at: Seq<int>| #[trigger] picking::picks(p.interiors, if_long(4), holes, at);
        assert forall|i: int| 0 <= i < holes.len() implies closed(#[trigger] holes[i]) by {
            assert(holes[i] == p.interiors[at[i]]);
        }
        geometry::closing_adds_the_first_point(p.exterior);
        assert forall|i: int| 0 <= i < holes.len() implies geometry::close(#[trigger] holes[i])
            == holes[i] by {
            assert(closed(holes[i]));
            geometry::closing_adds_the_first_point(holes[i]);
        }
        assert(out.interiors =~= holes);
    }
}

/// What is left of a polygon, as a function.
pub open spec fn if_kept() -> spec_fn(PolygonView) -> Option<PolygonView> {
    |p: PolygonView| kept_polygon(p)
}

/// Every polygon of which something is left stays, in order.
pub proof fn kept_polygons_stay(polygons: Seq<PolygonView>)
    ensures
        picking::picked(polygons, if_kept(), kept_polygons(polygons)),
    decreases polygons.len(),
{
    if polygons.len() == 0 {
        picking::picked_of_nothing(polygons, if_kept());
        assert(polygons =~= Seq::empty());
    } else {
        kept_polygons_stay(polygons.drop_last());
        picking::picked_grows(
            polygons,
            if_kept(),
            kept_polygons(polygons.drop_last()),
            kept_polygons(polygons),
        );
    }
}

/// A geometry keeps its kind, with every part that is still a shape: a line of two points or more,
/// a polygon with an exterior of four. It goes only where no part is left. Points stay as they are.
pub proof fn shapes_keep_their_parts(g: GeometryView)
    ensures
        match g {
            GeometryView::LineString(l) => kept_shape(g) == if l.len() >= 2 {
                Some(g)
            } else {
                None
            },
            GeometryView::MultiLineString(ls) => match kept_shape(g) {
                Some(GeometryView::MultiLineString(out)) => out.len() > 0 && picking::picked(
                    ls,
                    if_long(2),
                    out,
                ),
                Some(_) => false,
                None => forall|i: int| 0 <= i < ls.len() ==> (#[trigger] ls[i]).len() < 2,
            },
            GeometryView::Polygon(p) => match kept_shape(g) {
                Some(GeometryView::Polygon(out)) => kept_polygon(p) == Some(out),
                Some(_) => false,
                None => p.exterior.len() < 4,
            },
            GeometryView::MultiPolygon(ps) => match kept_shape(g) {
                Some(GeometryView::MultiPolygon(out)) => out.len() > 0 && picking::picked(
                    ps,
                    if_kept(),
                    out,
                ),
                Some(_) => false,
                None => forall|i: int| 0 <= i < ps.len() ==> (#[trigger] ps[i]).exterior.len() < 4,
            },
            _ => kept_shape(g) == Some(g),
        },
{
    match g {
        GeometryView::MultiLineString(ls) => {
            long_lists_stay(ls, 2);
            let out = long_enough(ls, 2);
            let at = choose|at: Seq<int>| #[trigger] picking::picks(ls, if_long(2), out, at);
            if out.len() == 0 {
                assert forall|i: int| 0 <= i < ls.len() implies (#[trigger] ls[i]).len() < 2 by {
                    if ls[i].len() >= 2 {
                        assert(if_long(2)(ls[i]) is Some);
                        assert(at.contains(i));
                    }
                }
            }
        },
        GeometryView::MultiPolygon(ps) => {
            kept_polygons_stay(ps);
            let out = kept_polygons(ps);
            let at = choose|at: Seq<int>| #[trigger] picking::picks(ps, if_kept(), out, at);
            if out.len() == 0 {
                assert forall|i: int| 0 <= i < ps.len() implies (#[trigger] ps[i]).exterior.len()
                    < 4 by {
                    if ps[i].exterior.len() >= 4 {
                        assert(if_kept()(ps[i]) is Some);
                        assert(at.contains(i));
                    }
                }
            }
        },
        _ => {},
    }
}

/// Geometry is thinned below the threshold zoom only, and in tiles with an extent only.
pub proof fn high_zooms_are_not_thinned(z: u8, threshold: u8, extent: u32)
    ensures
        z >= threshold ==> !thinned_at(z, threshold, extent),
        !thinned_at(z, threshold, 0),
        z < threshold && extent > 0 ==> thinned_at(z, threshold, extent),
{
}

} // verus!
