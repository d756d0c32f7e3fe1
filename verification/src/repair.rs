//! Geometry repair.
//!
//! Structural repairs that cover the observed source defects:
//! * unclosed rings are closed,
//! * repeated consecutive vertices are removed,
//! * degenerate rings (fewer than three distinct points) and parts are dropped,
//! * polygons whose exterior ring is unrecoverable are rejected.
use vstd::prelude::*;
use crate::geometry;
use crate::geometry::{close_ring, Coord, Geometry, GeometryView, Polygon, PolygonView};
use crate::picking;

verus! {

/// The coordinates that are finite.
pub open spec fn finite_only(s: Seq<Coord>) -> Seq<Coord>
    decreases s.len(),
{
    if s.len() == 0 {
        s
    } else if s.last().finite() {
        finite_only(s.drop_last()).push(s.last())
    } else {
        finite_only(s.drop_last())
    }
}

/// The coordinates without those that repeat the one kept before.
pub open spec fn distinct(s: Seq<Coord>) -> Seq<Coord>
    decreases s.len(),
{
    if s.len() == 0 {
        s
    } else {
        let rest = distinct(s.drop_last());
        if rest.len() > 0 && rest.last().same(s.last()) {
            rest
        } else {
            rest.push(s.last())
        }
    }
}

/// A line of finite coordinates without repeats; at least two are left.
pub open spec fn repaired_line(s: Seq<Coord>) -> Option<Seq<Coord>> {
    let out = distinct(finite_only(s));
    if out.len() >= 2 {
        Some(out)
    } else {
        None
    }
}

/// Three coordinates that differ from each other.
pub open spec fn three_apart(a: Coord, b: Coord, c: Coord) -> bool {
    !a.same(b) && !a.same(c) && !b.same(c)
}

/// Whether there are three distinct points among the coordinates.
pub open spec fn has_three(s: Seq<Coord>) -> bool {
    exists|i: int, j: int, k: int|
        0 <= i < j < k < s.len() && #[trigger] three_apart(s[i], s[j], s[k])
}

/// A ring of finite coordinates without repeats, closed; it has three distinct points.
pub open spec fn repaired_ring(s: Seq<Coord>) -> Option<Seq<Coord>> {
    let out = distinct(finite_only(s));
    if has_three(out) {
        Some(geometry::close(out))
    } else {
        None
    }
}

/// The lines that survive.
pub open spec fn repaired_lines(lines: Seq<Seq<Coord>>) -> Seq<Seq<Coord>>
    decreases lines.len(),
{
    if lines.len() == 0 {
        lines
    } else {
        let rest = repaired_lines(lines.drop_last());
        match repaired_line(lines.last()) {
            Some(line) => rest.push(line),
            None => rest,
        }
    }
}

/// The rings that survive.
pub open spec fn repaired_rings(rings: Seq<Seq<Coord>>) -> Seq<Seq<Coord>>
    decreases rings.len(),
{
    if rings.len() == 0 {
        rings
    } else {
        let rest = repaired_rings(rings.drop_last());
        match repaired_ring(rings.last()) {
            Some(ring) => rest.push(ring),
            None => rest,
        }
    }
}

/// A polygon whose exterior survives, with the holes that do.
pub open spec fn repaired_polygon(p: PolygonView) -> Option<PolygonView> {
    match repaired_ring(p.exterior) {
        Some(exterior) => Some(PolygonView { exterior, interiors: repaired_rings(p.interiors) }),
        None => None,
    }
}

/// The polygons that survive.
pub open spec fn repaired_polygons(polygons: Seq<PolygonView>) -> Seq<PolygonView>
    decreases polygons.len(),
{
    if polygons.len() == 0 {
        polygons
    } else {
        let rest = repaired_polygons(polygons.drop_last());
        match repaired_polygon(polygons.last()) {
            Some(p) => rest.push(p),
            None => rest,
        }
    }
}

/// The repaired geometry, where anything of it survives.
pub open spec fn repaired(g: GeometryView) -> Option<GeometryView> {
    match g {
        GeometryView::Point(p) => if p.finite() {
            Some(g)
        } else {
            None
        },
        GeometryView::MultiPoint(ps) => if finite_only(ps).len() > 0 {
            Some(GeometryView::MultiPoint(finite_only(ps)))
        } else {
            None
        },
        GeometryView::LineString(l) => match repaired_line(l) {
            Some(line) => Some(GeometryView::LineString(line)),
            None => None,
        },
        GeometryView::MultiLineString(ls) => if repaired_lines(ls).len() > 0 {
            Some(GeometryView::MultiLineString(repaired_lines(ls)))
        } else {
            None
        },
        GeometryView::Polygon(p) => match repaired_polygon(p) {
            Some(p) => Some(GeometryView::Polygon(p)),
            None => None,
        },
        GeometryView::MultiPolygon(ps) => if repaired_polygons(ps).len() > 0 {
            Some(GeometryView::MultiPolygon(repaired_polygons(ps)))
        } else {
            None
        },
        GeometryView::Rect(_, _) => Some(geometry::as_polygon(g)),
        GeometryView::Triangle(_, _, _) => Some(geometry::as_polygon(g)),
        GeometryView::Line(_, _) => None,
        GeometryView::Collection(_) => None,
    }
}

fn retain_finite(s: &[Coord]) -> (out: Vec<Coord>)
    ensures
        out@ == finite_only(s@),
{
    let mut out: Vec<Coord> = Vec::new();
    let mut i: usize = 0;
    assert(out@ =~= finite_only(s@.take(0)));
    while i < s.len()
        invariant
            i <= s@.len(),
            out@ == finite_only(s@.take(i as int)),
        decreases s@.len() - i,
    {
        assert(s@.take(i + 1).drop_last() =~= s@.take(i as int));
        if s[i].is_finite() {
            out.push(s[i]);
        }
        i = i + 1;
    }
    assert(s@.take(i as int) =~= s@);
    out
}

fn dedup(s: &[Coord]) -> (out: Vec<Coord>)
    ensures
        out@ == distinct(s@),
{
    let mut out: Vec<Coord> = Vec::new();
    let mut i: usize = 0;
    assert(out@ =~= distinct(s@.take(0)));
    while i < s.len()
        invariant
            i <= s@.len(),
            out@ == distinct(s@.take(i as int)),
        decreases s@.len() - i,
    {
        assert(s@.take(i + 1).drop_last() =~= s@.take(i as int));
        let n: usize = out.len();
        if !(n > 0 && out[n - 1].same_place(s[i])) {
            out.push(s[i]);
        }
        i = i + 1;
    }
    assert(s@.take(i as int) =~= s@);
    out
}

/// Deduplicates consecutive vertices and requires at least two distinct ones.
pub fn repair_line(line: &[Coord]) -> (r: Option<Vec<Coord>>)
    ensures
        match r {
            Some(out) => repaired_line(line@) == Some(out@),
            None => repaired_line(line@) is None,
        },
{
    let coords = retain_finite(line);
    let coords = dedup(coords.as_slice());
    if coords.len() >= 2 {
        Some(coords)
    } else {
        None
    }
}

/// The first coordinate from `from` on that differs from two others.
fn find_other(s: &[Coord], from: usize, a: Coord, b: Coord) -> (k: usize)
    requires
        from <= s@.len(),
    ensures
        from <= k <= s@.len(),
        forall|i: int| from <= i < k ==> a.same(#[trigger] s@[i]) || b.same(s@[i]),
        k < s@.len() ==> !a.same(s@[k as int]) && !b.same(s@[k as int]),
{
    let mut k: usize = from;
    while k < s.len() && (a.same_place(s[k]) || b.same_place(s[k]))
        invariant
            from <= k <= s@.len(),
            forall|i: int| from <= i < k ==> a.same(#[trigger] s@[i]) || b.same(s@[i]),
        decreases s@.len() - k,
    {
        k = k + 1;
    }
    k
}

/// Whether there are three distinct points among finite coordinates.
fn find_three(s: &[Coord]) -> (b: bool)
    requires
        forall|i: int| 0 <= i < s@.len() ==> (#[trigger] s@[i]).finite(),
    ensures
        b == has_three(s@),
{
    if s.len() == 0 {
        return false;
    }
    let first = s[0];
    let j: usize = find_other(s, 0, first, first);
    if j == s.len() {
        assert(!has_three(s@)) by {
            if has_three(s@) {
                let (x, y, z) = choose|x: int, y: int, z: int|
                    0 <= x < y < z < s@.len() && #[trigger] three_apart(s@[x], s@[y], s@[z]);
                assert(first.same(s@[x]) && first.same(s@[y]));
            }
        }
        return false;
    }
    let second = s[j];
    let k: usize = find_other(s, j, first, second);
    if k == s.len() {
        assert(!has_three(s@)) by {
            if has_three(s@) {
                let (x, y, z) = choose|x: int, y: int, z: int|
                    0 <= x < y < z < s@.len() && #[trigger] three_apart(s@[x], s@[y], s@[z]);
                assert(first.same(s@[x]) || second.same(s@[x]));
                assert(first.same(s@[y]) || second.same(s@[y]));
                assert(first.same(s@[z]) || second.same(s@[z]));
            }
        }
        return false;
    }
    assert(first.finite());
    assert(second.finite());
    assert(first.same(first));
    assert(j > 0);
    assert(second.same(second));
    assert(k > j);
    assert(three_apart(s@[0], s@[j as int], s@[k as int]));
    true
}

/// Closes an open ring and drops it when it has fewer than three distinct points.
pub fn repair_ring(ring: &[Coord]) -> (r: Option<Vec<Coord>>)
    ensures
        match r {
            Some(out) => repaired_ring(ring@) == Some(out@),
            None => repaired_ring(ring@) is None,
        },
{
    let coords = retain_finite(ring);
    let ghost finite = coords@;
    let coords = dedup(coords.as_slice());
    proof {
        finite_only_is_finite(ring@);
        distinct_of_finite(finite);
    }
    if find_three(coords.as_slice()) {
        Some(close_ring(coords))
    } else {
        None
    }
}

/// Repairs a polygon; `None` where its exterior is unrecoverable.
pub fn repair_polygon(p: &Polygon) -> (r: Option<Polygon>)
    ensures
        match r {
            Some(out) => repaired_polygon(p@) == Some(out@),
            None => repaired_polygon(p@) is None,
        },
{
    let exterior = match repair_ring(p.exterior.as_slice()) {
        Some(ring) => ring,
        None => return None,
    };
    let ghost all = geometry::coord_lists(p.interiors@);
    let mut interiors: Vec<Vec<Coord>> = Vec::new();
    let mut i: usize = 0;
    assert(geometry::coord_lists(interiors@) =~= repaired_rings(all.take(0)));
    while i < p.interiors.len()
        invariant
            i <= p.interiors@.len(),
            all == geometry::coord_lists(p.interiors@),
            geometry::coord_lists(interiors@) == repaired_rings(all.take(i as int)),
        decreases p.interiors@.len() - i,
    {
        assert(all.take(i + 1).drop_last() =~= all.take(i as int));
        assert(all.take(i + 1).last() == p.interiors@[i as int]@);
        if let Some(ring) = repair_ring(p.interiors[i].as_slice()) {
            let ghost before = geometry::coord_lists(interiors@);
            interiors.push(ring);
            assert(geometry::coord_lists(interiors@) =~= before.push(ring@));
        }
        i = i + 1;
    }
    assert(all.take(i as int) =~= all);
    Some(Polygon { exterior, interiors })
}

fn repair_lines(lines: &[Vec<Coord>]) -> (out: Vec<Vec<Coord>>)
    ensures
        geometry::coord_lists(out@) == repaired_lines(geometry::coord_lists(lines@)),
{
    let ghost all = geometry::coord_lists(lines@);
    let mut out: Vec<Vec<Coord>> = Vec::new();
    let mut i: usize = 0;
    assert(geometry::coord_lists(out@) =~= repaired_lines(all.take(0)));
    while i < lines.len()
        invariant
            i <= lines@.len(),
            all == geometry::coord_lists(lines@),
            geometry::coord_lists(out@) == repaired_lines(all.take(i as int)),
        decreases lines@.len() - i,
    {
        assert(all.take(i + 1).drop_last() =~= all.take(i as int));
        assert(all.take(i + 1).last() == lines@[i as int]@);
        if let Some(line) = repair_line(lines[i].as_slice()) {
            let ghost before = geometry::coord_lists(out@);
            out.push(line);
            assert(geometry::coord_lists(out@) =~= before.push(line@));
        }
        i = i + 1;
    }
    assert(all.take(i as int) =~= all);
    out
}

fn repair_polygons(polygons: &[Polygon]) -> (out: Vec<Polygon>)
    ensures
        geometry::polygon_views(out@) == repaired_polygons(geometry::polygon_views(polygons@)),
{
    let ghost all = geometry::polygon_views(polygons@);
    let mut out: Vec<Polygon> = Vec::new();
    let mut i: usize = 0;
    assert(geometry::polygon_views(out@) =~= repaired_polygons(all.take(0)));
    while i < polygons.len()
        invariant
            i <= polygons@.len(),
            all == geometry::polygon_views(polygons@),
            geometry::polygon_views(out@) == repaired_polygons(all.take(i as int)),
        decreases polygons@.len() - i,
    {
        assert(all.take(i + 1).drop_last() =~= all.take(i as int));
        assert(all.take(i + 1).last() == polygons@[i as int]@);
        if let Some(p) = repair_polygon(&polygons[i]) {
            let ghost before = geometry::polygon_views(out@);
            out.push(p);
            assert(geometry::polygon_views(out@) =~= before.push(p@));
        }
        i = i + 1;
    }
    assert(all.take(i as int) =~= all);
    out
}

/// Attempts to repair a geometry. Returns `None` when unrecoverable; callers count these.
pub fn repair_geometry(geom: Geometry) -> (r: Option<Geometry>)
    ensures
        match r {
            Some(g) => repaired(geom@) == Some(g@),
            None => repaired(geom@) is None,
        },
{
    match geom {
        Geometry::Point(p) => if p.is_finite() {
            Some(Geometry::Point(p))
        } else {
            None
        },
        Geometry::MultiPoint(ps) => {
            let pts = retain_finite(ps.as_slice());
            if pts.len() > 0 {
                Some(Geometry::MultiPoint(pts))
            } else {
                None
            }
        },
        Geometry::LineString(l) => match repair_line(l.as_slice()) {
            Some(line) => Some(Geometry::LineString(line)),
            None => None,
        },
        Geometry::MultiLineString(ls) => {
            let lines = repair_lines(ls.as_slice());
            if lines.len() > 0 {
                Some(Geometry::MultiLineString(lines))
            } else {
                None
            }
        },
        Geometry::Polygon(p) => match repair_polygon(&p) {
            Some(p) => Some(Geometry::Polygon(p)),
            None => None,
        },
        Geometry::MultiPolygon(ps) => {
            let polys = repair_polygons(ps.as_slice());
            if polys.len() > 0 {
                Some(Geometry::MultiPolygon(polys))
            } else {
                None
            }
        },
        Geometry::Rect(min, max) => Some(Geometry::Rect(min, max).to_polygon()),
        Geometry::Triangle(a, b, c) => Some(Geometry::Triangle(a, b, c).to_polygon()),
        Geometry::Line(_, _) => None,
        Geometry::Collection(_) => None,
    }
}

proof fn finite_only_is_finite(s: Seq<Coord>)
    ensures
        forall|i: int| 0 <= i < finite_only(s).len() ==> (#[trigger] finite_only(s)[i]).finite(),
    decreases s.len(),
{
    if s.len() > 0 {
        let rest = finite_only(s.drop_last());
        finite_only_is_finite(s.drop_last());
        assert forall|i: int| 0 <= i < finite_only(s).len() implies (
        #[trigger] finite_only(s)[i]).finite() by {
            if i < rest.len() {
                assert(finite_only(s)[i] == rest[i]);
            }
        }
    }
}

proof fn finite_only_of_finite(s: Seq<Coord>)
    requires
        forall|i: int| 0 <= i < s.len() ==> (#[trigger] s[i]).finite(),
    ensures
        finite_only(s) == s,
    decreases s.len(),
{
    if s.len() > 0 {
        let d = s.drop_last();
        assert forall|i: int| 0 <= i < d.len() implies (#[trigger] d[i]).finite() by {
            assert(d[i] == s[i]);
        }
        finite_only_of_finite(d);
        assert(s =~= d.push(s.last()));
    }
}

/// No coordinate is the same as the one before it.
pub open spec fn no_repeats(s: Seq<Coord>) -> bool {
    forall|i: int| 0 < i < s.len() ==> !s[i - 1].same(#[trigger] s[i])
}

proof fn distinct_has_no_repeats(s: Seq<Coord>)
    ensures
        no_repeats(distinct(s)),
        forall|i: int|
            0 <= i < distinct(s).len() ==> s.contains(#[trigger] distinct(s)[i]),
    decreases s.len(),
{
    if s.len() > 0 {
        let d = s.drop_last();
        distinct_has_no_repeats(d);
        assert forall|i: int| 0 <= i < distinct(s).len() implies s.contains(
            #[trigger] distinct(s)[i],
        ) by {
            if i < distinct(d).len() {
                assert(d.contains(distinct(d)[i]));
                let j = choose|j: int| 0 <= j < d.len() && d[j] == distinct(d)[i];
                assert(s[j] == distinct(d)[i]);
            } else {
                assert(s[s.len() - 1] == s.last());
            }
        }
    }
}

proof fn distinct_of_distinct(s: Seq<Coord>)
    requires
        no_repeats(s),
    ensures
        distinct(s) == s,
    decreases s.len(),
{
    if s.len() > 0 {
        let d = s.drop_last();
        assert(no_repeats(d)) by {
            assert forall|i: int| 0 < i < d.len() implies !d[i - 1].same(#[trigger] d[i]) by {
                assert(d[i] == s[i] && d[i - 1] == s[i - 1]);
            }
        }
        distinct_of_distinct(d);
        assert(s =~= d.push(s.last()));
        if d.len() > 0 {
            assert(!s[s.len() - 2].same(s[s.len() - 1]));
        }
    }
}

proof fn distinct_of_finite(s: Seq<Coord>)
    requires
        forall|i: int| 0 <= i < s.len() ==> (#[trigger] s[i]).finite(),
    ensures
        forall|i: int| 0 <= i < distinct(s).len() ==> (#[trigger] distinct(s)[i]).finite(),
{
    let d = distinct(s);
    distinct_has_no_repeats(s);
    assert forall|i: int| 0 <= i < d.len() implies (#[trigger] d[i]).finite() by {
        assert(s.contains(d[i]));
        let j = choose|j: int| 0 <= j < s.len() && s[j] == d[i];
        assert(s[j].finite());
    }
}

/// A repaired line holds at least two coordinates, all finite, and repeats none.
pub proof fn repaired_lines_are_sound(s: Seq<Coord>)
    requires
        repaired_line(s) is Some,
    ensures
        ({
            let r = repaired_line(s)->Some_0;
            &&& r.len() >= 2
            &&& no_repeats(r)
            &&& forall|i: int| 0 <= i < r.len() ==> (#[trigger] r[i]).finite()
        }),
{
    finite_only_is_finite(s);
    distinct_has_no_repeats(finite_only(s));
    distinct_of_finite(finite_only(s));
}

/// A repaired ring is closed, holds at least four coordinates, all finite, three of them distinct,
/// and repeats none.
pub proof fn repaired_rings_are_sound(s: Seq<Coord>)
    requires
        repaired_ring(s) is Some,
    ensures
        ({
            let r = repaired_ring(s)->Some_0;
            &&& r.len() >= 4
            &&& geometry::closed_ring(r)
            &&& no_repeats(r)
            &&& has_three(r)
            &&& forall|i: int| 0 <= i < r.len() ==> (#[trigger] r[i]).finite()
        }),
{
    let f = finite_only(s);
    let d = distinct(f);
    let r = repaired_ring(s)->Some_0;
    finite_only_is_finite(s);
    distinct_has_no_repeats(f);
    distinct_of_finite(f);
    assert(d[0].finite());
    let (x, y, z) = choose|x: int, y: int, z: int|
        0 <= x < y < z < d.len() && #[trigger] three_apart(d[x], d[y], d[z]);
    assert(three_apart(r[x], r[y], r[z]));
    assert(r.len() >= 4) by {
        if d.len() == 3 {
            assert(!d[0].same(d[2]));
        }
    }
    assert forall|i: int| 0 <= i < r.len() implies (#[trigger] r[i]).finite() by {
        if i < d.len() {
            assert(r[i] == d[i]);
        } else {
            assert(r[i] == d[0]);
        }
    }
    assert forall|i: int| 0 < i < r.len() implies !r[i - 1].same(#[trigger] r[i]) by {
        if i < d.len() {
            assert(r[i] == d[i] && r[i - 1] == d[i - 1]);
        } else {
            assert(r[i] == d[0] && r[i - 1] == d.last());
        }
    }
}

/// Repairing a repaired ring changes nothing.
pub proof fn ring_repair_is_idempotent(s: Seq<Coord>)
    requires
        repaired_ring(s) is Some,
    ensures
        repaired_ring(repaired_ring(s)->Some_0) == repaired_ring(s),
{
    let r = repaired_ring(s)->Some_0;
    repaired_rings_are_sound(s);
    finite_only_of_finite(r);
    distinct_of_distinct(r);
}

/// Repairing the rings that survived changes none and drops none.
proof fn rings_repair_is_idempotent(rings: Seq<Seq<Coord>>)
    ensures
        repaired_rings(repaired_rings(rings)) == repaired_rings(rings),
    decreases rings.len(),
{
    if rings.len() > 0 {
        let rest = repaired_rings(rings.drop_last());
        rings_repair_is_idempotent(rings.drop_last());
        if repaired_ring(rings.last()) is Some {
            ring_repair_is_idempotent(rings.last());
            let out = repaired_rings(rings);
            assert(out.drop_last() =~= rest);
        }
    }
}

/// Repairing a repaired polygon changes nothing.
pub proof fn polygon_repair_is_idempotent(p: PolygonView)
    requires
        repaired_polygon(p) is Some,
    ensures
        repaired_polygon(repaired_polygon(p)->Some_0) == repaired_polygon(p),
{
    ring_repair_is_idempotent(p.exterior);
    rings_repair_is_idempotent(p.interiors);
}

/// A line of finite coordinates without repeats is sound: repair keeps it as it is where it has
/// two coordinates.
pub proof fn sound_lines_are_kept(s: Seq<Coord>)
    requires
        s.len() >= 2,
        no_repeats(s),
        forall|i: int| 0 <= i < s.len() ==> (#[trigger] s[i]).finite(),
    ensures
        repaired_line(s) == Some(s),
{
    distinct_of_distinct(s);
    finite_only_of_finite(s);
}

/// A coordinate, where it is finite.
pub open spec fn if_finite() -> spec_fn(Coord) -> Option<Coord> {
    |c: Coord|
        if c.x.finite() && c.y.finite() {
            Some(c)
        } else {
            None
        }
}

/// Repair keeps the finite coordinates, every one of them and in their order.
pub proof fn finite_coordinates_stay(s: Seq<Coord>)
    ensures
        picking::picked(s, if_finite(), finite_only(s)),
    decreases s.len(),
{
    if s.len() == 0 {
        picking::picked_of_nothing(s, if_finite());
        assert(s =~= Seq::empty());
    } else {
        finite_coordinates_stay(s.drop_last());
        picking::picked_grows(s, if_finite(), finite_only(s.drop_last()), finite_only(s));
    }
}

/// `out` holds the coordinates of `s` without repeats: coordinate `i` of `s` is the one at `to[i]`,
/// which is the place of the coordinate before it where it is the same, and else the next place.
pub open spec fn stands_for(s: Seq<Coord>, out: Seq<Coord>, to: Seq<int>) -> bool {
    &&& to.len() == s.len()
    &&& if s.len() == 0 {
        out.len() == 0
    } else {
        to[0] == 0 && out[0] == s[0] && to.last() == out.len() - 1
    }
    &&& forall|i: int| 0 <= i < s.len() ==> 0 <= #[trigger] to[i] < out.len()
    &&& forall|i: int|
        0 < i < s.len() ==> if out[to[i - 1]].same(s[i]) {
            #[trigger] to[i] == to[i - 1]
        } else {
            to[i] == to[i - 1] + 1 && out[to[i]] == s[i]
        }
}

/// Removing repeats loses no coordinate: each of those left stands for itself and for the ones
/// behind it that repeat it.
pub proof fn repeats_stand_together(s: Seq<Coord>)
    ensures
        exists|to: Seq<int>| #[trigger] stands_for(s, distinct(s), to),
    decreases s.len(),
{
    if s.len() == 0 {
        assert(stands_for(s, distinct(s), Seq::empty()));
    } else {
        let d = s.drop_last();
        let rest = distinct(d);
        let out = distinct(s);
        repeats_stand_together(d);
        let to = choose|to: Seq<int>| #[trigger] stands_for(d, rest, to);
        let new = to.push(out.len() - 1);
        assert forall|i: int| 0 < i < s.len() implies if out[new[i - 1]].same(s[i]) {
            #[trigger] new[i] == new[i - 1]
        } else {
            new[i] == new[i - 1] + 1 && out[new[i]] == s[i]
        } by {
            assert(new[i - 1] == to[i - 1]);
            assert(0 <= to[i - 1] < rest.len());
            assert(out[to[i - 1]] == rest[to[i - 1]]);
            if i < d.len() {
                assert(new[i] == to[i]);
                assert(0 <= to[i] < rest.len());
                assert(out[to[i]] == rest[to[i]]);
                assert(d[i] == s[i]);
            } else {
                assert(to[i - 1] == rest.len() - 1);
            }
        }
        assert forall|i: int| 0 <= i < s.len() implies 0 <= #[trigger] new[i] < out.len() by {
            if i < d.len() {
                assert(new[i] == to[i]);
            }
        }
        if d.len() > 0 {
            assert(out[0] == rest[0]);
            assert(new[0] == to[0]);
        }
        assert(stands_for(s, out, new));
    }
}

/// The coordinate that stands for another after repeats were removed.
proof fn stand_in(s: Seq<Coord>, i: int) -> (k: int)
    requires
        0 <= i < s.len(),
        forall|j: int| 0 <= j < s.len() ==> (#[trigger] s[j]).finite(),
    ensures
        0 <= k < distinct(s).len(),
        distinct(s)[k].same(s[i]),
    decreases s.len(),
{
    let d = s.drop_last();
    assert forall|j: int| 0 <= j < d.len() implies (#[trigger] d[j]).finite() by {
        assert(d[j] == s[j]);
    }
    if i < d.len() {
        assert(d[i] == s[i]);
        let k = stand_in(d, i);
        assert(distinct(s)[k] == distinct(d)[k]);
        k
    } else {
        assert(s[i].finite());
        assert(s[i] == s.last());
        distinct(s).len() - 1
    }
}

/// The place that a finite coordinate has among the finite ones.
proof fn finite_place(s: Seq<Coord>, i: int) -> (k: int)
    requires
        0 <= i < s.len(),
        s[i].finite(),
    ensures
        0 <= k < finite_only(s).len(),
        finite_only(s)[k] == s[i],
    decreases s.len(),
{
    let d = s.drop_last();
    if i < d.len() {
        let k = finite_place(d, i);
        assert(finite_only(s)[k] == finite_only(d)[k]);
        k
    } else {
        finite_only(s).len() - 1
    }
}

/// A finite coordinate of a line or a ring is found again after its repeats and what is not finite
/// were removed.
proof fn found_again(s: Seq<Coord>, i: int) -> (k: int)
    requires
        0 <= i < s.len(),
        s[i].finite(),
    ensures
        0 <= k < distinct(finite_only(s)).len(),
        distinct(finite_only(s))[k].same(s[i]),
        distinct(finite_only(s))[k].finite(),
{
    finite_only_is_finite(s);
    distinct_of_finite(finite_only(s));
    let j = finite_place(s, i);
    stand_in(finite_only(s), j)
}

/// No vertex of a line is lost: where a line can be repaired, every finite coordinate of it is still
/// there, and every coordinate of the result is one of its own.
pub proof fn line_repair_keeps_vertices(s: Seq<Coord>)
    requires
        repaired_line(s) is Some,
    ensures
        forall|i: int|
            0 <= i < s.len() && (#[trigger] s[i]).finite() ==> exists|k: int|
                0 <= k < repaired_line(s)->Some_0.len() && (
                #[trigger] repaired_line(s)->Some_0[k]).same(s[i]),
        forall|k: int|
            0 <= k < repaired_line(s)->Some_0.len() ==> s.contains(
                #[trigger] repaired_line(s)->Some_0[k],
            ),
{
    let r = repaired_line(s)->Some_0;
    assert forall|i: int| 0 <= i < s.len() && (#[trigger] s[i]).finite() implies exists|k: int|
        0 <= k < r.len() && (#[trigger] r[k]).same(s[i]) by {
        let k = found_again(s, i);
        assert(r[k].same(s[i]));
    }
    assert forall|k: int| 0 <= k < r.len() implies s.contains(#[trigger] r[k]) by {
        comes_from(s, k);
    }
}

proof fn comes_from(s: Seq<Coord>, k: int)
    requires
        0 <= k < distinct(finite_only(s)).len(),
    ensures
        s.contains(distinct(finite_only(s))[k]),
{
    let f = finite_only(s);
    distinct_has_no_repeats(f);
    let c = distinct(f)[k];
    assert(f.contains(c));
    let j = choose|j: int| 0 <= j < f.len() && f[j] == c;
    finite_coordinates_stay(s);
    let at = choose|at: Seq<int>| #[trigger] picking::picks(s, if_finite(), f, at);
    assert(0 <= at[j] < s.len());
    assert(s[at[j]] == c);
}

/// No vertex of a ring is lost: where a ring can be repaired, every finite coordinate of it is still
/// there, and every coordinate of the result is one of its own.
pub proof fn ring_repair_keeps_vertices(s: Seq<Coord>)
    requires
        repaired_ring(s) is Some,
    ensures
        forall|i: int|
            0 <= i < s.len() && (#[trigger] s[i]).finite() ==> exists|k: int|
                0 <= k < repaired_ring(s)->Some_0.len() && (
                #[trigger] repaired_ring(s)->Some_0[k]).same(s[i]),
        forall|k: int|
            0 <= k < repaired_ring(s)->Some_0.len() ==> s.contains(
                #[trigger] repaired_ring(s)->Some_0[k],
            ),
{
    let r = repaired_ring(s)->Some_0;
    let d = distinct(finite_only(s));
    assert forall|i: int| 0 <= i < s.len() && (#[trigger] s[i]).finite() implies exists|k: int|
        0 <= k < r.len() && (#[trigger] r[k]).same(s[i]) by {
        let k = found_again(s, i);
        assert(r[k] == d[k]);
        assert(r[k].same(s[i]));
    }
    assert forall|k: int| 0 <= k < r.len() implies s.contains(#[trigger] r[k]) by {
        if k < d.len() {
            assert(r[k] == d[k]);
            comes_from(s, k);
        } else {
            assert(r[k] == d[0]);
            comes_from(s, 0);
        }
    }
}

/// A line is given up only where it has to be: one with two finite coordinates that differ is
/// repaired.
pub proof fn recoverable_lines_are_repaired(s: Seq<Coord>, i: int, j: int)
    requires
        0 <= i < j < s.len(),
        s[i].finite(),
        s[j].finite(),
        !s[i].same(s[j]),
    ensures
        repaired_line(s) is Some,
{
    let a = found_again(s, i);
    let b = found_again(s, j);
    assert(a != b);
}

/// A ring is given up only where it has to be: one with three finite coordinates that differ from
/// each other is repaired.
pub proof fn recoverable_rings_are_repaired(s: Seq<Coord>, i: int, j: int, k: int)
    requires
        0 <= i < j < k < s.len(),
        s[i].finite(),
        s[j].finite(),
        s[k].finite(),
        !s[i].same(s[j]),
        !s[i].same(s[k]),
        !s[j].same(s[k]),
    ensures
        repaired_ring(s) is Some,
{
    let d = distinct(finite_only(s));
    let a = found_again(s, i);
    let b = found_again(s, j);
    let c = found_again(s, k);
    assert(a != b && a != c && b != c);
    let (x, y, z) = if a < b {
        if b < c {
            (a, b, c)
        } else if a < c {
            (a, c, b)
        } else {
            (c, a, b)
        }
    } else {
        if a < c {
            (b, a, c)
        } else if b < c {
            (b, c, a)
        } else {
            (c, b, a)
        }
    };
    assert(three_apart(d[x], d[y], d[z]));
}

/// A ring as it should be: closed, finite, without repeats, with three distinct points.
pub open spec fn sound_ring(s: Seq<Coord>) -> bool {
    &&& s.len() >= 4
    &&& s.first().same(s.last())
    &&& forall|i: int| 0 <= i < s.len() ==> (#[trigger] s[i]).finite()
    &&& forall|i: int| 0 < i < s.len() ==> !s[i - 1].same(#[trigger] s[i])
    &&& exists|i: int, j: int, k: int|
        0 <= i < j < k < s.len() && !(#[trigger] s[i]).same(#[trigger] s[j]) && !s[i].same(
            #[trigger] s[k],
        ) && !s[j].same(s[k])
}

/// A polygon with sound rings.
pub open spec fn sound_polygon(p: PolygonView) -> bool {
    &&& sound_ring(p.exterior)
    &&& forall|i: int| 0 <= i < p.interiors.len() ==> sound_ring(#[trigger] p.interiors[i])
}

/// A sound ring stays as it is.
pub proof fn sound_rings_are_kept(s: Seq<Coord>)
    requires
        sound_ring(s),
    ensures
        repaired_ring(s) == Some(s),
{
    finite_only_of_finite(s);
    distinct_of_distinct(s);
    let (i, j, k) = choose|i: int, j: int, k: int|
        0 <= i < j < k < s.len() && !(#[trigger] s[i]).same(#[trigger] s[j]) && !s[i].same(
            #[trigger] s[k],
        ) && !s[j].same(s[k]);
    assert(three_apart(s[i], s[j], s[k]));
}

/// Of several lines those that can be repaired are left, none is missing, each is the repair of its
/// source, and they keep their order.
pub proof fn line_repair_loses_no_part(lines: Seq<Seq<Coord>>)
    ensures
        picking::picked(lines, line_repair(), repaired_lines(lines)),
    decreases lines.len(),
{
    if lines.len() == 0 {
        picking::picked_of_nothing(lines, line_repair());
        assert(lines =~= Seq::empty());
    } else {
        line_repair_loses_no_part(lines.drop_last());
        picking::picked_grows(
            lines,
            line_repair(),
            repaired_lines(lines.drop_last()),
            repaired_lines(lines),
        );
    }
}

/// The repair of a line.
pub open spec fn line_repair() -> spec_fn(Seq<Coord>) -> Option<Seq<Coord>> {
    |l: Seq<Coord>| repaired_line(l)
}

/// The repair of a ring.
pub open spec fn ring_repair() -> spec_fn(Seq<Coord>) -> Option<Seq<Coord>> {
    |r: Seq<Coord>| repaired_ring(r)
}

/// The repair of a polygon.
pub open spec fn polygon_repair() -> spec_fn(PolygonView) -> Option<PolygonView> {
    |p: PolygonView| repaired_polygon(p)
}

/// Of several holes those that can be repaired are left, none is missing, each is the repair of its
/// source, and they keep their order.
pub proof fn ring_repair_loses_no_hole(rings: Seq<Seq<Coord>>)
    ensures
        picking::picked(rings, ring_repair(), repaired_rings(rings)),
    decreases rings.len(),
{
    if rings.len() == 0 {
        picking::picked_of_nothing(rings, ring_repair());
        assert(rings =~= Seq::empty());
    } else {
        ring_repair_loses_no_hole(rings.drop_last());
        picking::picked_grows(
            rings,
            ring_repair(),
            repaired_rings(rings.drop_last()),
            repaired_rings(rings),
        );
    }
}

/// Of several polygons those whose exterior can be repaired are left, none is missing, each is the
/// repair of its source, and they keep their order.
pub proof fn polygon_repair_loses_no_part(polygons: Seq<PolygonView>)
    ensures
        picking::picked(polygons, polygon_repair(), repaired_polygons(polygons)),
        forall|i: int|
            0 <= i < polygons.len() ==> (polygon_repair()(#[trigger] polygons[i]) is Some
                <==> repaired_ring(polygons[i].exterior) is Some),
    decreases polygons.len(),
{
    if polygons.len() == 0 {
        picking::picked_of_nothing(polygons, polygon_repair());
        assert(polygons =~= Seq::empty());
    } else {
        polygon_repair_loses_no_part(polygons.drop_last());
        picking::picked_grows(
            polygons,
            polygon_repair(),
            repaired_polygons(polygons.drop_last()),
            repaired_polygons(polygons),
        );
    }
}

/// The repair of a polygon keeps its exterior and every hole that can be repaired.
pub proof fn polygon_repair_keeps_rings(p: PolygonView)
    ensures
        match repaired_polygon(p) {
            Some(out) => {
                &&& repaired_ring(p.exterior) == Some(out.exterior)
                &&& picking::picked(p.interiors, ring_repair(), out.interiors)
            },
            None => repaired_ring(p.exterior) is None,
        },
{
    ring_repair_loses_no_hole(p.interiors);
}

/// A sound polygon stays as it is.
pub proof fn sound_polygons_are_kept(p: PolygonView)
    requires
        sound_polygon(p),
    ensures
        repaired_polygon(p) == Some(p),
{
    sound_rings_are_kept(p.exterior);
    ring_repair_loses_no_hole(p.interiors);
    assert forall|i: int| 0 <= i < p.interiors.len() implies ring_repair()(
        #[trigger] p.interiors[i],
    ) == Some(p.interiors[i]) by {
        sound_rings_are_kept(p.interiors[i]);
    }
    picking::all_picked(p.interiors, ring_repair(), repaired_rings(p.interiors));
    assert forall|i: int| 0 <= i < p.interiors.len() implies repaired_rings(p.interiors)[i]
        == p.interiors[i] by {
        assert(ring_repair()(p.interiors[i]) == Some(p.interiors[i]));
    }
    assert(repaired_rings(p.interiors) =~= p.interiors);
}

/// A geometry as it should be: finite, without repeats, with closed rings.
pub open spec fn sound(g: GeometryView) -> bool {
    match g {
        GeometryView::Point(p) => p.finite(),
        GeometryView::MultiPoint(ps) => ps.len() > 0 && forall|i: int|
            0 <= i < ps.len() ==> (#[trigger] ps[i]).finite(),
        GeometryView::LineString(l) => sound_line(l),
        GeometryView::MultiLineString(ls) => ls.len() > 0 && forall|i: int|
            0 <= i < ls.len() ==> sound_line(#[trigger] ls[i]),
        GeometryView::Polygon(p) => sound_polygon(p),
        GeometryView::MultiPolygon(ps) => ps.len() > 0 && forall|i: int|
            0 <= i < ps.len() ==> sound_polygon(#[trigger] ps[i]),
        _ => false,
    }
}

/// A line as it should be: two or more finite coordinates, none of them a repeat.
pub open spec fn sound_line(s: Seq<Coord>) -> bool {
    &&& s.len() >= 2
    &&& forall|i: int| 0 <= i < s.len() ==> (#[trigger] s[i]).finite()
    &&& forall|i: int| 0 < i < s.len() ==> !s[i - 1].same(#[trigger] s[i])
}

/// Repair leaves a sound geometry as it is, with all its parts.
pub proof fn sound_geometries_are_kept(g: GeometryView)
    requires
        sound(g),
    ensures
        repaired(g) == Some(g),
{
    match g {
        GeometryView::MultiPoint(ps) => {
            finite_only_of_finite(ps);
        },
        GeometryView::LineString(l) => {
            sound_lines_are_kept(l);
        },
        GeometryView::MultiLineString(ls) => {
            line_repair_loses_no_part(ls);
            assert forall|i: int| 0 <= i < ls.len() implies line_repair()(#[trigger] ls[i])
                == Some(ls[i]) by {
                assert(sound_line(ls[i]));
                sound_lines_are_kept(ls[i]);
            }
            picking::all_picked(ls, line_repair(), repaired_lines(ls));
            assert forall|i: int| 0 <= i < ls.len() implies repaired_lines(ls)[i] == ls[i] by {
                assert(line_repair()(ls[i]) == Some(ls[i]));
            }
            assert(repaired_lines(ls) =~= ls);
        },
        GeometryView::Polygon(p) => {
            sound_polygons_are_kept(p);
        },
        GeometryView::MultiPolygon(ps) => {
            polygon_repair_loses_no_part(ps);
            assert forall|i: int| 0 <= i < ps.len() implies polygon_repair()(#[trigger] ps[i])
                == Some(ps[i]) by {
                assert(sound_polygon(ps[i]));
                sound_polygons_are_kept(ps[i]);
            }
            picking::all_picked(ps, polygon_repair(), repaired_polygons(ps));
            assert forall|i: int| 0 <= i < ps.len() implies repaired_polygons(ps)[i] == ps[i] by {
                assert(polygon_repair()(ps[i]) == Some(ps[i]));
            }
            assert(repaired_polygons(ps) =~= ps);
        },
        _ => {},
    }
}

/// A geometry keeps its kind, and of its parts those that can be repaired are left; it is given up
/// only where nothing of it is left.
pub proof fn repair_keeps_kind_and_parts(g: GeometryView)
    ensures
        match (g, repaired(g)) {
            (GeometryView::Point(p), r) => if p.finite() {
                r == Some(g)
            } else {
                r is None
            },
            (GeometryView::MultiPoint(ps), Some(r)) => r matches GeometryView::MultiPoint(out)
                && out.len() > 0 && picking::picked(ps, if_finite(), out),
            (GeometryView::MultiPoint(ps), None) => forall|i: int|
                0 <= i < ps.len() ==> !(#[trigger] ps[i]).finite(),
            (GeometryView::LineString(l), Some(r)) => r matches GeometryView::LineString(out)
                && repaired_line(l) == Some(out),
            (GeometryView::LineString(l), None) => repaired_line(l) is None,
            (GeometryView::MultiLineString(ls), Some(r)) =>
                r matches GeometryView::MultiLineString(out) && out.len() > 0 && picking::picked(
                    ls,
                    line_repair(),
                    out,
                ),
            (GeometryView::MultiLineString(ls), None) => forall|i: int|
                0 <= i < ls.len() ==> repaired_line(#[trigger] ls[i]) is None,
            (GeometryView::Polygon(p), Some(r)) => r matches GeometryView::Polygon(out)
                && repaired_polygon(p) == Some(out),
            (GeometryView::Polygon(p), None) => repaired_ring(p.exterior) is None,
            (GeometryView::MultiPolygon(ps), Some(r)) => r matches GeometryView::MultiPolygon(out)
                && out.len() > 0 && picking::picked(ps, polygon_repair(), out),
            (GeometryView::MultiPolygon(ps), None) => forall|i: int|
                0 <= i < ps.len() ==> repaired_ring((#[trigger] ps[i]).exterior) is None,
            (GeometryView::Rect(a, b), r) => r matches Some(GeometryView::Polygon(p))
                && p.interiors.len() == 0 && forall|i: int|
                0 <= i < p.exterior.len() ==> ((#[trigger] p.exterior[i]).x == a.x
                    || p.exterior[i].x == b.x) && (p.exterior[i].y == a.y || p.exterior[i].y
                    == b.y),
            (GeometryView::Triangle(a, b, c), r) => r matches Some(GeometryView::Polygon(p))
                && p.interiors.len() == 0 && p.exterior.contains(a) && p.exterior.contains(b)
                && p.exterior.contains(c),
            (GeometryView::Line(_, _), r) => r is None,
            (GeometryView::Collection(_), r) => r is None,
        },
{
    match g {
        GeometryView::MultiPoint(ps) => {
            finite_coordinates_stay(ps);
            if finite_only(ps).len() == 0 {
                assert forall|i: int| 0 <= i < ps.len() implies !(#[trigger] ps[i]).finite() by {
                    if ps[i].finite() {
                        let k = finite_place(ps, i);
                    }
                }
            }
        },
        GeometryView::MultiLineString(ls) => {
            line_repair_loses_no_part(ls);
            let out = repaired_lines(ls);
            let at = choose|at: Seq<int>| #[trigger] picking::picks(ls, line_repair(), out, at);
            if out.len() == 0 {
                assert forall|i: int| 0 <= i < ls.len() implies repaired_line(
                    #[trigger] ls[i],
                ) is None by {
                    if line_repair()(ls[i]) is Some {
                        assert(at.contains(i));
                    }
                }
            }
        },
        GeometryView::MultiPolygon(ps) => {
            polygon_repair_loses_no_part(ps);
            let out = repaired_polygons(ps);
            let at = choose|at: Seq<int>| #[trigger] picking::picks(ps, polygon_repair(), out, at);
            if out.len() == 0 {
                assert forall|i: int| 0 <= i < ps.len() implies repaired_ring(
                    (#[trigger] ps[i]).exterior,
                ) is None by {
                    if polygon_repair()(ps[i]) is Some {
                        assert(at.contains(i));
                    }
                }
            }
        },
        GeometryView::Triangle(a, b, c) => {
            let ring = geometry::close(seq![a, b, c, a]);
            assert(ring[0] == a && ring[1] == b && ring[2] == c);
        },
        _ => {},
    }
}

} // verus!
