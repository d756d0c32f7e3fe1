//! Geometries in longitude and latitude (or another plane), with coordinates held as bit
//! patterns.
use vstd::prelude::*;
use crate::double::Double;

verus! {

/// A coordinate pair.
#[derive(Debug, Clone, Copy, PartialEq, Eq, Structural)]
pub struct Coord {
    pub x: Double,
    pub y: Double,
}

impl Coord {
    /// Both numbers are finite.
    pub open spec fn finite(self) -> bool {
        self.x.finite() && self.y.finite()
    }

    /// Both numbers are the same, as numbers.
    pub open spec fn same(self, other: Coord) -> bool {
        self.x.eq_num(other.x) && self.y.eq_num(other.y)
    }

    /// Whether both numbers are finite.
    pub fn is_finite(self) -> (b: bool)
        ensures
            b == self.finite(),
    {
        self.x.is_finite() && self.y.is_finite()
    }

    /// Whether both pairs hold the same numbers.
    pub fn same_place(self, other: Coord) -> (b: bool)
        ensures
            b == self.same(other),
    {
        self.x.same_number(other.x) && self.y.same_number(other.y)
    }
}

/// A polygon: an exterior ring and holes, each with its first point repeated at the end.
#[derive(Debug, Clone)]
pub struct Polygon {
    pub exterior: Vec<Coord>,
    pub interiors: Vec<Vec<Coord>>,
}

/// What a polygon is.
#[verifier::ext_equal]
pub struct PolygonView {
    pub exterior: Seq<Coord>,
    pub interiors: Seq<Seq<Coord>>,
}

/// Lists of coordinates, by what they hold.
pub open spec fn coord_lists(lines: Seq<Vec<Coord>>) -> Seq<Seq<Coord>> {
    lines.map_values(|l: Vec<Coord>| l@)
}

impl View for Polygon {
    type V = PolygonView;

    open spec fn view(&self) -> PolygonView {
        PolygonView { exterior: self.exterior@, interiors: coord_lists(self.interiors@) }
    }
}

/// Polygons, by what they are.
pub open spec fn polygon_views(polygons: Seq<Polygon>) -> Seq<PolygonView> {
    polygons.map_values(|p: Polygon| p@)
}

/// A geometry.
#[derive(Debug, Clone)]
pub enum Geometry {
    Point(Coord),
    MultiPoint(Vec<Coord>),
    LineString(Vec<Coord>),
    MultiLineString(Vec<Vec<Coord>>),
    Polygon(Polygon),
    MultiPolygon(Vec<Polygon>),
    /// An axis-parallel rectangle by two opposite corners.
    Rect(Coord, Coord),
    Triangle(Coord, Coord, Coord),
    /// A single segment.
    Line(Coord, Coord),
    /// A collection of geometries, by its coordinates.
    Collection(Vec<Coord>),
}

/// What a geometry is.
#[verifier::ext_equal]
pub enum GeometryView {
    Point(Coord),
    MultiPoint(Seq<Coord>),
    LineString(Seq<Coord>),
    MultiLineString(Seq<Seq<Coord>>),
    Polygon(PolygonView),
    MultiPolygon(Seq<PolygonView>),
    Rect(Coord, Coord),
    Triangle(Coord, Coord, Coord),
    Line(Coord, Coord),
    Collection(Seq<Coord>),
}

impl View for Geometry {
    type V = GeometryView;

    open spec fn view(&self) -> GeometryView {
        match self {
            Geometry::Point(p) => GeometryView::Point(*p),
            Geometry::MultiPoint(ps) => GeometryView::MultiPoint(ps@),
            Geometry::LineString(l) => GeometryView::LineString(l@),
            Geometry::MultiLineString(ls) => GeometryView::MultiLineString(coord_lists(ls@)),
            Geometry::Polygon(p) => GeometryView::Polygon(p@),
            Geometry::MultiPolygon(ps) => GeometryView::MultiPolygon(polygon_views(ps@)),
            Geometry::Rect(a, b) => GeometryView::Rect(*a, *b),
            Geometry::Triangle(a, b, c) => GeometryView::Triangle(*a, *b, *c),
            Geometry::Line(a, b) => GeometryView::Line(*a, *b),
            Geometry::Collection(cs) => GeometryView::Collection(cs@),
        }
    }
}

/// Whether a ring ends where it starts, as numbers; a ring without points does.
pub open spec fn closed_ring(ring: Seq<Coord>) -> bool {
    ring.len() == 0 || ring.first().same(ring.last())
}

/// The ring, with its first point repeated at the end where it is open.
pub open spec fn close(ring: Seq<Coord>) -> Seq<Coord> {
    if closed_ring(ring) {
        ring
    } else {
        ring.push(ring.first())
    }
}

/// The corners of a rectangle as a closed ring.
pub open spec fn rect_ring(min: Coord, max: Coord) -> Seq<Coord> {
    seq![
        Coord { x: max.x, y: min.y },
        Coord { x: max.x, y: max.y },
        Coord { x: min.x, y: max.y },
        Coord { x: min.x, y: min.y },
        Coord { x: max.x, y: min.y },
    ]
}

/// Rectangles and triangles as polygons; the other geometries as they are.
pub open spec fn as_polygon(g: GeometryView) -> GeometryView {
    match g {
        GeometryView::Rect(min, max) => GeometryView::Polygon(
            PolygonView { exterior: close(rect_ring(min, max)), interiors: Seq::empty() },
        ),
        GeometryView::Triangle(a, b, c) => GeometryView::Polygon(
            PolygonView { exterior: close(seq![a, b, c, a]), interiors: Seq::empty() },
        ),
        _ => g,
    }
}

/// The coordinates of several lists, one list after the other.
pub open spec fn flatten(lists: Seq<Seq<Coord>>) -> Seq<Coord>
    decreases lists.len(),
{
    if lists.len() == 0 {
        Seq::empty()
    } else {
        flatten(lists.drop_last()) + lists.last()
    }
}

/// The coordinates of several polygons, each exterior before its holes.
pub open spec fn flatten_polygons(polygons: Seq<PolygonView>) -> Seq<Coord>
    decreases polygons.len(),
{
    if polygons.len() == 0 {
        Seq::empty()
    } else {
        let p = polygons.last();
        flatten_polygons(polygons.drop_last()) + p.exterior + flatten(p.interiors)
    }
}

/// All coordinates of a geometry, in order.
pub open spec fn coords(g: GeometryView) -> Seq<Coord> {
    match g {
        GeometryView::Point(p) => seq![p],
        GeometryView::MultiPoint(ps) => ps,
        GeometryView::LineString(l) => l,
        GeometryView::MultiLineString(ls) => flatten(ls),
        GeometryView::Polygon(p) => p.exterior + flatten(p.interiors),
        GeometryView::MultiPolygon(ps) => flatten_polygons(ps),
        GeometryView::Rect(min, max) => seq![
            Coord { x: min.x, y: min.y },
            Coord { x: min.x, y: max.y },
            Coord { x: max.x, y: max.y },
            Coord { x: max.x, y: min.y },
        ],
        GeometryView::Triangle(a, b, c) => seq![a, b, c],
        GeometryView::Line(a, b) => seq![a, b],
        GeometryView::Collection(cs) => cs,
    }
}

/// Closes an open ring.
pub fn close_ring(ring: Vec<Coord>) -> (r: Vec<Coord>)
    ensures
        r@ == close(ring@),
{
    let mut r = ring;
    let n: usize = r.len();
    if n > 0 && !r[0].same_place(r[n - 1]) {
        let first: Coord = r[0];
        r.push(first);
    }
    r
}

impl Polygon {
    /// A polygon with its rings closed.
    pub open spec fn made(exterior: Seq<Coord>, interiors: Seq<Seq<Coord>>) -> PolygonView {
        PolygonView {
            exterior: close(exterior),
            interiors: interiors.map_values(|r: Seq<Coord>| close(r)),
        }
    }

    /// A polygon; open rings are closed.
    pub fn new(exterior: Vec<Coord>, interiors: Vec<Vec<Coord>>) -> (p: Polygon)
        ensures
            p@ == Polygon::made(exterior@, coord_lists(interiors@)),
    {
        let ghost all = coord_lists(interiors@);
        let exterior = close_ring(exterior);
        let mut closed: Vec<Vec<Coord>> = Vec::new();
        let mut i: usize = 0;
        while i < interiors.len()
            invariant
                i <= interiors@.len(),
                all == coord_lists(interiors@),
                coord_lists(closed@) == all.take(i as int).map_values(
                    |r: Seq<Coord>| close(r),
                ),
            decreases interiors@.len() - i,
        {
            let ghost before = coord_lists(closed@);
            let ring = close_ring(interiors[i].clone());
            closed.push(ring);
            proof {
                assert(coord_lists(closed@) =~= before.push(ring@));
                assert(all.take(i + 1).map_values(|r: Seq<Coord>| close(r)) =~= before.push(
                    close(all[i as int]),
                ));
            }
            i = i + 1;
        }
        assert(all.take(i as int) =~= all);
        Polygon { exterior, interiors: closed }
    }
}

/// Appends the coordinates of several lists.
fn push_lists(lists: &[Vec<Coord>], out: &mut Vec<Coord>)
    ensures
        final(out)@ == old(out)@ + flatten(coord_lists(lists@)),
{
    let ghost all = coord_lists(lists@);
    let mut i: usize = 0;
    assert(all.take(0) =~= Seq::empty());
    assert(out@ + flatten(all.take(0)) =~= out@);
    while i < lists.len()
        invariant
            i <= lists@.len(),
            all == coord_lists(lists@),
            out@ == old(out)@ + flatten(all.take(i as int)),
        decreases lists@.len() - i,
    {
        out.extend_from_slice(lists[i].as_slice());
        assert(all.take(i + 1).drop_last() =~= all.take(i as int));
        assert(out@ =~= old(out)@ + flatten(all.take(i + 1)));
        i = i + 1;
    }
    assert(all.take(i as int) =~= all);
}

impl Geometry {
    /// Rectangles and triangles as polygons; the other geometries as they are.
    pub fn to_polygon(self) -> (g: Geometry)
        ensures
            g@ == as_polygon(self@),
    {
        match self {
            Geometry::Rect(min, max) => {
                let ring = vec![
                    Coord { x: max.x, y: min.y },
                    Coord { x: max.x, y: max.y },
                    Coord { x: min.x, y: max.y },
                    Coord { x: min.x, y: min.y },
                    Coord { x: max.x, y: min.y },
                ];
                assert(ring@ =~= rect_ring(min, max));
                let p = Polygon::new(ring, Vec::new());
                assert(p@.interiors =~= Seq::<Seq<Coord>>::empty());
                Geometry::Polygon(p)
            },
            Geometry::Triangle(a, b, c) => {
                let ring = vec![a, b, c, a];
                assert(ring@ =~= seq![a, b, c, a]);
                let p = Polygon::new(ring, Vec::new());
                assert(p@.interiors =~= Seq::<Seq<Coord>>::empty());
                Geometry::Polygon(p)
            },
            other => other,
        }
    }

    /// All coordinates of the geometry, in order.
    pub fn coords(&self) -> (out: Vec<Coord>)
        ensures
            out@ == coords(self@),
    {
        let mut out: Vec<Coord> = Vec::new();
        match self {
            Geometry::Point(p) => {
                out.push(*p);
            },
            Geometry::MultiPoint(ps) => {
                out.extend_from_slice(ps.as_slice());
            },
            Geometry::LineString(l) => {
                out.extend_from_slice(l.as_slice());
            },
            Geometry::MultiLineString(ls) => {
                push_lists(ls.as_slice(), &mut out);
            },
            Geometry::Polygon(p) => {
                out.extend_from_slice(p.exterior.as_slice());
                push_lists(p.interiors.as_slice(), &mut out);
            },
            Geometry::MultiPolygon(ps) => {
                let ghost all = polygon_views(ps@);
                let mut i: usize = 0;
                assert(all.take(0) =~= Seq::empty());
                while i < ps.len()
                    invariant
                        i <= ps@.len(),
                        all == polygon_views(ps@),
                        out@ == flatten_polygons(all.take(i as int)),
                    decreases ps@.len() - i,
                {
                    out.extend_from_slice(ps[i].exterior.as_slice());
                    push_lists(ps[i].interiors.as_slice(), &mut out);
                    assert(all.take(i + 1).drop_last() =~= all.take(i as int));
                    assert(all.take(i + 1).last() == ps@[i as int]@);
                    assert(out@ =~= flatten_polygons(all.take(i + 1)));
                    i = i + 1;
                }
                assert(all.take(i as int) =~= all);
            },
            Geometry::Rect(min, max) => {
                out.push(Coord { x: min.x, y: min.y });
                out.push(Coord { x: min.x, y: max.y });
                out.push(Coord { x: max.x, y: max.y });
                out.push(Coord { x: max.x, y: min.y });
            },
            Geometry::Triangle(a, b, c) => {
                out.push(*a);
                out.push(*b);
                out.push(*c);
            },
            Geometry::Line(a, b) => {
                out.push(*a);
                out.push(*b);
            },
            Geometry::Collection(cs) => {
                out.extend_from_slice(cs.as_slice());
            },
        }
        assert(out@ =~= coords(self@));
        out
    }
}

/// Closing a ring adds at most its first point: a closed ring stays as it is, and an open one ends
/// where it starts.
pub proof fn closing_adds_the_first_point(ring: Seq<Coord>)
    ensures
        ring.len() > 0 && ring[0].same(ring[ring.len() - 1]) ==> close(ring) == ring,
        ring.len() > 0 && !ring[0].same(ring[ring.len() - 1]) ==> close(ring).len() == ring.len() + 1
            && close(ring)[ring.len() as int] == ring[0] && forall|i: int|
            0 <= i < ring.len() ==> #[trigger] close(ring)[i] == ring[i],
        ring.len() == 0 ==> close(ring).len() == 0,
        ring.len() > 0 && ring[0].finite() ==> close(ring)[0].same(
            close(ring)[close(ring).len() - 1],
        ),
{
}

/// The number of coordinates in lists.
pub open spec fn count_all(lists: Seq<Seq<Coord>>) -> nat
    decreases lists.len(),
{
    if lists.len() == 0 {
        0
    } else {
        lists[0].len() + count_all(lists.skip(1))
    }
}

proof fn count_of_last(lists: Seq<Seq<Coord>>)
    requires
        lists.len() > 0,
    ensures
        count_all(lists) == count_all(lists.drop_last()) + lists.last().len(),
    decreases lists.len(),
{
    if lists.len() == 1 {
        assert(lists.skip(1) =~= Seq::empty());
        assert(lists.drop_last() =~= Seq::empty());
        reveal_with_fuel(count_all, 2);
    } else {
        count_of_last(lists.skip(1));
        assert(lists.skip(1).drop_last() =~= lists.drop_last().skip(1));
    }
}

/// Several lists, one after the other, hold every coordinate of each of them: list `i` stands, whole
/// and in order, behind the lists before it.
pub proof fn lists_stand_one_after_the_other(lists: Seq<Seq<Coord>>, i: int)
    requires
        0 <= i < lists.len(),
    ensures
        flatten(lists).len() == count_all(lists),
        count_all(lists.take(i)) + lists[i].len() <= flatten(lists).len(),
        flatten(lists).subrange(
            count_all(lists.take(i)) as int,
            (count_all(lists.take(i)) + lists[i].len()) as int,
        ) == lists[i],
    decreases lists.len(),
{
    let d = lists.drop_last();
    let all = flatten(lists);
    let from = count_all(lists.take(i)) as int;
    count_of_last(lists);
    if d.len() > 0 {
        lists_stand_one_after_the_other(
            d,
            if i < d.len() {
                i
            } else {
                0
            },
        );
    } else {
        assert(d =~= Seq::empty());
    }
    if i < d.len() {
        assert(d.take(i) =~= lists.take(i));
        assert(all.subrange(from, from + lists[i].len()) =~= flatten(d).subrange(
            from,
            from + lists[i].len(),
        ));
    } else {
        assert(lists.take(i) =~= d);
        assert(all.subrange(from, from + lists[i].len()) =~= lists[i]);
    }
}

/// The rings of a polygon: its exterior, then its holes.
pub open spec fn rings(p: PolygonView) -> Seq<Seq<Coord>> {
    seq![p.exterior] + p.interiors
}

/// The rings of several polygons, one polygon after the other.
pub open spec fn all_rings(polygons: Seq<PolygonView>) -> Seq<Seq<Coord>>
    decreases polygons.len(),
{
    if polygons.len() == 0 {
        Seq::empty()
    } else {
        rings(polygons[0]) + all_rings(polygons.skip(1))
    }
}

proof fn flatten_joins(a: Seq<Seq<Coord>>, b: Seq<Seq<Coord>>)
    ensures
        flatten(a + b) == flatten(a) + flatten(b),
    decreases b.len(),
{
    if b.len() == 0 {
        assert(a + b =~= a);
        assert(flatten(a) + flatten(b) =~= flatten(a));
    } else {
        flatten_joins(a, b.drop_last());
        assert((a + b).drop_last() =~= a + b.drop_last());
        assert(flatten(a + b) =~= flatten(a) + flatten(b));
    }
}

proof fn rings_of_last(polygons: Seq<PolygonView>)
    requires
        polygons.len() > 0,
    ensures
        all_rings(polygons) == all_rings(polygons.drop_last()) + rings(polygons.last()),
    decreases polygons.len(),
{
    if polygons.len() == 1 {
        reveal_with_fuel(all_rings, 2);
        assert(polygons.skip(1) =~= Seq::empty());
        assert(polygons.drop_last() =~= Seq::empty());
        assert(all_rings(polygons) =~= all_rings(polygons.drop_last()) + rings(polygons.last()));
    } else {
        rings_of_last(polygons.skip(1));
        assert(polygons.skip(1).drop_last() =~= polygons.drop_last().skip(1));
        assert(all_rings(polygons) =~= all_rings(polygons.drop_last()) + rings(polygons.last()));
    }
}

proof fn flatten_polygon(p: PolygonView)
    ensures
        flatten(rings(p)) == p.exterior + flatten(p.interiors),
{
    flatten_joins(seq![p.exterior], p.interiors);
    reveal_with_fuel(flatten, 2);
    assert(seq![p.exterior].drop_last() =~= Seq::empty());
    assert(flatten(seq![p.exterior]) =~= p.exterior);
}

/// The coordinates of a geometry are all its vertices: those of its points, of its lines, and of
/// every ring of every polygon, one list after the other.
pub proof fn geometries_have_all_their_coordinates(g: GeometryView)
    ensures
        match g {
            GeometryView::Point(p) => coords(g) == seq![p],
            GeometryView::MultiPoint(ps) => coords(g) == ps,
            GeometryView::LineString(l) => coords(g) == l,
            GeometryView::MultiLineString(ls) => coords(g) == flatten(ls),
            GeometryView::Polygon(p) => coords(g) == flatten(rings(p)),
            GeometryView::MultiPolygon(ps) => coords(g) == flatten(all_rings(ps)),
            GeometryView::Rect(a, b) => coords(g).len() == 4 && coords(g).contains(
                Coord { x: a.x, y: a.y },
            ) && coords(g).contains(Coord { x: a.x, y: b.y }) && coords(g).contains(
                Coord { x: b.x, y: a.y },
            ) && coords(g).contains(Coord { x: b.x, y: b.y }),
            GeometryView::Triangle(a, b, c) => coords(g) == seq![a, b, c],
            GeometryView::Line(a, b) => coords(g) == seq![a, b],
            GeometryView::Collection(cs) => coords(g) == cs,
        },
{
    match g {
        GeometryView::Polygon(p) => {
            flatten_polygon(p);
        },
        GeometryView::MultiPolygon(ps) => {
            flatten_all_polygons(ps);
        },
        GeometryView::Rect(a, b) => {
            let cs = coords(g);
            assert(cs[0] == (Coord { x: a.x, y: a.y }));
            assert(cs[1] == (Coord { x: a.x, y: b.y }));
            assert(cs[2] == (Coord { x: b.x, y: b.y }));
            assert(cs[3] == (Coord { x: b.x, y: a.y }));
        },
        _ => {},
    }
}

proof fn flatten_all_polygons(ps: Seq<PolygonView>)
    ensures
        flatten_polygons(ps) == flatten(all_rings(ps)),
    decreases ps.len(),
{
    if ps.len() > 0 {
        flatten_all_polygons(ps.drop_last());
        rings_of_last(ps);
        flatten_joins(all_rings(ps.drop_last()), rings(ps.last()));
        flatten_polygon(ps.last());
        assert(flatten_polygons(ps) =~= flatten(all_rings(ps)));
    }
}

/// A rectangle becomes the polygon of its four corners, a triangle that of its three; the other
/// geometries stay as they are.
pub proof fn corners_become_polygons(g: GeometryView)
    ensures
        match g {
            GeometryView::Rect(a, b) => as_polygon(g) matches GeometryView::Polygon(p)
                && p.interiors.len() == 0 && p.exterior.len() >= 5 && p.exterior.contains(
                Coord { x: a.x, y: a.y },
            ) && p.exterior.contains(Coord { x: a.x, y: b.y }) && p.exterior.contains(
                Coord { x: b.x, y: a.y },
            ) && p.exterior.contains(Coord { x: b.x, y: b.y }) && forall|i: int|
                0 < i < 5 ==> ((#[trigger] p.exterior[i]).x == p.exterior[i - 1].x
                    || p.exterior[i].y == p.exterior[i - 1].y),
            GeometryView::Triangle(a, b, c) => as_polygon(g) matches GeometryView::Polygon(p)
                && p.interiors.len() == 0 && p.exterior.len() >= 4 && p.exterior.take(4) == seq![
                a,
                b,
                c,
                a,
            ],
            _ => as_polygon(g) == g,
        },
{
    match g {
        GeometryView::Rect(a, b) => {
            let ring = close(rect_ring(a, b));
            assert(ring[0] == (Coord { x: b.x, y: a.y }));
            assert(ring[1] == (Coord { x: b.x, y: b.y }));
            assert(ring[2] == (Coord { x: a.x, y: b.y }));
            assert(ring[3] == (Coord { x: a.x, y: a.y }));
        },
        GeometryView::Triangle(a, b, c) => {
            assert(close(seq![a, b, c, a]).take(4) =~= seq![a, b, c, a]);
        },
        _ => {},
    }
}

/// A polygon is made of the rings it is given, each closed.
pub proof fn polygons_keep_their_rings(exterior: Seq<Coord>, interiors: Seq<Seq<Coord>>, i: int)
    requires
        0 <= i < interiors.len(),
    ensures
        Polygon::made(exterior, interiors).exterior == close(exterior),
        Polygon::made(exterior, interiors).interiors.len() == interiors.len(),
        Polygon::made(exterior, interiors).interiors[i] == close(interiors[i]),
{
}

} // verus!
