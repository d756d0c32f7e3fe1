//! Geometries in tile coordinates and their command sequences.
use vstd::prelude::*;
use crate::mvt::commands;
use crate::mvt::commands::{
    encode_lines, encode_points, encode_rings, lines_fit, points_fit, rings_fit, GeomKind, Ring,
    RingView,
};
use crate::tilemath::TileTransform;

verus! {

/// A polygon in tile coordinates, rings with their first point repeated at the end.
#[derive(Debug)]
pub struct TilePolygon {
    pub exterior: Vec<(i32, i32)>,
    pub interiors: Vec<Vec<(i32, i32)>>,
}

/// What a polygon in tile coordinates is.
pub struct TilePolygonView {
    pub exterior: Seq<(i32, i32)>,
    pub interiors: Seq<Seq<(i32, i32)>>,
}

impl View for TilePolygon {
    type V = TilePolygonView;

    open spec fn view(&self) -> TilePolygonView {
        TilePolygonView {
            exterior: self.exterior@,
            interiors: commands::point_lists(self.interiors@),
        }
    }
}

/// Polygons, by what they are.
pub open spec fn tile_polygon_views(polygons: Seq<TilePolygon>) -> Seq<TilePolygonView> {
    polygons.map_values(|p: TilePolygon| p@)
}

/// A geometry whose points are in the coordinates of one tile.
#[derive(Debug)]
pub enum TileGeometry {
    Point((i32, i32)),
    MultiPoint(Vec<(i32, i32)>),
    LineString(Vec<(i32, i32)>),
    MultiLineString(Vec<Vec<(i32, i32)>>),
    Polygon(TilePolygon),
    MultiPolygon(Vec<TilePolygon>),
    /// A geometry of a kind that tiles do not carry.
    Other,
}

/// What a geometry in tile coordinates is.
pub enum TileGeometryView {
    Point((i32, i32)),
    MultiPoint(Seq<(i32, i32)>),
    LineString(Seq<(i32, i32)>),
    MultiLineString(Seq<Seq<(i32, i32)>>),
    Polygon(TilePolygonView),
    MultiPolygon(Seq<TilePolygonView>),
    Other,
}

impl View for TileGeometry {
    type V = TileGeometryView;

    open spec fn view(&self) -> TileGeometryView {
        match self {
            TileGeometry::Point(p) => TileGeometryView::Point(*p),
            TileGeometry::MultiPoint(ps) => TileGeometryView::MultiPoint(ps@),
            TileGeometry::LineString(l) => TileGeometryView::LineString(l@),
            TileGeometry::MultiLineString(ls) => TileGeometryView::MultiLineString(
                commands::point_lists(ls@),
            ),
            TileGeometry::Polygon(p) => TileGeometryView::Polygon(p@),
            TileGeometry::MultiPolygon(ps) => TileGeometryView::MultiPolygon(
                tile_polygon_views(ps@),
            ),
            TileGeometry::Other => TileGeometryView::Other,
        }
    }
}

/// The points without those that repeat the one before.
pub open spec fn dedup(points: Seq<(i32, i32)>) -> Seq<(i32, i32)>
    decreases points.len(),
{
    if points.len() == 0 {
        points
    } else {
        let rest = dedup(points.drop_last());
        if points.len() > 1 && points[points.len() - 2] == points.last() {
            rest
        } else {
            rest.push(points.last())
        }
    }
}

/// The points of a ring without repeats and without the closing vertex, where at least three are
/// left.
pub open spec fn ring_points(points: Seq<(i32, i32)>) -> Option<Seq<(i32, i32)>> {
    let distinct = dedup(points);
    let open = if distinct.len() > 1 && distinct.first() == distinct.last() {
        distinct.drop_last()
    } else {
        distinct
    };
    if open.len() >= 3 {
        Some(open)
    } else {
        None
    }
}

/// The holes that survive.
pub open spec fn hole_rings(holes: Seq<Seq<(i32, i32)>>) -> Seq<RingView>
    decreases holes.len(),
{
    if holes.len() == 0 {
        Seq::empty()
    } else {
        let rest = hole_rings(holes.drop_last());
        match ring_points(holes.last()) {
            Some(points) => rest.push(RingView { points, exterior: false }),
            None => rest,
        }
    }
}

/// The rings of a polygon that survive: none without the exterior.
pub open spec fn polygon_rings(p: TilePolygonView) -> Seq<RingView> {
    match ring_points(p.exterior) {
        Some(points) => seq![RingView { points, exterior: true }] + hole_rings(p.interiors),
        None => Seq::empty(),
    }
}

/// The rings of several polygons that survive.
pub open spec fn all_rings(polygons: Seq<TilePolygonView>) -> Seq<RingView>
    decreases polygons.len(),
{
    if polygons.len() == 0 {
        Seq::empty()
    } else {
        all_rings(polygons.drop_last()) + polygon_rings(polygons.last())
    }
}

/// The points inside the tile and its buffer.
pub open spec fn points_inside(points: Seq<(i32, i32)>, t: TileTransform) -> Seq<(i32, i32)>
    decreases points.len(),
{
    if points.len() == 0 {
        points
    } else {
        let rest = points_inside(points.drop_last(), t);
        if t.buffered(points.last()) {
            rest.push(points.last())
        } else {
            rest
        }
    }
}

/// The lines without repeated points that still have two.
pub open spec fn clean_lines(lines: Seq<Seq<(i32, i32)>>) -> Seq<Seq<(i32, i32)>>
    decreases lines.len(),
{
    if lines.len() == 0 {
        lines
    } else {
        let rest = clean_lines(lines.drop_last());
        let line = dedup(lines.last());
        if line.len() >= 2 {
            rest.push(line)
        } else {
            rest
        }
    }
}

/// What of a geometry is drawn into a tile.
pub enum Drawing {
    Points(Seq<(i32, i32)>),
    Lines(Seq<Seq<(i32, i32)>>),
    Rings(Seq<RingView>),
    Nothing,
}

/// What of a geometry is drawn into a tile: points inside the buffered tile, lines and rings
/// without repeated points.
pub open spec fn drawing(g: TileGeometryView, t: TileTransform) -> Drawing {
    match g {
        TileGeometryView::Point(p) => Drawing::Points(points_inside(seq![p], t)),
        TileGeometryView::MultiPoint(ps) => Drawing::Points(points_inside(ps, t)),
        TileGeometryView::LineString(l) => Drawing::Lines(clean_lines(seq![l])),
        TileGeometryView::MultiLineString(ls) => Drawing::Lines(clean_lines(ls)),
        TileGeometryView::Polygon(p) => Drawing::Rings(polygon_rings(p)),
        TileGeometryView::MultiPolygon(ps) => Drawing::Rings(all_rings(ps)),
        TileGeometryView::Other => Drawing::Nothing,
    }
}

/// Command integers, where there are any.
pub open spec fn drawn(kind: GeomKind, cmds: Seq<u32>) -> Option<(GeomKind, Seq<u32>)> {
    if cmds.len() > 0 {
        Some((kind, cmds))
    } else {
        None
    }
}

/// The kind and the command integers of a geometry in a tile, where anything of it is drawn.
pub open spec fn geometry_commands(g: TileGeometryView, t: TileTransform) -> Option<
    (GeomKind, Seq<u32>),
> {
    match drawing(g, t) {
        Drawing::Points(ps) => drawn(
            GeomKind::Point,
            commands::draw(commands::CMD_MOVE_TO, ps, (0, 0)),
        ),
        Drawing::Lines(ls) => drawn(
            GeomKind::LineString,
            commands::stream(commands::line_paths(ls), (0, 0)),
        ),
        Drawing::Rings(rs) => drawn(
            GeomKind::Polygon,
            commands::stream(commands::ring_paths(rs), (0, 0)),
        ),
        Drawing::Nothing => None,
    }
}

/// Whether every step of a geometry's drawing fits in 32 bits.
pub open spec fn drawing_fits(g: TileGeometryView, t: TileTransform) -> bool {
    match drawing(g, t) {
        Drawing::Points(ps) => commands::steps_fit(ps, (0, 0)),
        Drawing::Lines(ls) => commands::stream_fits(commands::line_paths(ls), (0, 0)),
        Drawing::Rings(rs) => commands::stream_fits(commands::ring_paths(rs), (0, 0)),
        Drawing::Nothing => true,
    }
}

/// The points of a line, dropping consecutive duplicates introduced by rounding.
fn clean_line(points: &[(i32, i32)]) -> (out: Vec<(i32, i32)>)
    ensures
        out@ == dedup(points@),
{
    let mut out: Vec<(i32, i32)> = Vec::new();
    let mut i: usize = 0;
    assert(points@.take(0) =~= dedup(points@.take(0)));
    while i < points.len()
        invariant
            i <= points@.len(),
            out@ == dedup(points@.take(i as int)),
        decreases points@.len() - i,
    {
        assert(points@.take(i + 1).drop_last() =~= points@.take(i as int));
        if !(i > 0 && points[i - 1].0 == points[i].0 && points[i - 1].1 == points[i].1) {
            out.push(points[i]);
        }
        i = i + 1;
    }
    assert(points@.take(i as int) =~= points@);
    out
}

/// The points of a ring. The repeated closing vertex is removed (an explicit `ClosePath` stands
/// for it).
fn clean_ring(points: &[(i32, i32)]) -> (r: Option<Vec<(i32, i32)>>)
    ensures
        match r {
            Some(out) => ring_points(points@) == Some(out@),
            None => ring_points(points@) is None,
        },
{
    let mut out = clean_line(points);
    let n: usize = out.len();
    if n > 1 && out[0].0 == out[n - 1].0 && out[0].1 == out[n - 1].1 {
        let ghost before = out@;
        out.pop();
        assert(out@ =~= before.drop_last());
    }
    if out.len() >= 3 {
        Some(out)
    } else {
        None
    }
}

/// Appends the rings of a polygon that survive.
fn push_rings(p: &TilePolygon, rings: &mut Vec<Ring>)
    ensures
        commands::ring_views(final(rings)@) == commands::ring_views(old(rings)@) + polygon_rings(
            p@,
        ),
{
    let ghost start = commands::ring_views(rings@);
    match clean_ring(p.exterior.as_slice()) {
        Some(points) => {
            let ring = Ring { points, exterior: true };
            rings.push(ring);
            assert(commands::ring_views(rings@) =~= start.push(ring@));
        },
        None => {
            assert(start + Seq::<RingView>::empty() =~= start);
            return;
        },
    }
    let ghost outer = commands::ring_views(rings@);
    let ghost holes = commands::point_lists(p.interiors@);
    let mut i: usize = 0;
    assert(holes.take(0) =~= Seq::empty());
    assert(outer + hole_rings(holes.take(0)) =~= outer);
    while i < p.interiors.len()
        invariant
            i <= p.interiors@.len(),
            holes == commands::point_lists(p.interiors@),
            commands::ring_views(rings@) == outer + hole_rings(holes.take(i as int)),
        decreases p.interiors@.len() - i,
    {
        assert(holes.take(i + 1).drop_last() =~= holes.take(i as int));
        assert(holes.take(i + 1).last() == p.interiors@[i as int]@);
        match clean_ring(p.interiors[i].as_slice()) {
            Some(points) => {
                let ghost before = commands::ring_views(rings@);
                let ring = Ring { points, exterior: false };
                rings.push(ring);
                assert(commands::ring_views(rings@) =~= before.push(ring@));
                assert(commands::ring_views(rings@) =~= outer + hole_rings(holes.take(i + 1)));
            },
            None => {},
        }
        i = i + 1;
    }
    assert(holes.take(i as int) =~= holes);
    assert(commands::ring_views(rings@) =~= start + polygon_rings(p@));
}

/// The drawing of a geometry, as the encoders take it.
pub enum Strokes {
    Points(Vec<(i32, i32)>),
    Lines(Vec<Vec<(i32, i32)>>),
    Rings(Vec<Ring>),
    Nothing,
}

impl View for Strokes {
    type V = Drawing;

    open spec fn view(&self) -> Drawing {
        match self {
            Strokes::Points(ps) => Drawing::Points(ps@),
            Strokes::Lines(ls) => Drawing::Lines(commands::point_lists(ls@)),
            Strokes::Rings(rs) => Drawing::Rings(commands::ring_views(rs@)),
            Strokes::Nothing => Drawing::Nothing,
        }
    }
}

fn keep_inside(points: &[(i32, i32)], t: &TileTransform) -> (out: Vec<(i32, i32)>)
    ensures
        out@ == points_inside(points@, *t),
{
    let mut out: Vec<(i32, i32)> = Vec::new();
    let mut i: usize = 0;
    assert(points@.take(0) =~= points_inside(points@.take(0), *t));
    while i < points.len()
        invariant
            i <= points@.len(),
            out@ == points_inside(points@.take(i as int), *t),
        decreases points@.len() - i,
    {
        assert(points@.take(i + 1).drop_last() =~= points@.take(i as int));
        if t.contains_buffered(points[i]) {
            out.push(points[i]);
        }
        i = i + 1;
    }
    assert(points@.take(i as int) =~= points@);
    out
}

fn keep_lines(lines: &[Vec<(i32, i32)>]) -> (out: Vec<Vec<(i32, i32)>>)
    ensures
        commands::point_lists(out@) == clean_lines(commands::point_lists(lines@)),
{
    let ghost all = commands::point_lists(lines@);
    let mut out: Vec<Vec<(i32, i32)>> = Vec::new();
    let mut i: usize = 0;
    assert(commands::point_lists(out@) =~= clean_lines(all.take(0)));
    while i < lines.len()
        invariant
            i <= lines@.len(),
            all == commands::point_lists(lines@),
            commands::point_lists(out@) == clean_lines(all.take(i as int)),
        decreases lines@.len() - i,
    {
        assert(all.take(i + 1).drop_last() =~= all.take(i as int));
        assert(all.take(i + 1).last() == lines@[i as int]@);
        let line = clean_line(lines[i].as_slice());
        if line.len() >= 2 {
            let ghost before = commands::point_lists(out@);
            out.push(line);
            assert(commands::point_lists(out@) =~= before.push(line@));
        }
        i = i + 1;
    }
    assert(all.take(i as int) =~= all);
    out
}

/// What of a geometry is drawn into a tile.
pub fn strokes(geom: &TileGeometry, transform: &TileTransform) -> (s: Strokes)
    ensures
        s@ == drawing(geom@, *transform),
{
    match geom {
        TileGeometry::Point(p) => {
            let one = vec![*p];
            assert(one@ =~= seq![*p]);
            Strokes::Points(keep_inside(one.as_slice(), transform))
        },
        TileGeometry::MultiPoint(ps) => Strokes::Points(keep_inside(ps.as_slice(), transform)),
        TileGeometry::LineString(l) => {
            let mut out: Vec<Vec<(i32, i32)>> = Vec::new();
            let line = clean_line(l.as_slice());
            proof {
                reveal_with_fuel(clean_lines, 2);
                assert(seq![l@].drop_last() =~= Seq::empty());
            }
            if line.len() >= 2 {
                out.push(line);
            }
            assert(commands::point_lists(out@) =~= clean_lines(seq![l@]));
            Strokes::Lines(out)
        },
        TileGeometry::MultiLineString(ls) => Strokes::Lines(keep_lines(ls.as_slice())),
        TileGeometry::Polygon(p) => {
            let mut rings: Vec<Ring> = Vec::new();
            push_rings(p, &mut rings);
            assert(commands::ring_views(rings@) =~= polygon_rings(p@));
            Strokes::Rings(rings)
        },
        TileGeometry::MultiPolygon(ps) => {
            let ghost all = tile_polygon_views(ps@);
            let mut rings: Vec<Ring> = Vec::new();
            let mut i: usize = 0;
            assert(commands::ring_views(rings@) =~= all_rings(all.take(0)));
            while i < ps.len()
                invariant
                    i <= ps@.len(),
                    all == tile_polygon_views(ps@),
                    commands::ring_views(rings@) == all_rings(all.take(i as int)),
                decreases ps@.len() - i,
            {
                assert(all.take(i + 1).drop_last() =~= all.take(i as int));
                assert(all.take(i + 1).last() == ps@[i as int]@);
                push_rings(&ps[i], &mut rings);
                i = i + 1;
            }
            assert(all.take(i as int) =~= all);
            Strokes::Rings(rings)
        },
        TileGeometry::Other => Strokes::Nothing,
    }
}

/// Whether every step of a geometry's drawing fits in 32 bits, so that it can be encoded.
pub fn can_be_drawn(geom: &TileGeometry, transform: &TileTransform) -> (b: bool)
    ensures
        b == drawing_fits(geom@, *transform),
{
    match strokes(geom, transform) {
        Strokes::Points(ps) => points_fit(ps.as_slice()),
        Strokes::Lines(ls) => lines_fit(ls.as_slice()),
        Strokes::Rings(rs) => rings_fit(rs.as_slice()),
        Strokes::Nothing => true,
    }
}

/// Converts a geometry into command integers for a target tile. Returns `None` when nothing
/// survives (a point outside the buffered tile or rings without area, for example).
pub fn encode_geometry(geom: &TileGeometry, transform: &TileTransform) -> (r: Option<
    (GeomKind, Vec<u32>),
>)
    requires
        drawing_fits(geom@, *transform),
    ensures
        match r {
            Some((kind, cmds)) => geometry_commands(geom@, *transform) == Some((kind, cmds@)),
            None => geometry_commands(geom@, *transform) is None,
        },
{
    let (kind, cmds) = match strokes(geom, transform) {
        Strokes::Points(ps) => (GeomKind::Point, encode_points(ps.as_slice())),
        Strokes::Lines(ls) => (GeomKind::LineString, encode_lines(ls.as_slice())),
        Strokes::Rings(rs) => (GeomKind::Polygon, encode_rings(rs.as_slice())),
        Strokes::Nothing => {
            return None;
        },
    };
    if cmds.len() > 0 {
        Some((kind, cmds))
    } else {
        None
    }
}

} // verus!
