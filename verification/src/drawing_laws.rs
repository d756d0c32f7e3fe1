//! What a reader of a tile sees of a geometry: the points inside, every line, and every ring with
//! its role.
use vstd::prelude::*;
use crate::mvt::command_laws;
use crate::mvt::commands;
use crate::mvt::commands::{GeomKind, Path, RingView};
use crate::picking;
use crate::tile_geometry;
use crate::tile_geometry::{TileGeometryView, TilePolygonView};
use crate::tilemath::TileTransform;

verus! {

/// A point of the tile.
pub type Spot = (i32, i32);

/// `out` holds the points without repeats: point `i` is the one at `to[i]`, which is the place of
/// the point before it where both are the same, and else the next place.
pub open spec fn without_repeats(points: Seq<Spot>, out: Seq<Spot>, to: Seq<int>) -> bool {
    &&& to.len() == points.len()
    &&& if points.len() == 0 {
        out.len() == 0
    } else {
        to[0] == 0 && to.last() == out.len() - 1
    }
    &&& forall|i: int|
        0 <= i < points.len() ==> 0 <= #[trigger] to[i] < out.len() && out[to[i]] == points[i]
    &&& forall|i: int|
        0 < i < points.len() ==> #[trigger] to[i] == to[i - 1] + if points[i] == points[i - 1] {
            0int
        } else {
            1int
        }
}

/// Removing repeats loses no point: every point of a line is still there, in order, once for each
/// run of the same point.
pub proof fn repeats_go_points_stay(points: Seq<Spot>)
    ensures
        exists|to: Seq<int>| #[trigger]
            without_repeats(points, tile_geometry::dedup(points), to),
        tile_geometry::dedup(points).len() <= points.len(),
        forall|i: int|
            0 < i < tile_geometry::dedup(points).len() ==> tile_geometry::dedup(points)[i - 1]
                != #[trigger] tile_geometry::dedup(points)[i],
    decreases points.len(),
{
    let out = tile_geometry::dedup(points);
    if points.len() == 0 {
        assert(without_repeats(points, out, Seq::empty()));
    } else {
        let d = points.drop_last();
        let rest = tile_geometry::dedup(d);
        repeats_go_points_stay(d);
        let to = choose|to: Seq<int>| #[trigger] without_repeats(d, rest, to);
        let new = to.push(out.len() - 1);
        let n = points.len() - 1;
        if n > 0 {
            assert(d[n - 1] == points[n - 1]);
            assert(to[n - 1] == rest.len() - 1);
            assert(rest[to[n - 1]] == d[n - 1]);
        } else {
            assert(d =~= Seq::empty());
        }
        assert forall|i: int| 0 <= i < points.len() implies 0 <= #[trigger] new[i] < out.len()
            && out[new[i]] == points[i] by {
            if i < n {
                assert(new[i] == to[i]);
                assert(rest[to[i]] == d[i]);
                assert(out[to[i]] == rest[to[i]]);
            }
        }
        assert forall|i: int| 0 < i < points.len() implies #[trigger] new[i] == new[i - 1]
            + if points[i] == points[i - 1] {
            0int
        } else {
            1int
        } by {
            assert(new[i - 1] == to[i - 1]);
            if i < n {
                assert(new[i] == to[i]);
                assert(d[i] == points[i] && d[i - 1] == points[i - 1]);
            }
        }
        if n > 0 {
            assert(new[0] == to[0]);
        }
        assert(without_repeats(points, out, new));
        assert forall|i: int| 0 < i < out.len() implies out[i - 1] != #[trigger] out[i] by {
            if i < rest.len() {
                assert(out[i - 1] == rest[i - 1] && out[i] == rest[i]);
            } else {
                assert(out[i - 1] == rest[rest.len() - 1]);
            }
        }
    }
}

/// A line without repeats stays as it is.
pub proof fn clean_lines_stay(points: Seq<Spot>)
    requires
        forall|i: int| 0 < i < points.len() ==> points[i - 1] != #[trigger] points[i],
    ensures
        tile_geometry::dedup(points) == points,
    decreases points.len(),
{
    if points.len() > 0 {
        let d = points.drop_last();
        assert forall|i: int| 0 < i < d.len() implies d[i - 1] != #[trigger] d[i] by {
            assert(d[i] == points[i] && d[i - 1] == points[i - 1]);
        }
        clean_lines_stay(d);
        if points.len() > 1 {
            assert(points[points.len() - 2] != points[points.len() - 1]);
        }
        assert(points =~= d.push(points.last()));
    }
}

/// A ring is drawn with the points it has without repeats and without its closing point, where
/// there are three of them; only then.
pub proof fn rings_keep_their_points(points: Seq<Spot>)
    ensures
        match tile_geometry::ring_points(points) {
            Some(r) => {
                &&& r.len() >= 3
                &&& r[0] != r[r.len() - 1]
                &&& tile_geometry::dedup(points) == r || tile_geometry::dedup(points) == r.push(
                    r[0],
                )
            },
            None => {
                let d = tile_geometry::dedup(points);
                d.len() < 3 || d.len() == 3 && d[0] == d[2]
            },
        },
{
    let d = tile_geometry::dedup(points);
    repeats_go_points_stay(points);
    if let Some(r) = tile_geometry::ring_points(points) {
        if d.first() == d.last() {
            assert(d =~= r.push(r[0]));
            assert(d[d.len() - 2] != d[d.len() - 1]);
        }
    }
}

/// A closed ring without repeats, of three corners or more, is drawn with all of them.
pub proof fn sound_rings_are_drawn_whole(corners: Seq<Spot>)
    requires
        corners.len() >= 3,
        forall|i: int| 0 < i < corners.len() ==> corners[i - 1] != #[trigger] corners[i],
        corners[0] != corners[corners.len() - 1],
    ensures
        tile_geometry::ring_points(corners.push(corners[0])) == Some(corners),
        tile_geometry::ring_points(corners) == Some(corners),
{
    let closed = corners.push(corners[0]);
    assert forall|i: int| 0 < i < closed.len() implies closed[i - 1] != #[trigger] closed[i] by {
        if i < corners.len() {
            assert(closed[i - 1] == corners[i - 1] && closed[i] == corners[i]);
        } else {
            assert(closed[i - 1] == corners[corners.len() - 1]);
        }
    }
    clean_lines_stay(closed);
    clean_lines_stay(corners);
    assert(closed.drop_last() =~= corners);
}

/// A point that lies in the tile or in the buffer around it.
pub open spec fn if_inside(t: TileTransform) -> spec_fn(Spot) -> Option<Spot> {
    |p: Spot|
        if -(t.buffer as int) <= p.0 <= t.extent + t.buffer && -(t.buffer as int) <= p.1 <= t.extent
            + t.buffer {
            Some(p)
        } else {
            None
        }
}

/// Of several points those inside the tile and its buffer are drawn, all of them and in order.
pub proof fn points_inside_are_drawn(points: Seq<Spot>, t: TileTransform)
    requires
        t.extent < 0x8000_0000,
        t.buffer < 0x8000_0000,
    ensures
        picking::picked(points, if_inside(t), tile_geometry::points_inside(points, t)),
    decreases points.len(),
{
    if points.len() == 0 {
        picking::picked_of_nothing(points, if_inside(t));
        assert(points =~= Seq::empty());
    } else {
        points_inside_are_drawn(points.drop_last(), t);
        picking::picked_grows(
            points,
            if_inside(t),
            tile_geometry::points_inside(points.drop_last(), t),
            tile_geometry::points_inside(points, t),
        );
    }
}

/// How a line is drawn: without repeats, where two points are left.
pub open spec fn drawn_line() -> spec_fn(Seq<Spot>) -> Option<Path> {
    |l: Seq<Spot>|
        if tile_geometry::dedup(l).len() >= 2 {
            Some(Path { points: tile_geometry::dedup(l), closed: false })
        } else {
            None
        }
}

/// How a ring is drawn in a role: without repeats and without its closing point, wound by its role,
/// where three points with an area are left.
pub open spec fn drawn_ring(exterior: bool) -> spec_fn(Seq<Spot>) -> Option<Path> {
    |r: Seq<Spot>|
        match tile_geometry::ring_points(r) {
            Some(points) => if commands::wrap64(commands::area2(points)) != 0 {
                Some(Path { points: commands::wound(points, exterior), closed: true })
            } else {
                None
            },
            None => None,
        }
}

/// Of several lines those that still have two points are drawn, none is missing, and they keep
/// their order.
pub proof fn lines_are_drawn(lines: Seq<Seq<Spot>>)
    ensures
        picking::picked(
            lines,
            drawn_line(),
            commands::line_paths(tile_geometry::clean_lines(lines)),
        ),
    decreases lines.len(),
{
    let out = commands::line_paths(tile_geometry::clean_lines(lines));
    if lines.len() == 0 {
        picking::picked_of_nothing(lines, drawn_line());
        assert(lines =~= Seq::empty());
        assert(out =~= Seq::empty());
    } else {
        let rest = tile_geometry::clean_lines(lines.drop_last());
        let line = tile_geometry::dedup(lines.last());
        lines_are_drawn(lines.drop_last());
        if line.len() >= 2 {
            assert(rest.push(line).drop_last() =~= rest);
        }
        picking::picked_grows(lines, drawn_line(), commands::line_paths(rest), out);
    }
}

/// Of several holes those that keep three points with an area are drawn, none is missing, and they
/// keep their order.
pub proof fn holes_are_drawn(holes: Seq<Seq<Spot>>)
    ensures
        picking::picked(
            holes,
            drawn_ring(false),
            commands::ring_paths(tile_geometry::hole_rings(holes)),
        ),
    decreases holes.len(),
{
    let out = commands::ring_paths(tile_geometry::hole_rings(holes));
    if holes.len() == 0 {
        picking::picked_of_nothing(holes, drawn_ring(false));
        assert(out =~= Seq::empty());
    } else {
        let rest = tile_geometry::hole_rings(holes.drop_last());
        holes_are_drawn(holes.drop_last());
        if let Some(points) = tile_geometry::ring_points(holes.last()) {
            let ring = RingView { points, exterior: false };
            assert(rest.push(ring).drop_last() =~= rest);
        }
        picking::picked_grows(holes, drawn_ring(false), commands::ring_paths(rest), out);
    }
}

/// The paths of the rings of a polygon.
pub open spec fn polygon_paths(p: TilePolygonView) -> Seq<Path> {
    commands::ring_paths(tile_geometry::polygon_rings(p))
}

proof fn ring_paths_join(a: Seq<RingView>, b: Seq<RingView>)
    ensures
        commands::ring_paths(a + b) == commands::ring_paths(a) + commands::ring_paths(b),
    decreases b.len(),
{
    if b.len() == 0 {
        assert(a + b =~= a);
        assert(commands::ring_paths(a) + commands::ring_paths(b) =~= commands::ring_paths(a));
    } else {
        ring_paths_join(a, b.drop_last());
        assert((a + b).drop_last() =~= a + b.drop_last());
        assert(commands::ring_paths(a + b) =~= commands::ring_paths(a) + commands::ring_paths(b));
    }
}

/// A polygon is drawn with its exterior first and behind it every hole that keeps three points with
/// an area, in order. Without three points in its exterior nothing of it is drawn.
pub proof fn polygons_are_drawn_with_their_holes(p: TilePolygonView)
    ensures
        match tile_geometry::ring_points(p.exterior) {
            None => polygon_paths(p).len() == 0,
            Some(_) => match drawn_ring(true)(p.exterior) {
                Some(outer) => {
                    &&& polygon_paths(p).len() > 0
                    &&& polygon_paths(p)[0] == outer
                    &&& picking::picked(p.interiors, drawn_ring(false), polygon_paths(p).skip(1))
                },
                None => picking::picked(p.interiors, drawn_ring(false), polygon_paths(p)),
            },
        },
{
    if let Some(points) = tile_geometry::ring_points(p.exterior) {
        let ring = RingView { points, exterior: true };
        let holes = tile_geometry::hole_rings(p.interiors);
        ring_paths_join(seq![ring], holes);
        holes_are_drawn(p.interiors);
        reveal_with_fuel(commands::ring_paths, 2);
        assert(seq![ring].drop_last() =~= Seq::empty());
        rings_keep_their_points(p.exterior);
        let first = commands::ring_paths(seq![ring]);
        let rest = commands::ring_paths(holes);
        if drawn_ring(true)(p.exterior) is Some {
            assert(first =~= seq![drawn_ring(true)(p.exterior)->Some_0]);
            assert((first + rest).skip(1) =~= rest);
        } else {
            assert(first =~= Seq::empty());
            assert(first + rest =~= rest);
        }
    }
}

/// The paths of a polygon, as a function.
pub open spec fn paths_of() -> spec_fn(TilePolygonView) -> Seq<Path> {
    |p: TilePolygonView| polygon_paths(p)
}

/// Several polygons are drawn one after the other, each with all its rings.
pub proof fn polygons_are_drawn_one_after_the_other(ps: Seq<TilePolygonView>)
    ensures
        commands::ring_paths(tile_geometry::all_rings(ps)) == ps.map_values(paths_of()).flatten(),
    decreases ps.len(),
{
    let lists = ps.map_values(paths_of());
    if ps.len() == 0 {
        assert(lists =~= Seq::empty());
        assert(lists.flatten() =~= Seq::empty());
    } else {
        let d = ps.drop_last();
        polygons_are_drawn_one_after_the_other(d);
        ring_paths_join(tile_geometry::all_rings(d), tile_geometry::polygon_rings(ps.last()));
        let front = d.map_values(paths_of());
        assert(lists =~= front.push(polygon_paths(ps.last())));
        front.lemma_flatten_push(polygon_paths(ps.last()));
    }
}

/// Rings that a command integer can count.
pub open spec fn countable(p: TilePolygonView) -> bool {
    &&& p.exterior.len() <= 0x2000_0000
    &&& forall|i: int| 0 <= i < p.interiors.len() ==> (#[trigger] p.interiors[i]).len() <= 0x2000_0000
}

/// A geometry whose lists a command integer can count.
pub open spec fn all_countable(g: TileGeometryView) -> bool {
    match g {
        TileGeometryView::MultiPoint(ps) => ps.len() < 0x2000_0000,
        TileGeometryView::LineString(l) => l.len() <= 0x2000_0000,
        TileGeometryView::MultiLineString(ls) => forall|i: int|
            0 <= i < ls.len() ==> (#[trigger] ls[i]).len() <= 0x2000_0000,
        TileGeometryView::Polygon(p) => countable(p),
        TileGeometryView::MultiPolygon(ps) => forall|i: int|
            0 <= i < ps.len() ==> countable(#[trigger] ps[i]),
        _ => true,
    }
}

proof fn line_paths_readable(lines: Seq<Seq<Spot>>)
    requires
        forall|i: int| 0 <= i < lines.len() ==> (#[trigger] lines[i]).len() <= 0x2000_0000,
    ensures
        ({
            let paths = commands::line_paths(tile_geometry::clean_lines(lines));
            forall|k: int| 0 <= k < paths.len() ==> command_laws::readable(#[trigger] paths[k])
        }),
{
    let paths = commands::line_paths(tile_geometry::clean_lines(lines));
    lines_are_drawn(lines);
    let at = choose|at: Seq<int>| #[trigger] picking::picks(lines, drawn_line(), paths, at);
    assert forall|k: int| 0 <= k < paths.len() implies command_laws::readable(
        #[trigger] paths[k],
    ) by {
        assert(0 <= at[k] < lines.len());
        repeats_go_points_stay(lines[at[k]]);
    }
}

proof fn drawn_ring_readable(r: Seq<Spot>, exterior: bool)
    requires
        r.len() <= 0x2000_0000,
    ensures
        drawn_ring(exterior)(r) matches Some(path) ==> command_laws::readable(path),
{
    repeats_go_points_stay(r);
    rings_keep_their_points(r);
}

proof fn polygon_paths_readable(p: TilePolygonView)
    requires
        countable(p),
    ensures
        forall|k: int|
            0 <= k < polygon_paths(p).len() ==> command_laws::readable(#[trigger] polygon_paths(p)[k]),
{
    let paths = polygon_paths(p);
    polygons_are_drawn_with_their_holes(p);
    drawn_ring_readable(p.exterior, true);
    if tile_geometry::ring_points(p.exterior) is Some {
        let skip: int = if drawn_ring(true)(p.exterior) is Some {
            1
        } else {
            0
        };
        let rest = paths.skip(skip);
        assert(paths.skip(0) =~= paths);
        let at = choose|at: Seq<int>| #[trigger]
            picking::picks(p.interiors, drawn_ring(false), rest, at);
        assert forall|k: int| 0 <= k < paths.len() implies command_laws::readable(
            #[trigger] paths[k],
        ) by {
            if k >= skip {
                assert(rest[k - skip] == paths[k]);
                assert(0 <= at[k - skip] < p.interiors.len());
                drawn_ring_readable(p.interiors[at[k - skip]], false);
            }
        }
    }
}

proof fn all_paths_readable(ps: Seq<TilePolygonView>)
    requires
        forall|i: int| 0 <= i < ps.len() ==> countable(#[trigger] ps[i]),
    ensures
        ({
            let paths = commands::ring_paths(tile_geometry::all_rings(ps));
            forall|k: int| 0 <= k < paths.len() ==> command_laws::readable(#[trigger] paths[k])
        }),
    decreases ps.len(),
{
    if ps.len() > 0 {
        let d = ps.drop_last();
        assert forall|i: int| 0 <= i < d.len() implies countable(#[trigger] d[i]) by {
            assert(d[i] == ps[i]);
        }
        all_paths_readable(d);
        assert(ps[ps.len() - 1] == ps.last());
        polygon_paths_readable(ps.last());
        ring_paths_join(tile_geometry::all_rings(d), tile_geometry::polygon_rings(ps.last()));
        let before = commands::ring_paths(tile_geometry::all_rings(d));
        let paths = commands::ring_paths(tile_geometry::all_rings(ps));
        assert forall|k: int| 0 <= k < paths.len() implies command_laws::readable(
            #[trigger] paths[k],
        ) by {
            if k < before.len() {
                assert(paths[k] == before[k]);
            } else {
                assert(paths[k] == polygon_paths(ps.last())[k - before.len()]);
            }
        }
    }
}

/// The paths that a reader draws from the commands of a geometry; none where there are no commands.
pub open spec fn read(g: TileGeometryView, t: TileTransform) -> Seq<Path> {
    match tile_geometry::geometry_commands(g, t) {
        Some((_, cmds)) => command_laws::read_paths(cmds, (0, 0)),
        None => Seq::empty(),
    }
}

proof fn paths_are_read(paths: Seq<Path>, kind: GeomKind)
    requires
        forall|k: int| 0 <= k < paths.len() ==> command_laws::readable(#[trigger] paths[k]),
        commands::stream_fits(paths, (0, 0)),
    ensures
        match tile_geometry::drawn(kind, commands::stream(paths, (0, 0))) {
            Some((k, cmds)) => k == kind && command_laws::read_paths(cmds, (0, 0)) == paths,
            None => paths.len() == 0,
        },
{
    command_laws::paths_come_back(paths, (0, 0));
    if paths.len() > 0 {
        assert(command_laws::readable(paths[0]));
        assert(commands::path_commands(paths[0], (0, 0)).len() > 0);
    }
}

/// A reader of a line gets back all its points but repeats; nothing is drawn where fewer than two
/// are left.
pub proof fn lines_are_read_back(l: Seq<Spot>, t: TileTransform)
    requires
        l.len() <= 0x2000_0000,
        tile_geometry::drawing_fits(TileGeometryView::LineString(l), t),
    ensures
        ({
            let g = TileGeometryView::LineString(l);
            let d = tile_geometry::dedup(l);
            &&& read(g, t) == if d.len() >= 2 {
                seq![Path { points: d, closed: false }]
            } else {
                Seq::empty()
            }
            &&& tile_geometry::geometry_commands(g, t) is Some <==> d.len() >= 2
            &&& tile_geometry::geometry_commands(g, t) matches Some((kind, _)) ==> kind
                == GeomKind::LineString
        }),
{
    let one = seq![l];
    let paths = commands::line_paths(tile_geometry::clean_lines(one));
    assert(one[0] == l);
    line_paths_readable(one);
    reveal_with_fuel(tile_geometry::clean_lines, 2);
    reveal_with_fuel(commands::line_paths, 2);
    assert(one.drop_last() =~= Seq::empty());
    let d = tile_geometry::dedup(l);
    if d.len() >= 2 {
        assert(tile_geometry::clean_lines(one) =~= seq![d]);
        assert(seq![d].drop_last() =~= Seq::empty());
        assert(paths =~= seq![Path { points: d, closed: false }]);
    } else {
        assert(paths =~= Seq::empty());
    }
    paths_are_read(paths, GeomKind::LineString);
}

/// A reader of several lines gets back each of them that still has two points, in order.
pub proof fn multi_lines_are_read_back(ls: Seq<Seq<Spot>>, t: TileTransform)
    requires
        all_countable(TileGeometryView::MultiLineString(ls)),
        tile_geometry::drawing_fits(TileGeometryView::MultiLineString(ls), t),
    ensures
        ({
            let g = TileGeometryView::MultiLineString(ls);
            &&& picking::picked(ls, drawn_line(), read(g, t))
            &&& tile_geometry::geometry_commands(g, t) matches Some((kind, _)) ==> kind
                == GeomKind::LineString
        }),
{
    let paths = commands::line_paths(tile_geometry::clean_lines(ls));
    line_paths_readable(ls);
    lines_are_drawn(ls);
    paths_are_read(paths, GeomKind::LineString);
    if paths.len() == 0 {
        assert(paths =~= Seq::empty());
    }
}

/// A reader of a polygon gets back its exterior and behind it every hole that keeps three points
/// with an area: as many as there are, each with the points of its source, in order.
pub proof fn polygons_are_read_back(p: TilePolygonView, t: TileTransform)
    requires
        countable(p),
        tile_geometry::drawing_fits(TileGeometryView::Polygon(p), t),
        drawn_ring(true)(p.exterior) is Some,
    ensures
        ({
            let g = TileGeometryView::Polygon(p);
            let paths = read(g, t);
            &&& tile_geometry::geometry_commands(g, t) matches Some((kind, _)) && kind
                == GeomKind::Polygon
            &&& paths.len() > 0
            &&& Some(paths[0]) == drawn_ring(true)(p.exterior)
            &&& picking::picked(p.interiors, drawn_ring(false), paths.skip(1))
        }),
{
    polygons_are_drawn_with_their_holes(p);
    polygon_paths_readable(p);
    rings_keep_their_points(p.exterior);
    paths_are_read(polygon_paths(p), GeomKind::Polygon);
}

/// A reader of several polygons gets back the rings of each of them, one polygon after the other.
pub proof fn multi_polygons_are_read_back(ps: Seq<TilePolygonView>, t: TileTransform)
    requires
        all_countable(TileGeometryView::MultiPolygon(ps)),
        tile_geometry::drawing_fits(TileGeometryView::MultiPolygon(ps), t),
    ensures
        ({
            let g = TileGeometryView::MultiPolygon(ps);
            &&& read(g, t) == ps.map_values(paths_of()).flatten()
            &&& tile_geometry::geometry_commands(g, t) matches Some((kind, _)) ==> kind
                == GeomKind::Polygon
        }),
{
    let paths = commands::ring_paths(tile_geometry::all_rings(ps));
    all_paths_readable(ps);
    polygons_are_drawn_one_after_the_other(ps);
    paths_are_read(paths, GeomKind::Polygon);
    if paths.len() == 0 {
        assert(paths =~= Seq::empty());
    }
}

/// The points that a reader gets from the commands of points.
pub open spec fn read_points(cmds: Seq<u32>) -> Seq<Spot> {
    command_laws::walk(cmds.skip(1), (cmds[0] / 8) as nat, (0, 0))
}

/// A reader of points gets back those inside the tile and its buffer, all of them and in order;
/// where there is none, nothing is drawn.
pub proof fn points_are_read_back(ps: Seq<Spot>, t: TileTransform)
    requires
        ps.len() < 0x2000_0000,
        t.extent < 0x8000_0000,
        t.buffer < 0x8000_0000,
        tile_geometry::drawing_fits(TileGeometryView::MultiPoint(ps), t),
    ensures
        match tile_geometry::geometry_commands(TileGeometryView::MultiPoint(ps), t) {
            Some((kind, cmds)) => kind == GeomKind::Point && picking::picked(
                ps,
                if_inside(t),
                read_points(cmds),
            ),
            None => picking::picked(ps, if_inside(t), Seq::<Spot>::empty()),
        },
{
    let inside = tile_geometry::points_inside(ps, t);
    points_inside_are_drawn(ps, t);
    fewer_inside(ps, t);
    if inside.len() > 0 {
        command_laws::points_come_back(inside);
    } else {
        assert(inside =~= Seq::empty());
    }
}

proof fn fewer_inside(ps: Seq<Spot>, t: TileTransform)
    ensures
        tile_geometry::points_inside(ps, t).len() <= ps.len(),
    decreases ps.len(),
{
    if ps.len() > 0 {
        fewer_inside(ps.drop_last(), t);
    }
}

/// A point is drawn exactly where it lies in the tile or its buffer, and a reader gets it back.
pub proof fn single_points_are_read_back(p: Spot, t: TileTransform)
    requires
        t.extent < 0x8000_0000,
        t.buffer < 0x8000_0000,
    ensures
        match tile_geometry::geometry_commands(TileGeometryView::Point(p), t) {
            Some((kind, cmds)) => kind == GeomKind::Point && if_inside(t)(p) is Some
                && read_points(cmds) == seq![p],
            None => if_inside(t)(p) is None,
        },
{
    let one = seq![p];
    let inside = tile_geometry::points_inside(one, t);
    reveal_with_fuel(tile_geometry::points_inside, 2);
    assert(one.drop_last() =~= Seq::empty());
    if if_inside(t)(p) is Some {
        assert(inside =~= one);
        reveal_with_fuel(commands::steps_fit, 2);
        assert(one.skip(1) =~= Seq::empty());
        assert(commands::step_fits((0, 0), p));
        command_laws::points_come_back(one);
    } else {
        assert(inside =~= Seq::empty());
    }
}

/// Kinds that tiles do not carry are not drawn.
pub proof fn other_kinds_are_not_drawn(t: TileTransform)
    ensures
        tile_geometry::geometry_commands(TileGeometryView::Other, t) is None,
        tile_geometry::drawing(TileGeometryView::Other, t) is Nothing,
{
}

/// Winding a ring keeps its points: they stay in their order, or stand in the opposite one.
pub proof fn winding_keeps_points(points: Seq<Spot>, exterior: bool)
    ensures
        commands::wound(points, exterior) == points || commands::wound(points, exterior)
            == points.reverse(),
{
}

/// Twice the area of a triangle, by its sides; clockwise on screen, where y grows downward, is
/// positive.
pub proof fn triangles_have_their_area(a: Spot, b: Spot, c: Spot)
    ensures
        commands::area2(seq![a, b, c]) == (b.0 - a.0) * (c.1 - a.1) - (c.0 - a.0) * (b.1 - a.1),
{
    let s = seq![a, b, c];
    reveal_with_fuel(commands::shoelace, 4);
    vstd::arithmetic::div_mod::lemma_mod_self_0(3);
    vstd::arithmetic::div_mod::lemma_small_mod(1, 3);
    vstd::arithmetic::div_mod::lemma_small_mod(2, 3);
    assert(commands::area2(s) == commands::cross(a, b) + commands::cross(b, c) + commands::cross(
        c,
        a,
    ));
    let (a0, a1, b0, b1, c0, c1) = (
        a.0 as int,
        a.1 as int,
        b.0 as int,
        b.1 as int,
        c.0 as int,
        c.1 as int,
    );
    assert((a0 * b1 - b0 * a1) + (b0 * c1 - c0 * b1) + (c0 * a1 - a0 * c1) == (b0 - a0) * (c1 - a1)
        - (c0 - a0) * (b1 - a1)) by (nonlinear_arith);
}

/// The area of a ring grows with each further corner by that of the triangle that the corner makes
/// with the last one and the first one.
pub proof fn areas_add_up(points: Seq<Spot>, p: Spot)
    requires
        points.len() >= 2,
    ensures
        commands::area2(points.push(p)) == commands::area2(points) + commands::area2(
            seq![points[0], points[points.len() - 1], p],
        ),
{
    let n = points.len();
    let more = points.push(p);
    let (a, z) = (points[0], points[n - 1]);
    shoelace_prefix(points, p, (n - 1) as nat);
    vstd::arithmetic::div_mod::lemma_mod_self_0(n as int);
    vstd::arithmetic::div_mod::lemma_mod_self_0(n as int + 1);
    vstd::arithmetic::div_mod::lemma_small_mod(n, n + 1);
    assert(commands::area2(points) == commands::shoelace(points, (n - 1) as nat) + commands::cross(
        z,
        a,
    ));
    assert(commands::shoelace(more, n) == commands::shoelace(more, (n - 1) as nat)
        + commands::cross(z, p));
    assert(commands::area2(more) == commands::shoelace(more, n) + commands::cross(p, a));
    let s = seq![a, z, p];
    reveal_with_fuel(commands::shoelace, 4);
    vstd::arithmetic::div_mod::lemma_mod_self_0(3);
    vstd::arithmetic::div_mod::lemma_small_mod(1, 3);
    vstd::arithmetic::div_mod::lemma_small_mod(2, 3);
    assert(commands::area2(s) == commands::cross(a, z) + commands::cross(z, p) + commands::cross(
        p,
        a,
    ));
    let (a0, a1, z0, z1) = (a.0 as int, a.1 as int, z.0 as int, z.1 as int);
    assert(a0 * z1 - z0 * a1 == -(z0 * a1 - a0 * z1)) by (nonlinear_arith);
}

proof fn shoelace_prefix(points: Seq<Spot>, p: Spot, k: nat)
    requires
        k < points.len(),
    ensures
        commands::shoelace(points.push(p), k) == commands::shoelace(points, k),
    decreases k,
{
    if k > 0 {
        shoelace_prefix(points, p, (k - 1) as nat);
        vstd::arithmetic::div_mod::lemma_small_mod(k, points.len());
        vstd::arithmetic::div_mod::lemma_small_mod(k, points.len() + 1);
    }
}

} // verus!
