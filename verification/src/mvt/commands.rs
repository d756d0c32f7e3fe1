//! Geometry command sequences (`Feature.geometry`).
//!
//! A geometry is a list of paths. Each path is one `MoveTo`, one `LineTo` and, for a ring, one
//! `ClosePath`; every parameter is the ZigZag number of the step from the cursor, which starts at
//! `(0, 0)` for each feature and stays where the last point left it.
use vstd::prelude::*;
use crate::mvt::pbf;
use crate::mvt::pbf::PbfWriter;

verus! {

/// Geometry kinds (proto enum `Tile.GeomType`).
#[derive(Debug, Clone, Copy, PartialEq, Eq, Structural)]
pub enum GeomKind {
    Unknown,
    Point,
    LineString,
    Polygon,
}

impl GeomKind {
    /// The number of the kind in `Tile.GeomType`.
    pub open spec fn number(self) -> u32 {
        match self {
            GeomKind::Unknown => 0,
            GeomKind::Point => 1,
            GeomKind::LineString => 2,
            GeomKind::Polygon => 3,
        }
    }

    /// The number of the kind in `Tile.GeomType`.
    pub fn as_number(self) -> (n: u32)
        ensures
            n == self.number(),
    {
        match self {
            GeomKind::Unknown => 0,
            GeomKind::Point => 1,
            GeomKind::LineString => 2,
            GeomKind::Polygon => 3,
        }
    }
}

/// Command id of `MoveTo`.
pub const CMD_MOVE_TO: u32 = 1;

/// Command id of `LineTo`.
pub const CMD_LINE_TO: u32 = 2;

/// Command id of `ClosePath`.
pub const CMD_CLOSE_PATH: u32 = 7;

/// A command integer: the id in the three low bits, the count above.
pub open spec fn command(id: u32, count: u32) -> u32 {
    (id & 0x7) | (count << 3)
}

/// Whether the step from `a` to `b` fits in 32 bits on both axes.
pub open spec fn step_fits(a: (i32, i32), b: (i32, i32)) -> bool {
    &&& i32::MIN <= b.0 - a.0 <= i32::MAX
    &&& i32::MIN <= b.1 - a.1 <= i32::MAX
}

/// The two parameters of the step from `a` to `b`.
pub open spec fn step(a: (i32, i32), b: (i32, i32)) -> Seq<u32> {
    seq![pbf::zigzag(b.0 - a.0) as u32, pbf::zigzag(b.1 - a.1) as u32]
}

/// Where the cursor stands after `points`.
pub open spec fn cursor_after(points: Seq<(i32, i32)>, cursor: (i32, i32)) -> (i32, i32) {
    if points.len() == 0 {
        cursor
    } else {
        points.last()
    }
}

/// The parameters of the steps through `points`, starting at `cursor`.
pub open spec fn steps(points: Seq<(i32, i32)>, cursor: (i32, i32)) -> Seq<u32>
    decreases points.len(),
{
    if points.len() == 0 {
        Seq::empty()
    } else {
        step(cursor, points[0]) + steps(points.skip(1), points[0])
    }
}

/// Whether every step through `points`, starting at `cursor`, fits in 32 bits.
pub open spec fn steps_fit(points: Seq<(i32, i32)>, cursor: (i32, i32)) -> bool
    decreases points.len(),
{
    points.len() > 0 ==> step_fits(cursor, points[0]) && steps_fit(points.skip(1), points[0])
}

/// One command with its parameters; nothing for no points.
pub open spec fn draw(id: u32, points: Seq<(i32, i32)>, cursor: (i32, i32)) -> Seq<u32> {
    if points.len() == 0 {
        Seq::empty()
    } else {
        seq![command(id, points.len() as u32)] + steps(points, cursor)
    }
}

/// A run of points drawn with one pen stroke, closed at the end or not.
pub struct Path {
    pub points: Seq<(i32, i32)>,
    pub closed: bool,
}

/// The commands of one path.
pub open spec fn path_commands(path: Path, cursor: (i32, i32)) -> Seq<u32> {
    let drawn = draw(CMD_MOVE_TO, path.points.take(1), cursor) + draw(
        CMD_LINE_TO,
        path.points.skip(1),
        path.points[0],
    );
    if path.closed {
        drawn.push(command(CMD_CLOSE_PATH, 1))
    } else {
        drawn
    }
}

/// The commands of a list of paths.
pub open spec fn stream(paths: Seq<Path>, cursor: (i32, i32)) -> Seq<u32>
    decreases paths.len(),
{
    if paths.len() == 0 {
        Seq::empty()
    } else {
        path_commands(paths[0], cursor) + stream(
            paths.skip(1),
            cursor_after(paths[0].points, cursor),
        )
    }
}

/// Whether every step of a list of paths fits in 32 bits.
pub open spec fn stream_fits(paths: Seq<Path>, cursor: (i32, i32)) -> bool
    decreases paths.len(),
{
    paths.len() > 0 ==> steps_fit(paths[0].points, cursor) && stream_fits(
        paths.skip(1),
        cursor_after(paths[0].points, cursor),
    )
}

pub open spec fn stream_end(paths: Seq<Path>, cursor: (i32, i32)) -> (i32, i32)
    decreases paths.len(),
{
    if paths.len() == 0 {
        cursor
    } else {
        stream_end(paths.skip(1), cursor_after(paths[0].points, cursor))
    }
}

/// Lists of points, by what they hold.
pub open spec fn point_lists(lines: Seq<Vec<(i32, i32)>>) -> Seq<Seq<(i32, i32)>> {
    lines.map_values(|l: Vec<(i32, i32)>| l@)
}

/// The paths of (multi)linestrings: the parts with at least two points.
pub open spec fn line_paths(lines: Seq<Seq<(i32, i32)>>) -> Seq<Path>
    decreases lines.len(),
{
    if lines.len() == 0 {
        Seq::empty()
    } else {
        let rest = line_paths(lines.drop_last());
        if lines.last().len() < 2 {
            rest
        } else {
            rest.push(Path { points: lines.last(), closed: false })
        }
    }
}

/// One term of the shoelace sum.
pub open spec fn cross(a: (i32, i32), b: (i32, i32)) -> int {
    a.0 * b.1 - b.0 * a.1
}

/// The first `n` terms of the shoelace sum over a ring; the last point is followed by the first.
pub open spec fn shoelace(points: Seq<(i32, i32)>, n: nat) -> int
    decreases n,
{
    if n == 0 {
        0
    } else {
        shoelace(points, (n - 1) as nat) + cross(
            points[n - 1],
            points[n as int % points.len() as int],
        )
    }
}

/// Twice the signed area of a ring. With y growing downward it is positive for a ring that is
/// clockwise on screen.
pub open spec fn area2(points: Seq<(i32, i32)>) -> int {
    shoelace(points, points.len())
}

/// A number reduced to the signed 64-bit range, modulo two to the power of 64.
pub open spec fn wrap64(v: int) -> int {
    (v + 0x8000_0000_0000_0000) % 0x1_0000_0000_0000_0000 - 0x8000_0000_0000_0000
}

/// Whether a ring is encoded at all: at least three points and a signed area.
pub open spec fn ring_kept(points: Seq<(i32, i32)>) -> bool {
    points.len() >= 3 && wrap64(area2(points)) != 0
}

/// The points of a ring in the order of its role: positive area outside, negative for a hole.
pub open spec fn wound(points: Seq<(i32, i32)>, exterior: bool) -> Seq<(i32, i32)> {
    if (wrap64(area2(points)) > 0) == exterior {
        points
    } else {
        points.reverse()
    }
}

/// What a ring is: its points and its role.
pub struct RingView {
    pub points: Seq<(i32, i32)>,
    pub exterior: bool,
}

/// Rings, by what they are.
pub open spec fn ring_views(rings: Seq<Ring>) -> Seq<RingView> {
    rings.map_values(|r: Ring| r@)
}

/// The paths of polygon rings.
pub open spec fn ring_paths(rings: Seq<RingView>) -> Seq<Path>
    decreases rings.len(),
{
    if rings.len() == 0 {
        Seq::empty()
    } else {
        let rest = ring_paths(rings.drop_last());
        let ring = rings.last();
        if ring_kept(ring.points) {
            rest.push(Path { points: wound(ring.points, ring.exterior), closed: true })
        } else {
            rest
        }
    }
}

pub proof fn steps_push(points: Seq<(i32, i32)>, p: (i32, i32), cursor: (i32, i32))
    ensures
        steps(points.push(p), cursor) == steps(points, cursor) + step(
            cursor_after(points, cursor),
            p,
        ),
        steps_fit(points.push(p), cursor) <==> steps_fit(points, cursor) && step_fits(
            cursor_after(points, cursor),
            p,
        ),
    decreases points.len(),
{
    reveal_with_fuel(steps, 2);
    reveal_with_fuel(steps_fit, 2);
    if points.len() == 0 {
        assert(points.push(p).skip(1) =~= Seq::empty());
        assert(steps(points.push(p), cursor) =~= step(cursor, p));
        assert(steps(points, cursor) + step(cursor, p) =~= step(cursor, p));
    } else {
        assert(points.push(p).skip(1) =~= points.skip(1).push(p));
        steps_push(points.skip(1), p, points[0]);
        assert(steps(points.push(p), cursor) =~= steps(points, cursor) + step(
            cursor_after(points, cursor),
            p,
        ));
    }
}

pub proof fn stream_push(paths: Seq<Path>, p: Path, cursor: (i32, i32))
    ensures
        stream(paths.push(p), cursor) == stream(paths, cursor) + path_commands(
            p,
            stream_end(paths, cursor),
        ),
        stream_end(paths.push(p), cursor) == cursor_after(p.points, stream_end(paths, cursor)),
        stream_fits(paths.push(p), cursor) <==> stream_fits(paths, cursor) && steps_fit(
            p.points,
            stream_end(paths, cursor),
        ),
    decreases paths.len(),
{
    reveal_with_fuel(stream, 2);
    reveal_with_fuel(stream_end, 2);
    reveal_with_fuel(stream_fits, 2);
    if paths.len() == 0 {
        assert(paths.push(p).skip(1) =~= Seq::empty());
        assert(stream(paths.push(p), cursor) =~= path_commands(p, cursor));
        assert(stream(paths, cursor) + path_commands(p, cursor) =~= path_commands(p, cursor));
    } else {
        assert(paths.push(p).skip(1) =~= paths.skip(1).push(p));
        stream_push(paths.skip(1), p, cursor_after(paths[0].points, cursor));
        assert(stream(paths.push(p), cursor) =~= stream(paths, cursor) + path_commands(
            p,
            stream_end(paths, cursor),
        ));
    }
}

fn command_int(id: u32, count: u32) -> (c: u32)
    ensures
        c == command(id, count),
{
    (id & 0x7) | (count << 3)
}

fn zigzag_param(v: i32) -> (u: u32)
    ensures
        u == pbf::zigzag(v as int),
{
    PbfWriter::zigzag32(v)
}

/// Builds a command sequence.
#[derive(Debug)]
pub struct GeometryCommands {
    cmds: Vec<u32>,
    cursor: (i32, i32),
}

impl Default for GeometryCommands {
    fn default() -> (g: Self)
        ensures
            g.commands() == Seq::<u32>::empty(),
            g.position() == (0i32, 0i32),
    {
        GeometryCommands { cmds: Vec::new(), cursor: (0, 0) }
    }
}

impl GeometryCommands {
    /// The command integers so far.
    pub closed spec fn commands(&self) -> Seq<u32> {
        self.cmds@
    }

    /// Where the cursor stands.
    pub closed spec fn position(&self) -> (i32, i32) {
        self.cursor
    }

    pub fn new() -> (g: Self)
        ensures
            g.commands() == Seq::<u32>::empty(),
            g.position() == (0i32, 0i32),
    {
        GeometryCommands { cmds: Vec::new(), cursor: (0, 0) }
    }

    fn push_param(&mut self, to: (i32, i32))
        requires
            step_fits(old(self).position(), to),
        ensures
            final(self).commands() == old(self).commands() + step(old(self).position(), to),
            final(self).position() == to,
    {
        let dx: i32 = to.0 - self.cursor.0;
        let dy: i32 = to.1 - self.cursor.1;
        self.cursor = to;
        self.cmds.push(zigzag_param(dx));
        self.cmds.push(zigzag_param(dy));
        assert(self.commands() =~= old(self).commands() + step(old(self).position(), to));
    }

    /// One command of the given id covering `points`.
    fn draw_to(&mut self, id: u32, points: &[(i32, i32)])
        requires
            steps_fit(points@, old(self).position()),
        ensures
            final(self).commands() == old(self).commands() + draw(
                id,
                points@,
                old(self).position(),
            ),
            final(self).position() == cursor_after(points@, old(self).position()),
    {
        if points.len() == 0 {
            assert(self.commands() =~= old(self).commands() + Seq::<u32>::empty());
            return;
        }
        self.cmds.push(command_int(id, points.len() as u32));
        let ghost head = self.commands();
        let ghost start = self.position();
        let mut i: usize = 0;
        assert(points@.take(0) =~= Seq::empty());
        assert(steps(points@.take(0), start) =~= Seq::empty());
        assert(head + steps(points@.take(0), start) =~= head);
        while i < points.len()
            invariant
                i <= points@.len(),
                start == old(self).position(),
                steps_fit(points@, start),
                self.commands() == head + steps(points@.take(i as int), start),
                self.position() == cursor_after(points@.take(i as int), start),
            decreases points@.len() - i,
        {
            let p: (i32, i32) = points[i];
            proof {
                assert(points@.take(i as int).push(p) =~= points@.take(i + 1));
                steps_push(points@.take(i as int), p, start);
                steps_fit_prefix(points@, start, i + 1);
            }
            let ghost before = self.commands();
            self.push_param(p);
            assert(self.commands() =~= head + steps(points@.take(i + 1), start));
            i = i + 1;
        }
        assert(points@.take(i as int) =~= points@);
        assert(self.commands() =~= old(self).commands() + draw(
            id,
            points@,
            old(self).position(),
        ));
    }

    /// One `MoveTo` command covering `points` (nothing for no points). A multi-point geometry is
    /// a single `MoveTo` with a count above one.
    pub fn move_to(&mut self, points: &[(i32, i32)])
        requires
            steps_fit(points@, old(self).position()),
        ensures
            final(self).commands() == old(self).commands() + draw(
                CMD_MOVE_TO,
                points@,
                old(self).position(),
            ),
            final(self).position() == cursor_after(points@, old(self).position()),
    {
        self.draw_to(CMD_MOVE_TO, points);
    }

    /// One `LineTo` command covering `points` (nothing for no points).
    pub fn line_to(&mut self, points: &[(i32, i32)])
        requires
            steps_fit(points@, old(self).position()),
        ensures
            final(self).commands() == old(self).commands() + draw(
                CMD_LINE_TO,
                points@,
                old(self).position(),
            ),
            final(self).position() == cursor_after(points@, old(self).position()),
    {
        self.draw_to(CMD_LINE_TO, points);
    }

    pub fn close_path(&mut self)
        ensures
            final(self).commands() == old(self).commands().push(command(CMD_CLOSE_PATH, 1)),
            final(self).position() == old(self).position(),
    {
        self.cmds.push(command_int(CMD_CLOSE_PATH, 1));
    }

    pub fn into_commands(self) -> (cmds: Vec<u32>)
        ensures
            cmds@ == self.commands(),
    {
        self.cmds
    }

    pub fn is_empty(&self) -> (b: bool)
        ensures
            b == (self.commands().len() == 0),
    {
        self.cmds.len() == 0
    }

    /// One path: `MoveTo` the first point, `LineTo` the others, `ClosePath` if asked for.
    fn path(&mut self, points: &[(i32, i32)], closed: bool)
        requires
            points@.len() > 0,
            steps_fit(points@, old(self).position()),
        ensures
            final(self).commands() == old(self).commands() + path_commands(
                Path { points: points@, closed },
                old(self).position(),
            ),
            final(self).position() == points@.last(),
    {
        let (first, others) = points.split_at(1);
        proof {
            assert(first@ =~= points@.take(1));
            assert(others@ =~= points@.skip(1));
            assert(first@.skip(1) =~= Seq::empty());
            reveal_with_fuel(steps_fit, 3);
        }
        self.move_to(first);
        self.line_to(others);
        if closed {
            self.close_path();
        }
        assert(self.commands() =~= old(self).commands() + path_commands(
            Path { points: points@, closed },
            old(self).position(),
        ));
    }
}

pub proof fn steps_fit_prefix(points: Seq<(i32, i32)>, cursor: (i32, i32), n: int)
    requires
        steps_fit(points, cursor),
        0 <= n <= points.len(),
    ensures
        steps_fit(points.take(n), cursor),
    decreases n,
{
    if n > 0 {
        steps_fit_prefix(points.skip(1), points[0], n - 1);
        assert(points.take(n).skip(1) =~= points.skip(1).take(n - 1));
    }
}

/// Encodes a point or multipoint geometry.
pub fn encode_points(points: &[(i32, i32)]) -> (cmds: Vec<u32>)
    requires
        steps_fit(points@, (0, 0)),
    ensures
        cmds@ == draw(CMD_MOVE_TO, points@, (0, 0)),
{
    let mut g = GeometryCommands::new();
    g.move_to(points);
    proof {
        assert(Seq::<u32>::empty() + draw(CMD_MOVE_TO, points@, (0, 0)) =~= draw(
            CMD_MOVE_TO,
            points@,
            (0, 0),
        ));
    }
    g.into_commands()
}

/// Encodes (multi)linestrings. Parts with fewer than two points are skipped.
pub fn encode_lines(lines: &[Vec<(i32, i32)>]) -> (cmds: Vec<u32>)
    requires
        stream_fits(line_paths(point_lists(lines@)), (0, 0)),
    ensures
        cmds@ == stream(line_paths(point_lists(lines@)), (0, 0)),
{
    let mut g = GeometryCommands::new();
    let mut i: usize = 0;
    let ghost all = point_lists(lines@);
    while i < lines.len()
        invariant
            i <= lines@.len(),
            all == point_lists(lines@),
            stream_fits(line_paths(all), (0, 0)),
            g.commands() == stream(line_paths(all.take(i as int)), (0, 0)),
            g.position() == stream_end(line_paths(all.take(i as int)), (0, 0)),
        decreases lines@.len() - i,
    {
        assert(all.take(i + 1).drop_last() =~= all.take(i as int));
        let line = &lines[i];
        if line.len() >= 2 {
            proof {
                stream_push(
                    line_paths(all.take(i as int)),
                    Path { points: line@, closed: false },
                    (0, 0),
                );
                line_paths_prefix(all, i + 1);
                stream_fits_prefix(
                    line_paths(all),
                    (0, 0),
                    line_paths(all.take(i + 1)).len() as int,
                );
            }
            g.path(line.as_slice(), false);
        }
        i = i + 1;
    }
    assert(all.take(i as int) =~= all);
    g.into_commands()
}

pub proof fn line_paths_prefix(lines: Seq<Seq<(i32, i32)>>, n: int)
    requires
        0 <= n <= lines.len(),
    ensures
        line_paths(lines.take(n)).len() <= line_paths(lines).len(),
        line_paths(lines).take(line_paths(lines.take(n)).len() as int) == line_paths(lines.take(n)),
    decreases lines.len(),
{
    if n < lines.len() {
        line_paths_prefix(lines.drop_last(), n);
        assert(lines.drop_last().take(n) =~= lines.take(n));
        let k = line_paths(lines.take(n)).len() as int;
        assert(line_paths(lines).take(k) =~= line_paths(lines.drop_last()).take(k));
    } else {
        assert(lines.take(n) =~= lines);
        assert(line_paths(lines).take(line_paths(lines).len() as int) =~= line_paths(lines));
    }
}

pub proof fn stream_fits_prefix(paths: Seq<Path>, cursor: (i32, i32), n: int)
    requires
        stream_fits(paths, cursor),
        0 <= n <= paths.len(),
    ensures
        stream_fits(paths.take(n), cursor),
    decreases n,
{
    if n > 0 {
        stream_fits_prefix(paths.skip(1), cursor_after(paths[0].points, cursor), n - 1);
        assert(paths.take(n).skip(1) =~= paths.skip(1).take(n - 1));
    }
}

/// A polygon ring ready for encoding: tile coordinates WITHOUT the repeated closing vertex, plus
/// whether it is an exterior ring.
#[derive(Debug)]
pub struct Ring {
    pub points: Vec<(i32, i32)>,
    pub exterior: bool,
}

impl View for Ring {
    type V = RingView;

    open spec fn view(&self) -> RingView {
        RingView { points: self.points@, exterior: self.exterior }
    }
}

/// Twice the signed area of a ring (shoelace formula) in tile coordinates, modulo two to the
/// power of 64.
///
/// Tile space has y growing downward, so a ring that is clockwise on screen (the exterior
/// convention) yields a POSITIVE value.
pub fn signed_area2(points: &[(i32, i32)]) -> (area: i64)
    ensures
        area == wrap64(area2(points@)),
{
    let n: usize = points.len();
    let mut area: i64 = 0;
    let mut i: usize = 0;
    while i < n
        invariant
            n == points@.len(),
            i <= n,
            area == wrap64(shoelace(points@, i as nat)),
        decreases n - i,
    {
        let (x1, y1) = points[i];
        let j: usize = if i + 1 < n {
            i + 1
        } else {
            0
        };
        let (x2, y2) = points[j];
        proof {
            product_bound(x1, y2);
            product_bound(x2, y1);
            if i + 1 < n {
                vstd::arithmetic::div_mod::lemma_small_mod((i + 1) as nat, n as nat);
            } else {
                vstd::arithmetic::div_mod::lemma_mod_self_0(n as int);
            }
        }
        let term: i64 = (x1 as i64) * (y2 as i64) - (x2 as i64) * (y1 as i64);
        area = area.wrapping_add(term);
        i = i + 1;
    }
    area
}

proof fn product_bound(a: i32, b: i32)
    ensures
        -0x3fff_ffff_8000_0000 <= a * b <= 0x4000_0000_0000_0000,
{
    assert(-0x3fff_ffff_8000_0000 <= a * b <= 0x4000_0000_0000_0000) by (nonlinear_arith)
        requires
            -0x8000_0000 <= a <= 0x7fff_ffff,
            -0x8000_0000 <= b <= 0x7fff_ffff,
    ;
}

/// Encodes polygon rings, enforcing the winding convention: exterior rings have positive signed
/// area, interior (hole) rings negative, in tile coordinates (y-down). Degenerate rings (fewer
/// than three points or zero area) are dropped.
pub fn encode_rings(rings: &[Ring]) -> (cmds: Vec<u32>)
    requires
        stream_fits(ring_paths(ring_views(rings@)), (0, 0)),
    ensures
        cmds@ == stream(ring_paths(ring_views(rings@)), (0, 0)),
{
    let ghost all = ring_views(rings@);
    let mut g = GeometryCommands::new();
    let mut i: usize = 0;
    while i < rings.len()
        invariant
            i <= rings@.len(),
            all == ring_views(rings@),
            stream_fits(ring_paths(all), (0, 0)),
            g.commands() == stream(ring_paths(all.take(i as int)), (0, 0)),
            g.position() == stream_end(ring_paths(all.take(i as int)), (0, 0)),
        decreases rings@.len() - i,
    {
        assert(all.take(i + 1).drop_last() =~= all.take(i as int));
        let ring = &rings[i];
        if ring.points.len() >= 3 {
            let area: i64 = signed_area2(ring.points.as_slice());
            if area != 0 {
                proof {
                    stream_push(
                        ring_paths(all.take(i as int)),
                        Path { points: wound(ring.points@, ring.exterior), closed: true },
                        (0, 0),
                    );
                    ring_paths_prefix(all, i + 1);
                    stream_fits_prefix(
                        ring_paths(all),
                        (0, 0),
                        ring_paths(all.take(i + 1)).len() as int,
                    );
                }
                if (area > 0) == ring.exterior {
                    g.path(ring.points.as_slice(), true);
                } else {
                    // Wrong orientation for its role: reverse the ring.
                    let turned = reversed(ring.points.as_slice());
                    g.path(turned.as_slice(), true);
                }
            }
        }
        i = i + 1;
    }
    assert(all.take(i as int) =~= all);
    g.into_commands()
}

pub proof fn ring_paths_prefix(rings: Seq<RingView>, n: int)
    requires
        0 <= n <= rings.len(),
    ensures
        ring_paths(rings.take(n)).len() <= ring_paths(rings).len(),
        ring_paths(rings).take(ring_paths(rings.take(n)).len() as int) == ring_paths(rings.take(n)),
    decreases rings.len(),
{
    if n < rings.len() {
        ring_paths_prefix(rings.drop_last(), n);
        assert(rings.drop_last().take(n) =~= rings.take(n));
        let k = ring_paths(rings.take(n)).len() as int;
        assert(ring_paths(rings).take(k) =~= ring_paths(rings.drop_last()).take(k));
    } else {
        assert(rings.take(n) =~= rings);
        assert(ring_paths(rings).take(ring_paths(rings).len() as int) =~= ring_paths(rings));
    }
}

/// Walks through points from a cursor; says where the cursor ends up, if every step fits.
fn walk(points: &[(i32, i32)], cursor: (i32, i32)) -> (end: Option<(i32, i32)>)
    ensures
        match end {
            Some(c) => steps_fit(points@, cursor) && c == cursor_after(points@, cursor),
            None => !steps_fit(points@, cursor),
        },
{
    let mut at: (i32, i32) = cursor;
    let mut i: usize = 0;
    while i < points.len()
        invariant
            i <= points@.len(),
            steps_fit(points@.take(i as int), cursor),
            at == cursor_after(points@.take(i as int), cursor),
        decreases points@.len() - i,
    {
        let p: (i32, i32) = points[i];
        proof {
            assert(points@.take(i as int).push(p) =~= points@.take(i + 1));
            steps_push(points@.take(i as int), p, cursor);
        }
        if p.0.checked_sub(at.0).is_none() || p.1.checked_sub(at.1).is_none() {
            proof {
                if steps_fit(points@, cursor) {
                    steps_fit_prefix(points@, cursor, i + 1);
                }
            }
            return None;
        }
        at = p;
        i = i + 1;
    }
    assert(points@.take(i as int) =~= points@);
    Some(at)
}

/// Whether every step of a point or multipoint geometry fits in 32 bits.
pub fn points_fit(points: &[(i32, i32)]) -> (b: bool)
    ensures
        b == steps_fit(points@, (0, 0)),
{
    walk(points, (0, 0)).is_some()
}

/// Whether every step of (multi)linestrings fits in 32 bits.
pub fn lines_fit(lines: &[Vec<(i32, i32)>]) -> (b: bool)
    ensures
        b == stream_fits(line_paths(point_lists(lines@)), (0, 0)),
{
    let ghost all = point_lists(lines@);
    let mut at: (i32, i32) = (0, 0);
    let mut i: usize = 0;
    while i < lines.len()
        invariant
            i <= lines@.len(),
            all == point_lists(lines@),
            stream_fits(line_paths(all.take(i as int)), (0, 0)),
            at == stream_end(line_paths(all.take(i as int)), (0, 0)),
        decreases lines@.len() - i,
    {
        assert(all.take(i + 1).drop_last() =~= all.take(i as int));
        let line = &lines[i];
        if line.len() >= 2 {
            proof {
                stream_push(
                    line_paths(all.take(i as int)),
                    Path { points: line@, closed: false },
                    (0, 0),
                );
                line_paths_prefix(all, i + 1);
            }
            match walk(line.as_slice(), at) {
                Some(end) => at = end,
                None => {
                    proof {
                        if stream_fits(line_paths(all), (0, 0)) {
                            stream_fits_prefix(
                                line_paths(all),
                                (0, 0),
                                line_paths(all.take(i + 1)).len() as int,
                            );
                        }
                    }
                    return false;
                },
            }
        }
        i = i + 1;
    }
    assert(all.take(i as int) =~= all);
    true
}

/// Whether every step of polygon rings, in the order of their roles, fits in 32 bits.
pub fn rings_fit(rings: &[Ring]) -> (b: bool)
    ensures
        b == stream_fits(ring_paths(ring_views(rings@)), (0, 0)),
{
    let ghost all = ring_views(rings@);
    let mut at: (i32, i32) = (0, 0);
    let mut i: usize = 0;
    while i < rings.len()
        invariant
            i <= rings@.len(),
            all == ring_views(rings@),
            stream_fits(ring_paths(all.take(i as int)), (0, 0)),
            at == stream_end(ring_paths(all.take(i as int)), (0, 0)),
        decreases rings@.len() - i,
    {
        assert(all.take(i + 1).drop_last() =~= all.take(i as int));
        let ring = &rings[i];
        if ring.points.len() >= 3 {
            let area: i64 = signed_area2(ring.points.as_slice());
            if area != 0 {
                proof {
                    stream_push(
                        ring_paths(all.take(i as int)),
                        Path { points: wound(ring.points@, ring.exterior), closed: true },
                        (0, 0),
                    );
                    ring_paths_prefix(all, i + 1);
                }
                let end = if (area > 0) == ring.exterior {
                    walk(ring.points.as_slice(), at)
                } else {
                    walk(reversed(ring.points.as_slice()).as_slice(), at)
                };
                match end {
                    Some(c) => at = c,
                    None => {
                        proof {
                            if stream_fits(ring_paths(all), (0, 0)) {
                                stream_fits_prefix(
                                    ring_paths(all),
                                    (0, 0),
                                    ring_paths(all.take(i + 1)).len() as int,
                                );
                            }
                        }
                        return false;
                    },
                }
            }
        }
        i = i + 1;
    }
    assert(all.take(i as int) =~= all);
    true
}

/// The points in opposite order.
fn reversed(points: &[(i32, i32)]) -> (out: Vec<(i32, i32)>)
    ensures
        out@ == points@.reverse(),
{
    let mut out: Vec<(i32, i32)> = Vec::with_capacity(points.len());
    let mut i: usize = points.len();
    while i > 0
        invariant
            i <= points@.len(),
            out@ == points@.reverse().take(points@.len() - i),
        decreases i,
    {
        i = i - 1;
        out.push(points[i]);
        assert(points@.reverse().take(points@.len() - i) =~= points@.reverse().take(
            points@.len() - i - 1,
        ).push(points@[i as int]));
    }
    assert(points@.reverse().take(points@.len() as int) =~= points@.reverse());
    out
}

} // verus!
