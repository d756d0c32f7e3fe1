//! What the geometry commands promise: a reader gets the drawn points back, and rings are wound
//! by their role.
use vstd::prelude::*;
use crate::mvt::commands;
use crate::mvt::commands::Path;
use crate::mvt::pbf;

verus! {

/// The point that the parameters `dx` and `dy` lead to from `cursor`.
pub open spec fn moved(cursor: (i32, i32), dx: u32, dy: u32) -> (i32, i32) {
    ((cursor.0 + pbf::unzigzag(dx as nat)) as i32, (cursor.1 + pbf::unzigzag(dy as nat)) as i32)
}

/// The `n` points that `params` lead through from `cursor`.
pub open spec fn walk(params: Seq<u32>, n: nat, cursor: (i32, i32)) -> Seq<(i32, i32)>
    decreases n,
{
    if n == 0 {
        Seq::empty()
    } else {
        let p = moved(cursor, params[0], params[1]);
        seq![p] + walk(params.skip(2), (n - 1) as nat, p)
    }
}

/// Whether `cmds` start with a `MoveTo` of one point and a whole `LineTo`.
pub open spec fn starts_with_path(cmds: Seq<u32>) -> bool {
    cmds.len() >= 4 && 4 + 2 * (cmds[3] / 8) as int <= cmds.len()
}

/// What follows the `LineTo` of the first path.
pub open spec fn after_line(cmds: Seq<u32>) -> Seq<u32> {
    cmds.skip(4 + 2 * (cmds[3] / 8) as int)
}

/// Whether a `ClosePath` follows the `LineTo` of the first path.
pub open spec fn closes(cmds: Seq<u32>) -> bool {
    after_line(cmds).len() > 0 && after_line(cmds)[0] % 8 == commands::CMD_CLOSE_PATH
}

/// The first path that `cmds` draw from `cursor`.
pub open spec fn first_path(cmds: Seq<u32>, cursor: (i32, i32)) -> Path {
    let first = moved(cursor, cmds[1], cmds[2]);
    Path {
        points: seq![first] + walk(cmds.skip(4), (cmds[3] / 8) as nat, first),
        closed: closes(cmds),
    }
}

/// The commands after the first path.
pub open spec fn after_path(cmds: Seq<u32>) -> Seq<u32> {
    if closes(cmds) {
        after_line(cmds).skip(1)
    } else {
        after_line(cmds)
    }
}

/// The paths that a reader of a line or polygon geometry draws: for each a `MoveTo` of one point,
/// a `LineTo`, and a `ClosePath` where there is one.
pub open spec fn read_paths(cmds: Seq<u32>, cursor: (i32, i32)) -> Seq<Path>
    decreases cmds.len(),
{
    if starts_with_path(cmds) {
        let path = first_path(cmds, cursor);
        seq![path] + read_paths(after_path(cmds), path.points.last())
    } else {
        Seq::empty()
    }
}

/// A command integer holds its id below and its count above the third bit.
pub proof fn command_parts(id: u32, count: u32)
    requires
        id < 8,
        count < 0x2000_0000,
    ensures
        commands::command(id, count) % 8 == id,
        commands::command(id, count) / 8 == count,
{
    assert(((id & 0x7) | (count << 3)) == 8 * count + id) by (bit_vector)
        requires
            id < 8,
            count < 0x2000_0000,
    ;
}

/// Steps that fit are undone by the reader: the points of a `MoveTo` or a `LineTo` come back.
pub proof fn walk_of_steps(points: Seq<(i32, i32)>, cursor: (i32, i32), tail: Seq<u32>)
    requires
        commands::steps_fit(points, cursor),
    ensures
        commands::steps(points, cursor).len() == 2 * points.len(),
        walk(commands::steps(points, cursor) + tail, points.len(), cursor) == points,
    decreases points.len(),
{
    if points.len() > 0 {
        walk_of_steps(points.skip(1), points[0], tail);
        let all = commands::steps(points, cursor) + tail;
        assert(all.skip(2) =~= commands::steps(points.skip(1), points[0]) + tail);
        let p = points[0];
        pbf::unzigzag_of_zigzag(p.0 - cursor.0);
        pbf::unzigzag_of_zigzag(p.1 - cursor.1);
        assert(moved(cursor, all[0], all[1]) == p);
        assert(points =~= seq![p] + points.skip(1));
    } else {
        assert(walk(commands::steps(points, cursor) + tail, 0, cursor) =~= points);
    }
}

/// The points of a multi-point geometry come back from its single `MoveTo`.
pub proof fn points_come_back(points: Seq<(i32, i32)>)
    requires
        0 < points.len() < 0x2000_0000,
        commands::steps_fit(points, (0, 0)),
    ensures
        ({
            let cmds = commands::draw(commands::CMD_MOVE_TO, points, (0, 0));
            &&& cmds[0] % 8 == commands::CMD_MOVE_TO
            &&& cmds[0] / 8 == points.len()
            &&& walk(cmds.skip(1), points.len(), (0, 0)) == points
        }),
{
    command_parts(commands::CMD_MOVE_TO, points.len() as u32);
    walk_of_steps(points, (0, 0), Seq::empty());
    let cmds = commands::draw(commands::CMD_MOVE_TO, points, (0, 0));
    assert(cmds.skip(1) =~= commands::steps(points, (0, 0)) + Seq::empty());
}

/// Whether a reader can tell the path apart: at least two points, and a count that a command
/// integer can hold.
pub open spec fn readable(path: Path) -> bool {
    2 <= path.points.len() <= 0x2000_0000
}

/// The first path of a geometry comes back, and the reader then stands before the next one.
pub proof fn path_comes_back(path: Path, cursor: (i32, i32), after: Seq<u32>)
    requires
        readable(path),
        commands::steps_fit(path.points, cursor),
        after.len() > 0 ==> after[0] % 8 != commands::CMD_CLOSE_PATH,
    ensures
        ({
            let cmds = commands::path_commands(path, cursor) + after;
            &&& starts_with_path(cmds)
            &&& first_path(cmds, cursor) == path
            &&& after_path(cmds) == after
        }),
{
    let cmds = commands::path_commands(path, cursor) + after;
    let first = path.points[0];
    let others = path.points.skip(1);
    let head = path.points.take(1);
    let mark = if path.closed {
        seq![commands::command(commands::CMD_CLOSE_PATH, 1)]
    } else {
        Seq::empty()
    };
    assert(commands::steps(head, cursor) =~= commands::step(cursor, first)) by {
        reveal_with_fuel(commands::steps, 2);
        assert(head.skip(1) =~= Seq::empty());
    }
    let line = commands::command(commands::CMD_LINE_TO, others.len() as u32);
    command_parts(commands::CMD_LINE_TO, others.len() as u32);
    command_parts(commands::CMD_CLOSE_PATH, 1);
    walk_of_steps(others, first, mark + after);
    assert(cmds =~= seq![commands::command(commands::CMD_MOVE_TO, 1)] + commands::step(
        cursor,
        first,
    ) + seq![line] + commands::steps(others, first) + (mark + after));
    assert(cmds.skip(4) =~= commands::steps(others, first) + (mark + after));
    pbf::unzigzag_of_zigzag(first.0 - cursor.0);
    pbf::unzigzag_of_zigzag(first.1 - cursor.1);
    assert(moved(cursor, cmds[1], cmds[2]) == first);
    assert(cmds[3] / 8 == others.len());
    assert(after_line(cmds) =~= mark + after);
    assert(closes(cmds) == path.closed);
    assert(first_path(cmds, cursor).points =~= path.points);
    assert(after_path(cmds) =~= after);
}

/// The paths of a line or polygon geometry come back from its commands.
pub proof fn paths_come_back(paths: Seq<Path>, cursor: (i32, i32))
    requires
        forall|i: int| 0 <= i < paths.len() ==> readable(#[trigger] paths[i]),
        commands::stream_fits(paths, cursor),
    ensures
        read_paths(commands::stream(paths, cursor), cursor) == paths,
    decreases paths.len(),
{
    if paths.len() == 0 {
        assert(read_paths(commands::stream(paths, cursor), cursor) =~= paths);
    } else {
        let path = paths[0];
        let rest = paths.skip(1);
        let after = commands::stream(rest, path.points.last());
        assert(readable(path));
        assert forall|i: int| 0 <= i < rest.len() implies readable(#[trigger] rest[i]) by {
            assert(readable(paths[i + 1]));
        }
        if rest.len() > 0 {
            assert(readable(rest[0]));
            assert(after[0] == commands::command(commands::CMD_MOVE_TO, 1));
            command_parts(commands::CMD_MOVE_TO, 1);
        }
        path_comes_back(path, cursor, after);
        paths_come_back(rest, path.points.last());
        assert(paths =~= seq![path] + rest);
    }
}

/// Reversing a ring turns the sign of its area.
pub proof fn reverse_negates_area(points: Seq<(i32, i32)>)
    ensures
        commands::area2(points.reverse()) == -commands::area2(points),
{
    let n = points.len();
    let rev = points.reverse();
    if n > 0 {
        reverse_shoelace(points, (n - 1) as nat);
        assert(rev[n - 1] == points[0]);
        assert(rev[0] == points[n - 1]);
        vstd::arithmetic::div_mod::lemma_mod_self_0(n as int);
        cross_flips(points[0], points[n - 1]);
    }
}

proof fn cross_flips(a: (i32, i32), b: (i32, i32))
    ensures
        commands::cross(a, b) == -commands::cross(b, a),
{
    assert(a.0 * b.1 - b.0 * a.1 == -(b.0 * a.1 - a.0 * b.1)) by (nonlinear_arith);
}

proof fn reverse_shoelace(points: Seq<(i32, i32)>, k: nat)
    requires
        k + 1 <= points.len(),
    ensures
        commands::shoelace(points.reverse(), k) == commands::shoelace(
            points,
            (points.len() - 1 - k) as nat,
        ) - commands::shoelace(points, (points.len() - 1) as nat),
    decreases k,
{
    let n = points.len();
    let rev = points.reverse();
    if k > 0 {
        reverse_shoelace(points, (k - 1) as nat);
        vstd::arithmetic::div_mod::lemma_small_mod(k, n);
        vstd::arithmetic::div_mod::lemma_small_mod((n - k) as nat, n);
        assert(rev[k - 1] == points[n - k]);
        assert(rev[k as int] == points[n - 1 - k]);
        cross_flips(points[n - k], points[n - 1 - k]);
    }
}

/// A ring is encoded with the winding of its role: positive area for an exterior ring, negative
/// for a hole.
pub proof fn rings_are_wound_by_role(points: Seq<(i32, i32)>, exterior: bool)
    requires
        commands::ring_kept(points),
        -0x8000_0000_0000_0000 < commands::area2(points) < 0x8000_0000_0000_0000,
    ensures
        exterior ==> commands::area2(commands::wound(points, exterior)) > 0,
        !exterior ==> commands::area2(commands::wound(points, exterior)) < 0,
{
    reverse_negates_area(points);
}

} // verus!
