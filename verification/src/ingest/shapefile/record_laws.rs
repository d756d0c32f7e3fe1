//! What the records of a `.shp` file are read as, laid out byte by byte.
use vstd::prelude::*;
use crate::bytes;
use crate::geometry;
use crate::geometry::{Coord, GeometryView};
use crate::ingest::shapefile::shp;
use crate::ingest::shapefile::shp::{RingTurn, ShpView};
use crate::ingest::shapefile::write_laws;
use crate::picking;
use crate::simplify;
use crate::text;

verus! {

/// A coordinate pair: sixteen bytes, x first.
pub open spec fn pair_bytes(c: Coord) -> Seq<u8> {
    bytes::le_bytes(c.x.bits as nat, 8) + bytes::le_bytes(c.y.bits as nat, 8)
}

/// Coordinate pairs, one after the other.
pub open spec fn pairs_bytes(cs: Seq<Coord>) -> Seq<u8>
    decreases cs.len(),
{
    if cs.len() == 0 {
        Seq::empty()
    } else {
        pairs_bytes(cs.drop_last()) + pair_bytes(cs.last())
    }
}

proof fn pairs_len(cs: Seq<Coord>)
    ensures
        pairs_bytes(cs).len() == 16 * cs.len(),
    decreases cs.len(),
{
    if cs.len() > 0 {
        pairs_len(cs.drop_last());
        bytes::fixed_len(cs.last().x.bits as nat, 8);
        bytes::fixed_len(cs.last().y.bits as nat, 8);
    }
}

proof fn pair_is_read(before: Seq<u8>, c: Coord, after: Seq<u8>)
    ensures
        shp::coord_at(before + pair_bytes(c) + after, before.len() as int) == c,
{
    let x = bytes::le_bytes(c.x.bits as nat, 8);
    let y = bytes::le_bytes(c.y.bits as nat, 8);
    let s = before + pair_bytes(c) + after;
    bytes::fixed_len(c.x.bits as nat, 8);
    write_laws::double_word(before, c.x, y + after);
    assert(s =~= before + x + (y + after));
    write_laws::double_word(before + x, c.y, after);
    assert(s =~= (before + x) + y + after);
}

proof fn pairs_are_read(before: Seq<u8>, cs: Seq<Coord>, after: Seq<u8>, i: int)
    requires
        0 <= i < cs.len(),
    ensures
        shp::coord_at(before + pairs_bytes(cs) + after, before.len() + 16 * i) == cs[i],
    decreases cs.len(),
{
    let d = cs.drop_last();
    let c = cs.last();
    let s = before + pairs_bytes(cs) + after;
    pairs_len(d);
    if i == cs.len() - 1 {
        assert(s =~= (before + pairs_bytes(d)) + pair_bytes(c) + after);
        pair_is_read(before + pairs_bytes(d), c, after);
    } else {
        assert(s =~= before + pairs_bytes(d) + (pair_bytes(c) + after));
        pairs_are_read(before, d, pair_bytes(c) + after, i);
    }
}

/// A record of a point: the type, then the pair; what follows is not looked at.
pub open spec fn point_record(t: nat, c: Coord, rest: Seq<u8>) -> Seq<u8> {
    bytes::le_bytes(t, 4) + pair_bytes(c) + rest
}

/// A point is read from a record of the types 1, 11 and 21.
pub proof fn points_are_read(t: nat, c: Coord, rest: Seq<u8>)
    requires
        t == 1 || t == 11 || t == 21,
    ensures
        shp::record_shape(point_record(t, c, rest)) == Result::<Option<ShpView>, Seq<char>>::Ok(
            Some(ShpView::Point(c)),
        ),
{
    let s = point_record(t, c, rest);
    let a = bytes::le_bytes(t, 4);
    bytes::fixed_len(t, 4);
    bytes::fixed_len(c.x.bits as nat, 8);
    bytes::fixed_len(c.y.bits as nat, 8);
    assert(s =~= Seq::<u8>::empty() + a + (pair_bytes(c) + rest));
    write_laws::le_word(Seq::empty(), t, pair_bytes(c) + rest);
    pair_is_read(a, c, rest);
}

/// A record of points: the type, a box of 32 bytes, the number of points, the pairs.
pub open spec fn points_record(t: nat, extent: Seq<u8>, cs: Seq<Coord>, rest: Seq<u8>) -> Seq<u8> {
    bytes::le_bytes(t, 4) + extent + bytes::le_bytes(cs.len(), 4) + pairs_bytes(cs) + rest
}

/// Points are read from a record of the types 8, 18 and 28, all of them and in order.
pub proof fn multi_points_are_read(t: nat, extent: Seq<u8>, cs: Seq<Coord>, rest: Seq<u8>)
    requires
        t == 8 || t == 18 || t == 28,
        extent.len() == 32,
        cs.len() <= 10_000_000,
    ensures
        shp::record_shape(points_record(t, extent, cs, rest)) == Result::<
            Option<ShpView>,
            Seq<char>,
        >::Ok(Some(ShpView::MultiPoint(cs))),
{
    let s = points_record(t, extent, cs, rest);
    let a = bytes::le_bytes(t, 4);
    let n = bytes::le_bytes(cs.len(), 4);
    let pairs = pairs_bytes(cs);
    bytes::fixed_len(t, 4);
    bytes::fixed_len(cs.len(), 4);
    pairs_len(cs);
    assert(s =~= Seq::<u8>::empty() + a + (extent + n + pairs + rest));
    write_laws::le_word(Seq::empty(), t, extent + n + pairs + rest);
    assert(s =~= (a + extent) + n + (pairs + rest));
    write_laws::le_word(a + extent, cs.len(), pairs + rest);
    let head = a + extent + n;
    assert(s =~= head + pairs + rest);
    assert(shp::coords_at(s, 40, cs.len()) =~= cs) by {
        assert forall|i: int| 0 <= i < cs.len() implies shp::coord_at(s, 40 + 16 * i) == cs[i] by {
            pairs_are_read(head, cs, rest, i);
        }
    }
}

/// Where the points of a part start: behind those of the parts before it.
pub open spec fn part_start(parts: Seq<Seq<Coord>>, i: int) -> nat
    decreases i,
{
    if i <= 0 {
        0
    } else {
        part_start(parts, i - 1) + parts[i - 1].len()
    }
}

/// The places where the parts start, four bytes each.
pub open spec fn starts_bytes(parts: Seq<Seq<Coord>>, n: nat) -> Seq<u8>
    decreases n,
{
    if n == 0 {
        Seq::empty()
    } else {
        starts_bytes(parts, (n - 1) as nat) + bytes::le_bytes(part_start(parts, n - 1), 4)
    }
}

proof fn starts_len(parts: Seq<Seq<Coord>>, n: nat)
    ensures
        starts_bytes(parts, n).len() == 4 * n,
    decreases n,
{
    if n > 0 {
        starts_len(parts, (n - 1) as nat);
        bytes::fixed_len(part_start(parts, n - 1), 4);
    }
}

proof fn starts_grow(parts: Seq<Seq<Coord>>, i: int, j: int)
    requires
        0 <= i <= j,
    ensures
        part_start(parts, i) <= part_start(parts, j),
    decreases j,
{
    if i < j {
        starts_grow(parts, i, j - 1);
    }
}

proof fn starts_are_read(before: Seq<u8>, parts: Seq<Seq<Coord>>, n: nat, after: Seq<u8>, i: int)
    requires
        0 <= i < n,
        part_start(parts, n as int) < 0x8000_0000,
    ensures
        shp::le_i32(before + starts_bytes(parts, n) + after, before.len() + 4 * i) == part_start(
            parts,
            i,
        ),
    decreases n,
{
    let m = (n - 1) as nat;
    let head = starts_bytes(parts, m);
    let last = bytes::le_bytes(part_start(parts, m as int), 4);
    let s = before + starts_bytes(parts, n) + after;
    starts_len(parts, m);
    starts_grow(parts, m as int, n as int);
    if i == m {
        assert(s =~= (before + head) + last + after);
        write_laws::le_word(before + head, part_start(parts, m as int), after);
    } else {
        assert(s =~= before + head + (last + after));
        starts_are_read(before, parts, m, last + after, i);
    }
}

/// A record of parts: the type, a box of 32 bytes, the numbers of parts and of points, where each
/// part starts, the pairs of all parts.
pub open spec fn parts_record(
    t: nat,
    extent: Seq<u8>,
    parts: Seq<Seq<Coord>>,
    rest: Seq<u8>,
) -> Seq<u8> {
    bytes::le_bytes(t, 4) + extent + bytes::le_bytes(parts.len(), 4) + bytes::le_bytes(
        parts.flatten().len(),
        4,
    ) + starts_bytes(parts, parts.len()) + pairs_bytes(parts.flatten()) + rest
}

proof fn parts_stand_in_all_points(parts: Seq<Seq<Coord>>, i: int)
    requires
        0 <= i < parts.len(),
    ensures
        parts.flatten().len() == part_start(parts, parts.len() as int),
        part_start(parts, i + 1) <= parts.flatten().len(),
        parts.flatten().subrange(part_start(parts, i) as int, part_start(parts, i + 1) as int)
            == parts[i],
    decreases parts.len(),
{
    let d = parts.drop_last();
    let n = parts.len() - 1;
    d.lemma_flatten_push(parts.last());
    assert(d.push(parts.last()) =~= parts);
    starts_of_front(parts, n);
    if n == 0 {
        assert(d =~= Seq::empty());
        assert(d.flatten() =~= Seq::empty());
    } else {
        parts_stand_in_all_points(
            d,
            if i < n {
                i
            } else {
                0
            },
        );
    }
    let all = parts.flatten();
    starts_grow(parts, i + 1, n + 1);
    if i < n {
        starts_of_front(parts, i);
        starts_of_front(parts, i + 1);
        assert(all.subrange(part_start(parts, i) as int, part_start(parts, i + 1) as int)
            =~= d.flatten().subrange(part_start(d, i) as int, part_start(d, i + 1) as int));
    } else {
        assert(all.subrange(part_start(parts, i) as int, part_start(parts, i + 1) as int)
            =~= parts[i]);
    }
}

proof fn starts_of_front(parts: Seq<Seq<Coord>>, i: int)
    requires
        0 <= i < parts.len(),
    ensures
        part_start(parts.drop_last(), i) == part_start(parts, i),
    decreases i,
{
    if i > 0 {
        starts_of_front(parts, i - 1);
    }
}

#[verifier::spinoff_prover]
proof fn parts_come_back(t: nat, extent: Seq<u8>, parts: Seq<Seq<Coord>>, rest: Seq<u8>)
    requires
        t < 0x8000_0000,
        extent.len() == 32,
        parts.len() <= 1_000_000,
        parts.flatten().len() <= 100_000_000,
    ensures
        shp::le_i32(parts_record(t, extent, parts, rest), 0) == t,
        parts_record(t, extent, parts, rest).len() >= 44,
        shp::parts_of(parts_record(t, extent, parts, rest)) == Result::<
            Seq<Seq<Coord>>,
            Seq<char>,
        >::Ok(parts),
{
    let s = parts_record(t, extent, parts, rest);
    let all = parts.flatten();
    let a = bytes::le_bytes(t, 4);
    let n = bytes::le_bytes(parts.len(), 4);
    let m = bytes::le_bytes(all.len(), 4);
    let starts = starts_bytes(parts, parts.len());
    let pairs = pairs_bytes(all);
    bytes::fixed_len(t, 4);
    bytes::fixed_len(parts.len(), 4);
    bytes::fixed_len(all.len(), 4);
    starts_len(parts, parts.len());
    pairs_len(all);
    assert(s =~= Seq::<u8>::empty() + a + (extent + n + m + starts + pairs + rest));
    write_laws::le_word(Seq::empty(), t, extent + n + m + starts + pairs + rest);
    assert(s =~= (a + extent) + n + (m + starts + pairs + rest));
    write_laws::le_word(a + extent, parts.len(), m + starts + pairs + rest);
    assert(s =~= (a + extent + n) + m + (starts + pairs + rest));
    write_laws::le_word(a + extent + n, all.len(), starts + pairs + rest);
    let head = a + extent + n + m;
    if parts.len() == 0 {
        assert(parts =~= Seq::empty());
        assert(all =~= Seq::empty());
    } else {
        parts_stand_in_all_points(parts, 0);
    }
    assert forall|i: int| 0 <= i < parts.len() implies #[trigger] shp::le_i32(s, 44 + 4 * i)
        == part_start(parts, i) by {
        assert(s =~= head + starts + (pairs + rest));
        starts_are_read(head, parts, parts.len(), pairs + rest, i);
    }
    let first = 44 + 4 * parts.len() as int;
    assert(s =~= (head + starts) + pairs + rest);
    assert(shp::coords_at(s, first, all.len()) =~= all) by {
        assert forall|i: int| 0 <= i < all.len() implies shp::coord_at(s, first + 16 * i) == all[i] by {
            pairs_are_read(head + starts, all, rest, i);
        }
    }
    assert forall|i: int| 0 <= i < parts.len() implies #[trigger] shp::part_end(
        s,
        44,
        parts.len() as int,
        all.len() as int,
        i,
    ) == part_start(parts, i + 1) by {
        if i + 1 < parts.len() {
            assert(shp::le_i32(s, 44 + 4 * (i + 1)) == part_start(parts, i + 1));
        }
    }
    assert(shp::offsets_ok(s, 44, parts.len() as int, all.len() as int)) by {
        assert forall|i: int| 0 <= i < parts.len() implies 0 <= #[trigger] shp::le_i32(s, 44 + 4 * i)
            <= shp::part_end(s, 44, parts.len() as int, all.len() as int, i) <= all.len() by {
            starts_grow(parts, i, i + 1);
            starts_grow(parts, i + 1, parts.len() as int);
        }
    }
    let out = shp::parts_of(s)->Ok_0;
    assert forall|i: int| 0 <= i < parts.len() implies out[i] == parts[i] by {
        assert(shp::le_i32(s, 44 + 4 * i) == part_start(parts, i));
        parts_stand_in_all_points(parts, i);
    }
    assert(out =~= parts);
}

/// Lines are read from a record of the types 3, 13 and 23 and rings from one of the types 5, 15 and
/// 25: every part with all its points, in order.
pub proof fn parts_are_read(t: nat, extent: Seq<u8>, parts: Seq<Seq<Coord>>, rest: Seq<u8>)
    requires
        extent.len() == 32,
        parts.len() <= 1_000_000,
        parts.flatten().len() <= 100_000_000,
    ensures
        t == 3 || t == 13 || t == 23 ==> shp::record_shape(parts_record(t, extent, parts, rest))
            == Result::<Option<ShpView>, Seq<char>>::Ok(Some(ShpView::Polyline(parts))),
        t == 5 || t == 15 || t == 25 ==> shp::record_shape(parts_record(t, extent, parts, rest))
            == Result::<Option<ShpView>, Seq<char>>::Ok(Some(ShpView::Polygon(parts))),
{
    if t < 100 {
        parts_come_back(t, extent, parts, rest);
    }
}

/// A null shape is nothing; a type that is not one of the above is refused.
pub proof fn other_types_are_refused(t: nat, rest: Seq<u8>)
    requires
        t < 0x8000_0000,
    ensures
        t == 0 ==> shp::record_shape(bytes::le_bytes(t, 4) + rest) == Result::<
            Option<ShpView>,
            Seq<char>,
        >::Ok(None),
        !(t == 0 || t == 1 || t == 3 || t == 5 || t == 8 || t == 11 || t == 13 || t == 15 || t == 18
            || t == 21 || t == 23 || t == 25 || t == 28) ==> shp::record_shape(
            bytes::le_bytes(t, 4) + rest,
        ) == Result::<Option<ShpView>, Seq<char>>::Err(
            "unsupported shape type "@ + text::decimal(t)
                + " (MVP supports point/multipoint/polyline/polygon)"@,
        ),
{
    let a = bytes::le_bytes(t, 4);
    bytes::fixed_len(t, 4);
    assert(a + rest =~= Seq::<u8>::empty() + a + rest);
    write_laws::le_word(Seq::empty(), t, rest);
}

/// What is said of a record that ends before a number at an offset is complete.
pub open spec fn ends_at(at: int) -> Result<Option<ShpView>, Seq<char>> {
    Err("unexpected EOF at offset "@ + text::decimal(at as nat))
}

/// A point that ends too early is refused at the number that is not complete.
pub proof fn short_points_are_refused(s: Seq<u8>)
    ensures
        s.len() < 4 ==> shp::record_shape(s) == ends_at(0),
        shp::le_i32(s, 0) == 1 || shp::le_i32(s, 0) == 11 || shp::le_i32(s, 0) == 21 ==> {
            &&& 4 <= s.len() < 12 ==> shp::record_shape(s) == ends_at(4)
            &&& 12 <= s.len() < 20 ==> shp::record_shape(s) == ends_at(12)
        },
{
}

/// Points that end too early are refused: in the box, at the count, or at the first number that is
/// not complete. A count that is negative or above ten million is refused for itself.
pub proof fn short_multi_points_are_refused(s: Seq<u8>)
    requires
        s.len() >= 4,
        shp::le_i32(s, 0) == 8 || shp::le_i32(s, 0) == 18 || shp::le_i32(s, 0) == 28,
    ensures
        s.len() < 36 ==> shp::record_shape(s) == ends_at(4),
        36 <= s.len() < 40 ==> shp::record_shape(s) == ends_at(36),
        s.len() >= 40 ==> {
            let n = shp::le_i32(s, 36);
            if n < 0 || n > 10_000_000 {
                shp::record_shape(s) == Result::<Option<ShpView>, Seq<char>>::Err(
                    "implausible multipoint count "@ + text::signed_decimal(n),
                )
            } else if 40 + 16 * n > s.len() {
                exists|k: int|
                    40 + 8 * k <= s.len() < 48 + 8 * k && shp::record_shape(s)
                        == #[trigger] ends_at(40 + 8 * k)
            } else {
                shp::record_shape(s) is Ok
            }
        },
{
    let n = shp::le_i32(s, 36);
    if s.len() >= 40 && 0 <= n <= 10_000_000 && 40 + 16 * n > s.len() {
        let k = (s.len() - 40) / 8;
        assert(shp::record_shape(s) == ends_at(40 + 8 * k));
    }
}

/// Parts that end too early are refused: in the box, at a count, in the table of offsets, or at the
/// first number that is not complete. Counts out of bounds are refused for themselves, and so are
/// offsets that go back or past the last point.
pub proof fn short_parts_are_refused(s: Seq<u8>)
    requires
        s.len() >= 4,
        shp::le_i32(s, 0) == 3 || shp::le_i32(s, 0) == 13 || shp::le_i32(s, 0) == 23
            || shp::le_i32(s, 0) == 5 || shp::le_i32(s, 0) == 15 || shp::le_i32(s, 0) == 25,
    ensures
        s.len() < 36 ==> shp::record_shape(s) == ends_at(4),
        36 <= s.len() < 40 ==> shp::record_shape(s) == ends_at(36),
        40 <= s.len() < 44 ==> shp::record_shape(s) == ends_at(40),
        s.len() >= 44 ==> {
            let parts = shp::le_i32(s, 36);
            let points = shp::le_i32(s, 40);
            if parts < 0 || parts > 1_000_000 || points < 0 || points > 100_000_000 {
                shp::record_shape(s) == Result::<Option<ShpView>, Seq<char>>::Err(
                    "implausible part/point counts"@,
                )
            } else if 44 + 4 * parts > s.len() {
                exists|k: int|
                    44 + 4 * k <= s.len() < 48 + 4 * k && shp::record_shape(s)
                        == #[trigger] ends_at(44 + 4 * k)
            } else if 44 + 4 * parts + 16 * points > s.len() {
                exists|k: int|
                    44 + 4 * parts + 8 * k <= s.len() < 52 + 4 * parts + 8 * k && shp::record_shape(
                        s,
                    ) == #[trigger] ends_at(44 + 4 * parts + 8 * k)
            } else if exists|i: int|
                0 <= i < parts && !(0 <= #[trigger] shp::le_i32(s, 44 + 4 * i) && shp::le_i32(
                    s,
                    44 + 4 * i,
                ) <= (if i + 1 < parts {
                    shp::le_i32(s, 44 + 4 * (i + 1))
                } else {
                    points
                }) && (if i + 1 < parts {
                    shp::le_i32(s, 44 + 4 * (i + 1))
                } else {
                    points
                }) <= points) {
                shp::record_shape(s) == Result::<Option<ShpView>, Seq<char>>::Err(
                    "corrupt part offset table"@,
                )
            } else {
                shp::record_shape(s) is Ok
            }
        },
{
    let parts = shp::le_i32(s, 36);
    let points = shp::le_i32(s, 40);
    if s.len() >= 44 && 0 <= parts <= 1_000_000 && 0 <= points <= 100_000_000 {
        if 44 + 4 * parts > s.len() {
            let k = (s.len() - 44) / 4;
            assert(shp::record_shape(s) == ends_at(44 + 4 * k));
        } else if 44 + 4 * parts + 16 * points > s.len() {
            let k = (s.len() - 44 - 4 * parts) / 8;
            assert(shp::record_shape(s) == ends_at(44 + 4 * parts + 8 * k));
        }
    }
}

/// What is read behind a front is what is read of what stands behind it.
proof fn fronts_do_not_matter(front: Seq<u8>, rest: Seq<u8>, limit: int, pos: nat)
    ensures
        shp::shapes_from(front + rest, limit, front.len() + pos) == shp::shapes_from(
            rest,
            limit - front.len(),
            pos,
        ),
    decreases rest.len() - pos,
{
    let body = front + rest;
    let at = front.len() + pos;
    if !(pos + 8 > limit - front.len() || pos + 8 > rest.len()) {
        assert(body.subrange(at as int + 4, at as int + 8) =~= rest.subrange(
            pos as int + 4,
            pos as int + 8,
        ));
        let size = 2 * shp::be_i32(rest, (pos + 4) as int);
        if 0 <= size && rest.len() - pos - 8 >= size {
            let end = (pos + 8 + size) as nat;
            assert(body.subrange(at as int + 8, (front.len() + end) as int) =~= rest.subrange(
                pos as int + 8,
                end as int,
            ));
            fronts_do_not_matter(front, rest, limit, end);
        }
    }
}

/// A record with its header: a number, the length of the content in 16-bit words, the content.
pub open spec fn record(number: nat, content: Seq<u8>) -> Seq<u8> {
    bytes::be_bytes(number, 4) + bytes::be_bytes(content.len() / 2, 4) + content
}

/// Records are read one after the other: the shape of the first, unless it is a null shape, and
/// then the shapes of the others; the first fault ends it.
pub proof fn records_are_read_one_by_one(
    number: nat,
    content: Seq<u8>,
    rest: Seq<u8>,
    limit: int,
)
    requires
        content.len() % 2 == 0,
        content.len() < 0x1_0000_0000,
        limit >= 8,
    ensures
        shp::shapes_from(record(number, content) + rest, limit, 0) == match shp::record_shape(
            content,
        ) {
            Err(msg) => Err(msg),
            Ok(shape) => match shp::shapes_from(rest, limit - 8 - content.len(), 0) {
                Err(msg) => Err(msg),
                Ok(others) => match shape {
                    Some(s) => Result::<Seq<ShpView>, Seq<char>>::Ok(seq![s] + others),
                    None => Ok(others),
                },
            },
        },
        shp::shapes_from(Seq::empty(), limit, 0) == Result::<Seq<ShpView>, Seq<char>>::Ok(
            Seq::empty(),
        ),
{
    let front = record(number, content);
    let body = front + rest;
    let a = bytes::be_bytes(number, 4);
    let b = bytes::be_bytes(content.len() / 2, 4);
    bytes::fixed_len(number, 4);
    bytes::fixed_len(content.len() / 2, 4);
    assert(body =~= a + b + (content + rest));
    write_laws::be_word(a, content.len() / 2, content + rest);
    assert(body.subrange(8, 8 + content.len() as int) =~= content);
    fronts_do_not_matter(front, rest, limit, 0);
    assert(front.len() == 8 + content.len());
}

/// The header of a file: the number 9994, twenty bytes, the length of the file in 16-bit words, and
/// what fills a hundred bytes.
pub open spec fn header(gap: Seq<u8>, words: nat, filler: Seq<u8>) -> Seq<u8> {
    bytes::be_bytes(9994, 4) + gap + bytes::be_bytes(words, 4) + filler
}

/// The records of a file start behind its header of a hundred bytes and are read as far as the
/// header says, or as the file goes.
pub proof fn files_are_read_as_far_as_they_say(
    gap: Seq<u8>,
    words: nat,
    filler: Seq<u8>,
    body: Seq<u8>,
)
    requires
        gap.len() == 20,
        filler.len() == 72,
        50 <= words < 0x8000_0000,
    ensures
        shp::shapes_of(header(gap, words, filler) + body) == shp::shapes_from(
            body,
            if 2 * words <= 100 + body.len() {
                2 * words - 100
            } else {
                body.len() as int
            },
            0,
        ),
{
    let h = header(gap, words, filler);
    let data = h + body;
    let magic = bytes::be_bytes(9994, 4);
    let length = bytes::be_bytes(words, 4);
    bytes::fixed_len(9994, 4);
    bytes::fixed_len(words, 4);
    assert(data =~= Seq::<u8>::empty() + magic + (gap + length + filler + body));
    write_laws::be_word(Seq::empty(), 9994, gap + length + filler + body);
    assert(data =~= (magic + gap) + length + (filler + body));
    write_laws::be_word(magic + gap, words, filler + body);
    assert(data.skip(100) =~= body);
}

/// A ring that counts: four points or more, and not flat.
pub open spec fn if_ring(parts: Seq<Seq<Coord>>, turns: Seq<RingTurn>) -> spec_fn(int) -> Option<
    Seq<Coord>,
> {
    |i: int|
        if parts[i].len() >= 4 && !(turns[i] is Flat) {
            Some(parts[i])
        } else {
            None
        }
}

/// The exterior and the holes of a group.
pub open spec fn group_rings() -> spec_fn((Seq<Coord>, Seq<Seq<Coord>>)) -> Seq<Seq<Coord>> {
    |g: (Seq<Coord>, Seq<Seq<Coord>>)| seq![g.0] + g.1
}

/// The places of a list.
pub open spec fn places(n: nat) -> Seq<int> {
    Seq::new(n, |i: int| i)
}

/// Grouping loses no ring: the exteriors and holes of the groups, one after the other, are the
/// rings that count, all of them and in order.
pub proof fn groups_have_every_ring(parts: Seq<Seq<Coord>>, turns: Seq<RingTurn>, n: nat)
    ensures
        picking::picked(
            places(n),
            if_ring(parts, turns),
            shp::grouped(parts, turns, n).map_values(group_rings()).flatten(),
        ),
    decreases n,
{
    let f = if_ring(parts, turns);
    let groups = shp::grouped(parts, turns, n);
    let lists = groups.map_values(group_rings());
    if n == 0 {
        assert(lists =~= Seq::empty());
        assert(lists.flatten() =~= Seq::empty());
        picking::picked_of_nothing(places(0), f);
    } else {
        let m = (n - 1) as nat;
        groups_have_every_ring(parts, turns, m);
        let before = shp::grouped(parts, turns, m);
        let old = before.map_values(group_rings());
        let ring = parts[m as int];
        assert(places(n).drop_last() =~= places(m));
        if f(m as int) is Some {
            if turns[m as int] is Clockwise || before.len() == 0 {
                let g = (ring, Seq::<Seq<Coord>>::empty());
                assert(lists =~= old.push(seq![ring] + Seq::<Seq<Coord>>::empty()));
                old.lemma_flatten_push(seq![ring] + Seq::<Seq<Coord>>::empty());
                assert(lists.flatten() =~= old.flatten().push(ring));
            } else {
                let front = before.drop_last();
                let (ext, holes) = before.last();
                let kept = front.map_values(group_rings());
                assert(old =~= kept.push(seq![ext] + holes));
                kept.lemma_flatten_push(seq![ext] + holes);
                assert(lists =~= kept.push(seq![ext] + holes.push(ring)));
                kept.lemma_flatten_push(seq![ext] + holes.push(ring));
                assert(lists.flatten() =~= old.flatten().push(ring));
            }
        }
        picking::picked_grows(places(n), f, old.flatten(), lists.flatten());
    }
}

/// As many clockwise rings as count start a group each; the first ring that counts starts one in
/// any case.
pub open spec fn starts(parts: Seq<Seq<Coord>>, turns: Seq<RingTurn>, n: nat) -> nat
    decreases n,
{
    if n == 0 {
        0
    } else {
        starts(parts, turns, (n - 1) as nat) + if parts[n - 1].len() >= 4 && turns[n
            - 1] is Clockwise {
            1nat
        } else {
            0nat
        }
    }
}

/// There are as many groups as clockwise rings that count, or one more where the first ring that
/// counts is not clockwise. The last clockwise ring is the exterior of the last group.
pub proof fn clockwise_rings_start_groups(parts: Seq<Seq<Coord>>, turns: Seq<RingTurn>, n: nat)
    ensures
        ({
            let g = shp::grouped(parts, turns, n);
            &&& starts(parts, turns, n) <= g.len() <= starts(parts, turns, n) + 1
            &&& n > 0 && parts[n - 1].len() >= 4 && turns[n - 1] is Clockwise ==> g.len() > 0
                && g[g.len() - 1].0 == parts[n - 1] && g[g.len() - 1].1.len() == 0
            &&& n > 0 && parts[n - 1].len() >= 4 && turns[n - 1] is CounterClockwise
                && shp::grouped(parts, turns, (n - 1) as nat).len() > 0 ==> g.len()
                == shp::grouped(parts, turns, (n - 1) as nat).len() && g[g.len() - 1].0
                == shp::grouped(parts, turns, (n - 1) as nat).last().0 && g[g.len() - 1].1.last()
                == parts[n - 1]
        }),
    decreases n,
{
    if n > 0 {
        clockwise_rings_start_groups(parts, turns, (n - 1) as nat);
    }
}

/// Every group becomes a polygon with its exterior and its holes, closed; one polygon stands for
/// itself, several make a multipolygon, and without any there is no geometry.
pub proof fn groups_become_polygons(groups: Seq<(Seq<Coord>, Seq<Seq<Coord>>)>)
    ensures
        ({
            let ps = shp::made_polygons(groups);
            &&& ps.len() == groups.len()
            &&& forall|i: int|
                0 <= i < ps.len() ==> (#[trigger] ps[i]).exterior == geometry::close(groups[i].0)
                    && ps[i].interiors.len() == groups[i].1.len() && forall|k: int|
                    0 <= k < groups[i].1.len() ==> #[trigger] ps[i].interiors[k] == geometry::close(
                        groups[i].1[k],
                    )
            &&& match shp::polygons_geometry(ps) {
                None => groups.len() == 0,
                Some(GeometryView::Polygon(p)) => groups.len() == 1 && p == ps[0],
                Some(GeometryView::MultiPolygon(out)) => groups.len() >= 2 && out == ps,
                Some(_) => false,
            }
        }),
{
}

/// A point is a point, points are points where there are any, lines are those of two points or
/// more, and rings are grouped.
pub proof fn shapes_become_geometries(
    c: Coord,
    cs: Seq<Coord>,
    parts: Seq<Seq<Coord>>,
    turns: Seq<RingTurn>,
)
    ensures
        shp::shape_geometry(ShpView::Point(c), turns) == Some(GeometryView::Point(c)),
        shp::shape_geometry(ShpView::MultiPoint(cs), turns) == if cs.len() > 0 {
            Some(GeometryView::MultiPoint(cs))
        } else {
            None
        },
        match shp::shape_geometry(ShpView::Polyline(parts), turns) {
            Some(GeometryView::MultiLineString(lines)) => lines.len() > 0 && picking::picked(
                parts,
                simplify::if_long(2),
                lines,
            ),
            Some(_) => false,
            None => picking::picked(parts, simplify::if_long(2), Seq::<Seq<Coord>>::empty()),
        },
        shp::shape_geometry(ShpView::Polygon(parts), turns) == shp::polygons_geometry(
            shp::made_polygons(shp::grouped(parts, turns, parts.len())),
        ),
{
    simplify::long_lists_stay(parts, 2);
    let lines = simplify::long_enough(parts, 2);
    if lines.len() == 0 {
        assert(lines =~= Seq::empty());
    }
}

/// Only the rings of polygons have to be told apart.
pub proof fn only_rings_turn(s: ShpView)
    ensures
        shp::rings_of(s) == match s {
            ShpView::Polygon(parts) => parts.len(),
            _ => 0,
        },
{
}

} // verus!
