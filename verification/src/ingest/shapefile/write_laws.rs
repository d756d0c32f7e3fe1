//! What the readers give back of what the writers wrote.
use vstd::prelude::*;
use vstd::utf8::*;
use crate::bytes;
use crate::double::Double;
use crate::geometry::Coord;
use crate::ingest::shapefile::shp;
use crate::ingest::shapefile::shp::ShpView;
use crate::ingest::shapefile;

verus! {

/// A word that stands in the middle of a byte string.
pub proof fn le_word(before: Seq<u8>, v: nat, after: Seq<u8>)
    requires
        v < 0x8000_0000,
    ensures
        shp::le_i32(before + bytes::le_bytes(v, 4) + after, before.len() as int) == v,
{
    let s = before + bytes::le_bytes(v, 4) + after;
    let at = before.len() as int;
    reveal_with_fuel(bytes::pow256, 5);
    bytes::le_value_of_le_bytes(v, 4);
    assert(s.subrange(at, at + 4) =~= bytes::le_bytes(v, 4));
}

/// A word that stands in the middle of a byte string, most significant byte first.
pub proof fn be_word(before: Seq<u8>, v: nat, after: Seq<u8>)
    requires
        v < 0x8000_0000,
    ensures
        shp::be_i32(before + bytes::be_bytes(v, 4) + after, before.len() as int) == v,
{
    let s = before + bytes::be_bytes(v, 4) + after;
    let at = before.len() as int;
    reveal_with_fuel(bytes::pow256, 5);
    bytes::be_value_of_be_bytes(v, 4);
    assert(s.subrange(at, at + 4) =~= bytes::be_bytes(v, 4));
}

/// A number that stands in the middle of a byte string.
pub proof fn double_word(before: Seq<u8>, d: Double, after: Seq<u8>)
    ensures
        shp::le_double(
            before + bytes::le_bytes(d.bits as nat, 8) + after,
            before.len() as int,
        ) == d,
{
    let s = before + bytes::le_bytes(d.bits as nat, 8) + after;
    let at = before.len() as int;
    reveal_with_fuel(bytes::pow256, 9);
    bytes::le_value_of_le_bytes(d.bits as nat, 8);
    assert(s.subrange(at, at + 8) =~= bytes::le_bytes(d.bits as nat, 8));
}

/// The points are read where they were written.
proof fn points_come_back(before: Seq<u8>, ring: Seq<Coord>, n: nat, after: Seq<u8>, i: nat)
    requires
        i < n <= ring.len(),
    ensures
        shp::coord_at(
            before + shapefile::write::points_bytes(ring, n) + after,
            (before.len() + 16 * i) as int,
        ) == ring[i as int],
    decreases n,
{
    let k = (n - 1) as nat;
    let c = ring[n - 1];
    let x = bytes::le_bytes(c.x.bits as nat, 8);
    let y = bytes::le_bytes(c.y.bits as nat, 8);
    let head = shapefile::write::points_bytes(ring, k);
    bytes::fixed_len(c.x.bits as nat, 8);
    bytes::fixed_len(c.y.bits as nat, 8);
    shapefile::write::points_len(ring, k);
    let s = before + shapefile::write::points_bytes(ring, n) + after;
    if i == k {
        assert(s =~= (before + head) + x + (y + after));
        double_word(before + head, c.x, y + after);
        assert(s =~= (before + head + x) + y + after);
        double_word(before + head + x, c.y, after);
    } else {
        assert(s =~= before + head + (x + y + after));
        points_come_back(before, ring, k, x + y + after, i);
    }
}

/// The content of a record is read as the polygon that was written.
proof fn content_comes_back(ring: Seq<Coord>)
    requires
        ring.len() <= 100_000_000,
    ensures
        shp::record_shape(shapefile::write::polygon_content(ring)) == Result::<Option<ShpView>, Seq<char>>::Ok(
            Some(ShpView::Polygon(seq![ring])),
        ),
{
    let s = shapefile::write::polygon_content(ring);
    let a = bytes::le_bytes(5, 4);
    let b = shapefile::write::bounds_bytes(shapefile::write::ring_bounds(ring));
    let c = bytes::le_bytes(1, 4);
    let d = bytes::le_bytes(ring.len(), 4);
    let e = bytes::le_bytes(0, 4);
    let f = shapefile::write::points_bytes(ring, ring.len());
    bytes::fixed_len(5, 4);
    bytes::fixed_len(1, 4);
    bytes::fixed_len(ring.len(), 4);
    bytes::fixed_len(0, 4);
    shapefile::write::bounds_len(shapefile::write::ring_bounds(ring));
    shapefile::write::content_len(ring);
    assert(s =~= Seq::<u8>::empty() + a + (b + c + d + e + f));
    le_word(Seq::empty(), 5, b + c + d + e + f);
    assert(s =~= (a + b) + c + (d + e + f));
    le_word(a + b, 1, d + e + f);
    assert(s =~= (a + b + c) + d + (e + f));
    le_word(a + b + c, ring.len(), e + f);
    assert(s =~= (a + b + c + d) + e + f);
    le_word(a + b + c + d, 0, f);
    let head = a + b + c + d + e;
    assert(s =~= head + f + Seq::<u8>::empty());
    assert(shp::coords_at(s, 48, ring.len()) =~= ring) by {
        assert forall|i: int| 0 <= i < ring.len() implies shp::coord_at(s, 48 + 16 * i) == ring[i] by {
            points_come_back(head, ring, ring.len(), Seq::empty(), i as nat);
        }
    }
    assert(shp::offsets_ok(s, 44, 1, ring.len() as int));
    let parts = shp::parts_of(s)->Ok_0;
    assert(ring.subrange(0, ring.len() as int) =~= ring);
    assert(parts =~= seq![ring]);
}

/// The first records stand at the start of all records.
proof fn records_extend(rings: Seq<Seq<Coord>>, k: nat, n: nat)
    requires
        k <= n <= rings.len(),
    ensures
        shapefile::write::record_bytes(rings, k).len() <= shapefile::write::record_bytes(rings, n).len(),
        shapefile::write::record_bytes(rings, n).subrange(
            0,
            shapefile::write::record_bytes(rings, k).len() as int,
        ) == shapefile::write::record_bytes(rings, k),
    decreases n,
{
    if k == n {
        assert(shapefile::write::record_bytes(rings, n).subrange(
            0,
            shapefile::write::record_bytes(rings, k).len() as int,
        ) =~= shapefile::write::record_bytes(rings, k));
    } else {
        records_extend(rings, k, (n - 1) as nat);
        assert(shapefile::write::record_bytes(rings, n).subrange(
            0,
            shapefile::write::record_bytes(rings, k).len() as int,
        ) =~= shapefile::write::record_bytes(rings, (n - 1) as nat).subrange(
            0,
            shapefile::write::record_bytes(rings, k).len() as int,
        ));
    }
}

/// The polygons that stand for rings.
pub open spec fn ring_polygons(rings: Seq<Seq<Coord>>) -> Seq<ShpView> {
    Seq::new(rings.len(), |i: int| ShpView::Polygon(seq![rings[i]]))
}

/// Where a record stands among all records, and what its header says.
proof fn record_stands(rings: Seq<Seq<Coord>>, k: nat)
    requires
        k < rings.len(),
        rings[k as int].len() <= 100_000_000,
    ensures
        ({
            let body = shapefile::write::record_bytes(rings, rings.len());
            let pos = shapefile::write::record_bytes(rings, k).len();
            let end = shapefile::write::record_bytes(rings, k + 1).len();
            let content = shapefile::write::polygon_content(rings[k as int]);
            &&& end == pos + 8 + content.len()
            &&& content.len() % 2 == 0
            &&& end <= body.len()
            &&& shp::be_i32(body, (pos + 4) as int) == content.len() / 2
            &&& body.subrange((pos + 8) as int, end as int) == content
        }),
{
    let body = shapefile::write::record_bytes(rings, rings.len());
    let head = shapefile::write::record_bytes(rings, k);
    let ring = rings[k as int];
    let content = shapefile::write::polygon_content(ring);
    let next = shapefile::write::record_bytes(rings, k + 1);
    let number = bytes::be_bytes(k + 1, 4);
    let size = bytes::be_bytes(content.len() / 2, 4);
    bytes::fixed_len(k + 1, 4);
    bytes::fixed_len(content.len() / 2, 4);
    shapefile::write::content_len(ring);
    records_extend(rings, k + 1, rings.len());
    let tail = body.skip(next.len() as int);
    assert(body =~= next + tail);
    assert(next == head + number + size + content);
    assert(body =~= (head + number) + size + (content + tail));
    be_word(head + number, content.len() / 2, content + tail);
    assert(body.subrange((head.len() + 8) as int, next.len() as int) =~= content);
}

/// A record that can be read comes before those behind it.
proof fn shapes_step(body: Seq<u8>, pos: nat, end: nat, shape: ShpView, rest: Seq<ShpView>)
    requires
        pos + 8 <= end <= body.len(),
        end - pos - 8 == 2 * shp::be_i32(body, (pos + 4) as int),
        shp::record_shape(body.subrange((pos + 8) as int, end as int)) == Result::<
            Option<ShpView>,
            Seq<char>,
        >::Ok(Some(shape)),
        shp::shapes_from(body, body.len() as int, end) == Result::<Seq<ShpView>, Seq<char>>::Ok(rest),
    ensures
        shp::shapes_from(body, body.len() as int, pos) == Result::<Seq<ShpView>, Seq<char>>::Ok(
            seq![shape] + rest,
        ),
{
}

proof fn records_come_back(rings: Seq<Seq<Coord>>, k: nat)
    requires
        k <= rings.len(),
        forall|i: int| 0 <= i < rings.len() ==> (#[trigger] rings[i]).len() <= 100_000_000,
    ensures
        shp::shapes_from(
            shapefile::write::record_bytes(rings, rings.len()),
            shapefile::write::record_bytes(rings, rings.len()).len() as int,
            shapefile::write::record_bytes(rings, k).len(),
        ) == Result::<Seq<ShpView>, Seq<char>>::Ok(ring_polygons(rings).skip(k as int)),
    decreases rings.len() - k,
{
    let body = shapefile::write::record_bytes(rings, rings.len());
    let pos = shapefile::write::record_bytes(rings, k).len();
    if k == rings.len() {
        assert(ring_polygons(rings).skip(k as int) =~= Seq::<ShpView>::empty());
    } else {
        let ring = rings[k as int];
        let end = shapefile::write::record_bytes(rings, k + 1).len();
        record_stands(rings, k);
        content_comes_back(ring);
        records_come_back(rings, k + 1);
        let rest = ring_polygons(rings).skip((k + 1) as int);
        shapes_step(body, pos, end, ShpView::Polygon(seq![ring]), rest);
        assert(ring_polygons(rings).skip(k as int) =~= seq![ShpView::Polygon(seq![ring])] + rest);
    }
}

/// Reading a `.shp` file gives back the polygons that were written: one per ring, with that ring as
/// its only part. The rings have to keep within the reader's limit on points, and the file within
/// the lengths that a header can state.
pub proof fn written_shapes_come_back(rings: Seq<Seq<Coord>>)
    requires
        forall|i: int| 0 <= i < rings.len() ==> (#[trigger] rings[i]).len() <= 100_000_000,
        shapefile::write::shp_bytes(rings).len() <= 0xffff_fffe,
    ensures
        shp::shapes_of(shapefile::write::shp_bytes(rings)) == Result::<Seq<ShpView>, Seq<char>>::Ok(
            ring_polygons(rings),
        ),
{
    let data = shapefile::write::shp_bytes(rings);
    let body = shapefile::write::record_bytes(rings, rings.len());
    let words = (100 + body.len()) / 2;
    let magic = bytes::be_bytes(9994, 4);
    let zeros = Seq::new(20, |i: int| 0u8);
    let length = bytes::be_bytes(words, 4);
    let rest = bytes::le_bytes(1000, 4) + bytes::le_bytes(5, 4) + shapefile::write::bounds_bytes(
        shapefile::write::all_bounds(rings),
    ) + Seq::new(32, |i: int| 0u8) + body;
    bytes::fixed_len(9994, 4);
    bytes::fixed_len(words, 4);
    bytes::fixed_len(1000, 4);
    bytes::fixed_len(5, 4);
    shapefile::write::bounds_len(shapefile::write::all_bounds(rings));
    shapefile::write::header_len(words);
    shapefile::write::shp_len(rings);
    assert(data =~= Seq::<u8>::empty() + magic + (zeros + length + rest));
    be_word(Seq::empty(), 9994, zeros + length + rest);
    assert(data =~= (magic + zeros) + length + rest);
    be_word(magic + zeros, words, rest);
    records_are_even(rings, rings.len());
    assert(shp::body_end(data) == data.len());
    assert(data.skip(100) =~= body);
    assert(shapefile::write::record_bytes(rings, 0).len() == 0);
    records_come_back(rings, 0);
    assert(ring_polygons(rings).skip(0) =~= ring_polygons(rings));
}

/// Records are made of 16-bit words.
pub proof fn records_are_even(rings: Seq<Seq<Coord>>, n: nat)
    requires
        n <= rings.len(),
    ensures
        shapefile::write::record_bytes(rings, n).len() % 2 == 0,
    decreases n,
{
    if n > 0 {
        records_are_even(rings, (n - 1) as nat);
        shapefile::write::record_len(rings, n);
    }
}

} // verus!
