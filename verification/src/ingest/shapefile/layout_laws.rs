//! How the files of a shapefile are laid out when they are written, also where no reader looks.
use vstd::prelude::*;
use crate::bytes;
use crate::double::Double;
use crate::geometry::Coord;
use crate::ingest::shapefile;
use crate::ingest::shapefile::record_laws;
use crate::ingest::shapefile::shp;
use crate::ingest::shapefile::write::{Bounds, FieldSpecView};
use crate::ingest::shapefile::write_laws;

verus! {

/// Bounds hold a point.
pub open spec fn holds(b: Bounds, c: Coord) -> bool {
    &&& !c.x.lt_num(b.xmin) && !b.xmax.lt_num(c.x)
    &&& !c.y.lt_num(b.ymin) && !b.ymax.lt_num(c.y)
}

/// Every bound is the number of one of the points.
pub open spec fn touches(b: Bounds, cs: Seq<Coord>) -> bool {
    &&& exists|i: int| 0 <= i < cs.len() && (#[trigger] cs[i]).x == b.xmin
    &&& exists|i: int| 0 <= i < cs.len() && (#[trigger] cs[i]).y == b.ymin
    &&& exists|i: int| 0 <= i < cs.len() && (#[trigger] cs[i]).x == b.xmax
    &&& exists|i: int| 0 <= i < cs.len() && (#[trigger] cs[i]).y == b.ymax
}

/// Points that are all finite.
pub open spec fn all_finite(cs: Seq<Coord>) -> bool {
    forall|i: int| 0 <= i < cs.len() ==> (#[trigger] cs[i]).finite()
}

/// Bounds that are finite numbers.
pub open spec fn finite(b: Bounds) -> bool {
    b.xmin.finite() && b.ymin.finite() && b.xmax.finite() && b.ymax.finite()
}

proof fn widened_bounds_fit(ring: Seq<Coord>)
    requires
        ring.len() > 0,
        all_finite(ring),
    ensures
        finite(shapefile::write::widened(ring)),
        forall|i: int| 0 <= i < ring.len() ==> holds(shapefile::write::widened(ring), #[trigger] ring[i]),
        touches(shapefile::write::widened(ring), ring),
    decreases ring.len(),
{
    let b = shapefile::write::widened(ring);
    let d = ring.drop_last();
    let n = ring.len() - 1;
    let last = ring.last();
    assert(ring[n].finite());
    assert(ring[n] == last);
    if n == 0 {
        assert(d =~= Seq::empty());
        assert(shapefile::write::widened(d) == shapefile::write::no_bounds());
        assert(ring[0].x == b.xmin && ring[0].y == b.ymin);
        assert(ring[0].x == b.xmax && ring[0].y == b.ymax);
    } else {
        assert forall|i: int| 0 <= i < d.len() implies (#[trigger] d[i]).finite() by {
            assert(d[i] == ring[i]);
        }
        widened_bounds_fit(d);
        let a = shapefile::write::widened(d);
        assert forall|i: int| 0 <= i < ring.len() implies holds(b, #[trigger] ring[i]) by {
            if i < n {
                assert(d[i] == ring[i]);
                assert(holds(a, d[i]));
            }
        }
        let i1 = choose|i: int| 0 <= i < d.len() && (#[trigger] d[i]).x == a.xmin;
        let i2 = choose|i: int| 0 <= i < d.len() && (#[trigger] d[i]).y == a.ymin;
        let i3 = choose|i: int| 0 <= i < d.len() && (#[trigger] d[i]).x == a.xmax;
        let i4 = choose|i: int| 0 <= i < d.len() && (#[trigger] d[i]).y == a.ymax;
        assert(ring[i1] == d[i1] && ring[i2] == d[i2] && ring[i3] == d[i3] && ring[i4] == d[i4]);
        assert(b.xmin == ring[i1].x || b.xmin == ring[n].x);
        assert(b.ymin == ring[i2].y || b.ymin == ring[n].y);
        assert(b.xmax == ring[i3].x || b.xmax == ring[n].x);
        assert(b.ymax == ring[i4].y || b.ymax == ring[n].y);
    }
}

/// The bounds of a ring hold each of its points and touch them on every side. Without points they
/// are zero.
pub proof fn bounds_fit_the_ring(ring: Seq<Coord>)
    requires
        all_finite(ring),
    ensures
        ring.len() > 0 ==> {
            &&& finite(shapefile::write::ring_bounds(ring))
            &&& forall|i: int|
                0 <= i < ring.len() ==> holds(shapefile::write::ring_bounds(ring), #[trigger] ring[i])
            &&& touches(shapefile::write::ring_bounds(ring), ring)
        },
        ring.len() == 0 ==> shapefile::write::ring_bounds(ring) == (Bounds {
            xmin: Double { bits: 0 },
            ymin: Double { bits: 0 },
            xmax: Double { bits: 0 },
            ymax: Double { bits: 0 },
        }),
{
    if ring.len() > 0 {
        widened_bounds_fit(ring);
    }
}

/// The points of rings, one ring after the other.
pub open spec fn all_points(rings: Seq<Seq<Coord>>) -> Seq<Coord>
    decreases rings.len(),
{
    if rings.len() == 0 {
        Seq::empty()
    } else {
        all_points(rings.drop_last()) + rings.last()
    }
}

/// The bounds of a file hold every point of every ring and touch them on every side.
pub proof fn bounds_fit_all_rings(rings: Seq<Seq<Coord>>)
    requires
        rings.len() > 0,
        forall|i: int| 0 <= i < rings.len() ==> (#[trigger] rings[i]).len() > 0,
        forall|i: int| 0 <= i < rings.len() ==> all_finite(#[trigger] rings[i]),
    ensures
        finite(shapefile::write::all_bounds(rings)),
        forall|i: int|
            0 <= i < all_points(rings).len() ==> holds(
                shapefile::write::all_bounds(rings),
                #[trigger] all_points(rings)[i],
            ),
        touches(shapefile::write::all_bounds(rings), all_points(rings)),
    decreases rings.len(),
{
    let b = shapefile::write::all_bounds(rings);
    let d = rings.drop_last();
    let last = rings.last();
    let all = all_points(rings);
    assert(rings[rings.len() - 1] == last);
    bounds_fit_the_ring(last);
    points_are_finite(rings);
    if rings.len() == 1 {
        assert(d =~= Seq::empty());
        assert(all_points(d) =~= Seq::empty());
        assert(all =~= last);
    } else {
        assert forall|i: int| 0 <= i < d.len() implies (#[trigger] d[i]).len() > 0 && all_finite(
            d[i],
        ) by {
            assert(d[i] == rings[i]);
        }
        bounds_fit_all_rings(d);
        let a = shapefile::write::all_bounds(d);
        let c = shapefile::write::ring_bounds(last);
        let front = all_points(d);
        assert forall|i: int| 0 <= i < all.len() implies holds(b, #[trigger] all[i]) by {
            assert(all[i].finite());
            if i < front.len() {
                assert(all[i] == front[i]);
                assert(holds(a, front[i]));
            } else {
                assert(all[i] == last[i - front.len()]);
                assert(holds(c, last[i - front.len()]));
            }
        }
        let n = front.len();
        let i1 = choose|i: int| 0 <= i < front.len() && (#[trigger] front[i]).x == a.xmin;
        let i2 = choose|i: int| 0 <= i < front.len() && (#[trigger] front[i]).y == a.ymin;
        let i3 = choose|i: int| 0 <= i < front.len() && (#[trigger] front[i]).x == a.xmax;
        let i4 = choose|i: int| 0 <= i < front.len() && (#[trigger] front[i]).y == a.ymax;
        let j1 = choose|i: int| 0 <= i < last.len() && (#[trigger] last[i]).x == c.xmin;
        let j2 = choose|i: int| 0 <= i < last.len() && (#[trigger] last[i]).y == c.ymin;
        let j3 = choose|i: int| 0 <= i < last.len() && (#[trigger] last[i]).x == c.xmax;
        let j4 = choose|i: int| 0 <= i < last.len() && (#[trigger] last[i]).y == c.ymax;
        assert(all[i1].x == a.xmin && all[n + j1].x == c.xmin);
        assert(all[i2].y == a.ymin && all[n + j2].y == c.ymin);
        assert(all[i3].x == a.xmax && all[n + j3].x == c.xmax);
        assert(all[i4].y == a.ymax && all[n + j4].y == c.ymax);
    }
}

proof fn points_are_finite(rings: Seq<Seq<Coord>>)
    requires
        forall|i: int| 0 <= i < rings.len() ==> all_finite(#[trigger] rings[i]),
    ensures
        all_finite(all_points(rings)),
    decreases rings.len(),
{
    if rings.len() > 0 {
        let d = rings.drop_last();
        assert forall|i: int| 0 <= i < d.len() implies all_finite(#[trigger] d[i]) by {
            assert(d[i] == rings[i]);
        }
        points_are_finite(d);
        assert(all_finite(rings[rings.len() - 1]));
        assert(rings.last() == rings[rings.len() - 1]);
        let front = all_points(d);
        assert forall|i: int| 0 <= i < all_points(rings).len() implies (#[trigger] all_points(
            rings,
        )[i]).finite() by {
            if i < front.len() {
                assert(all_points(rings)[i] == front[i]);
            } else {
                assert(all_points(rings)[i] == rings.last()[i - front.len()]);
            }
        }
    }
}

/// Bounds are written as the lower left corner and then the upper right one.
pub proof fn bounds_are_two_corners(b: Bounds)
    ensures
        shapefile::write::bounds_bytes(b) == record_laws::pair_bytes(Coord { x: b.xmin, y: b.ymin })
            + record_laws::pair_bytes(Coord { x: b.xmax, y: b.ymax }),
        shapefile::write::bounds_bytes(b).len() == 32,
{
    shapefile::write::bounds_len(b);
    assert(shapefile::write::bounds_bytes(b) =~= record_laws::pair_bytes(Coord { x: b.xmin, y: b.ymin })
        + record_laws::pair_bytes(Coord { x: b.xmax, y: b.ymax }));
}

proof fn points_are_pairs(ring: Seq<Coord>, n: nat)
    requires
        n <= ring.len(),
    ensures
        shapefile::write::points_bytes(ring, n) == record_laws::pairs_bytes(ring.take(n as int)),
    decreases n,
{
    if n == 0 {
        assert(ring.take(0) =~= Seq::empty());
    } else {
        points_are_pairs(ring, (n - 1) as nat);
        assert(ring.take(n as int).drop_last() =~= ring.take(n - 1));
        assert(shapefile::write::points_bytes(ring, n) =~= record_laws::pairs_bytes(ring.take(n as int)));
    }
}

/// A ring is written as a polygon record of one part, with the bounds of the ring as its box.
pub proof fn rings_are_polygon_records(ring: Seq<Coord>)
    ensures
        shapefile::write::polygon_content(ring) == record_laws::parts_record(
            5,
            shapefile::write::bounds_bytes(shapefile::write::ring_bounds(ring)),
            seq![ring],
            Seq::empty(),
        ),
{
    let parts = seq![ring];
    let none = Seq::<Seq<Coord>>::empty();
    none.lemma_flatten_push(ring);
    assert(none.push(ring) =~= parts);
    assert(none.flatten() =~= Seq::<Coord>::empty());
    assert(parts.flatten() =~= ring);
    points_are_pairs(ring, ring.len());
    assert(ring.take(ring.len() as int) =~= ring);
    reveal_with_fuel(record_laws::starts_bytes, 2);
    assert(record_laws::starts_bytes(parts, 1) =~= bytes::le_bytes(0, 4));
    assert(shapefile::write::polygon_content(ring) =~= record_laws::parts_record(
        5,
        shapefile::write::bounds_bytes(shapefile::write::ring_bounds(ring)),
        parts,
        Seq::empty(),
    ));
}

/// Records are numbered from one, each with the length of its content.
pub proof fn records_are_numbered_from_one(rings: Seq<Seq<Coord>>, n: nat)
    requires
        n < rings.len(),
    ensures
        shapefile::write::record_bytes(rings, 0).len() == 0,
        shapefile::write::record_bytes(rings, n + 1) == shapefile::write::record_bytes(rings, n) + record_laws::record(
            n + 1,
            shapefile::write::polygon_content(rings[n as int]),
        ),
{
    assert(shapefile::write::record_bytes(rings, n + 1) =~= shapefile::write::record_bytes(rings, n)
        + record_laws::record(n + 1, shapefile::write::polygon_content(rings[n as int])));
}

/// A file starts with its number, its length in 16-bit words, version 1000, the type of polygons
/// and the bounds of all rings, and fills a hundred bytes; the records follow.
pub proof fn files_start_with_a_header(rings: Seq<Seq<Coord>>)
    requires
        shapefile::write::shp_bytes(rings).len() < 0x1_0000_0000,
    ensures
        ({
            let data = shapefile::write::shp_bytes(rings);
            &&& data.len() >= 100
            &&& shp::be_i32(data, 0) == 9994
            &&& 2 * shp::be_i32(data, 24) == data.len()
            &&& shp::le_i32(data, 28) == 1000
            &&& shp::le_i32(data, 32) == 5
            &&& data.subrange(36, 68) == shapefile::write::bounds_bytes(shapefile::write::all_bounds(rings))
            &&& data.skip(100) == shapefile::write::record_bytes(rings, rings.len())
        }),
{
    let data = shapefile::write::shp_bytes(rings);
    let body = shapefile::write::record_bytes(rings, rings.len());
    let words = (100 + body.len()) / 2;
    let start = shapefile::write::header_start(words);
    let b = shapefile::write::bounds_bytes(shapefile::write::all_bounds(rings));
    let f = Seq::new(32, |i: int| 0u8);
    shapefile::write::bounds_len(shapefile::write::all_bounds(rings));
    write_laws::records_are_even(rings, rings.len());
    shapefile::write::header_len(words);
    assert(data =~= start + (b + f + body));
    header_words(words, b + f + body);
    assert(data.subrange(36, 68) =~= b);
    assert(data.skip(100) =~= body);
}

#[verifier::spinoff_prover]
proof fn header_words(words: nat, rest: Seq<u8>)
    requires
        words < 0x8000_0000,
    ensures
        ({
            let data = shapefile::write::header_start(words) + rest;
            &&& shapefile::write::header_start(words).len() == 36
            &&& shp::be_i32(data, 0) == 9994
            &&& shp::be_i32(data, 24) == words
            &&& shp::le_i32(data, 28) == 1000
            &&& shp::le_i32(data, 32) == 5
        }),
{
    let data = shapefile::write::header_start(words) + rest;
    let a = bytes::be_bytes(9994, 4);
    let z = Seq::new(20, |i: int| 0u8);
    let w = bytes::be_bytes(words, 4);
    let v = bytes::le_bytes(1000, 4);
    let t = bytes::le_bytes(5, 4);
    bytes::fixed_len(9994, 4);
    bytes::fixed_len(words, 4);
    bytes::fixed_len(1000, 4);
    bytes::fixed_len(5, 4);
    assert(data =~= Seq::<u8>::empty() + a + (z + w + v + t + rest));
    write_laws::be_word(Seq::empty(), 9994, z + w + v + t + rest);
    assert(data =~= (a + z) + w + (v + t + rest));
    write_laws::be_word(a + z, words, v + t + rest);
    assert(data =~= (a + z + w) + v + (t + rest));
    write_laws::le_word(a + z + w, 1000, t + rest);
    assert(data =~= (a + z + w + v) + t + rest);
    write_laws::le_word(a + z + w + v, 5, rest);
}

/// An index without entries is a header of a hundred bytes that says so.
pub proof fn empty_indexes_are_headers()
    ensures
        shapefile::write::shx_bytes().len() == 100,
        shp::be_i32(shapefile::write::shx_bytes(), 0) == 9994,
        shp::be_i32(shapefile::write::shx_bytes(), 24) == 50,
        shp::le_i32(shapefile::write::shx_bytes(), 28) == 1000,
        shp::le_i32(shapefile::write::shx_bytes(), 32) == 5,
{
    header_words(50, Seq::new(64, |i: int| 0u8));
}

/// A cell is as wide as its column: a value that fits stands in it whole, numbers at the right end
/// and everything else at the left one, with spaces for the rest; a longer value is cut.
pub proof fn cells_are_as_wide_as_their_column(f: FieldSpecView, value: Seq<u8>)
    ensures
        shapefile::write::cell(f, value).len() == f.length,
        value.len() <= f.length && (f.ftype == 'N' as u8 || f.ftype == 'F' as u8) ==> {
            &&& shapefile::write::cell(f, value).skip(f.length - value.len()) == value
            &&& forall|i: int|
                0 <= i < f.length - value.len() ==> #[trigger] shapefile::write::cell(f, value)[i] == ' ' as u8
        },
        value.len() <= f.length && f.ftype != 'N' as u8 && f.ftype != 'F' as u8 ==> {
            &&& shapefile::write::cell(f, value).take(value.len() as int) == value
            &&& forall|i: int|
                value.len() <= i < f.length ==> #[trigger] shapefile::write::cell(f, value)[i] == ' ' as u8
        },
        value.len() > f.length ==> shapefile::write::cell(f, value) == value.take(f.length as int),
{
    let c = shapefile::write::cell(f, value);
    if value.len() > f.length {
        assert(c =~= value.take(f.length as int));
    } else if f.ftype == 78 || f.ftype == 70 {
        assert(c.skip(f.length - value.len()) =~= value);
    } else {
        assert(c.take(value.len() as int) =~= value);
    }
}

/// A table starts with its version and a date, says how many records it has and how long its header and its
/// records are, closes its columns with a carriage return and ends with an end mark.
pub proof fn tables_are_framed(fields: Seq<FieldSpecView>, records: Seq<Seq<Seq<u8>>>)
    ensures
        ({
            let data = shapefile::write::dbf_bytes(fields, records);
            let n = fields.len();
            &&& data.len() >= 33 + 32 * n + 1
            &&& data[0] == 3
            &&& data[1] == 26 && data[2] == 6 && data[3] == 17
            &&& forall|i: int| 12 <= i < 32 ==> #[trigger] data[i] == 0
            &&& data.subrange(4, 8) == bytes::le_bytes(records.len(), 4)
            &&& data.subrange(8, 10) == bytes::le_bytes(33 + 32 * n, 2)
            &&& data.subrange(10, 12) == bytes::le_bytes(1 + shapefile::write::total_width(fields, n), 2)
            &&& data[32 + 32 * n as int] == 0x0d
            &&& data[data.len() - 1] == 0x1a
        }),
{
    let data = shapefile::write::dbf_bytes(fields, records);
    let n = fields.len();
    bytes::fixed_len(records.len(), 4);
    bytes::fixed_len(33 + 32 * n, 2);
    bytes::fixed_len(1 + shapefile::write::total_width(fields, n), 2);
    shapefile::write::dbf_start_len(fields, records.len());
    shapefile::write::descriptors_len(fields, n);
    assert(data.subrange(4, 8) =~= bytes::le_bytes(records.len(), 4));
    assert(data.subrange(8, 10) =~= bytes::le_bytes(33 + 32 * n, 2));
    assert(data.subrange(10, 12) =~= bytes::le_bytes(1 + shapefile::write::total_width(fields, n), 2));
}

/// A descriptor has the name in its first eleven bytes, the type behind it, the width in byte 16
/// and the number of decimals in byte 17.
pub proof fn descriptors_have_their_places(f: FieldSpecView)
    requires
        f.name.len() <= 11,
        f.length <= 255,
    ensures
        ({
            let d = shapefile::write::descriptor_bytes(f);
            &&& d.len() == 32
            &&& d.take(f.name.len() as int) == f.name
            &&& forall|i: int| f.name.len() <= i < 11 ==> #[trigger] d[i] == 0
            &&& d[11] == f.ftype
            &&& d[16] == f.length
            &&& d[17] == f.decimal_count
        }),
{
    let d = shapefile::write::descriptor_bytes(f);
    bytes::fixed_len(f.length, 1);
    reveal_with_fuel(bytes::le_bytes, 2);
    assert(bytes::le_bytes(f.length, 1)[0] == f.length);
    assert(d.take(f.name.len() as int) =~= f.name);
}

/// A name that is too long for a descriptor is cut, and what is not used is zero.
pub proof fn long_names_are_cut(f: FieldSpecView)
    ensures
        ({
            let d = shapefile::write::descriptor_bytes(f);
            &&& d.len() == 32
            &&& f.name.len() > 11 ==> d.take(11) == f.name.take(11)
            &&& forall|i: int| 12 <= i < 16 ==> #[trigger] d[i] == 0
            &&& forall|i: int| 18 <= i < 32 ==> #[trigger] d[i] == 0
        }),
{
    let d = shapefile::write::descriptor_bytes(f);
    bytes::fixed_len(f.length, 1);
    if f.name.len() > 11 {
        assert(d.take(11) =~= f.name.take(11));
    }
}

proof fn cells_of_front(
    fields: Seq<FieldSpecView>,
    values: Seq<Seq<u8>>,
    more_fields: Seq<FieldSpecView>,
    more_values: Seq<Seq<u8>>,
    n: nat,
)
    requires
        n <= fields.len(),
        n <= values.len(),
    ensures
        shapefile::write::cells(fields + more_fields, values + more_values, n)
            == shapefile::write::cells(fields, values, n),
    decreases n,
{
    if n > 0 {
        cells_of_front(fields, values, more_fields, more_values, (n - 1) as nat);
        assert((fields + more_fields)[n - 1] == fields[n - 1]);
        assert((values + more_values)[n - 1] == values[n - 1]);
    }
}

/// A record is the mark of a record that is not deleted and a cell for each column, in order.
pub proof fn records_hold_a_cell_for_each_column(
    fields: Seq<FieldSpecView>,
    values: Seq<Seq<u8>>,
    f: FieldSpecView,
    v: Seq<u8>,
)
    requires
        fields.len() == values.len(),
    ensures
        shapefile::write::row_bytes(Seq::empty(), Seq::empty()) == seq![32u8],
        shapefile::write::row_bytes(fields.push(f), values.push(v)) == shapefile::write::row_bytes(
            fields,
            values,
        ) + shapefile::write::cell(f, v),
{
    cells_of_front(fields, values, seq![f], seq![v], fields.len());
    assert(fields + seq![f] =~= fields.push(f));
    assert(values + seq![v] =~= values.push(v));
    assert(shapefile::write::row_bytes(Seq::empty(), Seq::empty()) =~= seq![32u8]);
    assert(shapefile::write::row_bytes(fields.push(f), values.push(v))
        =~= shapefile::write::row_bytes(fields, values) + shapefile::write::cell(f, v));
}

/// Columns without a value and values without a column are left out of a record.
pub proof fn what_has_no_partner_is_left_out(
    fields: Seq<FieldSpecView>,
    values: Seq<Seq<u8>>,
    more_fields: Seq<FieldSpecView>,
    more_values: Seq<Seq<u8>>,
)
    requires
        fields.len() == values.len(),
    ensures
        shapefile::write::row_bytes(fields + more_fields, values) == shapefile::write::row_bytes(
            fields,
            values,
        ),
        shapefile::write::row_bytes(fields, values + more_values) == shapefile::write::row_bytes(
            fields,
            values,
        ),
{
    cells_of_front(fields, values, more_fields, Seq::empty(), fields.len());
    cells_of_front(fields, values, Seq::empty(), more_values, fields.len());
    assert(values + Seq::<Seq<u8>>::empty() =~= values);
    assert(fields + Seq::<FieldSpecView>::empty() =~= fields);
}

} // verus!
