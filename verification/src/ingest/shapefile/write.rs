//! Minimal `.shp`, `.shx`, `.dbf` and `.prj` writers for sample data.
//!
//! The byte layouts are those that the readers in this module take: big-endian record headers,
//! little-endian payloads, 100-byte file headers.
use vstd::prelude::*;
use vstd::utf8::*;
use crate::bytes;
use crate::bytes::push_be;
use crate::bytes::push_le;
use crate::double::Double;
use crate::double::INFINITY_BITS;
use crate::geometry;
use crate::geometry::Coord;
use crate::ingest::shapefile::archive;
use crate::text;

verus! {

/// The bounds of a set of points.
#[derive(Debug, Clone, Copy, PartialEq, Eq, Structural)]
pub struct Bounds {
    pub xmin: Double,
    pub ymin: Double,
    pub xmax: Double,
    pub ymax: Double,
}

/// All bounds are zero.
pub open spec fn zero_bounds() -> Bounds {
    let zero = Double { bits: 0 };
    Bounds { xmin: zero, ymin: zero, xmax: zero, ymax: zero }
}

/// The bounds that no point has widened yet.
pub open spec fn no_bounds() -> Bounds {
    let inf = Double { bits: INFINITY_BITS };
    let neg_inf = Double { bits: 0xfff0_0000_0000_0000 };
    Bounds { xmin: inf, ymin: inf, xmax: neg_inf, ymax: neg_inf }
}

/// The bounds that cover both.
pub open spec fn joined(a: Bounds, b: Bounds) -> Bounds {
    Bounds {
        xmin: a.xmin.min_num(b.xmin),
        ymin: a.ymin.min_num(b.ymin),
        xmax: a.xmax.max_num(b.xmax),
        ymax: a.ymax.max_num(b.ymax),
    }
}

/// The bounds of a point.
pub open spec fn point_bounds(c: Coord) -> Bounds {
    Bounds { xmin: c.x, ymin: c.y, xmax: c.x, ymax: c.y }
}

/// The bounds widened by each point in turn.
pub open spec fn widened(ring: Seq<Coord>) -> Bounds
    decreases ring.len(),
{
    if ring.len() == 0 {
        no_bounds()
    } else {
        joined(widened(ring.drop_last()), point_bounds(ring.last()))
    }
}

/// The bounds of a ring; zero where it has no extent at all.
pub open spec fn ring_bounds(ring: Seq<Coord>) -> Bounds {
    if widened(ring).xmin.infinite() {
        zero_bounds()
    } else {
        widened(ring)
    }
}

/// The bounds of all rings; zero where there is none.
pub open spec fn all_bounds(rings: Seq<Seq<Coord>>) -> Bounds
    decreases rings.len(),
{
    if rings.len() == 0 {
        zero_bounds()
    } else if rings.len() == 1 {
        ring_bounds(rings[0])
    } else {
        joined(all_bounds(rings.drop_last()), ring_bounds(rings.last()))
    }
}

fn join_bounds(a: Bounds, b: Bounds) -> (r: Bounds)
    ensures
        r == joined(a, b),
{
    Bounds {
        xmin: a.xmin.min(b.xmin),
        ymin: a.ymin.min(b.ymin),
        xmax: a.xmax.max(b.xmax),
        ymax: a.ymax.max(b.ymax),
    }
}

fn ring_bbox(ring: &[Coord]) -> (b: Bounds)
    ensures
        b == ring_bounds(ring@),
{
    let inf = Double { bits: INFINITY_BITS };
    let neg_inf = Double { bits: 0xfff0_0000_0000_0000 };
    let mut acc = Bounds { xmin: inf, ymin: inf, xmax: neg_inf, ymax: neg_inf };
    let mut i: usize = 0;
    while i < ring.len()
        invariant
            i <= ring@.len(),
            acc == widened(ring@.take(i as int)),
        decreases ring@.len() - i,
    {
        let c = ring[i];
        proof {
            assert(ring@.take(i + 1).drop_last() =~= ring@.take(i as int));
        }
        acc = join_bounds(acc, Bounds { xmin: c.x, ymin: c.y, xmax: c.x, ymax: c.y });
        i = i + 1;
    }
    assert(ring@.take(i as int) =~= ring@);
    if acc.xmin.is_infinite() {
        let zero = Double { bits: 0 };
        return Bounds { xmin: zero, ymin: zero, xmax: zero, ymax: zero };
    }
    acc
}

fn all_bbox(polygons: &[Vec<Coord>]) -> (b: Bounds)
    ensures
        b == all_bounds(geometry::coord_lists(polygons@)),
{
    let ghost lists = geometry::coord_lists(polygons@);
    if polygons.len() == 0 {
        let zero = Double { bits: 0 };
        return Bounds { xmin: zero, ymin: zero, xmax: zero, ymax: zero };
    }
    let mut acc = ring_bbox(polygons[0].as_slice());
    let mut i: usize = 1;
    assert(lists.take(1)[0] == polygons@[0]@);
    while i < polygons.len()
        invariant
            lists == geometry::coord_lists(polygons@),
            1 <= i <= polygons@.len(),
            acc == all_bounds(lists.take(i as int)),
        decreases polygons@.len() - i,
    {
        proof {
            assert(lists.take(i + 1).drop_last() =~= lists.take(i as int));
            assert(lists.take(i + 1).last() == polygons@[i as int]@);
        }
        acc = join_bounds(acc, ring_bbox(polygons[i].as_slice()));
        i = i + 1;
    }
    assert(lists.take(i as int) =~= lists);
    acc
}

/// Four bounds as bytes.
pub open spec fn bounds_bytes(b: Bounds) -> Seq<u8> {
    bytes::le_bytes(b.xmin.bits as nat, 8) + bytes::le_bytes(b.ymin.bits as nat, 8)
        + bytes::le_bytes(b.xmax.bits as nat, 8) + bytes::le_bytes(b.ymax.bits as nat, 8)
}

fn push_bounds(out: &mut Vec<u8>, b: Bounds)
    ensures
        final(out)@ == old(out)@ + bounds_bytes(b),
{
    push_le(out, b.xmin.bits, 8);
    push_le(out, b.ymin.bits, 8);
    push_le(out, b.xmax.bits, 8);
    push_le(out, b.ymax.bits, 8);
    assert(out@ =~= old(out)@ + bounds_bytes(b));
}

/// The first `n` points as bytes.
pub open spec fn points_bytes(ring: Seq<Coord>, n: nat) -> Seq<u8>
    decreases n,
{
    if n == 0 {
        Seq::empty()
    } else {
        points_bytes(ring, (n - 1) as nat) + bytes::le_bytes(ring[n - 1].x.bits as nat, 8)
            + bytes::le_bytes(ring[n - 1].y.bits as nat, 8)
    }
}

/// The content of a polygon record with one part: type, bounds, counts, offset, points.
pub open spec fn polygon_content(ring: Seq<Coord>) -> Seq<u8> {
    bytes::le_bytes(5, 4) + bounds_bytes(ring_bounds(ring)) + bytes::le_bytes(1, 4)
        + bytes::le_bytes(ring.len(), 4) + bytes::le_bytes(0, 4) + points_bytes(ring, ring.len())
}

/// The first `n` records: each with its number and the length of its content in 16-bit words.
pub open spec fn record_bytes(rings: Seq<Seq<Coord>>, n: nat) -> Seq<u8>
    decreases n,
{
    if n == 0 {
        Seq::empty()
    } else {
        let content = polygon_content(rings[n - 1]);
        record_bytes(rings, (n - 1) as nat) + bytes::be_bytes(n, 4) + bytes::be_bytes(
            content.len() / 2,
            4,
        ) + content
    }
}

/// The first 36 bytes of a header: file code, zeros, length in 16-bit words, version, type.
pub open spec fn header_start(words: nat) -> Seq<u8> {
    bytes::be_bytes(9994, 4) + Seq::new(20, |i: int| 0u8) + bytes::be_bytes(words, 4)
        + bytes::le_bytes(1000, 4) + bytes::le_bytes(5, 4)
}

/// A `.shp` file with one polygon record per ring.
pub open spec fn shp_bytes(rings: Seq<Seq<Coord>>) -> Seq<u8> {
    let body = record_bytes(rings, rings.len());
    header_start((100 + body.len()) / 2) + bounds_bytes(all_bounds(rings)) + Seq::new(
        32,
        |i: int| 0u8,
    ) + body
}

/// Appends zeros.
fn push_zeros(out: &mut Vec<u8>, n: usize)
    ensures
        final(out)@ == old(out)@ + Seq::new(n as nat, |i: int| 0u8),
{
    let mut i: usize = 0;
    while i < n
        invariant
            i <= n,
            out@ == old(out)@ + Seq::new(i as nat, |k: int| 0u8),
        decreases n - i,
    {
        out.push(0);
        assert(out@ =~= old(out)@ + Seq::new((i + 1) as nat, |k: int| 0u8));
        i = i + 1;
    }
}

fn push_polygon_content(out: &mut Vec<u8>, ring: &[Coord])
    ensures
        final(out)@ == old(out)@ + polygon_content(ring@),
{
    push_le(out, 5, 4);
    push_bounds(out, ring_bbox(ring));
    push_le(out, 1, 4);
    push_le(out, ring.len() as u64, 4);
    push_le(out, 0, 4);
    let ghost head = out@;
    let mut i: usize = 0;
    assert(out@ =~= head + points_bytes(ring@, 0));
    while i < ring.len()
        invariant
            i <= ring@.len(),
            out@ == head + points_bytes(ring@, i as nat),
        decreases ring@.len() - i,
    {
        let c = ring[i];
        push_le(out, c.x.bits, 8);
        push_le(out, c.y.bits, 8);
        assert(out@ =~= head + points_bytes(ring@, (i + 1) as nat));
        i = i + 1;
    }
    assert(out@ =~= old(out)@ + polygon_content(ring@));
}

fn push_header_start(out: &mut Vec<u8>, words: u64)
    ensures
        final(out)@ == old(out)@ + header_start(words as nat),
{
    push_be(out, 9994, 4);
    push_zeros(out, 20);
    push_be(out, words, 4);
    push_le(out, 1000, 4);
    push_le(out, 5, 4);
    assert(out@ =~= old(out)@ + header_start(words as nat));
}

/// Builds a `.shp` file with one polygon record per ring. Each polygon has a single part: exterior
/// rings are clockwise.
pub fn write_polygon_shp(polygons: &[Vec<Coord>]) -> (out: Vec<u8>)
    ensures
        out@ == shp_bytes(geometry::coord_lists(polygons@)),
{
    let ghost rings = geometry::coord_lists(polygons@);
    let mut body: Vec<u8> = Vec::new();
    let mut i: usize = 0;
    while i < polygons.len()
        invariant
            rings == geometry::coord_lists(polygons@),
            i <= polygons@.len(),
            body@ == record_bytes(rings, i as nat),
        decreases polygons@.len() - i,
    {
        let mut content: Vec<u8> = Vec::new();
        push_polygon_content(&mut content, polygons[i].as_slice());
        assert(content@ =~= polygon_content(rings[i as int]));
        push_be(&mut body, i as u64 + 1, 4);
        push_be(&mut body, (content.len() / 2) as u64, 4);
        body.extend_from_slice(content.as_slice());
        assert(body@ =~= record_bytes(rings, (i + 1) as nat));
        i = i + 1;
    }
    let words: u64 = ((body.len() as u128 + 100) / 2) as u64;
    let mut out: Vec<u8> = Vec::new();
    push_header_start(&mut out, words);
    push_bounds(&mut out, all_bbox(polygons));
    push_zeros(&mut out, 32);
    out.extend_from_slice(body.as_slice());
    assert(out@ =~= shp_bytes(rings));
    out
}

/// A `.shx` file without entries.
pub open spec fn shx_bytes() -> Seq<u8> {
    header_start(50) + Seq::new(64, |i: int| 0u8)
}

/// Builds a minimal well-formed `.shx` header of 100 bytes. The index is never read: its presence
/// is all that counts.
pub fn write_shx_header() -> (out: Vec<u8>)
    ensures
        out@ == shx_bytes(),
{
    let mut out: Vec<u8> = Vec::new();
    push_header_start(&mut out, 50);
    push_zeros(&mut out, 64);
    assert(out@ =~= shx_bytes());
    out
}

/// A dBASE column for [`write_dbf`].
#[derive(Debug)]
pub struct DbfFieldSpec {
    /// dBASE III limits names to ten characters.
    pub name: String,
    /// `C` character, `N` numeric, `L` logical, `D` date.
    pub ftype: u8,
    pub length: usize,
    pub decimal_count: u8,
}

/// A dBASE column: the name in UTF-8, the type, the width and the decimals.
pub struct FieldSpecView {
    pub name: Seq<u8>,
    pub ftype: u8,
    pub length: nat,
    pub decimal_count: u8,
}

impl View for DbfFieldSpec {
    type V = FieldSpecView;

    open spec fn view(&self) -> FieldSpecView {
        FieldSpecView {
            name: encode_utf8(self.name@),
            ftype: self.ftype,
            length: self.length as nat,
            decimal_count: self.decimal_count,
        }
    }
}

impl Clone for DbfFieldSpec {
    fn clone(&self) -> (f: Self)
        ensures
            f@ == self@,
    {
        DbfFieldSpec {
            name: self.name.clone(),
            ftype: self.ftype,
            length: self.length,
            decimal_count: self.decimal_count,
        }
    }
}

/// The columns, in order.
pub open spec fn field_spec_views(fields: Seq<DbfFieldSpec>) -> Seq<FieldSpecView> {
    Seq::new(fields.len(), |i: int| fields[i]@)
}

/// The values of the records as UTF-8, in order.
pub open spec fn value_bytes(records: Seq<Vec<String>>) -> Seq<Seq<Seq<u8>>> {
    Seq::new(
        records.len(),
        |i: int| Seq::new(records[i]@.len(), |k: int| encode_utf8(records[i]@[k]@)),
    )
}

/// The total width of the first `n` columns.
pub open spec fn total_width(fields: Seq<FieldSpecView>, n: nat) -> nat
    decreases n,
{
    if n == 0 {
        0
    } else {
        total_width(fields, (n - 1) as nat) + fields[n - 1].length
    }
}

/// The first bytes of a text, as many as fit in `n`.
pub open spec fn cut(s: Seq<u8>, n: nat) -> Seq<u8> {
    if s.len() <= n {
        s
    } else {
        s.take(n as int)
    }
}

/// The descriptor of a column: name padded with zeros to eleven bytes, type, width, decimals.
pub open spec fn descriptor_bytes(f: FieldSpecView) -> Seq<u8> {
    cut(f.name, 11) + Seq::new((11 - cut(f.name, 11).len()) as nat, |i: int| 0u8) + seq![f.ftype]
        + Seq::new(4, |i: int| 0u8) + bytes::le_bytes(f.length, 1) + seq![f.decimal_count]
        + Seq::new(14, |i: int| 0u8)
}

/// The descriptors of the first `n` columns.
pub open spec fn descriptors(fields: Seq<FieldSpecView>, n: nat) -> Seq<u8>
    decreases n,
{
    if n == 0 {
        Seq::empty()
    } else {
        descriptors(fields, (n - 1) as nat) + descriptor_bytes(fields[n - 1])
    }
}

/// A value in its column: cut to the width and padded with spaces, numbers to the right.
pub open spec fn cell(f: FieldSpecView, value: Seq<u8>) -> Seq<u8> {
    let kept = cut(value, f.length);
    let pad = Seq::new((f.length - kept.len()) as nat, |i: int| 32u8);
    if f.ftype == 78 || f.ftype == 70 {
        pad + kept
    } else {
        kept + pad
    }
}

/// The first `n` cells of a record.
pub open spec fn cells(fields: Seq<FieldSpecView>, values: Seq<Seq<u8>>, n: nat) -> Seq<u8>
    decreases n,
{
    if n == 0 {
        Seq::empty()
    } else {
        cells(fields, values, (n - 1) as nat) + cell(fields[n - 1], values[n - 1])
    }
}

/// A record that is not deleted: as many cells as there are columns and values.
pub open spec fn row_bytes(fields: Seq<FieldSpecView>, values: Seq<Seq<u8>>) -> Seq<u8> {
    seq![32u8] + cells(
        fields,
        values,
        if fields.len() <= values.len() {
            fields.len()
        } else {
            values.len()
        },
    )
}

/// The first `n` records.
pub open spec fn rows_bytes(
    fields: Seq<FieldSpecView>,
    records: Seq<Seq<Seq<u8>>>,
    n: nat,
) -> Seq<u8>
    decreases n,
{
    if n == 0 {
        Seq::empty()
    } else {
        rows_bytes(fields, records, (n - 1) as nat) + row_bytes(fields, records[n - 1])
    }
}

/// The first 32 bytes of a `.dbf` file: version, date, number of records, sizes of the header and
/// of a record.
pub open spec fn dbf_start(fields: Seq<FieldSpecView>, count: nat) -> Seq<u8> {
    seq![3u8, 26u8, 6u8, 17u8] + bytes::le_bytes(count, 4) + bytes::le_bytes(
        33 + 32 * fields.len(),
        2,
    ) + bytes::le_bytes(1 + total_width(fields, fields.len()), 2) + Seq::new(20, |i: int| 0u8)
}

/// A `.dbf` file.
pub open spec fn dbf_bytes(fields: Seq<FieldSpecView>, records: Seq<Seq<Seq<u8>>>) -> Seq<u8> {
    dbf_start(fields, records.len()) + descriptors(fields, fields.len()) + seq![0x0du8]
        + rows_bytes(fields, records, records.len()) + seq![0x1au8]
}

/// Only the low bytes count.
proof fn low_two(v: nat)
    ensures
        bytes::le_bytes(v % 65536, 2) == bytes::le_bytes(v, 2),
{
    reveal_with_fuel(bytes::le_bytes, 3);
    assert((v % 65536) % 256 == v % 256);
    assert((v % 65536) / 256 % 256 == v / 256 % 256);
}

fn push_start(out: &mut Vec<u8>, fields: &[DbfFieldSpec], count: usize)
    ensures
        final(out)@ == old(out)@ + dbf_start(field_spec_views(fields@), count as nat),
{
    let ghost views = field_spec_views(fields@);
    let mut width: u64 = 1;
    let mut i: usize = 0;
    while i < fields.len()
        invariant
            views == field_spec_views(fields@),
            i <= fields@.len(),
            width == (1 + total_width(views, i as nat)) % 65536,
        decreases fields@.len() - i,
    {
        let w: u64 = (fields[i].length % 65536) as u64;
        assert(views[i as int].length == fields@[i as int].length);
        width = (width + w) % 65536;
        i = i + 1;
    }
    let header: u64 = ((fields.len() as u128 * 32 + 33) % 65536) as u64;
    proof {
        low_two((33 + 32 * fields@.len()) as nat);
        low_two(1 + total_width(views, fields@.len()));
    }
    out.push(3);
    out.push(26);
    out.push(6);
    out.push(17);
    push_le(out, count as u64, 4);
    push_le(out, header, 2);
    push_le(out, width, 2);
    push_zeros(out, 20);
    assert(out@ =~= old(out)@ + dbf_start(views, count as nat));
}

fn push_descriptor(out: &mut Vec<u8>, f: &DbfFieldSpec)
    ensures
        final(out)@ == old(out)@ + descriptor_bytes(f@),
{
    let name = f.name.as_str().as_bytes();
    let mut i: usize = 0;
    while i < 11
        invariant
            i <= 11,
            name@ == f@.name,
            out@ == old(out)@ + cut(f@.name, i as nat) + Seq::new(
                (i - cut(f@.name, i as nat).len()) as nat,
                |k: int| 0u8,
            ),
        decreases 11 - i,
    {
        if i < name.len() {
            out.push(name[i]);
        } else {
            out.push(0);
        }
        assert(out@ =~= old(out)@ + cut(f@.name, (i + 1) as nat) + Seq::new(
            (i + 1 - cut(f@.name, (i + 1) as nat).len()) as nat,
            |k: int| 0u8,
        ));
        i = i + 1;
    }
    out.push(f.ftype);
    push_zeros(out, 4);
    push_le(out, (f.length % 256) as u64, 1);
    proof {
        reveal_with_fuel(bytes::le_bytes, 2);
    }
    out.push(f.decimal_count);
    push_zeros(out, 14);
    assert(out@ =~= old(out)@ + descriptor_bytes(f@));
}

/// Appends spaces.
fn push_spaces(out: &mut Vec<u8>, n: usize)
    ensures
        final(out)@ == old(out)@ + Seq::new(n as nat, |i: int| 32u8),
{
    let mut i: usize = 0;
    while i < n
        invariant
            i <= n,
            out@ == old(out)@ + Seq::new(i as nat, |k: int| 32u8),
        decreases n - i,
    {
        out.push(32);
        assert(out@ =~= old(out)@ + Seq::new((i + 1) as nat, |k: int| 32u8));
        i = i + 1;
    }
}

fn push_cell(out: &mut Vec<u8>, f: &DbfFieldSpec, value: &[u8])
    ensures
        final(out)@ == old(out)@ + cell(f@, value@),
{
    let n: usize = if value.len() <= f.length {
        value.len()
    } else {
        f.length
    };
    let pad: usize = f.length - n;
    assert(value@.subrange(0, n as int) =~= cut(value@, f.length as nat));
    if f.ftype == 78 || f.ftype == 70 {
        push_spaces(out, pad);
        out.extend_from_slice(vstd::slice::slice_subrange(value, 0, n));
    } else {
        out.extend_from_slice(vstd::slice::slice_subrange(value, 0, n));
        push_spaces(out, pad);
    }
    assert(out@ =~= old(out)@ + cell(f@, value@));
}

fn push_row(out: &mut Vec<u8>, fields: &[DbfFieldSpec], values: &[String])
    ensures
        final(out)@ == old(out)@ + row_bytes(
            field_spec_views(fields@),
            Seq::new(values@.len(), |k: int| encode_utf8(values@[k]@)),
        ),
{
    let ghost views = field_spec_views(fields@);
    let ghost texts = Seq::new(values@.len(), |k: int| encode_utf8(values@[k]@));
    out.push(32);
    let ghost head = out@;
    let n: usize = if fields.len() <= values.len() {
        fields.len()
    } else {
        values.len()
    };
    let mut i: usize = 0;
    assert(out@ =~= head + cells(views, texts, 0));
    while i < n
        invariant
            views == field_spec_views(fields@),
            texts == Seq::new(values@.len(), |k: int| encode_utf8(values@[k]@)),
            i <= n,
            n <= fields@.len(),
            n <= values@.len(),
            out@ == head + cells(views, texts, i as nat),
        decreases n - i,
    {
        let value = values[i].as_str().as_bytes();
        push_cell(out, &fields[i], value);
        assert(out@ =~= head + cells(views, texts, (i + 1) as nat));
        i = i + 1;
    }
    assert(out@ =~= old(out)@ + row_bytes(views, texts));
}

/// Builds a dBASE III `.dbf` file. Each record is a list of values, one per column, in order;
/// numbers are aligned to the right, everything else to the left.
pub fn write_dbf(fields: &[DbfFieldSpec], records: &[Vec<String>]) -> (out: Vec<u8>)
    ensures
        out@ == dbf_bytes(field_spec_views(fields@), value_bytes(records@)),
{
    let ghost views = field_spec_views(fields@);
    let ghost values = value_bytes(records@);
    let mut out: Vec<u8> = Vec::new();
    push_start(&mut out, fields, records.len());
    let ghost head = out@;
    let mut i: usize = 0;
    assert(out@ =~= head + descriptors(views, 0));
    while i < fields.len()
        invariant
            views == field_spec_views(fields@),
            i <= fields@.len(),
            out@ == head + descriptors(views, i as nat),
        decreases fields@.len() - i,
    {
        push_descriptor(&mut out, &fields[i]);
        assert(out@ =~= head + descriptors(views, (i + 1) as nat));
        i = i + 1;
    }
    out.push(0x0d);
    let ghost top = out@;
    let mut j: usize = 0;
    assert(out@ =~= top + rows_bytes(views, values, 0));
    while j < records.len()
        invariant
            views == field_spec_views(fields@),
            values == value_bytes(records@),
            j <= records@.len(),
            out@ == top + rows_bytes(views, values, j as nat),
        decreases records@.len() - j,
    {
        push_row(&mut out, fields, records[j].as_slice());
        assert(values[j as int] =~= Seq::new(
            records@[j as int]@.len(),
            |k: int| encode_utf8(records@[j as int]@[k]@),
        ));
        assert(out@ =~= top + rows_bytes(views, values, (j + 1) as nat));
        j = j + 1;
    }
    out.push(0x1a);
    assert(out@ =~= dbf_bytes(views, values));
    out
}

/// The WKT of WGS84.
pub const WGS84_PRJ: &'static str =
    "GEOGCS[\"GCS_WGS_1984\",DATUM[\"D_WGS_1984\",SPHEROID[\"WGS_1984\",6378137.0,298.257223563]],PRIMEM[\"Greenwich\",0.0],UNIT[\"Degree\",0.0174532925199433],AUTHORITY[\"EPSG\",\"4326\"]]";

/// The entries as names and contents.
pub open spec fn entry_views(entries: Seq<(&str, &[u8])>) -> Seq<(Seq<char>, Seq<u8>)> {
    Seq::new(entries.len(), |i: int| (entries[i].0@, entries[i].1@))
}

/// Entries that fit in an archive: no name twice, names and contents within the format's limits.
pub open spec fn entries_fit(entries: Seq<(Seq<char>, Seq<u8>)>) -> bool {
    &&& forall|i: int, j: int|
        0 <= i < j < entries.len() ==> (#[trigger] entries[i]).0 != (#[trigger] entries[j]).0
    &&& forall|i: int|
        0 <= i < entries.len() ==> encode_utf8((#[trigger] entries[i]).0).len() <= 0xffff
            && entries[i].1.len() <= 0xffff_ffff
}

/// What the writer of the archive says on the first `n` entries: the first fault, if any.
pub open spec fn entries_fault(entries: Seq<(Seq<char>, Seq<u8>)>, n: nat) -> Option<Seq<char>>
    decreases n,
{
    if n == 0 {
        None
    } else {
        match entries_fault(entries, (n - 1) as nat) {
            Some(msg) => Some(msg),
            None => archive::write_fault(
                entries.take(n - 1),
                entries[n - 1].0,
                entries[n - 1].1,
            ),
        }
    }
}

/// What is wrong with packing the entries: the first that cannot be written, or else what closing
/// the archive says.
pub open spec fn packing_fault(entries: Seq<(Seq<char>, Seq<u8>)>) -> Option<Seq<char>> {
    match entries_fault(entries, entries.len()) {
        Some(msg) => Some(msg),
        None => archive::finish_fault(entries),
    }
}

/// A fault on the first entries is one on all of them.
proof fn first_fault_stays(entries: Seq<(Seq<char>, Seq<u8>)>, k: nat, n: nat)
    requires
        k <= n,
        entries_fault(entries, k) is Some,
    ensures
        entries_fault(entries, n) == entries_fault(entries, k),
    decreases n,
{
    if k < n {
        first_fault_stays(entries, k, (n - 1) as nat);
    }
}

/// Packs entries into an archive in memory, as a shapefile bundle is uploaded.
pub fn zip_entries(entries: &[(&str, &[u8])]) -> (r: Result<Vec<u8>, String>)
    requires
        entries_fit(entry_views(entries@)),
    ensures
        match packing_fault(entry_views(entries@)) {
            None => r matches Ok(out) && archive::reads_back(out@, entry_views(entries@)),
            Some(fault) => r matches Err(msg) && msg@ == fault,
        },
{
    let ghost views = entry_views(entries@);
    let mut w = archive::new_archive();
    let mut i: usize = 0;
    while i < entries.len()
        invariant
            views == entry_views(entries@),
            entries_fit(views),
            i <= entries@.len(),
            archive::written_members(w) == views.take(i as int),
            entries_fault(views, i as nat) is None,
        decreases entries@.len() - i,
    {
        let (name, content) = entries[i];
        assert(views[i as int] == (name@, content@));
        assert(!archive::has_member(views.take(i as int), name@)) by {
            if archive::has_member(views.take(i as int), name@) {
                let k = choose|k: int|
                    0 <= k < views.take(i as int).len() && (#[trigger] views.take(i as int)[k]).0
                        == name@;
                assert(views.take(i as int)[k] == views[k]);
            }
        }
        match archive::write_member(&mut w, name, content) {
            Ok(_) => {},
            Err(msg) => {
                proof {
                    first_fault_stays(views, (i + 1) as nat, views.len());
                }
                return Err(msg);
            },
        }
        assert(views.take(i as int).push((name@, content@)) =~= views.take(i + 1));
        i = i + 1;
    }
    assert(views.take(i as int) =~= views);
    archive::finish_archive(w)
}

/// The corners of a square: closed and clockwise.
pub open spec fn square_ring(x0: u64, y0: u64, x1: u64, y1: u64) -> Seq<Coord> {
    let a = Double { bits: x0 };
    let b = Double { bits: y0 };
    let c = Double { bits: x1 };
    let d = Double { bits: y1 };
    seq![
        Coord { x: a, y: b },
        Coord { x: a, y: d },
        Coord { x: c, y: d },
        Coord { x: c, y: b },
        Coord { x: a, y: b },
    ]
}

fn square(x0: u64, y0: u64, x1: u64, y1: u64) -> (ring: Vec<Coord>)
    ensures
        ring@ == square_ring(x0, y0, x1, y1),
{
    let a = Double { bits: x0 };
    let b = Double { bits: y0 };
    let c = Double { bits: x1 };
    let d = Double { bits: y1 };
    let ring = vec![
        Coord { x: a, y: b },
        Coord { x: a, y: d },
        Coord { x: c, y: d },
        Coord { x: c, y: b },
        Coord { x: a, y: b },
    ];
    assert(ring@ =~= square_ring(x0, y0, x1, y1));
    ring
}

/// Three squares near (-73.98, 40.75), each 0.005 degrees wide.
pub open spec fn sample_rings() -> Seq<Seq<Coord>> {
    seq![
        square_ring(
            0xc052_7f5c_28f5_c28f,
            0x4044_6000_0000_0000,
            0xc052_7f0a_3d70_a3d7,
            0x4044_60a3_d70a_3d71,
        ),
        square_ring(
            0xc052_7eb8_51eb_851f,
            0x4044_5eb8_51eb_851f,
            0xc052_7e66_6666_6666,
            0x4044_5f5c_28f5_c28f,
        ),
        square_ring(
            0xc052_7e14_7ae1_47ae,
            0x4044_6147_ae14_7ae1,
            0xc052_7dc2_8f5c_28f6,
            0x4044_61eb_851e_b852,
        ),
    ]
}

/// Sample parcels: (-73.990, 40.750) to (-73.985, 40.755), (-73.980, 40.740) to (-73.975, 40.745)
/// and (-73.970, 40.760) to (-73.965, 40.765). The rings are closed and clockwise.
pub fn sample_parcel_rings() -> (rings: Vec<Vec<Coord>>)
    ensures
        geometry::coord_lists(rings@) == sample_rings(),
{
    let rings = vec![
        square(
            0xc052_7f5c_28f5_c28f,
            0x4044_6000_0000_0000,
            0xc052_7f0a_3d70_a3d7,
            0x4044_60a3_d70a_3d71,
        ),
        square(
            0xc052_7eb8_51eb_851f,
            0x4044_5eb8_51eb_851f,
            0xc052_7e66_6666_6666,
            0x4044_5f5c_28f5_c28f,
        ),
        square(
            0xc052_7e14_7ae1_47ae,
            0x4044_6147_ae14_7ae1,
            0xc052_7dc2_8f5c_28f6,
            0x4044_61eb_851e_b852,
        ),
    ];
    assert(geometry::coord_lists(rings@) =~= sample_rings());
    rings
}

/// A column of text.
pub open spec fn text_column(name: Seq<char>, length: nat) -> FieldSpecView {
    FieldSpecView { name: encode_utf8(name), ftype: 67, length, decimal_count: 0 }
}

/// The columns of the sample parcels.
pub open spec fn sample_columns() -> Seq<FieldSpecView> {
    seq![
        text_column("PARCELID"@, 16),
        text_column("ASSETID"@, 16),
        text_column("MARKET"@, 16),
        text_column("PROPTYPE"@, 12),
    ]
}

/// The values of a sample parcel.
pub open spec fn sample_row(
    parcel: Seq<char>,
    asset: Seq<char>,
    kind: Seq<char>,
) -> Seq<Seq<u8>> {
    seq![encode_utf8(parcel), encode_utf8(asset), encode_utf8("New York"@), encode_utf8(kind)]
}

/// The attributes of the sample parcels.
pub open spec fn sample_values() -> Seq<Seq<Seq<u8>>> {
    seq![
        sample_row("NYC-BB-000001"@, "AST-000123"@, "OFFICE"@),
        sample_row("NYC-BB-000002"@, "AST-000124"@, "RETAIL"@),
        sample_row("NYC-BB-000003"@, "AST-000125"@, "MULTIFAM"@),
    ]
}

fn text_field(name: &str, length: usize) -> (f: DbfFieldSpec)
    ensures
        f@ == text_column(name@, length as nat),
{
    DbfFieldSpec { name: name.to_string(), ftype: 67, length, decimal_count: 0 }
}

fn sample_record(parcel: &str, asset: &str, kind: &str) -> (v: Vec<String>)
    ensures
        Seq::new(v@.len(), |k: int| encode_utf8(v@[k]@)) == sample_row(parcel@, asset@, kind@),
{
    let v = vec![
        parcel.to_string(),
        asset.to_string(),
        "New York".to_string(),
        kind.to_string(),
    ];
    assert(Seq::new(v@.len(), |k: int| encode_utf8(v@[k]@)) =~= sample_row(
        parcel@,
        asset@,
        kind@,
    ));
    v
}

/// The columns and the attributes of the sample parcels.
pub fn sample_parcel_dbf() -> (r: (Vec<DbfFieldSpec>, Vec<Vec<String>>))
    ensures
        field_spec_views(r.0@) == sample_columns(),
        value_bytes(r.1@) == sample_values(),
{
    let fields = vec![
        text_field("PARCELID", 16),
        text_field("ASSETID", 16),
        text_field("MARKET", 16),
        text_field("PROPTYPE", 12),
    ];
    let records = vec![
        sample_record("NYC-BB-000001", "AST-000123", "OFFICE"),
        sample_record("NYC-BB-000002", "AST-000124", "RETAIL"),
        sample_record("NYC-BB-000003", "AST-000125", "MULTIFAM"),
    ];
    assert(field_spec_views(fields@) =~= sample_columns());
    assert(value_bytes(records@) =~= sample_values());
    (fields, records)
}

/// How long the points are.
pub proof fn points_len(ring: Seq<Coord>, n: nat)
    ensures
        points_bytes(ring, n).len() == 16 * n,
    decreases n,
{
    if n > 0 {
        points_len(ring, (n - 1) as nat);
        bytes::fixed_len(ring[n - 1].x.bits as nat, 8);
        bytes::fixed_len(ring[n - 1].y.bits as nat, 8);
    }
}

/// Bounds take 32 bytes.
pub proof fn bounds_len(b: Bounds)
    ensures
        bounds_bytes(b).len() == 32,
{
    bytes::fixed_len(b.xmin.bits as nat, 8);
    bytes::fixed_len(b.ymin.bits as nat, 8);
    bytes::fixed_len(b.xmax.bits as nat, 8);
    bytes::fixed_len(b.ymax.bits as nat, 8);
}

/// How long a record's content is.
pub proof fn content_len(ring: Seq<Coord>)
    ensures
        polygon_content(ring).len() == 48 + 16 * ring.len(),
{
    points_len(ring, ring.len());
    bounds_len(ring_bounds(ring));
    bytes::fixed_len(5, 4);
    bytes::fixed_len(1, 4);
    bytes::fixed_len(ring.len(), 4);
    bytes::fixed_len(0, 4);
}

/// A header starts with 36 bytes.
pub proof fn header_len(words: nat)
    ensures
        header_start(words).len() == 36,
{
    bytes::fixed_len(9994, 4);
    bytes::fixed_len(words, 4);
    bytes::fixed_len(1000, 4);
    bytes::fixed_len(5, 4);
}

/// A record is eight bytes longer than its content.
pub proof fn record_len(rings: Seq<Seq<Coord>>, n: nat)
    requires
        0 < n <= rings.len(),
    ensures
        record_bytes(rings, n).len() == record_bytes(rings, (n - 1) as nat).len() + 56 + 16
            * rings[n - 1].len(),
{
    content_len(rings[n - 1]);
    bytes::fixed_len(n, 4);
    bytes::fixed_len(polygon_content(rings[n - 1]).len() / 2, 4);
}

/// How long a file is.
pub proof fn shp_len(rings: Seq<Seq<Coord>>)
    ensures
        shp_bytes(rings).len() == 100 + record_bytes(rings, rings.len()).len(),
{
    bounds_len(all_bounds(rings));
    header_len((100 + record_bytes(rings, rings.len()).len()) / 2);
}

/// A cell is as wide as its column.
pub proof fn cells_len(fields: Seq<FieldSpecView>, values: Seq<Seq<u8>>, n: nat)
    ensures
        cells(fields, values, n).len() == total_width(fields, n),
    decreases n,
{
    if n > 0 {
        cells_len(fields, values, (n - 1) as nat);
    }
}

/// A descriptor takes 32 bytes.
pub proof fn descriptors_len(fields: Seq<FieldSpecView>, n: nat)
    ensures
        descriptors(fields, n).len() == 32 * n,
    decreases n,
{
    if n > 0 {
        descriptors_len(fields, (n - 1) as nat);
        bytes::fixed_len(fields[n - 1].length, 1);
    }
}

/// How long the first `n` records are where no value is missing.
pub proof fn rows_len(fields: Seq<FieldSpecView>, records: Seq<Seq<Seq<u8>>>, n: nat)
    requires
        n <= records.len(),
        forall|i: int| 0 <= i < n ==> (#[trigger] records[i]).len() >= fields.len(),
    ensures
        rows_bytes(fields, records, n).len() == n * (1 + total_width(fields, fields.len())),
    decreases n,
{
    let size = 1 + total_width(fields, fields.len());
    if n > 0 {
        rows_len(fields, records, (n - 1) as nat);
        cells_len(fields, records[n - 1], fields.len());
        assert(n * size == (n - 1) * size + size) by (nonlinear_arith)
            requires
                n > 0,
        ;
    } else {
        assert(n * size == 0) by (nonlinear_arith)
            requires
                n == 0,
        ;
    }
}

/// A `.dbf` file starts with 32 bytes.
pub proof fn dbf_start_len(fields: Seq<FieldSpecView>, count: nat)
    ensures
        dbf_start(fields, count).len() == 32,
{
    bytes::fixed_len(count, 4);
    bytes::fixed_len(33 + 32 * fields.len(), 2);
    bytes::fixed_len(1 + total_width(fields, fields.len()), 2);
}

/// How long a `.dbf` file is where no value is missing.
pub proof fn dbf_len(fields: Seq<FieldSpecView>, records: Seq<Seq<Seq<u8>>>)
    requires
        forall|i: int| 0 <= i < records.len() ==> (#[trigger] records[i]).len() >= fields.len(),
    ensures
        dbf_bytes(fields, records).len() == 34 + 32 * fields.len() + records.len() * (1
            + total_width(fields, fields.len())),
{
    dbf_start_len(fields, records.len());
    descriptors_len(fields, fields.len());
    rows_len(fields, records, records.len());
}

proof fn sample_shp_len()
    ensures
        shp_bytes(sample_rings()).len() == 508,
{
    let rings = sample_rings();
    shp_len(rings);
    assert(record_bytes(rings, 0).len() == 0);
    record_len(rings, 1);
    record_len(rings, 2);
    record_len(rings, 3);
}

proof fn sample_dbf_len()
    ensures
        dbf_bytes(sample_columns(), sample_values()).len() == 345,
{
    let fields = sample_columns();
    assert(total_width(fields, 0) == 0);
    assert(total_width(fields, 1) == 16);
    assert(total_width(fields, 2) == 32);
    assert(total_width(fields, 3) == 48);
    assert(total_width(fields, 4) == 60);
    assert(fields.len() == 4 && sample_values().len() == 3);
    dbf_len(fields, sample_values());
}

/// The members of the sample bundle.
pub open spec fn sample_members(include_dbf: bool, include_prj: bool) -> Seq<
    (Seq<char>, Seq<u8>),
> {
    let base = seq![
        ("parcels.shp"@, shp_bytes(sample_rings())),
        ("parcels.shx"@, shx_bytes()),
    ];
    let with_dbf = if include_dbf {
        base.push(("parcels.dbf"@, dbf_bytes(sample_columns(), sample_values())))
    } else {
        base
    };
    if include_prj {
        with_dbf.push(("parcels.prj"@, encode_utf8(WGS84_PRJ@)))
    } else {
        with_dbf
    }
}

/// The names of the members differ, and everything is short.
proof fn sample_members_fit(include_dbf: bool, include_prj: bool)
    requires
        encode_utf8(WGS84_PRJ@).len() <= 0xffff_ffff,
    ensures
        entries_fit(sample_members(include_dbf, include_prj)),
{
    let all = sample_members(include_dbf, include_prj);
    sample_shp_len();
    sample_dbf_len();
    header_len(50);
    reveal_strlit("parcels.shp");
    reveal_strlit("parcels.shx");
    reveal_strlit("parcels.dbf");
    reveal_strlit("parcels.prj");
    text::encoded_len("parcels.shp"@);
    text::encoded_len("parcels.shx"@);
    text::encoded_len("parcels.dbf"@);
    text::encoded_len("parcels.prj"@);
    assert("parcels.shp"@[8] == 's');
    assert("parcels.shp"@[10] == 'p');
    assert("parcels.shx"@[8] == 's');
    assert("parcels.shx"@[10] == 'x');
    assert("parcels.dbf"@[8] == 'd');
    assert("parcels.prj"@[8] == 'p');
    assert forall|i: int| 0 <= i < all.len() implies encode_utf8((#[trigger] all[i]).0).len()
        <= 0xffff && all[i].1.len() <= 0xffff_ffff by {
        assert(i == 0 || i == 1 || i == 2 || i == 3);
    }
    assert forall|i: int, j: int| 0 <= i < j < all.len() implies (#[trigger] all[i]).0 != (
    #[trigger] all[j]).0 by {
        assert(i == 0 || i == 1 || i == 2);
        assert(j == 1 || j == 2 || j == 3);
    }
}

/// Builds a shapefile bundle of the sample parcels, with or without its `.dbf` and its `.prj`.
pub fn sample_parcel_bundle(include_dbf: bool, include_prj: bool) -> (r: Result<Vec<u8>, String>)
    ensures
        match packing_fault(sample_members(include_dbf, include_prj)) {
            None => r matches Ok(out) && archive::reads_back(
                out@,
                sample_members(include_dbf, include_prj),
            ),
            Some(fault) => r matches Err(msg) && msg@ == fault,
        },
{
    let rings = sample_parcel_rings();
    let shp = write_polygon_shp(rings.as_slice());
    let shx = write_shx_header();
    let (fields, records) = sample_parcel_dbf();
    let dbf = write_dbf(fields.as_slice(), records.as_slice());
    let prj = WGS84_PRJ.as_bytes();
    let mut entries: Vec<(&str, &[u8])> = Vec::new();
    entries.push(("parcels.shp", shp.as_slice()));
    entries.push(("parcels.shx", shx.as_slice()));
    if include_dbf {
        entries.push(("parcels.dbf", dbf.as_slice()));
    }
    if include_prj {
        entries.push(("parcels.prj", prj));
    }
    assert(entry_views(entries@) =~= sample_members(include_dbf, include_prj));
    proof {
        reveal_strlit(
            "GEOGCS[\"GCS_WGS_1984\",DATUM[\"D_WGS_1984\",SPHEROID[\"WGS_1984\",6378137.0,298.257223563]],PRIMEM[\"Greenwich\",0.0],UNIT[\"Degree\",0.0174532925199433],AUTHORITY[\"EPSG\",\"4326\"]]",
        );
        text::encoded_len(WGS84_PRJ@);
        sample_members_fit(include_dbf, include_prj);
    }
    zip_entries(entries.as_slice())
}

} // verus!
