//! What a cell of a table is read as, column type by column type, and which records are read.
use vstd::prelude::*;
use vstd::utf8::*;
use crate::bytes;
use crate::ingest::shapefile::dbf;
use crate::ingest::shapefile::dbf::FieldView;
use crate::json;
use crate::json::{Entry, JsonView};
use crate::picking;
use crate::scan;
use crate::text;
use crate::text_laws;

verus! {

/// In a logical column a cell that starts with `T`, `t`, `Y`, `y` or `1` is true, one that starts
/// with `F`, `f`, `N`, `n` or `0` is false, whatever follows; any other cell has no value.
pub proof fn logical_cells_are_true_or_false(field: FieldView, raw: Seq<u8>)
    requires
        field.ftype == 'L' as u8,
    ensures
        raw.len() > 0 && (raw[0] == 'T' as u8 || raw[0] == 't' as u8 || raw[0] == 'Y' as u8
            || raw[0] == 'y' as u8 || raw[0] == '1' as u8) <==> dbf::field_value(field, raw)
            == JsonView::Bool(true),
        raw.len() > 0 && (raw[0] == 'F' as u8 || raw[0] == 'f' as u8 || raw[0] == 'N' as u8
            || raw[0] == 'n' as u8 || raw[0] == '0' as u8) <==> dbf::field_value(field, raw)
            == JsonView::Bool(false),
        dbf::field_value(field, raw) is Bool || dbf::field_value(field, raw) is Null,
{
}

/// A cell that is the text between spaces is read as that text.
proof fn padded_text_is_read(raw: Seq<u8>, left: nat, s: Seq<char>, right: nat)
    requires
        raw == encode_utf8(
            Seq::new(left, |i: int| ' ') + s + Seq::new(right, |i: int| ' '),
        ),
        text_laws::tight(s),
    ensures
        scan::trimmed(dbf::dbf_text(raw)) == s,
{
    let before = Seq::new(left, |i: int| ' ');
    let after = Seq::new(right, |i: int| ' ');
    encode_utf8_valid_utf8(before + s + after);
    encode_utf8_decode_utf8(before + s + after);
    text_laws::trimming_takes_white_space_only(before, s, after);
}

/// The cell of a text between spaces.
pub open spec fn padded(left: nat, s: Seq<char>, right: nat) -> Seq<u8> {
    encode_utf8(Seq::new(left, |i: int| ' ') + s + Seq::new(right, |i: int| ' '))
}

/// In a numeric column without decimals a whole number of 64 bits is read as it was written,
/// wherever it stands in its cell.
pub proof fn whole_cells_are_read_back(field: FieldView, n: int, left: nat, right: nat)
    requires
        field.ftype == 'N' as u8 || field.ftype == 'F' as u8,
        field.decimal_count == 0,
        -0x8000_0000_0000_0000 <= n < 0x8000_0000_0000_0000,
    ensures
        dbf::field_value(field, padded(left, text::signed_decimal(n), right)) == if n >= 0 {
            JsonView::Unsigned(n as u64)
        } else {
            JsonView::Negative(n as i64)
        },
{
    let s = text::signed_decimal(n);
    text_laws::signed_numbers_are_read_back(n);
    let mag: nat = if n < 0 {
        (-n) as nat
    } else {
        n as nat
    };
    text_laws::decimals_are_read_back(mag);
    let d = text::decimal(mag);
    assert('0' <= d[0] <= '9' && '0' <= d[d.len() - 1] <= '9');
    assert(s[s.len() - 1] == d[d.len() - 1]);
    assert(s[0] == '-' || s[0] == d[0]);
    padded_text_is_read(padded(left, s, right), left, s, right);
    if s.contains('.') {
        let i = choose|i: int| 0 <= i < s.len() && s[i] == '.';
        text_laws::numbers_are_digits(s, i);
    }
}

/// A blank cell of a numeric column has no value.
pub proof fn blank_numbers_have_no_value(field: FieldView, n: nat)
    requires
        field.ftype == 'N' as u8 || field.ftype == 'F' as u8,
    ensures
        dbf::field_value(field, Seq::new(n, |i: int| 32u8)) == JsonView::Null,
        dbf::field_value(field, Seq::empty()) == JsonView::Null,
{
    let none = Seq::<char>::empty();
    let raw = Seq::new(n, |i: int| 32u8);
    text::encoded_spaces(n);
    assert(Seq::new(0, |i: int| ' ') + none + Seq::new(n, |i: int| ' ') =~= Seq::new(n, |i: int| ' '));
    padded_text_is_read(raw, 0, none, n);
    text::encoded_spaces(0);
    assert(Seq::new(0, |i: int| 32u8) =~= Seq::<u8>::empty());
    assert(Seq::new(0, |i: int| ' ') + none + Seq::new(0, |i: int| ' ') =~= Seq::new(0, |i: int| ' '));
    padded_text_is_read(Seq::empty(), 0, none, 0);
}

/// A numeric cell with a decimal point, or in a column with decimals, is read as a number with
/// decimals where it spells one and as its text otherwise, never as a whole number.
pub proof fn decimal_cells_keep_their_decimals(field: FieldView, s: Seq<char>, left: nat, right: nat)
    requires
        field.ftype == 'N' as u8 || field.ftype == 'F' as u8,
        field.decimal_count > 0 || s.contains('.'),
        s.len() > 0,
        text_laws::tight(s),
    ensures
        dbf::field_value(field, padded(left, s, right)) == match json::json_float(s) {
            Some((bits, spelling)) => JsonView::Float { bits, spelling },
            None => JsonView::Text(s),
        },
{
    padded_text_is_read(padded(left, s, right), left, s, right);
}

/// In any other column a text is read as it was written, without the spaces around it.
pub proof fn text_cells_are_read_back(field: FieldView, s: Seq<char>, left: nat, right: nat)
    requires
        field.ftype != 'N' as u8,
        field.ftype != 'F' as u8,
        field.ftype != 'L' as u8,
        text_laws::tight(s),
    ensures
        dbf::field_value(field, padded(left, s, right)) == JsonView::Text(s),
{
    padded_text_is_read(padded(left, s, right), left, s, right);
}

/// Bytes that are no UTF-8 text are read character by character: as many characters as bytes, each
/// with the number of its byte.
pub proof fn other_bytes_are_single_characters(raw: Seq<u8>, i: int)
    requires
        !valid_utf8(raw),
        0 <= i < raw.len(),
    ensures
        dbf::dbf_text(raw).len() == raw.len(),
        dbf::dbf_text(raw)[i] as int == raw[i] as int,
{
}

/// The raw records of a table.
pub open spec fn raw_records(data: Seq<u8>, header: nat, size: nat, n: nat) -> Seq<Seq<u8>> {
    Seq::new(
        n,
        |i: int| data.subrange(header + i * size, header + i * size + size),
    )
}

/// The properties of a record, unless it is marked as deleted with an asterisk.
pub open spec fn if_not_deleted(fields: Seq<FieldView>) -> spec_fn(Seq<u8>) -> Option<Seq<Entry>> {
    |rec: Seq<u8>|
        if rec[0] == '*' as u8 {
            None
        } else {
            Some(dbf::fill(fields, rec, 1, Seq::empty()))
        }
}

/// Every record that is not deleted is read, in order.
pub proof fn records_are_read(
    data: Seq<u8>,
    fields: Seq<FieldView>,
    header: nat,
    size: nat,
    n: nat,
)
    ensures
        picking::picked(
            raw_records(data, header, size, n),
            if_not_deleted(fields),
            dbf::records_of(data, fields, header, size, n),
        ),
    decreases n,
{
    let s = raw_records(data, header, size, n);
    if n == 0 {
        picking::picked_of_nothing(s, if_not_deleted(fields));
    } else {
        records_are_read(data, fields, header, size, (n - 1) as nat);
        assert(s.drop_last() =~= raw_records(data, header, size, (n - 1) as nat));
        picking::picked_grows(
            s,
            if_not_deleted(fields),
            dbf::records_of(data, fields, header, size, (n - 1) as nat),
            dbf::records_of(data, fields, header, size, n),
        );
    }
}

/// The widths of the first columns together.
pub open spec fn width_of(fields: Seq<FieldView>, n: nat) -> nat
    decreases n,
{
    if n == 0 {
        0
    } else {
        width_of(fields, (n - 1) as nat) + fields[n - 1].length
    }
}

/// The value of a record in a column: its cell stands behind the deletion mark and the cells of the
/// columns before it.
pub open spec fn cell_value(fields: Seq<FieldView>, rec: Seq<u8>, k: int) -> JsonView {
    let from = 1 + width_of(fields, k as nat);
    dbf::field_value(fields[k], rec.subrange(from as int, (from + fields[k].length) as int))
}

/// A record that holds all its columns has, where their names differ, one property for each of
/// them, in order: the name of the column and the value of its cell.
pub proof fn records_have_a_property_for_each_column(fields: Seq<FieldView>, rec: Seq<u8>)
    requires
        1 + width_of(fields, fields.len()) <= rec.len(),
        forall|i: int, j: int|
            0 <= i < j < fields.len() ==> (#[trigger] fields[i]).name != (#[trigger] fields[j]).name,
    ensures
        dbf::fill(fields, rec, 1, Seq::empty()) == Seq::new(
            fields.len(),
            |k: int| (fields[k].name, cell_value(fields, rec, k)),
        ),
{
    let all = Seq::new(fields.len(), |k: int| (fields[k].name, cell_value(fields, rec, k)));
    assert(fields.skip(0) =~= fields);
    assert(all.take(0) =~= Seq::empty());
    cells_fill(fields, rec, 0, all);
}

proof fn widths_grow(fields: Seq<FieldView>, k: nat, n: nat)
    requires
        k <= n,
    ensures
        width_of(fields, k) <= width_of(fields, n),
    decreases n,
{
    if k < n {
        widths_grow(fields, k, (n - 1) as nat);
    }
}

proof fn cells_fill(fields: Seq<FieldView>, rec: Seq<u8>, k: nat, all: Seq<Entry>)
    requires
        k <= fields.len(),
        1 + width_of(fields, fields.len()) <= rec.len(),
        forall|i: int, j: int|
            0 <= i < j < fields.len() ==> (#[trigger] fields[i]).name != (#[trigger] fields[j]).name,
        all == Seq::new(fields.len(), |i: int| (fields[i].name, cell_value(fields, rec, i))),
    ensures
        dbf::fill(fields.skip(k as int), rec, 1 + width_of(fields, k), all.take(k as int)) == all,
    decreases fields.len() - k,
{
    if k == fields.len() {
        assert(all.take(k as int) =~= all);
    } else {
        let f = fields[k as int];
        widths_grow(fields, k + 1, fields.len());
        assert(fields.skip(k as int)[0] == f);
        assert(fields.skip(k as int).skip(1) =~= fields.skip(k as int + 1));
        let map = all.take(k as int);
        assert(forall|i: int| 0 <= i < map.len() ==> (#[trigger] map[i]).0 == fields[i].name);
        json::new_entries_are_appended(map, f.name, cell_value(fields, rec, k as int));
        assert(map.push((f.name, cell_value(fields, rec, k as int))) =~= all.take(k as int + 1));
        cells_fill(fields, rec, k + 1, all);
    }
}

/// A table is refused exactly where it is shorter than its fixed part, where its header is too short
/// or does not fit, where its records are empty, or where they do not all fit.
pub proof fn broken_tables_are_refused(data: Seq<u8>)
    ensures
        ({
            let header = dbf::header_size(data);
            let needed = header + dbf::record_count(data) * dbf::record_size(data);
            &&& data.len() < 32 ==> dbf::dbf_fault(data) == Some("dbf too small"@)
            &&& data.len() >= 32 && (header < 33 || header > data.len() || dbf::record_size(data)
                == 0) ==> dbf::dbf_fault(data) == Some("corrupt dbf header"@)
            &&& data.len() >= 32 && 33 <= header <= data.len() && dbf::record_size(data) > 0
                ==> dbf::dbf_fault(data) == if needed <= data.len() {
                None
            } else {
                Some(
                    "dbf truncated: need "@ + text::decimal(needed) + " bytes, have "@
                        + text::decimal(data.len()),
                )
            }
        }),
{
}

/// The number of records stands in bytes 4 to 7, the length of the header in 8 and 9 and that of a
/// record in 10 and 11, low bytes first.
pub proof fn sizes_have_their_places(data: Seq<u8>)
    requires
        data.len() >= 32,
    ensures
        dbf::record_count(data) == data[4] + 256 * data[5] + 65536 * data[6] + 16777216 * data[7],
        dbf::header_size(data) == data[8] + 256 * data[9],
        dbf::record_size(data) == data[10] + 256 * data[11],
{
    four_bytes(data.subrange(4, 8));
    two_bytes(data.subrange(8, 10));
    two_bytes(data.subrange(10, 12));
}

proof fn two_bytes(s: Seq<u8>)
    requires
        s.len() == 2,
    ensures
        bytes::le_value(s) == s[0] + 256 * s[1],
{
    reveal_with_fuel(bytes::le_value, 3);
    let t = s.subrange(1, 2);
    assert(t.subrange(1, 1) =~= Seq::empty());
    assert(bytes::le_value(t) == s[1]);
}

proof fn four_bytes(s: Seq<u8>)
    requires
        s.len() == 4,
    ensures
        bytes::le_value(s) == s[0] + 256 * s[1] + 65536 * s[2] + 16777216 * s[3],
{
    let a = s.subrange(1, 4);
    let b = a.subrange(1, 3);
    two_bytes(b);
    assert(bytes::le_value(a) == a[0] + 256 * bytes::le_value(b));
    assert(bytes::le_value(s) == s[0] + 256 * bytes::le_value(a));
}

/// A column is declared by 32 bytes: the name up to the first zero in the first eleven, without
/// white space around it, then the type, the width in byte 16, the decimals in byte 17. Columns
/// without a name or a width are passed over, and a carriage return ends them.
pub proof fn columns_are_declared(data: Seq<u8>, pos: nat, header: nat)
    requires
        pos + 33 <= header,
    ensures
        data[pos as int] == 0x0d ==> dbf::fields_from(data, pos, header).len() == 0,
        data[pos as int] != 0x0d ==> ({
            let d = data.subrange(pos as int, (pos + 32) as int);
            let f = dbf::descriptor_field(d);
            let rest = dbf::fields_from(data, pos + 32, header);
            &&& f.ftype == d[11]
            &&& f.length == d[16]
            &&& f.decimal_count == d[17]
            &&& dbf::fields_from(data, pos, header) == if f.name.len() > 0 && d[16] > 0 {
                seq![f] + rest
            } else {
                rest
            }
        }),
{
}

/// A name ends at the first zero, or behind eleven bytes.
pub proof fn names_end_at_the_first_zero(descriptor: Seq<u8>, n: nat)
    requires
        n <= 11,
    ensures
        n <= dbf::name_len(descriptor, n) <= 11,
        dbf::name_len(descriptor, n) < 11 ==> descriptor[dbf::name_len(descriptor, n) as int] == 0,
        forall|i: int|
            n <= i < dbf::name_len(descriptor, n) ==> #[trigger] descriptor[i] != 0,
    decreases 11 - n,
{
    if n < 11 && descriptor[n as int] != 0 {
        names_end_at_the_first_zero(descriptor, n + 1);
    }
}

} // verus!
