//! What reading a table gives back of what was written.
use vstd::prelude::*;
use vstd::utf8::*;
use crate::bytes;
use crate::ingest::shapefile;
use crate::ingest::shapefile::archive;
use crate::ingest::shapefile::bundle;
use crate::ingest::shapefile::dbf;
use crate::ingest::shapefile::dbf::FieldView;
use crate::ingest::shapefile::write::FieldSpecView;
use crate::json;
use crate::json::Entry;
use crate::json::JsonView;
use crate::scan;
use crate::text;

verus! {

/// A column as it is read.
pub open spec fn column(f: FieldSpecView) -> FieldView {
    FieldView {
        name: scan::trimmed(dbf::dbf_text(f.name)),
        ftype: f.ftype,
        length: f.length,
        decimal_count: f.decimal_count,
    }
}

/// The columns as they are read.
pub open spec fn columns(fields: Seq<FieldSpecView>) -> Seq<FieldView> {
    Seq::new(fields.len(), |i: int| column(fields[i]))
}

/// A column that a descriptor can hold: a name of at most eleven bytes with something to see in it,
/// and a width of one byte.
pub open spec fn column_fits(f: FieldSpecView) -> bool {
    &&& 0 < f.name.len() <= 11
    &&& !f.name.contains(0)
    &&& f.name[0] != 0x0d
    &&& scan::trimmed(dbf::dbf_text(f.name)).len() > 0
    &&& 0 < f.length <= 255
}

/// A table that a header can describe, with a value in every cell.
pub open spec fn table_fits(fields: Seq<FieldSpecView>, records: Seq<Seq<Seq<u8>>>) -> bool {
    &&& forall|i: int| 0 <= i < fields.len() ==> column_fits(#[trigger] fields[i])
    &&& 33 + 32 * fields.len() <= 0xffff
    &&& 1 + shapefile::write::total_width(fields, fields.len()) <= 0xffff
    &&& records.len() <= 0xffff_ffff
    &&& forall|i: int| 0 <= i < records.len() ==> (#[trigger] records[i]).len() >= fields.len()
}

/// The properties of a record's first `n` cells.
pub open spec fn row_entries(fields: Seq<FieldSpecView>, values: Seq<Seq<u8>>, n: nat) -> Seq<Entry>
    decreases n,
{
    if n == 0 {
        Seq::empty()
    } else {
        let f = fields[n - 1];
        json::with_entry(
            row_entries(fields, values, (n - 1) as nat),
            column(f).name,
            dbf::field_value(column(f), shapefile::write::cell(f, values[n - 1])),
        )
    }
}

/// The name of a descriptor ends behind the name that was written.
proof fn name_ends(name: Seq<u8>, descriptor: Seq<u8>, n: nat)
    requires
        n <= name.len() <= 11,
        descriptor.len() == 32,
        !name.contains(0),
        forall|i: int| 0 <= i < name.len() ==> #[trigger] descriptor[i] == name[i],
        forall|i: int| name.len() <= i < 11 ==> #[trigger] descriptor[i] == 0,
    ensures
        dbf::name_len(descriptor, n) == name.len(),
    decreases 11 - n,
{
    if n < name.len() {
        assert(name.contains(name[n as int]));
        assert(descriptor[n as int] == name[n as int]);
        name_ends(name, descriptor, n + 1);
    }
}

/// A descriptor is read as the column that was written.
proof fn descriptor_comes_back(f: FieldSpecView)
    requires
        column_fits(f),
    ensures
        dbf::descriptor_field(shapefile::write::descriptor_bytes(f)) == column(f),
        shapefile::write::descriptor_bytes(f).len() == 32,
        shapefile::write::descriptor_bytes(f)[0] == f.name[0],
{
    let d = shapefile::write::descriptor_bytes(f);
    bytes::fixed_len(f.length, 1);
    reveal_with_fuel(bytes::le_bytes, 2);
    assert(bytes::le_bytes(f.length, 1)[0] == f.length);
    name_ends(f.name, d, 0);
    assert(d.take(f.name.len() as int) =~= f.name);
    assert(d[11] == f.ftype);
    assert(d[16] == f.length);
    assert(d[17] == f.decimal_count);
}

/// The descriptors of the first columns stand at the start of all descriptors.
proof fn descriptor_stands(fields: Seq<FieldSpecView>, k: nat, n: nat)
    requires
        k < n <= fields.len(),
    ensures
        shapefile::write::descriptors(fields, n).len() == 32 * n,
        shapefile::write::descriptors(fields, n).subrange(32 * k as int, 32 * k as int + 32)
            == shapefile::write::descriptor_bytes(fields[k as int]),
    decreases n,
{
    shapefile::write::descriptors_len(fields, n);
    shapefile::write::descriptors_len(fields, (n - 1) as nat);
    if k + 1 == n {
        assert(shapefile::write::descriptors(fields, n).subrange(32 * k as int, 32 * k as int + 32)
            =~= shapefile::write::descriptor_bytes(fields[k as int]));
    } else {
        descriptor_stands(fields, k, (n - 1) as nat);
        assert(shapefile::write::descriptors(fields, n).subrange(32 * k as int, 32 * k as int + 32)
            =~= shapefile::write::descriptors(fields, (n - 1) as nat).subrange(
            32 * k as int,
            32 * k as int + 32,
        ));
    }
}

/// The columns are read from the header.
proof fn columns_come_back(fields: Seq<FieldSpecView>, data: Seq<u8>, k: nat)
    requires
        k <= fields.len(),
        forall|i: int| 0 <= i < fields.len() ==> column_fits(#[trigger] fields[i]),
        data.len() >= 33 + 32 * fields.len(),
        data.subrange(32, 32 + 32 * fields.len() as int) == shapefile::write::descriptors(
            fields,
            fields.len(),
        ),
    ensures
        dbf::fields_from(data, 32 + 32 * k, 33 + 32 * fields.len()) == columns(fields).skip(
            k as int,
        ),
    decreases fields.len() - k,
{
    let n = fields.len();
    if k == n {
        assert(columns(fields).skip(k as int) =~= Seq::<FieldView>::empty());
    } else {
        let f = fields[k as int];
        descriptor_stands(fields, k, n);
        descriptor_comes_back(f);
        let pos = (32 + 32 * k) as int;
        let all = data.subrange(32, 32 + 32 * n as int);
        assert(data.subrange(pos, pos + 32) =~= all.subrange(32 * k as int, 32 * k as int + 32));
        assert(data[pos] == data.subrange(pos, pos + 32)[0]);
        columns_come_back(fields, data, k + 1);
        assert(columns(fields).skip(k as int) =~= seq![column(f)] + columns(fields).skip(
            (k + 1) as int,
        ));
    }
}

/// A cell stands in its record where the columns before it end.
proof fn cell_stands(fields: Seq<FieldSpecView>, values: Seq<Seq<u8>>, k: nat, n: nat)
    requires
        k < n,
    ensures
        ({
            let from = shapefile::write::total_width(fields, k);
            let to = shapefile::write::total_width(fields, k + 1);
            let all = shapefile::write::cells(fields, values, n);
            &&& from <= to <= all.len()
            &&& all.subrange(from as int, to as int) == shapefile::write::cell(
                fields[k as int],
                values[k as int],
            )
        }),
    decreases n,
{
    let from = shapefile::write::total_width(fields, k);
    let to = shapefile::write::total_width(fields, k + 1);
    let all = shapefile::write::cells(fields, values, n);
    shapefile::write::cells_len(fields, values, n);
    shapefile::write::cells_len(fields, values, (n - 1) as nat);
    if k + 1 == n {
        assert(all.subrange(from as int, to as int) =~= shapefile::write::cell(
            fields[k as int],
            values[k as int],
        ));
    } else {
        cell_stands(fields, values, k, (n - 1) as nat);
        assert(all.subrange(from as int, to as int) =~= shapefile::write::cells(
            fields,
            values,
            (n - 1) as nat,
        ).subrange(from as int, to as int));
    }
}

/// A cell stands in its row behind the mark of the row.
#[verifier::spinoff_prover]
proof fn cell_stands_in_row(fields: Seq<FieldSpecView>, values: Seq<Seq<u8>>, k: nat)
    requires
        k < fields.len() <= values.len(),
    ensures
        ({
            let from = 1 + shapefile::write::total_width(fields, k);
            let row = shapefile::write::row_bytes(fields, values);
            &&& from + fields[k as int].length <= row.len()
            &&& row.subrange(from as int, (from + fields[k as int].length) as int)
                == shapefile::write::cell(fields[k as int], values[k as int])
        }),
{
    let from = shapefile::write::total_width(fields, k);
    let to = shapefile::write::total_width(fields, k + 1);
    let row = shapefile::write::row_bytes(fields, values);
    let all = shapefile::write::cells(fields, values, fields.len());
    cell_stands(fields, values, k, fields.len());
    assert(row == seq![32u8] + all);
    assert(row.subrange((1 + from) as int, (1 + to) as int) =~= all.subrange(
        from as int,
        to as int,
    ));
}

/// A record is read cell by cell.
#[verifier::spinoff_prover]
proof fn row_comes_back(fields: Seq<FieldSpecView>, values: Seq<Seq<u8>>, k: nat)
    requires
        k <= fields.len() <= values.len(),
    ensures
        dbf::fill(
            columns(fields).skip(k as int),
            shapefile::write::row_bytes(fields, values),
            1 + shapefile::write::total_width(fields, k),
            row_entries(fields, values, k),
        ) == row_entries(fields, values, fields.len()),
    decreases fields.len() - k,
{
    let rest = columns(fields).skip(k as int);
    if k < fields.len() {
        cell_stands_in_row(fields, values, k);
        assert(rest[0] == column(fields[k as int]));
        assert(rest.skip(1) =~= columns(fields).skip((k + 1) as int));
        row_comes_back(fields, values, k + 1);
    }
}

/// A record stands behind those before it.
proof fn row_stands(fields: Seq<FieldSpecView>, records: Seq<Seq<Seq<u8>>>, k: nat, n: nat)
    requires
        k < n <= records.len(),
        forall|i: int| 0 <= i < n ==> (#[trigger] records[i]).len() >= fields.len(),
    ensures
        ({
            let size = 1 + shapefile::write::total_width(fields, fields.len());
            let all = shapefile::write::rows_bytes(fields, records, n);
            &&& 0 <= k * size
            &&& k * size + size <= all.len()
            &&& all.subrange((k * size) as int, (k * size + size) as int) == shapefile::write::row_bytes(
                fields,
                records[k as int],
            )
        }),
    decreases n,
{
    let size = 1 + shapefile::write::total_width(fields, fields.len());
    let all = shapefile::write::rows_bytes(fields, records, n);
    shapefile::write::rows_len(fields, records, n);
    shapefile::write::rows_len(fields, records, (n - 1) as nat);
    shapefile::write::cells_len(fields, records[n - 1], fields.len());
    assert(0 <= k * size && (n - 1) * size + size == n * size) by (nonlinear_arith)
        requires
            size >= 1,
            n >= 1,
    ;
    if k + 1 == n {
        assert(k * size == (n - 1) * size);
        assert(all.subrange((k * size) as int, (k * size + size) as int) =~= shapefile::write::row_bytes(
            fields,
            records[k as int],
        ));
    } else {
        row_stands(fields, records, k, (n - 1) as nat);
        assert(all.subrange((k * size) as int, (k * size + size) as int) =~= shapefile::write::rows_bytes(
            fields,
            records,
            (n - 1) as nat,
        ).subrange((k * size) as int, (k * size + size) as int));
    }
}

/// The properties of the first `n` records.
pub open spec fn table_entries(
    fields: Seq<FieldSpecView>,
    records: Seq<Seq<Seq<u8>>>,
    n: nat,
) -> Seq<Seq<Entry>> {
    Seq::new(n, |i: int| row_entries(fields, records[i], fields.len()))
}

/// A record stands behind the header and the records before it.
#[verifier::spinoff_prover]
proof fn row_stands_in_table(
    fields: Seq<FieldSpecView>,
    records: Seq<Seq<Seq<u8>>>,
    data: Seq<u8>,
    k: nat,
)
    requires
        k < records.len(),
        forall|i: int| 0 <= i < records.len() ==> (#[trigger] records[i]).len() >= fields.len(),
        ({
            let header = 33 + 32 * fields.len();
            let all = shapefile::write::rows_bytes(fields, records, records.len());
            &&& data.len() >= header + all.len()
            &&& data.subrange(header as int, (header + all.len()) as int) == all
        }),
    ensures
        ({
            let size = 1 + shapefile::write::total_width(fields, fields.len());
            let start = 33 + 32 * fields.len() + k * size;
            let row = shapefile::write::row_bytes(fields, records[k as int]);
            &&& data.subrange(start as int, (start + size) as int) == row
            &&& row[0] == 32
        }),
{
    let header = 33 + 32 * fields.len();
    let size = 1 + shapefile::write::total_width(fields, fields.len());
    let all = shapefile::write::rows_bytes(fields, records, records.len());
    let start = header + k * size;
    row_stands(fields, records, k, records.len());
    assert(data.subrange(start as int, (start + size) as int) =~= all.subrange(
        (k * size) as int,
        (k * size + size) as int,
    ));
}

/// The records are read behind the header.
#[verifier::spinoff_prover]
proof fn rows_come_back(
    fields: Seq<FieldSpecView>,
    records: Seq<Seq<Seq<u8>>>,
    data: Seq<u8>,
    n: nat,
)
    requires
        n <= records.len(),
        forall|i: int| 0 <= i < records.len() ==> (#[trigger] records[i]).len() >= fields.len(),
        ({
            let header = 33 + 32 * fields.len();
            let all = shapefile::write::rows_bytes(fields, records, records.len());
            &&& data.len() >= header + all.len()
            &&& data.subrange(header as int, (header + all.len()) as int) == all
        }),
    ensures
        dbf::records_of(
            data,
            columns(fields),
            33 + 32 * fields.len(),
            1 + shapefile::write::total_width(fields, fields.len()),
            n,
        ) == table_entries(fields, records, n),
    decreases n,
{
    if n == 0 {
        assert(table_entries(fields, records, n) =~= Seq::<Seq<Entry>>::empty());
    } else {
        let k = (n - 1) as nat;
        rows_come_back(fields, records, data, k);
        row_stands_in_table(fields, records, data, k);
        row_comes_back(fields, records[k as int], 0);
        assert(columns(fields).skip(0) =~= columns(fields));
        assert(table_entries(fields, records, n) =~= table_entries(fields, records, k).push(
            row_entries(fields, records[k as int], fields.len()),
        ));
    }
}

/// The sizes are read from the header.
proof fn header_comes_back(fields: Seq<FieldSpecView>, records: Seq<Seq<Seq<u8>>>)
    requires
        table_fits(fields, records),
    ensures
        ({
            let data = shapefile::write::dbf_bytes(fields, records);
            &&& dbf::record_count(data) == records.len()
            &&& dbf::header_size(data) == 33 + 32 * fields.len()
            &&& dbf::record_size(data) == 1 + shapefile::write::total_width(fields, fields.len())
        }),
{
    let data = shapefile::write::dbf_bytes(fields, records);
    let count = records.len();
    let header = 33 + 32 * fields.len();
    let size = 1 + shapefile::write::total_width(fields, fields.len());
    reveal_with_fuel(bytes::pow256, 5);
    bytes::le_value_of_le_bytes(count, 4);
    bytes::le_value_of_le_bytes(header, 2);
    bytes::le_value_of_le_bytes(size, 2);
    assert(data.subrange(4, 8) =~= bytes::le_bytes(count, 4));
    assert(data.subrange(8, 10) =~= bytes::le_bytes(header, 2));
    assert(data.subrange(10, 12) =~= bytes::le_bytes(size, 2));
}

/// Reading a `.dbf` file gives back the columns and, for every record, the value of each of its
/// cells under the name of its column.
pub proof fn written_tables_come_back(fields: Seq<FieldSpecView>, records: Seq<Seq<Seq<u8>>>)
    requires
        table_fits(fields, records),
    ensures
        ({
            let data = shapefile::write::dbf_bytes(fields, records);
            &&& dbf::dbf_fault(data) is None
            &&& dbf::fields_from(data, 32, dbf::header_size(data)) == columns(fields)
            &&& bundle::table_records(data) == table_entries(fields, records, records.len())
        }),
{
    let data = shapefile::write::dbf_bytes(fields, records);
    let n = fields.len();
    let size = 1 + shapefile::write::total_width(fields, n);
    let start = shapefile::write::dbf_start(fields, records.len());
    let middle = shapefile::write::descriptors(fields, n);
    let all = shapefile::write::rows_bytes(fields, records, records.len());
    header_comes_back(fields, records);
    shapefile::write::dbf_len(fields, records);
    shapefile::write::dbf_start_len(fields, records.len());
    shapefile::write::descriptors_len(fields, n);
    shapefile::write::rows_len(fields, records, records.len());
    assert(data.subrange(32, 32 + 32 * n as int) =~= middle);
    columns_come_back(fields, data, 0);
    assert(columns(fields).skip(0) =~= columns(fields));
    let header = 33 + 32 * n;
    assert(data.subrange(header as int, (header + all.len()) as int) =~= all);
    rows_come_back(fields, records, data, records.len());
}

/// A text that fits in its column is read back as it was written, without white space at its ends.
pub proof fn texts_come_back(f: FieldSpecView, value: Seq<char>)
    requires
        f.ftype != 78 && f.ftype != 70 && f.ftype != 76,
        encode_utf8(value).len() <= f.length,
    ensures
        dbf::field_value(column(f), shapefile::write::cell(f, encode_utf8(value)))
            == JsonView::Text(scan::trimmed(value)),
{
    let raw = shapefile::write::cell(f, encode_utf8(value));
    let n = (f.length - encode_utf8(value).len()) as nat;
    let padded = value + Seq::new(n, |i: int| ' ');
    text::encoded_join(value, Seq::new(n, |i: int| ' '));
    text::encoded_spaces(n);
    assert(raw =~= encode_utf8(padded));
    encode_utf8_valid_utf8(padded);
    encode_utf8_decode_utf8(padded);
    scan::padding_is_trimmed(value, n);
}

/// The bytes of texts.
pub open spec fn encoded(records: Seq<Seq<Seq<char>>>) -> Seq<Seq<Seq<u8>>> {
    Seq::new(
        records.len(),
        |i: int| Seq::new(records[i].len(), |j: int| encode_utf8(records[i][j])),
    )
}

/// Names and texts of a record: under each column the text of its cell, without white space at its
/// ends.
pub open spec fn text_entries(fields: Seq<FieldSpecView>, values: Seq<Seq<char>>) -> Seq<Entry> {
    Seq::new(
        fields.len(),
        |j: int| (column(fields[j]).name, JsonView::Text(scan::trimmed(values[j]))),
    )
}

/// A record of texts under columns of different names has one entry for each of them.
proof fn text_rows_come_back(fields: Seq<FieldSpecView>, values: Seq<Seq<char>>, n: nat)
    requires
        n <= fields.len() <= values.len(),
        forall|i: int| 0 <= i < fields.len() ==> (#[trigger] fields[i]).ftype == 67,
        forall|i: int, j: int|
            0 <= i < j < fields.len() ==> column(#[trigger] fields[i]).name != column(
                #[trigger] fields[j],
            ).name,
        forall|j: int|
            0 <= j < fields.len() ==> encode_utf8(values[j]).len() <= (#[trigger] fields[j]).length,
    ensures
        row_entries(
            fields,
            Seq::new(values.len(), |j: int| encode_utf8(values[j])),
            n,
        ) == text_entries(fields, values).take(n as int),
    decreases n,
{
    let raw = Seq::new(values.len(), |j: int| encode_utf8(values[j]));
    let all = text_entries(fields, values);
    if n == 0 {
        assert(all.take(0) =~= Seq::<Entry>::empty());
    } else {
        let k = n - 1;
        text_rows_come_back(fields, values, k as nat);
        texts_come_back(fields[k], values[k]);
        json::key_place_props(all.take(k), column(fields[k]).name);
        assert(json::key_place(all.take(k), column(fields[k]).name) is None) by {
            if let Some(i) = json::key_place(all.take(k), column(fields[k]).name) {
                assert(all.take(k)[i].0 == column(fields[i]).name);
            }
        }
        assert(all.take(n as int) =~= all.take(k).push(all[k]));
    }
}

/// A written table of texts is read back: the columns as they are, and every record as the names of
/// the columns with the texts of its cells, without white space at their ends. The names of the
/// columns have to differ, and the texts to fit in their columns.
pub proof fn text_tables_come_back(fields: Seq<FieldSpecView>, records: Seq<Seq<Seq<char>>>)
    requires
        table_fits(fields, encoded(records)),
        forall|i: int| 0 <= i < fields.len() ==> (#[trigger] fields[i]).ftype == 67,
        forall|i: int, j: int|
            0 <= i < j < fields.len() ==> column(#[trigger] fields[i]).name != column(
                #[trigger] fields[j],
            ).name,
        forall|i: int, j: int|
            0 <= i < records.len() && 0 <= j < fields.len() ==> encode_utf8(
                #[trigger] records[i][j],
            ).len() <= fields[j].length,
    ensures
        ({
            let data = shapefile::write::dbf_bytes(fields, encoded(records));
            &&& dbf::dbf_fault(data) is None
            &&& dbf::fields_from(data, 32, dbf::header_size(data)) == columns(fields)
            &&& bundle::table_records(data) == Seq::new(
                records.len(),
                |i: int| text_entries(fields, records[i]),
            )
        }),
{
    let raw = encoded(records);
    written_tables_come_back(fields, raw);
    assert forall|i: int| 0 <= i < records.len() implies #[trigger] row_entries(
        fields,
        raw[i],
        fields.len(),
    ) == text_entries(fields, records[i]) by {
        assert(raw[i].len() >= fields.len());
        assert forall|j: int| 0 <= j < fields.len() implies encode_utf8(records[i][j]).len()
            <= (#[trigger] fields[j]).length by {
            assert(encode_utf8(records[i][j]).len() <= fields[j].length);
        }
        assert(raw[i] =~= Seq::new(records[i].len(), |j: int| encode_utf8(records[i][j])));
        text_rows_come_back(fields, records[i], fields.len());
        assert(text_entries(fields, records[i]).take(fields.len() as int) =~= text_entries(
            fields,
            records[i],
        ));
    }
    assert(table_entries(fields, raw, records.len()) =~= Seq::new(
        records.len(),
        |i: int| text_entries(fields, records[i]),
    ));
}

/// A name of ASCII letters and digits is read as it was written.
pub proof fn plain_names_come_back(name: Seq<char>)
    requires
        forall|i: int| 0 <= i < name.len() ==> archive::plain_char(#[trigger] name[i]),
    ensures
        scan::trimmed(dbf::dbf_text(encode_utf8(name))) == name,
{
    encode_utf8_valid_utf8(name);
    encode_utf8_decode_utf8(name);
    if name.len() > 0 {
        assert(archive::plain_char(name[0]));
        assert(archive::plain_char(name[name.len() - 1]));
    }
}

/// A column with a name of ASCII letters and digits fits in its descriptor.
proof fn plain_columns_fit(f: FieldSpecView, name: Seq<char>)
    requires
        f.name == encode_utf8(name),
        0 < name.len() <= 11,
        forall|i: int| 0 <= i < name.len() ==> archive::plain_char(#[trigger] name[i]),
        0 < f.length <= 255,
    ensures
        column_fits(f),
        column(f).name == name,
{
    assert forall|i: int| 0 <= i < name.len() implies 0 < (#[trigger] name[i]) as int && name[i] as int
        <= 127 by {
        assert(archive::plain_char(name[i]));
    }
    assert(is_ascii_chars(name));
    is_ascii_chars_encode_utf8(name);
    plain_names_come_back(name);
    assert(f.name[0] == name[0] as u8);
    assert(archive::plain_char(name[0]));
    assert forall|i: int| 0 <= i < f.name.len() implies #[trigger] f.name[i] != 0 by {
        assert(f.name[i] == name[i] as u8);
        assert(archive::plain_char(name[i]));
    }
}

/// A table of texts under columns with plain names (different ones, of ASCII letters and digits) is
/// read back: the columns with their names and widths, and for every record exactly the names with
/// the texts that were written, without white space at their ends.
pub proof fn plain_tables_come_back(
    fields: Seq<FieldSpecView>,
    names: Seq<Seq<char>>,
    records: Seq<Seq<Seq<char>>>,
)
    requires
        names.len() == fields.len(),
        forall|i: int|
            0 <= i < names.len() ==> 0 < (#[trigger] names[i]).len() <= 11 && fields[i].name
                == encode_utf8(names[i]),
        forall|i: int, k: int|
            0 <= i < names.len() && 0 <= k < names[i].len() ==> archive::plain_char(
                #[trigger] names[i][k],
            ),
        forall|i: int, j: int|
            0 <= i < j < names.len() ==> #[trigger] names[i] != #[trigger] names[j],
        forall|i: int|
            0 <= i < fields.len() ==> (#[trigger] fields[i]).ftype == 67 && 0 < fields[i].length
                <= 255,
        33 + 32 * fields.len() <= 0xffff,
        1 + shapefile::write::total_width(fields, fields.len()) <= 0xffff,
        records.len() <= 0xffff_ffff,
        forall|i: int| 0 <= i < records.len() ==> (#[trigger] records[i]).len() == fields.len(),
        forall|i: int, j: int|
            0 <= i < records.len() && 0 <= j < fields.len() ==> encode_utf8(
                #[trigger] records[i][j],
            ).len() <= fields[j].length,
    ensures
        ({
            let data = shapefile::write::dbf_bytes(fields, encoded(records));
            let read = dbf::fields_from(data, 32, dbf::header_size(data));
            let rows = bundle::table_records(data);
            &&& dbf::dbf_fault(data) is None
            &&& read.len() == fields.len()
            &&& forall|i: int|
                0 <= i < read.len() ==> (#[trigger] read[i]).name == names[i] && read[i].ftype
                    == fields[i].ftype && read[i].length == fields[i].length
                    && read[i].decimal_count == fields[i].decimal_count
            &&& rows.len() == records.len()
            &&& forall|i: int|
                0 <= i < rows.len() ==> (#[trigger] rows[i]).len() == fields.len()
            &&& forall|i: int, j: int|
                0 <= i < rows.len() && 0 <= j < fields.len() ==> #[trigger] rows[i][j] == (
                    names[j],
                    JsonView::Text(scan::trimmed(records[i][j])),
                )
        }),
{
    assert forall|i: int| 0 <= i < fields.len() implies column_fits(#[trigger] fields[i])
        && column(fields[i]).name == names[i] by {
        assert(names[i].len() > 0);
        assert forall|k: int| 0 <= k < names[i].len() implies archive::plain_char(
            #[trigger] names[i][k],
        ) by {}
        plain_columns_fit(fields[i], names[i]);
    }
    text_tables_come_back(fields, records);
}

} // verus!
