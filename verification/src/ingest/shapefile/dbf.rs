//! Minimal dBASE III/IV `.dbf` reader for shapefile attributes.
//!
//! Supports the field types C (character), N and F (numeric), L (logical) and D (date). Other
//! types degrade to strings. Text is UTF-8 first, ISO-8859-1 otherwise.
use vstd::prelude::*;
use vstd::utf8::*;
use crate::bytes;
use crate::bytes::read_le;
use crate::ingest::error::{IngestError, IngestResult};
use crate::json;
use crate::json::{parse_float, Entry, JsonMap, JsonValue, JsonView};
use crate::scan;
use crate::scan::{has_char, parse_signed, trim};
use crate::text;
use crate::text::{decimal_text, from_utf8};
use vstd::string::*;

verus! {

/// A column of the table.
#[derive(Debug)]
pub struct DbfField {
    pub name: String,
    pub ftype: u8,
    pub length: usize,
    pub decimal_count: u8,
}

/// What a column is.
pub struct FieldView {
    pub name: Seq<char>,
    pub ftype: u8,
    pub length: nat,
    pub decimal_count: u8,
}

impl View for DbfField {
    type V = FieldView;

    open spec fn view(&self) -> FieldView {
        FieldView {
            name: self.name@,
            ftype: self.ftype,
            length: self.length as nat,
            decimal_count: self.decimal_count,
        }
    }
}

/// Columns, by what they are.
pub open spec fn field_views(fields: Seq<DbfField>) -> Seq<FieldView> {
    fields.map_values(|f: DbfField| f@)
}

/// A table: its columns and its records.
#[derive(Debug)]
pub struct DbfTable {
    pub fields: Vec<DbfField>,
    /// One property map per record, field order preserved.
    pub records: Vec<JsonMap>,
}

/// Records, by what they hold.
pub open spec fn record_views(records: Seq<JsonMap>) -> Seq<Seq<Entry>> {
    records.map_values(|r: JsonMap| r@)
}

/// The text of bytes: UTF-8 where they are valid, otherwise one character per byte.
pub open spec fn dbf_text(b: Seq<u8>) -> Seq<char> {
    if valid_utf8(b) {
        decode_utf8(b)
    } else {
        Seq::new(b.len(), |i: int| b[i] as char)
    }
}

/// UTF-8 with ISO-8859-1 fallback. Latin-1 maps one to one onto the first 256 code points, so the
/// conversion loses nothing.
pub fn decode_dbf_string(bytes: &[u8]) -> (s: String)
    ensures
        s@ == dbf_text(bytes@),
{
    match from_utf8(bytes) {
        Ok(s) => s,
        Err(_) => {
            let mut s = String::new();
            let mut i: usize = 0;
            while i < bytes.len()
                invariant
                    i <= bytes@.len(),
                    s@ == Seq::new(i as nat, |k: int| bytes@[k] as char),
                decreases bytes@.len() - i,
            {
                s.push(bytes[i] as char);
                assert(s@ =~= Seq::new((i + 1) as nat, |k: int| bytes@[k] as char));
                i = i + 1;
            }
            s
        },
    }
}

/// The value of a field from its raw bytes.
pub open spec fn field_value(field: FieldView, raw: Seq<u8>) -> JsonView {
    let t = scan::trimmed(dbf_text(raw));
    if field.ftype == 78 || field.ftype == 70 {
        // N and F: whole where no decimals are declared and none are written.
        if t.len() == 0 {
            JsonView::Null
        } else if field.decimal_count == 0 && !t.contains('.') && scan::signed(t) is Some {
            let n = scan::signed(t)->Some_0;
            if n >= 0 {
                JsonView::Unsigned(n as u64)
            } else {
                JsonView::Negative(n as i64)
            }
        } else {
            match json::json_float(t) {
                Some((bits, spelling)) => JsonView::Float { bits, spelling },
                None => JsonView::Text(t),
            }
        }
    } else if field.ftype == 76 {
        // L: the first letter of true or yes, of false or no, or a digit.
        if raw.len() == 0 {
            JsonView::Null
        } else {
            let c = raw[0];
            if c == 84 || c == 116 || c == 89 || c == 121 || c == 49 {
                JsonView::Bool(true)
            } else if c == 70 || c == 102 || c == 78 || c == 110 || c == 48 {
                JsonView::Bool(false)
            } else {
                JsonView::Null
            }
        }
    } else {
        JsonView::Text(t)
    }
}

/// The value of a numeric field from its trimmed text and the number that the text spells.
pub fn numeric_value(text: String, decimal_count: u8, float: Option<(crate::double::Double, String)>)
    -> (v: JsonValue)
    ensures
        v@ == if text@.len() == 0 {
            JsonView::Null
        } else if decimal_count == 0 && !text@.contains('.') && scan::signed(text@) is Some {
            let n = scan::signed(text@)->Some_0;
            if n >= 0 {
                JsonView::Unsigned(n as u64)
            } else {
                JsonView::Negative(n as i64)
            }
        } else {
            match float {
                Some((value, spelling)) => JsonView::Float {
                    bits: value.bits,
                    spelling: spelling@,
                },
                None => JsonView::Text(text@),
            }
        },
{
    if text.as_str().is_empty() {
        return JsonValue::Null;
    }
    if decimal_count == 0 && !has_char(text.as_str(), '.') {
        if let Some(n) = parse_signed(text.as_str()) {
            return JsonValue::whole(n);
        }
    }
    match float {
        Some((value, spelling)) => JsonValue::Float { value, spelling },
        None => JsonValue::Text(text),
    }
}

fn decode_field(field: &DbfField, raw: &[u8]) -> (v: JsonValue)
    ensures
        v@ == field_value(field@, raw@),
{
    if field.ftype == 78 || field.ftype == 70 {
        let t = trim(decode_dbf_string(raw).as_str());
        let float = parse_float(t.as_str());
        numeric_value(t, field.decimal_count, float)
    } else if field.ftype == 76 {
        if raw.len() == 0 {
            return JsonValue::Null;
        }
        let c: u8 = raw[0];
        if c == 84 || c == 116 || c == 89 || c == 121 || c == 49 {
            JsonValue::Bool(true)
        } else if c == 70 || c == 102 || c == 78 || c == 110 || c == 48 {
            JsonValue::Bool(false)
        } else {
            JsonValue::Null
        }
    } else {
        // Dates are kept as raw YYYYMMDD strings.
        JsonValue::Text(trim(decode_dbf_string(raw).as_str()))
    }
}

/// Where the name in a descriptor ends: at the first zero, or behind eleven bytes.
pub open spec fn name_len(descriptor: Seq<u8>, n: nat) -> nat
    decreases 11 - n,
{
    if n >= 11 || descriptor[n as int] == 0 {
        n
    } else {
        name_len(descriptor, n + 1)
    }
}

/// The column that a 32-byte descriptor declares.
pub open spec fn descriptor_field(descriptor: Seq<u8>) -> FieldView {
    FieldView {
        name: scan::trimmed(dbf_text(descriptor.take(name_len(descriptor, 0) as int))),
        ftype: descriptor[11],
        length: descriptor[16] as nat,
        decimal_count: descriptor[17],
    }
}

/// Whether the column counts: it has a name and a width.
pub open spec fn field_counts(f: FieldView) -> bool {
    f.name.len() > 0 && f.length > 0
}

/// The columns declared from `pos` on, up to the terminator or the end of the header.
pub open spec fn fields_from(data: Seq<u8>, pos: nat, header_size: nat) -> Seq<FieldView>
    decreases header_size - pos,
{
    if pos + 33 > header_size || data[pos as int] == 0x0d {
        Seq::empty()
    } else {
        let f = descriptor_field(data.subrange(pos as int, (pos + 32) as int));
        let rest = fields_from(data, pos + 32, header_size);
        if field_counts(f) {
            seq![f] + rest
        } else {
            rest
        }
    }
}

/// The properties of a record: the columns that fit, from `offset` on, added to `map`.
pub open spec fn fill(
    fields: Seq<FieldView>,
    rec: Seq<u8>,
    offset: nat,
    map: Seq<Entry>,
) -> Seq<Entry>
    decreases fields.len(),
{
    if fields.len() == 0 || offset + fields[0].length > rec.len() {
        map
    } else {
        let f = fields[0];
        let raw = rec.subrange(offset as int, (offset + f.length) as int);
        fill(
            fields.skip(1),
            rec,
            offset + f.length,
            json::with_entry(map, f.name, field_value(f, raw)),
        )
    }
}

/// The first `n` records; deleted ones (marked `*`) are left out.
pub open spec fn records_of(
    data: Seq<u8>,
    fields: Seq<FieldView>,
    header_size: nat,
    record_size: nat,
    n: nat,
) -> Seq<Seq<Entry>>
    decreases n,
{
    if n == 0 {
        Seq::empty()
    } else {
        let rest = records_of(data, fields, header_size, record_size, (n - 1) as nat);
        let start = (header_size + (n - 1) * record_size) as int;
        let rec = data.subrange(start, start + record_size);
        if rec[0] == 42 {
            rest
        } else {
            rest.push(fill(fields, rec, 1, Seq::empty()))
        }
    }
}

pub open spec fn record_count(data: Seq<u8>) -> nat {
    bytes::le_value(data.subrange(4, 8))
}

pub open spec fn header_size(data: Seq<u8>) -> nat {
    bytes::le_value(data.subrange(8, 10))
}

pub open spec fn record_size(data: Seq<u8>) -> nat {
    bytes::le_value(data.subrange(10, 12))
}

/// What is wrong with a file.
pub open spec fn dbf_fault(data: Seq<u8>) -> Option<Seq<char>> {
    let needed = header_size(data) + record_count(data) * record_size(data);
    if data.len() < 32 {
        Some("dbf too small"@)
    } else if header_size(data) < 33 || record_size(data) == 0 || header_size(data) > data.len() {
        Some("corrupt dbf header"@)
    } else if data.len() < needed {
        Some(
            "dbf truncated: need "@ + text::decimal(needed) + " bytes, have "@ + text::decimal(
                data.len(),
            ),
        )
    } else {
        None
    }
}

/// The column that the descriptor at `pos` declares.
fn read_descriptor(data: &[u8], pos: usize) -> (f: DbfField)
    requires
        pos + 32 <= data.len(),
    ensures
        f@ == descriptor_field(data@.subrange(pos as int, pos + 32)),
{
    let ghost d = data@.subrange(pos as int, pos + 32);
    let mut n: usize = 0;
    while n < 11 && data[pos + n] != 0
        invariant
            n <= 11,
            pos + 32 <= data.len(),
            d == data@.subrange(pos as int, pos + 32),
            name_len(d, 0) == name_len(d, n as nat),
        decreases 11 - n,
    {
        assert(d[n as int] == data@[pos + n]);
        n = n + 1;
    }
    assert(n < 11 ==> d[n as int] == data@[pos + n]);
    let raw: &[u8] = &data[pos..pos + n];
    assert(raw@ =~= d.take(n as int));
    DbfField {
        name: trim(decode_dbf_string(raw).as_str()),
        ftype: data[pos + 11],
        length: data[pos + 16] as usize,
        decimal_count: data[pos + 17],
    }
}

fn read_fields(data: &[u8], header: usize) -> (fields: Vec<DbfField>)
    requires
        33 <= header <= data.len(),
    ensures
        field_views(fields@) == fields_from(data@, 32, header as nat),
{
    let mut fields: Vec<DbfField> = Vec::new();
    let mut pos: usize = 32;
    assert(field_views(fields@) + fields_from(data@, 32, header as nat) =~= fields_from(
        data@,
        32,
        header as nat,
    ));
    while pos <= header - 1 && 32 <= header - 1 - pos && data[pos] != 0x0d
        invariant
            33 <= header <= data.len(),
            32 <= pos <= header,
            field_views(fields@) + fields_from(data@, pos as nat, header as nat) == fields_from(
                data@,
                32,
                header as nat,
            ),
        decreases header - pos,
    {
        let ghost before = field_views(fields@);
        let field = read_descriptor(data, pos);
        if !field.name.as_str().is_empty() && field.length > 0 {
            fields.push(field);
            proof {
                assert(field_views(fields@) =~= before.push(field@));
                let rest = fields_from(data@, (pos + 32) as nat, header as nat);
                assert(before + (seq![field@] + rest) =~= before.push(field@) + rest);
            }
        }
        pos = pos + 32;
    }
    assert(field_views(fields@) + Seq::<FieldView>::empty() =~= field_views(fields@));
    fields
}

fn read_record(fields: &[DbfField], rec: &[u8]) -> (map: JsonMap)
    requires
        rec@.len() >= 1,
    ensures
        map.wf(),
        map@ == fill(field_views(fields@), rec@, 1, Seq::empty()),
{
    let ghost views = field_views(fields@);
    let mut map = JsonMap::new();
    let mut offset: usize = 1;
    let mut i: usize = 0;
    assert(views.skip(0) =~= views);
    while i < fields.len()
        invariant
            i <= fields@.len(),
            views == field_views(fields@),
            1 <= offset <= rec.len(),
            map.wf(),
            fill(views.skip(i as int), rec@, offset as nat, map@) == fill(
                views,
                rec@,
                1,
                Seq::empty(),
            ),
        ensures
            map.wf(),
            map@ == fill(views, rec@, 1, Seq::empty()),
        decreases fields@.len() - i,
    {
        let field = &fields[i];
        assert(views.skip(i as int)[0] == field@);
        assert(views.skip(i as int).skip(1) =~= views.skip(i + 1));
        if field.length > rec.len() - offset {
            break;
        }
        let end: usize = offset + field.length;
        let raw: &[u8] = &rec[offset..end];
        assert(raw@ =~= rec@.subrange(offset as int, end as int));
        map.insert(field.name.clone(), decode_field(field, raw));
        offset = end;
        i = i + 1;
    }
    map
}

/// Parses a `.dbf` file into a schema and records.
pub fn parse_dbf(data: &[u8]) -> (r: IngestResult<DbfTable>)
    ensures
        match dbf_fault(data@) {
            Some(msg) => r matches Err(e) && e.is_shapefile(msg),
            None => {
                &&& r matches Ok(table)
                &&& field_views(table.fields@) == fields_from(data@, 32, header_size(data@))
                &&& record_views(table.records@) == records_of(
                    data@,
                    fields_from(data@, 32, header_size(data@)),
                    header_size(data@),
                    record_size(data@),
                    record_count(data@),
                )
                &&& forall|i: int| 0 <= i < table.records@.len() ==> (#[trigger] table.records@[i]).wf()
            },
        },
{
    if data.len() < 32 {
        return Err(IngestError::InvalidShapefile("dbf too small".to_string()));
    }
    let count: u64 = read_le(data, 4, 4);
    let header: u64 = read_le(data, 8, 2);
    let size: u64 = read_le(data, 10, 2);
    proof {
        reveal_with_fuel(bytes::pow256, 5);
    }
    if header < 33 || size == 0 || header > data.len() as u64 {
        return Err(IngestError::InvalidShapefile("corrupt dbf header".to_string()));
    }
    let header: usize = header as usize;
    let size: usize = size as usize;
    let fields = read_fields(data, header);
    proof {
        assert(0 <= count * size <= 0xffff_ffff * 0xffff) by (nonlinear_arith)
            requires
                0 <= count <= 0xffff_ffff,
                0 <= size <= 0xffff,
        ;
    }
    let needed: u64 = header as u64 + count * size as u64;
    if (data.len() as u64) < needed {
        let mut msg = String::from_str("dbf truncated: need ");
        msg.append(decimal_text(needed).as_str());
        msg.append(" bytes, have ");
        msg.append(decimal_text(data.len() as u64).as_str());
        return Err(IngestError::InvalidShapefile(msg));
    }
    let ghost views = field_views(fields@);
    let mut records: Vec<JsonMap> = Vec::new();
    let mut i: u64 = 0;
    let mut start: usize = header;
    assert(record_views(records@) =~= records_of(data@, views, header as nat, size as nat, 0));
    while i < count
        invariant
            i <= count <= 0xffff_ffff,
            1 <= size <= 0xffff,
            header + count * size <= data.len(),
            start == header + i * size,
            views == field_views(fields@),
            record_views(records@) == records_of(
                data@,
                views,
                header as nat,
                size as nat,
                i as nat,
            ),
            forall|k: int| 0 <= k < records@.len() ==> (#[trigger] records@[k]).wf(),
        decreases count - i,
    {
        proof {
            assert(i * size + size <= count * size) by (nonlinear_arith)
                requires
                    0 <= i < count,
                    0 <= size,
            ;
            assert((i + 1) * size == i * size + size) by (nonlinear_arith);
        }
        let rec: &[u8] = &data[start..start + size];
        assert(rec@ =~= data@.subrange(start as int, start + size));
        if rec[0] != 42 {
            let map = read_record(fields.as_slice(), rec);
            let ghost before = record_views(records@);
            records.push(map);
            assert(record_views(records@) =~= before.push(map@));
        }
        start = start + size;
        i = i + 1;
    }
    Ok(DbfTable { fields, records })
}

} // verus!
