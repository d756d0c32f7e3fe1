//! Minimal Protocol Buffers wire-format writer scoped to the vector-tile schema.
//!
//! Vector tiles are `vector_tile.Tile` messages (proto2). The schema is tiny and frozen, so the
//! wire format is written directly:
//!
//! ```proto
//! message Tile {
//!   message Value {
//!     optional string string_value = 1;
//!     optional float  float_value  = 2;
//!     optional double double_value = 3;
//!     optional int64  int_value    = 4;
//!     optional uint64 uint_value   = 5;
//!     optional sint64 sint_value   = 6;
//!     optional bool   bool_value   = 7;
//!   }
//!   message Feature {
//!     optional uint64 id       = 1;
//!     repeated uint32 tags     = 2 [packed = true];
//!     optional GeomType type   = 3;
//!     repeated uint32 geometry = 4 [packed = true];
//!   }
//!   message Layer {
//!     required uint32 version  = 15;
//!     required string name     = 1;
//!     repeated Feature features = 2;
//!     repeated string keys     = 3;
//!     repeated Value values    = 4;
//!     optional uint32 extent   = 5;
//!   }
//!   repeated Layer layers = 3;
//! }
//! ```
use vstd::prelude::*;
use crate::bytes::push_le;

verus! {

/// Wire type 0: base-128 varint.
pub const WIRE_VARINT: u8 = 0;

/// Wire type 1: fixed 64-bit.
pub const WIRE_64BIT: u8 = 1;

/// Wire type 2: length-delimited.
pub const WIRE_LEN: u8 = 2;

/// Wire type 5: fixed 32-bit.
pub const WIRE_32BIT: u8 = 5;

/// The base-128 varint of `v`: seven bits per byte, low group first, the high bit set on every
/// byte but the last.
pub open spec fn varint(v: nat) -> Seq<u8>
    decreases v,
{
    if v < 128 {
        seq![v as u8]
    } else {
        seq![(v % 128 + 128) as u8] + varint(v / 128)
    }
}

/// The varints of `values`, one after the other.
pub open spec fn packed(values: Seq<u32>) -> Seq<u8>
    decreases values.len(),
{
    if values.len() == 0 {
        Seq::empty()
    } else {
        packed(values.drop_last()) + varint(values.last() as nat)
    }
}

/// The number that stands in front of a field: the field number shifted left by three bits, the
/// wire type in the low ones.
pub open spec fn tag_key(field: u32, wire: u8) -> u32 {
    (field << 3) | (wire as u32)
}

/// ZigZag numbering of the signed numbers: 0, -1, 1, -2, 2, ...
pub open spec fn zigzag(v: int) -> nat {
    if v >= 0 {
        (2 * v) as nat
    } else {
        (-2 * v - 1) as nat
    }
}

/// The signed number at a place of the ZigZag numbering.
pub open spec fn unzigzag(u: nat) -> int {
    if u % 2 == 0 {
        (u / 2) as int
    } else {
        -((u / 2) as int) - 1
    }
}

/// Two's complement of a signed 64-bit number, read as an unsigned one.
pub open spec fn twos_complement64(v: i64) -> nat {
    if v >= 0 {
        v as nat
    } else {
        (v + 0x1_0000_0000_0000_0000) as nat
    }
}

pub open spec fn tag_bytes(field: u32, wire: u8) -> Seq<u8> {
    varint(tag_key(field, wire) as nat)
}

/// A field of wire type 0.
pub open spec fn varint_field_bytes(field: u32, v: nat) -> Seq<u8> {
    tag_bytes(field, WIRE_VARINT) + varint(v)
}

/// A field of wire type 2.
pub open spec fn len_field_bytes(field: u32, data: Seq<u8>) -> Seq<u8> {
    tag_bytes(field, WIRE_LEN) + varint(data.len()) + data
}

/// A field of wire type 1.
pub open spec fn fixed64_field_bytes(field: u32, bits: nat) -> Seq<u8> {
    tag_bytes(field, WIRE_64BIT) + crate::bytes::le_bytes(bits, 8)
}

/// A field of wire type 5.
pub open spec fn fixed32_field_bytes(field: u32, bits: nat) -> Seq<u8> {
    tag_bytes(field, WIRE_32BIT) + crate::bytes::le_bytes(bits, 4)
}

/// For the field numbers and wire types of the format a tag is `8 * field + wire`.
pub proof fn tag_key_value(field: u32, wire: u8)
    requires
        field < 0x2000_0000,
        wire < 8,
    ensures
        tag_key(field, wire) == 8 * field + wire,
{
    assert(((field << 3) | (wire as u32)) == 8 * field + wire) by (bit_vector)
        requires
            field < 0x2000_0000,
            wire < 8,
    ;
}

/// ZigZag numbering loses nothing.
pub proof fn unzigzag_of_zigzag(v: int)
    ensures
        unzigzag(zigzag(v)) == v,
{
}

/// Append-only protobuf buffer writer.
#[derive(Debug)]
pub struct PbfWriter {
    buf: Vec<u8>,
}

impl View for PbfWriter {
    type V = Seq<u8>;

    closed spec fn view(&self) -> Seq<u8> {
        self.buf@
    }
}

impl Default for PbfWriter {
    fn default() -> (w: Self)
        ensures
            w@ == Seq::<u8>::empty(),
    {
        PbfWriter { buf: Vec::new() }
    }
}

impl PbfWriter {
    pub fn new() -> (w: Self)
        ensures
            w@ == Seq::<u8>::empty(),
    {
        PbfWriter { buf: Vec::new() }
    }

    pub fn with_capacity(cap: usize) -> (w: Self)
        ensures
            w@ == Seq::<u8>::empty(),
    {
        PbfWriter { buf: Vec::with_capacity(cap) }
    }

    pub fn into_bytes(self) -> (bytes: Vec<u8>)
        ensures
            bytes@ == self@,
    {
        self.buf
    }

    pub fn as_bytes(&self) -> (bytes: &[u8])
        ensures
            bytes@ == self@,
    {
        self.buf.as_slice()
    }

    pub fn len(&self) -> (n: usize)
        ensures
            n == self@.len(),
    {
        self.buf.len()
    }

    pub fn is_empty(&self) -> (b: bool)
        ensures
            b == (self@.len() == 0),
    {
        self.buf.len() == 0
    }

    /// Writes an unsigned base-128 varint.
    pub fn write_varint(&mut self, v: u64)
        ensures
            final(self)@ == old(self)@ + varint(v as nat),
    {
        let mut rest: u64 = v;
        while rest >= 128
            invariant
                self@ + varint(rest as nat) == old(self)@ + varint(v as nat),
            decreases rest,
        {
            let ghost before = self@;
            self.buf.push((rest % 128) as u8 + 128);
            assert(self@ + varint((rest / 128) as nat) =~= before + varint(rest as nat));
            rest = rest / 128;
        }
        let ghost before = self@;
        self.buf.push(rest as u8);
        assert(self@ =~= before + varint(rest as nat));
    }

    /// ZigZag encoding for signed 32-bit values (sint32).
    pub fn zigzag32(v: i32) -> (u: u32)
        ensures
            u == zigzag(v as int),
    {
        if v >= 0 {
            2 * (v as u32)
        } else {
            2 * ((-(v + 1)) as u32) + 1
        }
    }

    /// ZigZag encoding for signed 64-bit values (sint64).
    pub fn zigzag64(v: i64) -> (u: u64)
        ensures
            u == zigzag(v as int),
    {
        if v >= 0 {
            2 * (v as u64)
        } else {
            2 * ((-(v + 1)) as u64) + 1
        }
    }

    /// Writes a field key `(field_number << 3) | wire_type`.
    pub fn write_tag(&mut self, field: u32, wire: u8)
        ensures
            final(self)@ == old(self)@ + tag_bytes(field, wire),
    {
        self.write_varint(((field << 3) | wire as u32) as u64);
    }

    pub fn varint_field(&mut self, field: u32, v: u64)
        ensures
            final(self)@ == old(self)@ + varint_field_bytes(field, v as nat),
    {
        self.write_tag(field, WIRE_VARINT);
        self.write_varint(v);
    }

    pub fn bool_field(&mut self, field: u32, v: bool)
        ensures
            final(self)@ == old(self)@ + varint_field_bytes(
                field,
                if v {
                    1
                } else {
                    0
                },
            ),
    {
        self.varint_field(
            field,
            if v {
                1
            } else {
                0
            },
        );
    }

    /// `sint64` field (ZigZag varint).
    pub fn sint_field(&mut self, field: u32, v: i64)
        ensures
            final(self)@ == old(self)@ + varint_field_bytes(field, zigzag(v as int)),
    {
        self.varint_field(field, Self::zigzag64(v));
    }

    /// `int64` field. Negative values encode as 64-bit two's complement, matching the proto2
    /// semantics of the `int_value` field.
    pub fn int64_field(&mut self, field: u32, v: i64)
        ensures
            final(self)@ == old(self)@ + varint_field_bytes(field, twos_complement64(v)),
    {
        let u: u64 = if v >= 0 {
            v as u64
        } else {
            u64::MAX - ((-(v + 1)) as u64)
        };
        self.varint_field(field, u);
    }

    /// `double` field, given by the bit pattern of the number.
    pub fn double_field(&mut self, field: u32, bits: u64)
        ensures
            final(self)@ == old(self)@ + fixed64_field_bytes(field, bits as nat),
    {
        self.write_tag(field, WIRE_64BIT);
        push_le(&mut self.buf, bits, 8);
    }

    /// `float` field, given by the bit pattern of the number.
    pub fn float_field(&mut self, field: u32, bits: u32)
        ensures
            final(self)@ == old(self)@ + fixed32_field_bytes(field, bits as nat),
    {
        self.write_tag(field, WIRE_32BIT);
        push_le(&mut self.buf, bits as u64, 4);
    }

    pub fn bytes_field(&mut self, field: u32, data: &[u8])
        ensures
            final(self)@ == old(self)@ + len_field_bytes(field, data@),
    {
        self.write_tag(field, WIRE_LEN);
        self.write_varint(data.len() as u64);
        self.buf.extend_from_slice(data);
        assert(self@ =~= old(self)@ + len_field_bytes(field, data@));
    }

    pub fn string_field(&mut self, field: u32, s: &str)
        ensures
            final(self)@ == old(self)@ + len_field_bytes(field, vstd::utf8::encode_utf8(s@)),
    {
        self.bytes_field(field, s.as_bytes());
    }

    /// Packed repeated varint field (used for `Feature.tags` and `Feature.geometry`).
    pub fn packed_varint_field(&mut self, field: u32, values: &[u32])
        ensures
            final(self)@ == old(self)@ + len_field_bytes(field, packed(values@)),
    {
        let mut tmp = PbfWriter::new();
        let mut i: usize = 0;
        while i < values.len()
            invariant
                i <= values@.len(),
                tmp@ == packed(values@.take(i as int)),
            decreases values@.len() - i,
        {
            tmp.write_varint(values[i] as u64);
            assert(values@.take(i + 1).drop_last() =~= values@.take(i as int));
            i = i + 1;
        }
        assert(values@.take(i as int) =~= values@);
        self.bytes_field(field, tmp.as_bytes());
    }

    /// Writes a nested message field: the closure fills a scratch buffer that is then written
    /// length-prefixed.
    pub fn message_field<F: FnOnce(&mut PbfWriter)>(&mut self, field: u32, build: F)
        requires
            forall|w: &mut PbfWriter| (*w)@.len() == 0 ==> build.requires((w,)),
        ensures
            exists|w: &mut PbfWriter|
                #![auto]
                build.ensures((w,), ()) && (*w)@.len() == 0 && final(self)@ == old(self)@
                    + len_field_bytes(field, (*final(w))@),
    {
        let mut tmp = PbfWriter::new();
        build(&mut tmp);
        self.bytes_field(field, tmp.as_bytes());
    }
}

} // verus!
