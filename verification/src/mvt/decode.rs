//! Minimal tile decoder.
//!
//! Read-only and structural: it walks the protobuf wire format and extracts layer and feature
//! metadata without interpreting the geometry command streams.
use vstd::prelude::*;
use crate::error::{Result, TileError};
use crate::mvt::pbf::{WIRE_32BIT, WIRE_64BIT, WIRE_LEN, WIRE_VARINT};
use crate::text;
use crate::text::{decimal_text, from_utf8_lossy, join2};
use crate::gzip;
use vstd::string::*;

verus! {

/// What can be wrong with a protobuf message.
pub enum Fault {
    VarintPastEnd,
    VarintTooLong,
    LengthPastEnd,
    TruncatedFixed64,
    TruncatedFixed32,
    WireType(u8),
}

/// The text of a fault.
pub open spec fn fault_text(fault: Fault) -> Seq<char> {
    match fault {
        Fault::VarintPastEnd => "varint runs past end of buffer"@,
        Fault::VarintTooLong => "varint longer than 64 bits"@,
        Fault::LengthPastEnd => "length-delimited field exceeds buffer"@,
        Fault::TruncatedFixed64 => "truncated fixed64"@,
        Fault::TruncatedFixed32 => "truncated fixed32"@,
        Fault::WireType(wire) => "unsupported wire type "@ + text::decimal(wire as nat),
    }
}

/// The number that the seven-bit groups at the front of `s` spell and how many bytes they take,
/// where `k` groups went before: ten groups are the most.
pub open spec fn groups(s: Seq<u8>, k: nat) -> core::result::Result<(nat, nat), Fault>
    decreases s.len(),
{
    if s.len() == 0 {
        Err(Fault::VarintPastEnd)
    } else if s[0] < 128 {
        Ok((s[0] as nat, 1))
    } else if k >= 9 {
        Err(Fault::VarintTooLong)
    } else {
        match groups(s.skip(1), k + 1) {
            Ok((v, n)) => Ok(((s[0] - 128 + 128 * v) as nat, n + 1)),
            Err(fault) => Err(fault),
        }
    }
}

/// The varint at the front of `s`, reduced to 64 bits, and how many bytes it takes.
pub open spec fn varint_at(s: Seq<u8>) -> core::result::Result<(u64, nat), Fault> {
    match groups(s, 0) {
        Ok((v, n)) => Ok(((v % 0x1_0000_0000_0000_0000) as u64, n)),
        Err(fault) => Err(fault),
    }
}

/// A field of a message: its number, wire type, and what it holds.
pub enum Payload {
    Varint(u64),
    Fixed,
    Bytes(Seq<u8>),
}

pub struct Field {
    pub number: u32,
    pub payload: Payload,
}

/// The payload of the given wire type at the front of `s`, and how many bytes it takes.
pub open spec fn payload_at(s: Seq<u8>, wire: u8) -> core::result::Result<(Payload, nat), Fault> {
    if wire == WIRE_VARINT {
        match varint_at(s) {
            Ok((v, n)) => Ok((Payload::Varint(v), n)),
            Err(fault) => Err(fault),
        }
    } else if wire == WIRE_64BIT {
        if s.len() < 8 {
            Err(Fault::TruncatedFixed64)
        } else {
            Ok((Payload::Fixed, 8))
        }
    } else if wire == WIRE_LEN {
        match varint_at(s) {
            Ok((len, n)) => if s.len() - n < len {
                Err(Fault::LengthPastEnd)
            } else {
                Ok((Payload::Bytes(s.subrange(n as int, n + len)), (n + len) as nat))
            },
            Err(fault) => Err(fault),
        }
    } else if wire == WIRE_32BIT {
        if s.len() < 4 {
            Err(Fault::TruncatedFixed32)
        } else {
            Ok((Payload::Fixed, 4))
        }
    } else {
        Err(Fault::WireType(wire))
    }
}

/// The field number in a tag, of which 32 bits count.
pub open spec fn tag_number(key: u64) -> u32 {
    ((key / 8) % 0x1_0000_0000) as u32
}

/// The wire type in a tag.
pub open spec fn tag_wire(key: u64) -> u8 {
    (key % 8) as u8
}

/// The field at the front of `s` and how many bytes it takes.
#[verifier::opaque]
pub open spec fn field_at(s: Seq<u8>) -> core::result::Result<(Field, nat), Fault> {
    match varint_at(s) {
        Ok((key, n)) => match payload_at(s.skip(n as int), tag_wire(key)) {
            Ok((payload, m)) => Ok((Field { number: tag_number(key), payload }, n + m)),
            Err(fault) => Err(fault),
        },
        Err(fault) => Err(fault),
    }
}

/// How many varints `s` is made of.
pub open spec fn varint_count(s: Seq<u8>) -> core::result::Result<nat, Fault>
    decreases s.len(),
{
    if s.len() == 0 {
        Ok(0)
    } else {
        match varint_at(s) {
            Ok((v, n)) => {
                proof {
                    groups_consume(s, 0);
                }
                match varint_count(s.skip(n as int)) {
                    Ok(c) => Ok(c + 1),
                    Err(fault) => Err(fault),
                }
            },
            Err(fault) => Err(fault),
        }
    }
}

pub proof fn groups_consume(s: Seq<u8>, k: nat)
    ensures
        groups(s, k) matches Ok((v, n)) ==> 1 <= n <= s.len(),
    decreases s.len(),
{
    if s.len() > 0 {
        groups_consume(s.skip(1), k + 1);
    }
}

pub proof fn field_consumes(s: Seq<u8>)
    ensures
        field_at(s) matches Ok((field, n)) ==> 1 <= n <= s.len(),
        field_at(s) matches Ok((field, n)) ==> (field.payload matches Payload::Bytes(b) ==> b.len()
            <= n),
{
    reveal(field_at);
    groups_consume(s, 0);
    if let Ok((key, n)) = varint_at(s) {
        groups_consume(s.skip(n as int), 0);
    }
}

pub proof fn varint_count_bound(s: Seq<u8>)
    ensures
        varint_count(s) matches Ok(c) ==> c <= s.len(),
    decreases s.len(),
{
    if s.len() > 0 {
        groups_consume(s, 0);
        if let Ok((v, n)) = varint_at(s) {
            varint_count_bound(s.skip(n as int));
        }
    }
}

/// What a feature message says.
pub struct FeatureInfo {
    pub id: Option<u64>,
    pub geom_type: u32,
    pub commands: nat,
}

/// A feature message of which nothing has been read.
pub open spec fn no_feature() -> FeatureInfo {
    FeatureInfo { id: None, geom_type: 0, commands: 0 }
}

/// What is known of a feature after one more field.
pub open spec fn feature_field(info: FeatureInfo, field: Field) -> core::result::Result<
    FeatureInfo,
    Fault,
> {
    match field.payload {
        Payload::Varint(v) => if field.number == 1 {
            Ok(FeatureInfo { id: Some(v), ..info })
        } else if field.number == 3 {
            Ok(FeatureInfo { geom_type: (v % 0x1_0000_0000) as u32, ..info })
        } else {
            Ok(info)
        },
        Payload::Bytes(b) => if field.number == 4 {
            match varint_count(b) {
                Ok(c) => Ok(FeatureInfo { commands: info.commands + c, ..info }),
                Err(fault) => Err(fault),
            }
        } else {
            Ok(info)
        },
        Payload::Fixed => Ok(info),
    }
}

/// What a feature message says, where `info` was read before `s`.
pub open spec fn feature_from(s: Seq<u8>, info: FeatureInfo) -> core::result::Result<
    FeatureInfo,
    Fault,
>
    decreases s.len(),
{
    if s.len() == 0 {
        Ok(info)
    } else {
        match field_at(s) {
            Ok((field, n)) => {
                proof {
                    field_consumes(s);
                }
                match feature_field(info, field) {
                    Ok(next) => feature_from(s.skip(n as int), next),
                    Err(fault) => Err(fault),
                }
            },
            Err(fault) => Err(fault),
        }
    }
}

/// What a layer message says.
#[verifier::ext_equal]
pub struct LayerInfo {
    pub name: Seq<char>,
    pub version: u32,
    pub extent: u32,
    pub keys: Seq<Seq<char>>,
    pub value_count: nat,
    pub feature_ids: Seq<Option<u64>>,
    pub geom_types: Seq<u32>,
    pub commands: nat,
}

/// A layer message of which nothing has been read.
pub open spec fn no_layer() -> LayerInfo {
    LayerInfo {
        name: Seq::empty(),
        version: 0,
        extent: 0,
        keys: Seq::empty(),
        value_count: 0,
        feature_ids: Seq::empty(),
        geom_types: Seq::empty(),
        commands: 0,
    }
}

/// What is known of a layer after one more feature.
pub open spec fn with_feature(info: LayerInfo, f: FeatureInfo) -> LayerInfo {
    LayerInfo {
        feature_ids: info.feature_ids.push(f.id),
        geom_types: info.geom_types.push(f.geom_type),
        commands: info.commands + f.commands,
        ..info
    }
}

/// What is known of a layer after one more field.
pub open spec fn layer_field(info: LayerInfo, field: Field) -> core::result::Result<
    LayerInfo,
    Fault,
> {
    match field.payload {
        Payload::Varint(v) => if field.number == 5 {
            Ok(LayerInfo { extent: (v % 0x1_0000_0000) as u32, ..info })
        } else if field.number == 15 {
            Ok(LayerInfo { version: (v % 0x1_0000_0000) as u32, ..info })
        } else {
            Ok(info)
        },
        Payload::Bytes(b) => if field.number == 1 {
            Ok(LayerInfo { name: text::utf8_lossy(b), ..info })
        } else if field.number == 2 {
            match feature_from(b, no_feature()) {
                Ok(f) => Ok(with_feature(info, f)),
                Err(fault) => Err(fault),
            }
        } else if field.number == 3 {
            Ok(LayerInfo { keys: info.keys.push(text::utf8_lossy(b)), ..info })
        } else if field.number == 4 {
            Ok(LayerInfo { value_count: info.value_count + 1, ..info })
        } else {
            Ok(info)
        },
        Payload::Fixed => Ok(info),
    }
}

/// What a layer message says, where `info` was read before `s`.
pub open spec fn layer_from(s: Seq<u8>, info: LayerInfo) -> core::result::Result<LayerInfo, Fault>
    decreases s.len(),
{
    if s.len() == 0 {
        Ok(info)
    } else {
        match field_at(s) {
            Ok((field, n)) => {
                proof {
                    field_consumes(s);
                }
                match layer_field(info, field) {
                    Ok(next) => layer_from(s.skip(n as int), next),
                    Err(fault) => Err(fault),
                }
            },
            Err(fault) => Err(fault),
        }
    }
}

/// The layers of a tile message, where `layers` were read before `s`.
pub open spec fn tile_from(s: Seq<u8>, layers: Seq<LayerInfo>) -> core::result::Result<
    Seq<LayerInfo>,
    Fault,
>
    decreases s.len(),
{
    if s.len() == 0 {
        Ok(layers)
    } else {
        match field_at(s) {
            Ok((field, n)) => {
                proof {
                    field_consumes(s);
                }
                match field.payload {
                    Payload::Bytes(b) => if field.number == 3 {
                        match layer_from(b, no_layer()) {
                            Ok(info) => tile_from(s.skip(n as int), layers.push(info)),
                            Err(fault) => Err(fault),
                        }
                    } else {
                        tile_from(s.skip(n as int), layers)
                    },
                    _ => tile_from(s.skip(n as int), layers),
                }
            },
            Err(fault) => Err(fault),
        }
    }
}

/// Cursor over a byte slice for wire-format parsing.
struct Reader<'a> {
    data: &'a [u8],
    pos: usize,
}

impl<'a> Reader<'a> {
    spec fn wf(&self) -> bool {
        self.pos <= self.data.len()
    }

    /// The bytes not yet read.
    spec fn rest(&self) -> Seq<u8> {
        self.data@.skip(self.pos as int)
    }

    fn new(data: &'a [u8]) -> (r: Self)
        ensures
            r.wf(),
            r.rest() == data@,
            r.data == data,
            r.pos == 0,
    {
        assert(data@.skip(0) =~= data@);
        Reader { data, pos: 0 }
    }

    fn remaining(&self) -> (n: usize)
        requires
            self.wf(),
        ensures
            n == self.rest().len(),
    {
        self.data.len() - self.pos
    }

    fn read_varint(&mut self) -> (r: Result<u64>)
        requires
            old(self).wf(),
        ensures
            final(self).wf(),
            final(self).data == old(self).data,
            match varint_at(old(self).rest()) {
                Ok((v, n)) => r == Result::<u64>::Ok(v) && final(self).pos == old(self).pos + n,
                Err(fault) => r matches Err(e) && e.is_encoding(fault_text(fault)),
            },
    {
        let mut result: u128 = 0;
        let mut scale: u128 = 1;
        let mut k: u32 = 0;
        let ghost start = self.rest();
        let ghost pos0 = self.pos;
        proof {
            groups_consume(start, 0);
        }
        loop
            invariant
                self.wf(),
                self.data == old(self).data,
                start == old(self).rest(),
                pos0 == old(self).pos,
                self.pos == pos0 + k,
                start.skip(k as int) =~= self.rest(),
                k <= 9,
                scale == pow128(k as nat),
                result < scale,
                match groups(self.rest(), k as nat) {
                    Ok((v, n)) => groups(start, 0) == core::result::Result::<(nat, nat), Fault>::Ok(
                        ((result + scale * v) as nat, (k + n) as nat),
                    ),
                    Err(fault) => groups(start, 0) == core::result::Result::<(nat, nat), Fault>::Err(
                        fault,
                    ),
                },
            decreases 10 - k,
        {
            proof {
                pow128_values();
                pow128_mono(k as nat, 9);
            }
            if self.pos >= self.data.len() {
                return Err(
                    TileError::Encoding(String::from_str("varint runs past end of buffer")),
                );
            }
            let byte: u8 = self.data[self.pos];
            let ghost before = self.rest();
            assert(before[0] == byte);
            self.pos = self.pos + 1;
            if byte < 128 {
                proof {
                    assert(scale * (byte as nat) <= scale * 127) by (nonlinear_arith)
                        requires
                            byte < 128,
                            scale >= 0,
                    ;
                }
                let total: u128 = result + scale * (byte as u128);
                return Ok((total % 0x1_0000_0000_0000_0000) as u64);
            }
            if k == 9 {
                return Err(TileError::Encoding(String::from_str("varint longer than 64 bits")));
            }
            proof {
                assert(before.skip(1) =~= self.rest());
                let low = (byte - 128) as nat;
                assert(scale * low <= scale * 127) by (nonlinear_arith)
                    requires
                        low < 128,
                        scale >= 0,
                ;
                if let Ok((v, n)) = groups(self.rest(), (k + 1) as nat) {
                    assert(scale * (byte - 128 + 128 * v) == scale * (byte - 128) + (128 * scale)
                        * v) by (nonlinear_arith);
                }
            }
            result = result + scale * ((byte - 128) as u128);
            scale = 128 * scale;
            k = k + 1;
        }
    }

    fn read_tag(&mut self) -> (r: Result<(u32, u8)>)
        requires
            old(self).wf(),
        ensures
            final(self).wf(),
            final(self).data == old(self).data,
            match varint_at(old(self).rest()) {
                Ok((key, n)) => r == Result::<(u32, u8)>::Ok((tag_number(key), tag_wire(key)))
                    && final(self).pos == old(self).pos + n,
                Err(fault) => r matches Err(e) && e.is_encoding(fault_text(fault)),
            },
    {
        let key: u64 = self.read_varint()?;
        Ok((((key / 8) % 0x1_0000_0000) as u32, (key % 8) as u8))
    }

    fn read_bytes(&mut self) -> (r: Result<&'a [u8]>)
        requires
            old(self).wf(),
        ensures
            final(self).wf(),
            final(self).data == old(self).data,
            match payload_at(old(self).rest(), WIRE_LEN) {
                Ok((payload, n)) => r matches Ok(b) && payload == Payload::Bytes(b@)
                    && final(self).pos == old(self).pos + n,
                Err(fault) => r matches Err(e) && e.is_encoding(fault_text(fault)),
            },
    {
        proof {
            groups_consume(self.rest(), 0);
        }
        let ghost start = self.rest();
        let ghost pos0 = self.pos;
        let len: u64 = self.read_varint()?;
        if (self.remaining() as u64) < len {
            return Err(
                TileError::Encoding(String::from_str("length-delimited field exceeds buffer")),
            );
        }
        let end: usize = self.pos + len as usize;
        let out: &'a [u8] = &self.data[self.pos..end];
        proof {
            let n = self.pos - pos0;
            assert(out@ =~= start.subrange(n, n + len));
        }
        self.pos = end;
        Ok(out)
    }

    fn skip(&mut self, wire: u8) -> (r: Result<()>)
        requires
            old(self).wf(),
        ensures
            final(self).wf(),
            final(self).data == old(self).data,
            match payload_at(old(self).rest(), wire) {
                Ok((payload, n)) => r == Result::<()>::Ok(()) && final(self).pos == old(self).pos + n,
                Err(fault) => r matches Err(e) && e.is_encoding(fault_text(fault)),
            },
    {
        if wire == WIRE_VARINT {
            let _ = self.read_varint()?;
        } else if wire == WIRE_64BIT {
            if self.remaining() < 8 {
                return Err(TileError::Encoding(String::from_str("truncated fixed64")));
            }
            self.pos = self.pos + 8;
        } else if wire == WIRE_LEN {
            let _ = self.read_bytes()?;
        } else if wire == WIRE_32BIT {
            if self.remaining() < 4 {
                return Err(TileError::Encoding(String::from_str("truncated fixed32")));
            }
            self.pos = self.pos + 4;
        } else {
            return Err(
                TileError::Encoding(
                    join2("unsupported wire type ", decimal_text(wire as u64).as_str()),
                ),
            );
        }
        Ok(())
    }
}

/// 128 to the power `n`.
pub open spec fn pow128(n: nat) -> nat
    decreases n,
{
    if n == 0 {
        1
    } else {
        128 * pow128((n - 1) as nat)
    }
}

pub proof fn pow128_values()
    ensures
        pow128(9) == 0x8000_0000_0000_0000,
{
    reveal_with_fuel(pow128, 10);
}

pub proof fn pow128_mono(a: nat, b: nat)
    requires
        a <= b,
    ensures
        pow128(a) <= pow128(b),
    decreases b,
{
    if a < b {
        pow128_mono(a, (b - 1) as nat);
    }
}

/// A decoded layer summary.
#[derive(Debug, Clone)]
pub struct DecodedLayer {
    pub name: String,
    pub version: u32,
    pub extent: u32,
    pub feature_count: usize,
    pub keys: Vec<String>,
    pub value_count: usize,
    pub feature_ids: Vec<Option<u64>>,
    /// Raw enum values of `Feature.type` per feature.
    pub geom_types: Vec<u32>,
    /// Total number of geometry command integers across features.
    pub geometry_command_count: usize,
}

impl View for DecodedLayer {
    type V = LayerInfo;

    open spec fn view(&self) -> LayerInfo {
        LayerInfo {
            name: self.name@,
            version: self.version,
            extent: self.extent,
            keys: self.keys@.map_values(|k: String| k@),
            value_count: self.value_count as nat,
            feature_ids: self.feature_ids@,
            geom_types: self.geom_types@,
            commands: self.geometry_command_count as nat,
        }
    }
}

impl DecodedLayer {
    /// The number of features is the number of ids and of geometry types.
    pub open spec fn wf(&self) -> bool {
        self.feature_count == self.feature_ids@.len() && self.feature_count
            == self.geom_types@.len()
    }
}

impl Default for DecodedLayer {
    fn default() -> (layer: Self)
        ensures
            layer@ == no_layer(),
            layer.wf(),
    {
        let layer = DecodedLayer {
            name: String::new(),
            version: 0,
            extent: 0,
            feature_count: 0,
            keys: Vec::new(),
            value_count: 0,
            feature_ids: Vec::new(),
            geom_types: Vec::new(),
            geometry_command_count: 0,
        };
        assert(layer@ =~= no_layer());
        layer
    }
}

/// A decoded tile summary.
#[derive(Debug)]
pub struct DecodedTile {
    pub layers: Vec<DecodedLayer>,
}

impl View for DecodedTile {
    type V = Seq<LayerInfo>;

    open spec fn view(&self) -> Seq<LayerInfo> {
        self.layers@.map_values(|l: DecodedLayer| l@)
    }
}

impl Default for DecodedTile {
    fn default() -> (tile: Self)
        ensures
            tile@ == Seq::<LayerInfo>::empty(),
            tile.layers@.len() == 0,
    {
        let tile = DecodedTile { layers: Vec::new() };
        assert(tile@ =~= Seq::<LayerInfo>::empty());
        tile
    }
}

/// The number of varints in a packed field.
fn count_varints(data: &[u8]) -> (r: Result<usize>)
    ensures
        match varint_count(data@) {
            Ok(c) => r matches Ok(count) && count == c,
            Err(fault) => r matches Err(e) && e.is_encoding(fault_text(fault)),
        },
{
    let mut r = Reader::new(data);
    let mut count: usize = 0;
    while r.remaining() > 0
        invariant
            r.wf(),
            r.data == data,
            count <= r.pos,
            match varint_count(r.rest()) {
                Ok(c) => varint_count(data@) == core::result::Result::<nat, Fault>::Ok(
                    (count + c) as nat,
                ),
                Err(fault) => varint_count(data@) == core::result::Result::<nat, Fault>::Err(fault),
            },
        decreases r.rest().len(),
    {
        let ghost before = r;
        proof {
            groups_consume(r.rest(), 0);
        }
        let _ = r.read_varint()?;
        assert(before.rest().skip(r.pos - before.pos) =~= r.rest());
        count = count + 1;
    }
    Ok(count)
}

fn decode_feature(data: &[u8], layer: &mut DecodedLayer) -> (r: Result<()>)
    requires
        old(layer).wf(),
        old(layer).geometry_command_count + data@.len() <= usize::MAX,
        old(layer).feature_count < usize::MAX,
    ensures
        match feature_from(data@, no_feature()) {
            Ok(info) => {
                &&& r == Result::<()>::Ok(())
                &&& final(layer)@ == with_feature(old(layer)@, info)
                &&& final(layer).wf()
                &&& info.commands <= data@.len()
            },
            Err(fault) => r matches Err(e) && e.is_encoding(fault_text(fault)),
        },
{
    let mut r = Reader::new(data);
    let mut id: Option<u64> = None;
    let mut geom_type: u32 = 0;
    let mut cmd_count: usize = 0;
    while r.remaining() > 0
        invariant
            r.wf(),
            r.data == data,
            cmd_count <= r.pos,
            feature_from(
                r.rest(),
                FeatureInfo { id, geom_type, commands: cmd_count as nat },
            ) == feature_from(data@, no_feature()),
        decreases r.rest().len(),
    {
        let ghost before = r;
        let ghost info = FeatureInfo { id, geom_type, commands: cmd_count as nat };
        proof {
            reveal(field_at);
            field_consumes(r.rest());
            groups_consume(r.rest(), 0);
        }
        let (field, wire) = r.read_tag()?;
        let ghost mid = r;
        proof {
            assert(before.rest().skip(mid.pos - before.pos) =~= mid.rest());
            groups_consume(mid.rest(), 0);
        }
        if field == 1 && wire == WIRE_VARINT {
            id = Some(r.read_varint()?);
        } else if field == 3 && wire == WIRE_VARINT {
            let v: u64 = r.read_varint()?;
            geom_type = (v % 0x1_0000_0000) as u32;
        } else if field == 4 && wire == WIRE_LEN {
            let packed = r.read_bytes()?;
            proof {
                varint_count_bound(packed@);
            }
            let more: usize = count_varints(packed)?;
            cmd_count = cmd_count + more;
        } else {
            r.skip(wire)?;
        }
        assert(before.rest().skip(r.pos - before.pos) =~= r.rest());
    }
    layer.feature_count = layer.feature_count + 1;
    layer.feature_ids.push(id);
    layer.geom_types.push(geom_type);
    layer.geometry_command_count = layer.geometry_command_count + cmd_count;
    assert(layer@ =~= with_feature(
        old(layer)@,
        FeatureInfo { id, geom_type, commands: cmd_count as nat },
    ));
    Ok(())
}

fn decode_layer(data: &[u8]) -> (r: Result<DecodedLayer>)
    ensures
        match layer_from(data@, no_layer()) {
            Ok(info) => r matches Ok(layer) && layer@ == info && layer.wf(),
            Err(fault) => r matches Err(e) && e.is_encoding(fault_text(fault)),
        },
{
    let mut layer = DecodedLayer::default();
    let mut r = Reader::new(data);
    while r.remaining() > 0
        invariant
            r.wf(),
            r.data == data,
            layer.wf(),
            layer.feature_count <= r.pos,
            layer.value_count <= r.pos,
            layer.geometry_command_count <= r.pos,
            layer_from(r.rest(), layer@) == layer_from(data@, no_layer()),
        decreases r.rest().len(),
    {
        let ghost before = r;
        let ghost info = layer@;
        proof {
            reveal(field_at);
            field_consumes(r.rest());
            groups_consume(r.rest(), 0);
        }
        let (field, wire) = r.read_tag()?;
        let ghost mid = r;
        proof {
            assert(before.rest().skip(mid.pos - before.pos) =~= mid.rest());
            groups_consume(mid.rest(), 0);
        }
        if field == 1 && wire == WIRE_LEN {
            layer.name = from_utf8_lossy(r.read_bytes()?);
            assert(layer@ =~= LayerInfo { name: layer.name@, ..info });
        } else if field == 2 && wire == WIRE_LEN {
            let feature = r.read_bytes()?;
            decode_feature(feature, &mut layer)?;
        } else if field == 3 && wire == WIRE_LEN {
            let key = from_utf8_lossy(r.read_bytes()?);
            layer.keys.push(key);
            assert(layer@.keys =~= info.keys.push(key@));
        } else if field == 4 && wire == WIRE_LEN {
            let _ = r.read_bytes()?;
            layer.value_count = layer.value_count + 1;
        } else if field == 5 && wire == WIRE_VARINT {
            let v: u64 = r.read_varint()?;
            layer.extent = (v % 0x1_0000_0000) as u32;
        } else if field == 15 && wire == WIRE_VARINT {
            let v: u64 = r.read_varint()?;
            layer.version = (v % 0x1_0000_0000) as u32;
        } else {
            r.skip(wire)?;
        }
        assert(before.rest().skip(r.pos - before.pos) =~= r.rest());
    }
    Ok(layer)
}

/// Decodes a tile's structure. `data` is the raw protobuf message (not gzip).
pub fn decode_tile(data: &[u8]) -> (r: Result<DecodedTile>)
    ensures
        match tile_from(data@, Seq::empty()) {
            Ok(layers) => r matches Ok(tile) && tile@ == layers && forall|i: int|
                0 <= i < tile.layers@.len() ==> (#[trigger] tile.layers@[i]).wf(),
            Err(fault) => r matches Err(e) && e.is_encoding(fault_text(fault)),
        },
{
    let mut tile = DecodedTile::default();
    let mut r = Reader::new(data);
    while r.remaining() > 0
        invariant
            r.wf(),
            r.data == data,
            tile_from(r.rest(), tile@) == tile_from(data@, Seq::empty()),
            forall|i: int| 0 <= i < tile.layers@.len() ==> (#[trigger] tile.layers@[i]).wf(),
        decreases r.rest().len(),
    {
        let ghost before = r;
        let ghost layers = tile@;
        proof {
            reveal(field_at);
            field_consumes(r.rest());
            groups_consume(r.rest(), 0);
        }
        let (field, wire) = r.read_tag()?;
        let ghost mid = r;
        proof {
            assert(before.rest().skip(mid.pos - before.pos) =~= mid.rest());
            groups_consume(mid.rest(), 0);
        }
        if field == 3 && wire == WIRE_LEN {
            let layer = decode_layer(r.read_bytes()?)?;
            tile.layers.push(layer);
            assert(tile@ =~= layers.push(layer@));
        } else {
            r.skip(wire)?;
        }
        assert(before.rest().skip(r.pos - before.pos) =~= r.rest());
    }
    Ok(tile)
}

/// Decodes a gzip-compressed tile.
pub fn decode_gzipped_tile(gz: &[u8]) -> (r: Result<DecodedTile>)
    ensures
        match gzip::gunzip_of(gz@) {
            Ok(raw) => match tile_from(raw, Seq::empty()) {
                Ok(layers) => r matches Ok(tile) && tile@ == layers,
                Err(fault) => r matches Err(e) && e.is_encoding(fault_text(fault)),
            },
            Err(msg) => r matches Err(e) && e.is_encoding("gzip decode failed: "@ + msg),
        },
{
    match gzip::gunzip(gz) {
        Ok(raw) => decode_tile(raw.as_slice()),
        Err(msg) => Err(TileError::Encoding(join2("gzip decode failed: ", msg.as_str()))),
    }
}

} // verus!
