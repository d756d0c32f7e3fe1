//! What a reader makes of the fields of an encoded tile, the ones it does not know included.
use vstd::prelude::*;
use crate::mvt::decode;
use crate::mvt::decode::{Fault, FeatureInfo, Field, LayerInfo, Payload};
use crate::mvt::layer_laws;
use crate::mvt::pbf;
use crate::text;

verus! {

/// What a field holds goes by its wire type: zero is a varint, one is eight bytes, two is a length
/// with as many bytes, five is four bytes; no other is known. What is not complete is refused.
pub proof fn payloads_go_by_wire_type(s: Seq<u8>, wire: u8)
    ensures
        wire == 0 ==> match decode::varint_at(s) {
            Ok((v, n)) => decode::payload_at(s, wire) == Ok::<(Payload, nat), Fault>(
                (Payload::Varint(v), n),
            ),
            Err(fault) => decode::payload_at(s, wire) == Err::<(Payload, nat), Fault>(fault),
        },
        wire == 1 ==> decode::payload_at(s, wire) == if s.len() >= 8 {
            Ok::<(Payload, nat), Fault>((Payload::Fixed, 8))
        } else {
            Err(Fault::TruncatedFixed64)
        },
        wire == 2 ==> match decode::varint_at(s) {
            Ok((len, n)) => decode::payload_at(s, wire) == if n + len <= s.len() {
                Ok::<(Payload, nat), Fault>(
                    (Payload::Bytes(s.subrange(n as int, n + len)), (n + len) as nat),
                )
            } else {
                Err(Fault::LengthPastEnd)
            },
            Err(fault) => decode::payload_at(s, wire) == Err::<(Payload, nat), Fault>(fault),
        },
        wire == 5 ==> decode::payload_at(s, wire) == if s.len() >= 4 {
            Ok::<(Payload, nat), Fault>((Payload::Fixed, 4))
        } else {
            Err(Fault::TruncatedFixed32)
        },
        wire != 0 && wire != 1 && wire != 2 && wire != 5 ==> decode::payload_at(s, wire) == Err::<
            (Payload, nat),
            Fault,
        >(Fault::WireType(wire)),
{
}

/// A field starts with its number, eight times, and its wire type; then comes what it holds.
pub proof fn fields_start_with_their_number(number: u32, wire: u8, rest: Seq<u8>)
    requires
        number < 0x2000_0000,
        wire < 8,
    ensures
        decode::field_at(pbf::varint((8 * number + wire) as nat) + rest) == match decode::payload_at(
            rest,
            wire,
        ) {
            Ok((payload, m)) => Ok::<(Field, nat), Fault>(
                (
                    Field { number, payload },
                    pbf::varint((8 * number + wire) as nat).len() + m,
                ),
            ),
            Err(fault) => Err(fault),
        },
{
    reveal(decode::field_at);
    let key = (8 * number + wire) as nat;
    let tag = pbf::varint(key);
    layer_laws::varint_comes_back(key, rest);
    let k = key as u64;
    assert(k / 8 == number as u64 && k % 8 == wire as u64);
    assert(decode::tag_number(k) == number && decode::tag_wire(k) == wire);
    assert((tag + rest).skip(tag.len() as int) =~= rest);
}

/// What is read of a feature: field one is the id, field three the kind, field four commands, which
/// add up; every other field is passed over. A fault ends the reading.
pub proof fn features_are_read_field_by_field(s: Seq<u8>, info: FeatureInfo)
    requires
        s.len() > 0,
    ensures
        match decode::field_at(s) {
            Err(fault) => decode::feature_from(s, info) == Err::<FeatureInfo, Fault>(fault),
            Ok((field, n)) => {
                let rest = s.skip(n as int);
                match field.payload {
                    Payload::Varint(v) => decode::feature_from(s, info) == decode::feature_from(
                        rest,
                        if field.number == 1 {
                            FeatureInfo { id: Some(v), ..info }
                        } else if field.number == 3 {
                            FeatureInfo { geom_type: (v % 0x1_0000_0000) as u32, ..info }
                        } else {
                            info
                        },
                    ),
                    Payload::Bytes(b) => if field.number == 4 {
                        match decode::varint_count(b) {
                            Ok(c) => decode::feature_from(s, info) == decode::feature_from(
                                rest,
                                FeatureInfo { commands: info.commands + c, ..info },
                            ),
                            Err(fault) => decode::feature_from(s, info) == Err::<
                                FeatureInfo,
                                Fault,
                            >(fault),
                        }
                    } else {
                        decode::feature_from(s, info) == decode::feature_from(rest, info)
                    },
                    Payload::Fixed => decode::feature_from(s, info) == decode::feature_from(
                        rest,
                        info,
                    ),
                }
            },
        },
{
}

/// What is read of a layer: field fifteen is the version, field one the name, field five the
/// extent; every field two is a feature, every field three a key, every field four a value, and
/// they add up; every other field is passed over. A fault ends the reading.
pub proof fn layers_are_read_field_by_field(s: Seq<u8>, info: LayerInfo)
    requires
        s.len() > 0,
    ensures
        match decode::field_at(s) {
            Err(fault) => decode::layer_from(s, info) == Err::<LayerInfo, Fault>(fault),
            Ok((field, n)) => {
                let rest = s.skip(n as int);
                match field.payload {
                    Payload::Varint(v) => decode::layer_from(s, info) == decode::layer_from(
                        rest,
                        if field.number == 5 {
                            LayerInfo { extent: (v % 0x1_0000_0000) as u32, ..info }
                        } else if field.number == 15 {
                            LayerInfo { version: (v % 0x1_0000_0000) as u32, ..info }
                        } else {
                            info
                        },
                    ),
                    Payload::Bytes(b) => if field.number == 2 {
                        match decode::feature_from(b, decode::no_feature()) {
                            Ok(f) => decode::layer_from(s, info) == decode::layer_from(
                                rest,
                                LayerInfo {
                                    feature_ids: info.feature_ids.push(f.id),
                                    geom_types: info.geom_types.push(f.geom_type),
                                    commands: info.commands + f.commands,
                                    ..info
                                },
                            ),
                            Err(fault) => decode::layer_from(s, info) == Err::<LayerInfo, Fault>(
                                fault,
                            ),
                        }
                    } else {
                        decode::layer_from(s, info) == decode::layer_from(
                            rest,
                            if field.number == 1 {
                                LayerInfo { name: text::utf8_lossy(b), ..info }
                            } else if field.number == 3 {
                                LayerInfo { keys: info.keys.push(text::utf8_lossy(b)), ..info }
                            } else if field.number == 4 {
                                LayerInfo { value_count: info.value_count + 1, ..info }
                            } else {
                                info
                            },
                        )
                    },
                    Payload::Fixed => decode::layer_from(s, info) == decode::layer_from(rest, info),
                }
            },
        },
{
}

/// Every field three of a tile is a layer, in order; every other field is passed over. A fault ends
/// the reading.
pub proof fn tiles_are_read_layer_by_layer(s: Seq<u8>, layers: Seq<LayerInfo>)
    requires
        s.len() > 0,
    ensures
        match decode::field_at(s) {
            Err(fault) => decode::tile_from(s, layers) == Err::<Seq<LayerInfo>, Fault>(fault),
            Ok((field, n)) => {
                let rest = s.skip(n as int);
                if field.number == 3 && field.payload is Bytes {
                    match decode::layer_from(field.payload->Bytes_0, decode::no_layer()) {
                        Ok(info) => decode::tile_from(s, layers) == decode::tile_from(
                            rest,
                            layers.push(info),
                        ),
                        Err(fault) => decode::tile_from(s, layers) == Err::<Seq<LayerInfo>, Fault>(
                            fault,
                        ),
                    }
                } else {
                    decode::tile_from(s, layers) == decode::tile_from(rest, layers)
                }
            },
        },
{
}

/// Where nothing is left to read, what was read so far is the result. A feature and a layer start
/// with nothing read.
pub proof fn readings_start_and_end(info: FeatureInfo, l: LayerInfo, layers: Seq<LayerInfo>)
    ensures
        decode::feature_from(Seq::empty(), info) == Ok::<FeatureInfo, Fault>(info),
        decode::layer_from(Seq::empty(), l) == Ok::<LayerInfo, Fault>(l),
        decode::tile_from(Seq::empty(), layers) == Ok::<Seq<LayerInfo>, Fault>(layers),
        decode::no_feature().id is None,
        decode::no_feature().geom_type == 0,
        decode::no_feature().commands == 0,
        decode::no_layer().feature_ids.len() == 0,
        decode::no_layer().geom_types.len() == 0,
        decode::no_layer().keys.len() == 0,
        decode::no_layer().name.len() == 0,
        decode::no_layer().value_count == 0,
        decode::no_layer().commands == 0,
        decode::no_layer().version == 0,
        decode::no_layer().extent == 0,
{
}

/// Every varint counts once.
pub proof fn varints_are_counted_one_by_one(s: Seq<u8>)
    ensures
        decode::varint_count(Seq::empty()) == Ok::<nat, Fault>(0),
        s.len() > 0 ==> match decode::varint_at(s) {
            Ok((v, n)) => match decode::varint_count(s.skip(n as int)) {
                Ok(c) => decode::varint_count(s) == Ok::<nat, Fault>(c + 1),
                Err(fault) => decode::varint_count(s) == Err::<nat, Fault>(fault),
            },
            Err(fault) => decode::varint_count(s) == Err::<nat, Fault>(fault),
        },
{
}

} // verus!
