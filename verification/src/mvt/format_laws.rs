//! The wire format, byte by byte and field by field: what any reader of the format finds in what is
//! written here.
use vstd::prelude::*;
use vstd::utf8::*;
use crate::bytes;
use crate::mvt::commands;
use crate::mvt::commands::GeomKind;
use crate::mvt::decode;
use crate::mvt::decode::{Field, Payload};
use crate::mvt::layer;
use crate::mvt::layer::{FeatureView, LayerView, ValueKey};
use crate::mvt::layer_laws;
use crate::mvt::pbf;

verus! {

/// The number that seven-bit groups spell, the low group first.
pub open spec fn groups_value(s: Seq<u8>) -> nat
    decreases s.len(),
{
    if s.len() == 0 {
        0
    } else {
        s[0] as nat % 128 + 128 * groups_value(s.skip(1))
    }
}

/// A varint spells its number in seven-bit groups; the high bit is set on every byte but the last,
/// and the last is not zero unless it is the only one.
pub proof fn varints_are_groups_of_seven_bits(v: nat)
    ensures
        ({
            let s = pbf::varint(v);
            &&& s.len() > 0
            &&& groups_value(s) == v
            &&& forall|i: int| 0 <= i < s.len() - 1 ==> (#[trigger] s[i]) >= 128
            &&& s[s.len() - 1] < 128
            &&& s.len() > 1 ==> s[s.len() - 1] > 0
        }),
    decreases v,
{
    let s = pbf::varint(v);
    if v < 128 {
        assert(s.skip(1) =~= Seq::empty());
        reveal_with_fuel(groups_value, 2);
    } else {
        varints_are_groups_of_seven_bits(v / 128);
        let rest = pbf::varint(v / 128);
        assert(s.skip(1) =~= rest);
        assert((s[0] as nat) % 128 == v % 128);
        assert forall|i: int| 0 <= i < s.len() - 1 implies (#[trigger] s[i]) >= 128 by {
            if i > 0 {
                assert(s[i] == rest[i - 1]);
            }
        }
        assert(s[s.len() - 1] == rest[rest.len() - 1]);
    }
}

/// What is read of a varint is what its groups spell, up to the first byte without the high bit and
/// ten bytes at most.
pub proof fn groups_are_read(s: Seq<u8>, k: nat)
    requires
        k <= 9,
    ensures
        match decode::groups(s, k) {
            Ok((v, n)) => {
                &&& 1 <= n <= 10 - k
                &&& n <= s.len()
                &&& v == groups_value(s.take(n as int))
                &&& s[n - 1] < 128
                &&& forall|i: int| 0 <= i < n - 1 ==> (#[trigger] s[i]) >= 128
            },
            Err(fault) => {
                &&& fault is VarintPastEnd || fault is VarintTooLong
                &&& forall|i: int| 0 <= i < s.len() && i < 10 - k ==> (#[trigger] s[i]) >= 128
                &&& fault is VarintTooLong <==> s.len() >= 10 - k
            },
        },
    decreases s.len(),
{
    if s.len() > 0 && s[0] >= 128 && k < 9 {
        let rest = s.skip(1);
        groups_are_read(rest, k + 1);
        match decode::groups(rest, k + 1) {
            Ok((v, n)) => {
                assert(s.take(n as int + 1).skip(1) =~= rest.take(n as int));
                assert(s[n as int] == rest[n - 1]);
                assert forall|i: int| 0 <= i < n implies (#[trigger] s[i]) >= 128 by {
                    if i > 0 {
                        assert(s[i] == rest[i - 1]);
                    }
                }
            },
            Err(fault) => {
                assert forall|i: int| 0 <= i < s.len() && i < 10 - k implies (#[trigger] s[i])
                    >= 128 by {
                    if i > 0 {
                        assert(s[i] == rest[i - 1]);
                    }
                }
            },
        }
    } else if s.len() > 0 && s[0] < 128 {
        assert(s.take(1).skip(1) =~= Seq::empty());
        reveal_with_fuel(groups_value, 2);
    }
}

/// A tag holds the field number above the three bits of the wire type: 0 for varints, 1 for eight
/// bytes, 2 for lengths, 5 for four bytes.
pub proof fn tags_hold_number_and_wire_type(field: u32, v: nat, data: Seq<u8>)
    requires
        field < 0x2000_0000,
    ensures
        pbf::varint_field_bytes(field, v) == pbf::varint((8 * field) as nat) + pbf::varint(v),
        pbf::fixed64_field_bytes(field, v) == pbf::varint((8 * field + 1) as nat) + bytes::le_bytes(
            v,
            8,
        ),
        pbf::len_field_bytes(field, data) == pbf::varint((8 * field + 2) as nat) + pbf::varint(
            data.len(),
        ) + data,
        pbf::fixed32_field_bytes(field, v) == pbf::varint((8 * field + 5) as nat) + bytes::le_bytes(
            v,
            4,
        ),
{
    pbf::tag_key_value(field, 0);
    pbf::tag_key_value(field, 1);
    pbf::tag_key_value(field, 2);
    pbf::tag_key_value(field, 5);
}

/// Little-endian numbers start with their low byte, big-endian ones end with it.
pub proof fn byte_orders(low: u8, rest: Seq<u8>)
    ensures
        bytes::le_value(seq![low] + rest) == low + 256 * bytes::le_value(rest),
        bytes::be_value(rest.push(low)) == low + 256 * bytes::be_value(rest),
        bytes::le_value(seq![low]) == low,
        bytes::be_value(seq![low]) == low,
{
    let s = seq![low] + rest;
    assert(s.subrange(1, s.len() as int) =~= rest);
    assert(rest.push(low).drop_last() =~= rest);
    assert(seq![low].subrange(1, 1) =~= Seq::empty());
    assert(seq![low].drop_last() =~= Seq::empty());
    reveal_with_fuel(bytes::le_value, 2);
    reveal_with_fuel(bytes::be_value, 2);
}

/// The bytes of a number, in either order, spell it modulo their range.
pub proof fn bytes_spell_the_number(v: nat, n: nat)
    ensures
        bytes::le_bytes(v, n).len() == n,
        bytes::be_bytes(v, n).len() == n,
        n > 0 ==> bytes::le_bytes(v, n)[0] as nat == v % 256,
        n > 0 ==> bytes::be_bytes(v, n)[n - 1] as nat == v % 256,
        n > 0 ==> bytes::le_bytes(v, n).skip(1) == bytes::le_bytes(v / 256, (n - 1) as nat),
        n > 0 ==> bytes::be_bytes(v, n).drop_last() == bytes::be_bytes(v / 256, (n - 1) as nat),
{
    bytes::fixed_len(v, n);
    if n > 0 {
        bytes::fixed_len(v / 256, (n - 1) as nat);
        assert(bytes::le_bytes(v, n).skip(1) =~= bytes::le_bytes(v / 256, (n - 1) as nat));
        assert(bytes::be_bytes(v, n).drop_last() =~= bytes::be_bytes(v / 256, (n - 1) as nat));
    }
}

/// Numbers from zero on have the even places of the ZigZag numbering, negative ones the odd ones.
pub proof fn signs_alternate(v: nat)
    ensures
        pbf::zigzag(v as int) == 2 * v,
        pbf::zigzag(-(v as int) - 1) == 2 * v + 1,
{
}

/// The kinds have the numbers of the format.
pub proof fn kinds_have_numbers()
    ensures
        GeomKind::Unknown.number() == 0,
        GeomKind::Point.number() == 1,
        GeomKind::LineString.number() == 2,
        GeomKind::Polygon.number() == 3,
{
}

/// A command integer holds the count above the three bits of the command: 1 moves, 2 draws, 7
/// closes.
pub proof fn commands_hold_id_and_count(count: u32)
    requires
        count < 0x2000_0000,
    ensures
        commands::command(commands::CMD_MOVE_TO, count) == 8 * count + 1,
        commands::command(commands::CMD_LINE_TO, count) == 8 * count + 2,
        commands::command(commands::CMD_CLOSE_PATH, count) == 8 * count + 7,
{
    assert(((1u32 & 0x7) | (count << 3)) == 8 * count + 1 && ((2u32 & 0x7) | (count << 3)) == 8
        * count + 2 && ((7u32 & 0x7) | (count << 3)) == 8 * count + 7) by (bit_vector)
        requires
            count < 0x2000_0000,
    ;
}

/// The varints that bytes are made of; nothing where they are not made of varints.
pub open spec fn read_varints(s: Seq<u8>) -> Option<Seq<u64>>
    decreases s.len(),
{
    if s.len() == 0 {
        Some(Seq::empty())
    } else {
        match decode::varint_at(s) {
            Ok((v, n)) => {
                proof {
                    decode::groups_consume(s, 0);
                }
                match read_varints(s.skip(n as int)) {
                    Some(rest) => Some(seq![v] + rest),
                    None => None,
                }
            },
            Err(_) => None,
        }
    }
}

/// Packed values are read back, each of them and in order.
pub proof fn packed_values_are_read_back(values: Seq<u32>)
    ensures
        read_varints(pbf::packed(values)) == Some(values.map_values(|v: u32| v as u64)),
{
    assert(pbf::packed(values) + Seq::<u8>::empty() =~= pbf::packed(values));
    packed_then(values, Seq::empty());
    assert(values.map_values(|v: u32| v as u64) + Seq::<u64>::empty() =~= values.map_values(
        |v: u32| v as u64,
    ));
}

proof fn packed_then(values: Seq<u32>, tail: Seq<u8>)
    requires
        read_varints(tail) is Some,
    ensures
        read_varints(pbf::packed(values) + tail) == Some(
            values.map_values(|v: u32| v as u64) + read_varints(tail)->Some_0,
        ),
    decreases values.len(),
{
    let wide = values.map_values(|v: u32| v as u64);
    let after = read_varints(tail)->Some_0;
    if values.len() == 0 {
        assert(pbf::packed(values) + tail =~= tail);
        assert(wide + after =~= after);
    } else {
        let v = values.last() as nat;
        let d = values.drop_last();
        let rest = pbf::varint(v) + tail;
        layer_laws::varint_comes_back(v, tail);
        varints_are_groups_of_seven_bits(v);
        assert(rest.skip(pbf::varint(v).len() as int) =~= tail);
        packed_then(d, rest);
        assert(pbf::packed(values) + tail =~= pbf::packed(d) + rest);
        assert(wide + after =~= d.map_values(|v: u32| v as u64) + (seq![values.last() as u64]
            + after));
    }
}

/// The fields that a message is made of; nothing where it is not made of fields.
pub open spec fn read_fields(s: Seq<u8>) -> Option<Seq<Field>>
    decreases s.len(),
{
    if s.len() == 0 {
        Some(Seq::empty())
    } else {
        match decode::field_at(s) {
            Ok((f, n)) => {
                proof {
                    decode::field_consumes(s);
                }
                match read_fields(s.skip(n as int)) {
                    Some(rest) => Some(seq![f] + rest),
                    None => None,
                }
            },
            Err(_) => None,
        }
    }
}

proof fn field_then(bytes: Seq<u8>, f: Field, tail: Seq<u8>)
    requires
        bytes.len() > 0,
        decode::field_at(bytes + tail) == Ok::<(Field, nat), decode::Fault>((f, bytes.len())),
        read_fields(tail) is Some,
    ensures
        read_fields(bytes + tail) == Some(seq![f] + read_fields(tail)->Some_0),
{
    assert((bytes + tail).skip(bytes.len() as int) =~= tail);
}

/// A field that holds a number.
pub open spec fn number_field(number: u32, v: u64) -> Field {
    Field { number, payload: Payload::Varint(v) }
}

/// A field that holds bytes.
pub open spec fn bytes_field(number: u32, data: Seq<u8>) -> Field {
    Field { number, payload: Payload::Bytes(data) }
}

proof fn number_then(number: u32, v: nat, tail: Seq<u8>)
    requires
        number < 0x2000_0000,
        v < 0x1_0000_0000_0000_0000,
        read_fields(tail) is Some,
    ensures
        read_fields(pbf::varint_field_bytes(number, v) + tail) == Some(
            seq![number_field(number, v as u64)] + read_fields(tail)->Some_0,
        ),
{
    layer_laws::varint_field_comes_back(number, v, tail);
    varints_are_groups_of_seven_bits(v);
    field_then(pbf::varint_field_bytes(number, v), number_field(number, v as u64), tail);
}

proof fn bytes_then(number: u32, data: Seq<u8>, tail: Seq<u8>)
    requires
        number < 0x2000_0000,
        data.len() < 0x1_0000_0000_0000_0000,
        read_fields(tail) is Some,
    ensures
        read_fields(pbf::len_field_bytes(number, data) + tail) == Some(
            seq![bytes_field(number, data)] + read_fields(tail)->Some_0,
        ),
{
    layer_laws::len_field_comes_back(number, data, tail);
    varints_are_groups_of_seven_bits(data.len());
    field_then(pbf::len_field_bytes(number, data), bytes_field(number, data), tail);
}

/// A value is one field: texts have number 1, doubles 3, signed numbers 4 in two's complement,
/// unsigned ones 5, truth values 7 as one or zero.
pub proof fn values_are_one_field(v: ValueKey)
    requires
        layer::value_bytes(v).len() < 0x1_0000_0000_0000_0000,
    ensures
        match v {
            ValueKey::String(s) => read_fields(layer::value_bytes(v)) == Some(
                seq![bytes_field(1, encode_utf8(s))],
            ),
            ValueKey::DoubleBits(d) => layer::value_bytes(v) == pbf::varint(25) + bytes::le_bytes(
                d as nat,
                8,
            ),
            ValueKey::Int(i) => read_fields(layer::value_bytes(v)) == Some(
                seq![
                    number_field(
                        4,
                        if i >= 0 {
                            i as u64
                        } else {
                            (i + 0x1_0000_0000_0000_0000) as u64
                        },
                    ),
                ],
            ),
            ValueKey::Uint(u) => read_fields(layer::value_bytes(v)) == Some(
                seq![number_field(5, u)],
            ),
            ValueKey::Bool(b) => read_fields(layer::value_bytes(v)) == Some(
                seq![
                    number_field(
                        7,
                        if b {
                            1
                        } else {
                            0
                        },
                    ),
                ],
            ),
        },
{
    let none = Seq::<u8>::empty();
    assert(layer::value_bytes(v) + none =~= layer::value_bytes(v));
    assert(read_fields(none) == Some(Seq::<Field>::empty()));
    match v {
        ValueKey::String(s) => {
            bytes_then(1, encode_utf8(s), none);
            assert(seq![bytes_field(1, encode_utf8(s))] + Seq::<Field>::empty()
                =~= seq![bytes_field(1, encode_utf8(s))]);
        },
        ValueKey::DoubleBits(d) => {
            tags_hold_number_and_wire_type(3, d as nat, none);
        },
        ValueKey::Int(i) => {
            let n = pbf::twos_complement64(i);
            number_then(4, n, none);
            assert(seq![number_field(4, n as u64)] + Seq::<Field>::empty()
                =~= seq![number_field(4, n as u64)]);
        },
        ValueKey::Uint(u) => {
            number_then(5, u as nat, none);
            assert(seq![number_field(5, u)] + Seq::<Field>::empty() =~= seq![number_field(5, u)]);
        },
        ValueKey::Bool(b) => {
            let n: nat = if b {
                1
            } else {
                0
            };
            number_then(7, n, none);
            assert(seq![number_field(7, n as u64)] + Seq::<Field>::empty()
                =~= seq![number_field(7, n as u64)]);
        },
    }
}

/// The fields of a feature message: its id as number 1 where it has one, its packed tags as 2 where
/// it has any, the number of its kind as 3, its packed geometry as 4.
pub open spec fn feature_fields(f: FeatureView) -> Seq<Field> {
    let id = match f.id {
        Some(id) => seq![number_field(1, id)],
        None => Seq::empty(),
    };
    let tags = if f.tags.len() > 0 {
        seq![bytes_field(2, pbf::packed(f.tags))]
    } else {
        Seq::empty()
    };
    id + tags + seq![
        number_field(
            3,
            match f.kind {
                GeomKind::Unknown => 0,
                GeomKind::Point => 1,
                GeomKind::LineString => 2,
                GeomKind::Polygon => 3,
            },
        ),
        bytes_field(4, pbf::packed(f.geometry)),
    ]
}

/// A feature is written as the fields of the format.
pub proof fn features_are_their_fields(f: FeatureView)
    requires
        layer::feature_bytes(f).len() < 0x1_0000_0000_0000_0000,
    ensures
        read_fields(layer::feature_bytes(f)) == Some(feature_fields(f)),
{
    let none = Seq::<u8>::empty();
    let kind = pbf::varint_field_bytes(3, f.kind.number() as nat);
    let geom = pbf::len_field_bytes(4, pbf::packed(f.geometry));
    let tags = if f.tags.len() > 0 {
        pbf::len_field_bytes(2, pbf::packed(f.tags))
    } else {
        none
    };
    let id = match f.id {
        Some(id) => pbf::varint_field_bytes(1, id as nat),
        None => none,
    };
    bytes_then(4, pbf::packed(f.geometry), none);
    number_then(3, f.kind.number() as nat, geom + none);
    if f.tags.len() > 0 {
        bytes_then(2, pbf::packed(f.tags), kind + (geom + none));
    } else {
        assert(tags + (kind + (geom + none)) =~= kind + (geom + none));
    }
    if let Some(i) = f.id {
        number_then(1, i as nat, tags + (kind + (geom + none)));
    } else {
        assert(id + (tags + (kind + (geom + none))) =~= tags + (kind + (geom + none)));
    }
    assert(layer::feature_bytes(f) =~= id + (tags + (kind + (geom + none))));
    assert(read_fields(layer::feature_bytes(f))->Some_0 =~= feature_fields(f));
}

/// The fields of a layer message: its name as number 1, each feature as 2, each key as 3, each
/// value as 4, the extent as 5 and version 2 as 15.
pub open spec fn layer_fields(l: LayerView) -> Seq<Field> {
    seq![bytes_field(1, encode_utf8(l.name))] + Seq::new(
        l.features.len(),
        |i: int| bytes_field(2, layer::feature_bytes(l.features[i])),
    ) + Seq::new(l.keys.len(), |i: int| bytes_field(3, encode_utf8(l.keys[i]))) + Seq::new(
        l.values.len(),
        |i: int| bytes_field(4, layer::value_bytes(l.values[i])),
    ) + seq![number_field(5, l.extent as u64), number_field(15, 2)]
}

proof fn features_then(features: Seq<FeatureView>, tail: Seq<u8>)
    requires
        read_fields(tail) is Some,
        layer::features_bytes(features).len() < 0x1_0000_0000_0000_0000,
    ensures
        read_fields(layer::features_bytes(features) + tail) == Some(
            Seq::new(
                features.len(),
                |i: int| bytes_field(2, layer::feature_bytes(features[i])),
            ) + read_fields(tail)->Some_0,
        ),
    decreases features.len(),
{
    let all = Seq::new(
        features.len(),
        |i: int| bytes_field(2, layer::feature_bytes(features[i])),
    );
    let after = read_fields(tail)->Some_0;
    if features.len() == 0 {
        assert(layer::features_bytes(features) + tail =~= tail);
        assert(all + after =~= after);
    } else {
        let d = features.drop_last();
        let data = layer::feature_bytes(features.last());
        let rest = pbf::len_field_bytes(2, data) + tail;
        bytes_then(2, data, tail);
        features_then(d, rest);
        assert(layer::features_bytes(features) + tail =~= layer::features_bytes(d) + rest);
        assert(all + after =~= Seq::new(
            d.len(),
            |i: int| bytes_field(2, layer::feature_bytes(d[i])),
        ) + (seq![bytes_field(2, data)] + after));
    }
}

proof fn keys_then(keys: Seq<Seq<char>>, tail: Seq<u8>)
    requires
        read_fields(tail) is Some,
        layer::keys_bytes(keys).len() < 0x1_0000_0000_0000_0000,
    ensures
        read_fields(layer::keys_bytes(keys) + tail) == Some(
            Seq::new(keys.len(), |i: int| bytes_field(3, encode_utf8(keys[i])))
                + read_fields(tail)->Some_0,
        ),
    decreases keys.len(),
{
    let all = Seq::new(keys.len(), |i: int| bytes_field(3, encode_utf8(keys[i])));
    let after = read_fields(tail)->Some_0;
    if keys.len() == 0 {
        assert(layer::keys_bytes(keys) + tail =~= tail);
        assert(all + after =~= after);
    } else {
        let d = keys.drop_last();
        let data = encode_utf8(keys.last());
        let rest = pbf::len_field_bytes(3, data) + tail;
        bytes_then(3, data, tail);
        keys_then(d, rest);
        assert(layer::keys_bytes(keys) + tail =~= layer::keys_bytes(d) + rest);
        assert(all + after =~= Seq::new(d.len(), |i: int| bytes_field(3, encode_utf8(d[i]))) + (
        seq![bytes_field(3, data)] + after));
    }
}

proof fn values_then(values: Seq<ValueKey>, tail: Seq<u8>)
    requires
        read_fields(tail) is Some,
        layer::values_bytes(values).len() < 0x1_0000_0000_0000_0000,
    ensures
        read_fields(layer::values_bytes(values) + tail) == Some(
            Seq::new(values.len(), |i: int| bytes_field(4, layer::value_bytes(values[i])))
                + read_fields(tail)->Some_0,
        ),
    decreases values.len(),
{
    let all = Seq::new(values.len(), |i: int| bytes_field(4, layer::value_bytes(values[i])));
    let after = read_fields(tail)->Some_0;
    if values.len() == 0 {
        assert(layer::values_bytes(values) + tail =~= tail);
        assert(all + after =~= after);
    } else {
        let d = values.drop_last();
        let data = layer::value_bytes(values.last());
        let rest = pbf::len_field_bytes(4, data) + tail;
        bytes_then(4, data, tail);
        values_then(d, rest);
        assert(layer::values_bytes(values) + tail =~= layer::values_bytes(d) + rest);
        assert(all + after =~= Seq::new(d.len(), |i: int| bytes_field(4, layer::value_bytes(d[i])))
            + (seq![bytes_field(4, data)] + after));
    }
}

/// A layer is written as the fields of the format, and a tile as its one layer under number 3.
pub proof fn layers_are_their_fields(l: LayerView)
    requires
        layer::layer_bytes(l).len() < 0x1_0000_0000_0000_0000,
    ensures
        read_fields(layer::layer_bytes(l)) == Some(layer_fields(l)),
        read_fields(layer::tile_bytes(l)) == Some(seq![bytes_field(3, layer::layer_bytes(l))]),
{
    let none = Seq::<u8>::empty();
    let name = pbf::len_field_bytes(1, encode_utf8(l.name));
    let features = layer::features_bytes(l.features);
    let keys = layer::keys_bytes(l.keys);
    let values = layer::values_bytes(l.values);
    let extent = pbf::varint_field_bytes(5, l.extent as nat);
    let version = pbf::varint_field_bytes(15, 2);
    number_then(15, 2, none);
    let t5 = version + none;
    number_then(5, l.extent as nat, t5);
    let t4 = extent + t5;
    values_then(l.values, t4);
    let t3 = values + t4;
    keys_then(l.keys, t3);
    let t2 = keys + t3;
    features_then(l.features, t2);
    let t1 = features + t2;
    bytes_then(1, encode_utf8(l.name), t1);
    assert(layer::layer_bytes(l) =~= name + t1);
    assert(read_fields(layer::layer_bytes(l))->Some_0 =~= layer_fields(l));
    bytes_then(3, layer::layer_bytes(l), none);
    assert(layer::tile_bytes(l) + none =~= layer::tile_bytes(l));
    assert(seq![bytes_field(3, layer::layer_bytes(l))] + Seq::<Field>::empty()
        =~= seq![bytes_field(3, layer::layer_bytes(l))]);
}

} // verus!
