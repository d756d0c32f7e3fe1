//! What layers promise: nothing is interned twice, tags lead back to the properties, and a
//! serialized layer is read back by the decoder.
use vstd::prelude::*;
use vstd::utf8::*;
use crate::mvt::decode;
use crate::mvt::decode::{Field, LayerInfo, Payload};
use crate::mvt::layer;
use crate::mvt::layer::{FeatureView, LayerView, ValueKey};
use crate::mvt::pbf;
use crate::text;

verus! {

/// The seven-bit groups of a written varint are read back.
pub proof fn groups_of_varint(v: nat, k: nat, tail: Seq<u8>)
    requires
        k <= 9,
        v < decode::pow128((10 - k) as nat),
    ensures
        decode::groups(pbf::varint(v) + tail, k) == Ok::<(nat, nat), decode::Fault>(
            (v, pbf::varint(v).len()),
        ),
    decreases v,
{
    let s = pbf::varint(v) + tail;
    if v >= 128 {
        if k == 9 {
            reveal_with_fuel(decode::pow128, 2);
        }
        groups_of_varint(v / 128, k + 1, tail);
        assert(s.skip(1) =~= pbf::varint(v / 128) + tail);
        assert(s[0] == (v % 128 + 128) as u8);
    }
}

/// A written varint is read back, whatever follows it.
pub proof fn varint_comes_back(v: nat, tail: Seq<u8>)
    requires
        v < 0x1_0000_0000_0000_0000,
    ensures
        decode::varint_at(pbf::varint(v) + tail) == Ok::<(u64, nat), decode::Fault>(
            (v as u64, pbf::varint(v).len()),
        ),
{
    decode::pow128_values();
    assert(decode::pow128(10) == 128 * decode::pow128(9));
    groups_of_varint(v, 0, tail);
}

proof fn tag_comes_back(field: u32, wire: u8, tail: Seq<u8>)
    requires
        field < 0x2000_0000,
        wire < 8,
    ensures
        decode::varint_at(pbf::tag_bytes(field, wire) + tail) == Ok::<(u64, nat), decode::Fault>(
            (pbf::tag_key(field, wire) as u64, pbf::tag_bytes(field, wire).len()),
        ),
        decode::tag_number(pbf::tag_key(field, wire) as u64) == field,
        decode::tag_wire(pbf::tag_key(field, wire) as u64) == wire,
{
    pbf::tag_key_value(field, wire);
    varint_comes_back(pbf::tag_key(field, wire) as nat, tail);
}

/// A varint field is read back, whatever follows it.
pub proof fn varint_field_comes_back(field: u32, v: nat, tail: Seq<u8>)
    requires
        field < 0x2000_0000,
        v < 0x1_0000_0000_0000_0000,
    ensures
        decode::field_at(pbf::varint_field_bytes(field, v) + tail) == Ok::<
            (Field, nat),
            decode::Fault,
        >(
            (
                Field { number: field, payload: Payload::Varint(v as u64) },
                pbf::varint_field_bytes(field, v).len(),
            ),
        ),
{
    reveal(decode::field_at);
    let tag = pbf::tag_bytes(field, pbf::WIRE_VARINT);
    let s = pbf::varint_field_bytes(field, v) + tail;
    tag_comes_back(field, pbf::WIRE_VARINT, pbf::varint(v) + tail);
    assert(s =~= tag + (pbf::varint(v) + tail));
    assert(s.skip(tag.len() as int) =~= pbf::varint(v) + tail);
    varint_comes_back(v, tail);
}

/// A length-delimited field is read back, whatever follows it.
pub proof fn len_field_comes_back(field: u32, data: Seq<u8>, tail: Seq<u8>)
    requires
        field < 0x2000_0000,
        data.len() < 0x1_0000_0000_0000_0000,
    ensures
        decode::field_at(pbf::len_field_bytes(field, data) + tail) == Ok::<
            (Field, nat),
            decode::Fault,
        >(
            (
                Field { number: field, payload: Payload::Bytes(data) },
                pbf::len_field_bytes(field, data).len(),
            ),
        ),
{
    reveal(decode::field_at);
    let tag = pbf::tag_bytes(field, pbf::WIRE_LEN);
    let len = pbf::varint(data.len());
    let s = pbf::len_field_bytes(field, data) + tail;
    tag_comes_back(field, pbf::WIRE_LEN, len + data + tail);
    assert(s =~= tag + (len + data + tail));
    let rest = s.skip(tag.len() as int);
    assert(rest =~= len + (data + tail));
    varint_comes_back(data.len(), data + tail);
    assert(rest.subrange(len.len() as int, (len.len() + data.len()) as int) =~= data);
}

/// The number of varints in a packed field is the number of values.
pub proof fn packed_counts(values: Seq<u32>, tail: Seq<u8>)
    ensures
        decode::varint_count(pbf::packed(values) + tail) == match decode::varint_count(tail) {
            Ok(c) => Ok::<nat, decode::Fault>(c + values.len()),
            Err(fault) => Err(fault),
        },
    decreases values.len(),
{
    if values.len() == 0 {
        assert(pbf::packed(values) + tail =~= tail);
    } else {
        let v = values.last() as nat;
        let rest = pbf::varint(v) + tail;
        packed_counts(values.drop_last(), rest);
        assert(pbf::packed(values) + tail =~= pbf::packed(values.drop_last()) + rest);
        varint_comes_back(v, tail);
        assert(rest.skip(pbf::varint(v).len() as int) =~= tail);
        varint_nonempty(v);
    }
}

proof fn varint_nonempty(v: nat)
    ensures
        pbf::varint(v).len() > 0,
{
}

/// What the decoder says of an encoded feature.
pub open spec fn feature_summary(f: FeatureView) -> decode::FeatureInfo {
    decode::FeatureInfo { id: f.id, geom_type: f.kind.number(), commands: f.geometry.len() }
}

proof fn feature_step(bytes: Seq<u8>, tail: Seq<u8>, field: Field, info: decode::FeatureInfo)
    requires
        bytes.len() > 0,
        decode::field_at(bytes + tail) == Ok::<(Field, nat), decode::Fault>((field, bytes.len())),
        decode::feature_field(info, field) is Ok,
    ensures
        decode::feature_from(bytes + tail, info) == decode::feature_from(
            tail,
            decode::feature_field(info, field)->Ok_0,
        ),
{
    assert((bytes + tail).skip(bytes.len() as int) =~= tail);
}

/// The decoder reads an encoded feature as its summary.
pub proof fn feature_comes_back(f: FeatureView)
    requires
        layer::feature_bytes(f).len() < 0x1_0000_0000_0000_0000,
    ensures
        decode::feature_from(layer::feature_bytes(f), decode::no_feature()) == Ok::<
            decode::FeatureInfo,
            decode::Fault,
        >(feature_summary(f)),
{
    let id = match f.id {
        Some(id) => pbf::varint_field_bytes(1, id as nat),
        None => Seq::empty(),
    };
    let tags = if f.tags.len() > 0 {
        pbf::len_field_bytes(2, pbf::packed(f.tags))
    } else {
        Seq::empty()
    };
    let kind = pbf::varint_field_bytes(3, f.kind.number() as nat);
    let geom = pbf::len_field_bytes(4, pbf::packed(f.geometry));
    let none = Seq::<u8>::empty();
    let start = decode::no_feature();
    let with_id = decode::FeatureInfo { id: f.id, ..start };
    let with_kind = decode::FeatureInfo { geom_type: f.kind.number(), ..with_id };
    assert(layer::feature_bytes(f) =~= id + (tags + (kind + (geom + none))));
    if let Some(v) = f.id {
        varint_field_comes_back(1, v as nat, tags + (kind + (geom + none)));
        feature_step(
            id,
            tags + (kind + (geom + none)),
            Field { number: 1, payload: Payload::Varint(v) },
            start,
        );
    } else {
        assert(id + (tags + (kind + (geom + none))) =~= tags + (kind + (geom + none)));
    }
    if f.tags.len() > 0 {
        len_field_comes_back(2, pbf::packed(f.tags), kind + (geom + none));
        feature_step(
            tags,
            kind + (geom + none),
            Field { number: 2, payload: Payload::Bytes(pbf::packed(f.tags)) },
            with_id,
        );
    } else {
        assert(tags + (kind + (geom + none)) =~= kind + (geom + none));
    }
    varint_field_comes_back(3, f.kind.number() as nat, geom + none);
    feature_step(
        kind,
        geom + none,
        Field { number: 3, payload: Payload::Varint(f.kind.number() as u64) },
        with_id,
    );
    len_field_comes_back(4, pbf::packed(f.geometry), none);
    packed_counts(f.geometry, none);
    assert(pbf::packed(f.geometry) + none =~= pbf::packed(f.geometry));
    feature_step(
        geom,
        none,
        Field { number: 4, payload: Payload::Bytes(pbf::packed(f.geometry)) },
        with_kind,
    );
}

proof fn layer_step(bytes: Seq<u8>, tail: Seq<u8>, field: Field, info: LayerInfo)
    requires
        bytes.len() > 0,
        decode::field_at(bytes + tail) == Ok::<(Field, nat), decode::Fault>((field, bytes.len())),
        decode::layer_field(info, field) is Ok,
    ensures
        decode::layer_from(bytes + tail, info) == decode::layer_from(
            tail,
            decode::layer_field(info, field)->Ok_0,
        ),
{
    assert((bytes + tail).skip(bytes.len() as int) =~= tail);
}

/// The number of command integers of all features.
pub open spec fn command_count(features: Seq<FeatureView>) -> nat
    decreases features.len(),
{
    if features.len() == 0 {
        0
    } else {
        command_count(features.drop_last()) + features.last().geometry.len()
    }
}

/// What the decoder knows after the features.
pub open spec fn after_features(info: LayerInfo, features: Seq<FeatureView>) -> LayerInfo {
    LayerInfo {
        feature_ids: info.feature_ids + features.map_values(|f: FeatureView| f.id),
        geom_types: info.geom_types + features.map_values(|f: FeatureView| f.kind.number()),
        commands: info.commands + command_count(features),
        ..info
    }
}

proof fn features_come_back(features: Seq<FeatureView>, tail: Seq<u8>, info: LayerInfo)
    requires
        layer::features_bytes(features).len() < 0x1_0000_0000_0000_0000,
    ensures
        decode::layer_from(layer::features_bytes(features) + tail, info) == decode::layer_from(
            tail,
            after_features(info, features),
        ),
    decreases features.len(),
{
    if features.len() == 0 {
        assert(layer::features_bytes(features) + tail =~= tail);
        assert(after_features(info, features) =~= info);
    } else {
        let f = features.last();
        let data = layer::feature_bytes(f);
        let bytes = pbf::len_field_bytes(2, data);
        let mid = after_features(info, features.drop_last());
        features_come_back(features.drop_last(), bytes + tail, info);
        assert(layer::features_bytes(features) + tail =~= layer::features_bytes(
            features.drop_last(),
        ) + (bytes + tail));
        len_field_comes_back(2, data, tail);
        feature_comes_back(f);
        layer_step(bytes, tail, Field { number: 2, payload: Payload::Bytes(data) }, mid);
        assert(decode::with_feature(mid, feature_summary(f)) =~= after_features(info, features));
    }
}

proof fn keys_come_back(keys: Seq<Seq<char>>, tail: Seq<u8>, info: LayerInfo)
    requires
        layer::keys_bytes(keys).len() < 0x1_0000_0000_0000_0000,
    ensures
        decode::layer_from(layer::keys_bytes(keys) + tail, info) == decode::layer_from(
            tail,
            LayerInfo { keys: info.keys + keys, ..info },
        ),
    decreases keys.len(),
{
    if keys.len() == 0 {
        assert(layer::keys_bytes(keys) + tail =~= tail);
        assert(info.keys + keys =~= info.keys);
    } else {
        let data = encode_utf8(keys.last());
        let bytes = pbf::len_field_bytes(3, data);
        let mid = LayerInfo { keys: info.keys + keys.drop_last(), ..info };
        keys_come_back(keys.drop_last(), bytes + tail, info);
        assert(layer::keys_bytes(keys) + tail =~= layer::keys_bytes(keys.drop_last()) + (bytes
            + tail));
        len_field_comes_back(3, data, tail);
        text::utf8_lossy_of_text(keys.last());
        layer_step(bytes, tail, Field { number: 3, payload: Payload::Bytes(data) }, mid);
        assert(mid.keys.push(keys.last()) =~= info.keys + keys);
    }
}

proof fn values_come_back(values: Seq<ValueKey>, tail: Seq<u8>, info: LayerInfo)
    requires
        layer::values_bytes(values).len() < 0x1_0000_0000_0000_0000,
    ensures
        decode::layer_from(layer::values_bytes(values) + tail, info) == decode::layer_from(
            tail,
            LayerInfo { value_count: info.value_count + values.len(), ..info },
        ),
    decreases values.len(),
{
    if values.len() == 0 {
        assert(layer::values_bytes(values) + tail =~= tail);
    } else {
        let data = layer::value_bytes(values.last());
        let bytes = pbf::len_field_bytes(4, data);
        let mid = LayerInfo {
            value_count: info.value_count + values.drop_last().len(),
            ..info
        };
        values_come_back(values.drop_last(), bytes + tail, info);
        assert(layer::values_bytes(values) + tail =~= layer::values_bytes(values.drop_last()) + (
        bytes + tail));
        len_field_comes_back(4, data, tail);
        layer_step(bytes, tail, Field { number: 4, payload: Payload::Bytes(data) }, mid);
    }
}

/// What the decoder says of a layer.
pub open spec fn layer_summary(l: LayerView) -> LayerInfo {
    LayerInfo {
        name: l.name,
        version: 2,
        extent: l.extent,
        keys: l.keys,
        value_count: l.values.len(),
        feature_ids: l.features.map_values(|f: FeatureView| f.id),
        geom_types: l.features.map_values(|f: FeatureView| f.kind.number()),
        commands: command_count(l.features),
    }
}

/// The decoder reads the fields of a layer as the layer's summary.
pub proof fn layer_comes_back(l: LayerView)
    requires
        layer::layer_bytes(l).len() < 0x1_0000_0000_0000_0000,
    ensures
        decode::layer_from(layer::layer_bytes(l), decode::no_layer()) == Ok::<
            LayerInfo,
            decode::Fault,
        >(layer_summary(l)),
{
    let data = encode_utf8(l.name);
    let name = pbf::len_field_bytes(1, data);
    let features = layer::features_bytes(l.features);
    let keys = layer::keys_bytes(l.keys);
    let values = layer::values_bytes(l.values);
    let extent = pbf::varint_field_bytes(5, l.extent as nat);
    let version = pbf::varint_field_bytes(15, layer::MVT_VERSION as nat);
    let none = Seq::<u8>::empty();
    let t1 = version + none;
    let t2 = extent + t1;
    let t3 = values + t2;
    let t4 = keys + t3;
    let t5 = features + t4;
    assert(layer::layer_bytes(l) =~= name + t5);
    let i0 = decode::no_layer();
    let i1 = LayerInfo { name: l.name, ..i0 };
    let i2 = after_features(i1, l.features);
    let i3 = LayerInfo { keys: i2.keys + l.keys, ..i2 };
    let i4 = LayerInfo { value_count: i3.value_count + l.values.len(), ..i3 };
    let i5 = LayerInfo { extent: l.extent, ..i4 };
    let i6 = LayerInfo { version: 2, ..i5 };
    len_field_comes_back(1, data, t5);
    text::utf8_lossy_of_text(l.name);
    layer_step(name, t5, Field { number: 1, payload: Payload::Bytes(data) }, i0);
    features_come_back(l.features, t4, i1);
    keys_come_back(l.keys, t3, i2);
    values_come_back(l.values, t2, i3);
    varint_field_comes_back(5, l.extent as nat, t1);
    layer_step(
        extent,
        t1,
        Field { number: 5, payload: Payload::Varint(l.extent as u64) },
        i4,
    );
    varint_field_comes_back(15, layer::MVT_VERSION as nat, none);
    layer_step(version, none, Field { number: 15, payload: Payload::Varint(2) }, i5);
    assert(i6 =~= layer_summary(l));
}

/// A serialized layer comes back from the decoder: one layer with the same name, version 2, the
/// same extent and keys, as many values, and the id, kind and command count of each feature.
pub proof fn tile_comes_back(l: LayerView)
    requires
        layer::tile_bytes(l).len() < 0x1_0000_0000_0000_0000,
    ensures
        decode::tile_from(layer::tile_bytes(l), Seq::empty()) == Ok::<
            Seq<LayerInfo>,
            decode::Fault,
        >(seq![layer_summary(l)]),
{
    reveal_with_fuel(decode::tile_from, 2);
    let data = layer::layer_bytes(l);
    let bytes = layer::tile_bytes(l);
    let none = Seq::<u8>::empty();
    assert(bytes + none =~= bytes);
    len_field_comes_back(3, data, none);
    layer_comes_back(l);
    assert(bytes.skip(bytes.len() as int) =~= none);
    assert(Seq::<LayerInfo>::empty().push(layer_summary(l)) =~= seq![layer_summary(l)]);
}

/// Interning adds behind: what was interned before keeps its place.
pub proof fn interning_appends(
    keys: Seq<Seq<char>>,
    values: Seq<ValueKey>,
    props: Seq<(Seq<char>, ValueKey)>,
)
    ensures
        keys.is_prefix_of(layer::keys_after(keys, props)),
        values.is_prefix_of(layer::values_after(values, props)),
    decreases props.len(),
{
    if props.len() > 0 {
        interning_appends(keys, values, props.drop_last());
    }
}

/// Interning keeps keys and values free of duplicates.
pub proof fn interning_keeps_distinct(
    keys: Seq<Seq<char>>,
    values: Seq<ValueKey>,
    props: Seq<(Seq<char>, ValueKey)>,
)
    requires
        keys.no_duplicates(),
        values.no_duplicates(),
    ensures
        layer::keys_after(keys, props).no_duplicates(),
        layer::values_after(values, props).no_duplicates(),
    decreases props.len(),
{
    if props.len() > 0 {
        interning_keeps_distinct(keys, values, props.drop_last());
    }
}

/// The tags of a feature lead back to its properties, in order: tag `2 i` is the place of the key
/// and tag `2 i + 1` the place of the value of property `i`.
pub proof fn tags_lead_back(
    keys: Seq<Seq<char>>,
    values: Seq<ValueKey>,
    props: Seq<(Seq<char>, ValueKey)>,
    i: int,
)
    requires
        0 <= i < props.len(),
        layer::keys_after(keys, props).len() < 0x1_0000_0000,
        layer::values_after(values, props).len() < 0x1_0000_0000,
    ensures
        ({
            let tags = layer::tags_of(keys, values, props);
            &&& tags.len() == 2 * props.len()
            &&& tags[2 * i] < layer::keys_after(keys, props).len()
            &&& layer::keys_after(keys, props)[tags[2 * i] as int] == props[i].0
            &&& tags[2 * i + 1] < layer::values_after(values, props).len()
            &&& layer::values_after(values, props)[tags[2 * i + 1] as int] == props[i].1
        }),
    decreases props.len(),
{
    let front = props.drop_last();
    let (key, value) = props.last();
    let k = layer::keys_after(keys, front);
    let v = layer::values_after(values, front);
    tags_len(keys, values, front);
    layer::place_props(k, key);
    layer::place_props(v, value);
    if i < front.len() {
        tags_lead_back(keys, values, front, i);
    }
}

/// Every property has two tags.
pub proof fn tags_len(
    keys: Seq<Seq<char>>,
    values: Seq<ValueKey>,
    props: Seq<(Seq<char>, ValueKey)>,
)
    ensures
        layer::tags_of(keys, values, props).len() == 2 * props.len(),
    decreases props.len(),
{
    if props.len() > 0 {
        tags_len(keys, values, props.drop_last());
    }
}

} // verus!
