//! How a layer grows by a feature, and how its size is estimated.
use vstd::prelude::*;
use vstd::utf8::*;
use crate::mvt::decode;
use crate::mvt::decode::Fault;
use crate::mvt::layer;
use crate::mvt::layer::{FeatureView, LayerView, ValueKey};
use crate::mvt::layer_laws;
use crate::mvt::GeomKind;
use crate::text;

verus! {

/// A feature is added behind the others with its id, kind and geometry; name and extent stay. One
/// without geometry leaves the layer as it is.
pub proof fn features_are_added(
    l: LayerView,
    id: Option<u64>,
    kind: GeomKind,
    geometry: Seq<u32>,
    props: Seq<(Seq<char>, ValueKey)>,
)
    ensures
        geometry.len() == 0 ==> layer::with_feature(l, id, kind, geometry, props) == l,
        geometry.len() > 0 ==> {
            let new = layer::with_feature(l, id, kind, geometry, props);
            &&& new.features.len() == l.features.len() + 1
            &&& forall|i: int|
                0 <= i < l.features.len() ==> #[trigger] new.features[i] == l.features[i]
            &&& new.features.last().id == id
            &&& new.features.last().kind == kind
            &&& new.features.last().geometry == geometry
            &&& new.name == l.name
            &&& new.extent == l.extent
        },
{
}

/// A feature that is added has its properties: its tags lead to them, one by one and in order.
pub proof fn added_features_have_their_properties(
    l: LayerView,
    id: Option<u64>,
    kind: GeomKind,
    geometry: Seq<u32>,
    props: Seq<(Seq<char>, ValueKey)>,
    i: int,
)
    requires
        geometry.len() > 0,
        0 <= i < props.len(),
        layer::with_feature(l, id, kind, geometry, props).keys.len() < 0x1_0000_0000,
        layer::with_feature(l, id, kind, geometry, props).values.len() < 0x1_0000_0000,
    ensures
        ({
            let new = layer::with_feature(l, id, kind, geometry, props);
            let tags = new.features.last().tags;
            &&& tags.len() == 2 * props.len()
            &&& new.keys[tags[2 * i] as int] == props[i].0
            &&& new.values[tags[2 * i + 1] as int] == props[i].1
        }),
{
    layer_laws::tags_lead_back(l.keys, l.values, props, i);
}

/// What is interned comes from the layer or from the feature.
pub proof fn nothing_else_is_interned(
    keys: Seq<Seq<char>>,
    values: Seq<ValueKey>,
    props: Seq<(Seq<char>, ValueKey)>,
    key: Seq<char>,
    value: ValueKey,
)
    ensures
        layer::keys_after(keys, props).contains(key) ==> keys.contains(key) || exists|i: int|
            0 <= i < props.len() && (#[trigger] props[i]).0 == key,
        layer::values_after(values, props).contains(value) ==> values.contains(value) || exists|
            i: int,
        |
            0 <= i < props.len() && (#[trigger] props[i]).1 == value,
    decreases props.len(),
{
    if props.len() > 0 {
        let front = props.drop_last();
        nothing_else_is_interned(keys, values, front, key, value);
        assert(props[props.len() - 1] == props.last());
        assert forall|i: int| 0 <= i < front.len() implies #[trigger] front[i] == props[i] by {}
        layer::place_push(layer::keys_after(keys, front), key, props.last().0);
        layer::place_push(layer::values_after(values, front), value, props.last().1);
    }
}

/// A feature counts for four bytes a command, two a tag and sixteen more.
pub proof fn features_are_estimated(l: LayerView, f: FeatureView)
    ensures
        layer::estimated_size(LayerView { features: l.features.push(f), ..l })
            == layer::estimated_size(l) + 4 * f.geometry.len() + 2 * f.tags.len() + 16,
{
    let fs = l.features.push(f);
    estimate_of_front(l.features, f, l.features.len());
    assert(fs[fs.len() - 1] == f);
}

proof fn estimate_of_front(fs: Seq<FeatureView>, f: FeatureView, n: nat)
    requires
        n <= fs.len(),
    ensures
        layer::features_estimate(fs.push(f), n) == layer::features_estimate(fs, n),
    decreases n,
{
    if n > 0 {
        estimate_of_front(fs, f, (n - 1) as nat);
        assert(fs.push(f)[n - 1] == fs[n - 1]);
    }
}

/// A key counts for its bytes and four more.
pub proof fn keys_are_estimated(l: LayerView, key: Seq<char>)
    ensures
        layer::estimated_size(LayerView { keys: l.keys.push(key), ..l }) == layer::estimated_size(l)
            + encode_utf8(key).len() + 4,
{
    let ks = l.keys.push(key);
    estimate_of_keys(l.keys, key, l.keys.len());
    assert(ks[ks.len() - 1] == key);
}

proof fn estimate_of_keys(ks: Seq<Seq<char>>, key: Seq<char>, n: nat)
    requires
        n <= ks.len(),
    ensures
        layer::keys_estimate(ks.push(key), n) == layer::keys_estimate(ks, n),
    decreases n,
{
    if n > 0 {
        estimate_of_keys(ks, key, (n - 1) as nat);
        assert(ks.push(key)[n - 1] == ks[n - 1]);
    }
}

/// A value counts for its bytes and four more: a text for its own, a double for eight, a whole
/// number for ten, a truth value for one.
pub proof fn values_are_estimated(l: LayerView, v: ValueKey)
    ensures
        layer::estimated_size(LayerView { values: l.values.push(v), ..l }) == layer::estimated_size(
            l,
        ) + 4 + match v {
            ValueKey::String(s) => encode_utf8(s).len(),
            ValueKey::DoubleBits(_) => 8,
            ValueKey::Int(_) => 10,
            ValueKey::Uint(_) => 10,
            ValueKey::Bool(_) => 1,
        },
{
    let vs = l.values.push(v);
    estimate_of_values(l.values, v, l.values.len());
    assert(vs[vs.len() - 1] == v);
}

proof fn estimate_of_values(vs: Seq<ValueKey>, v: ValueKey, n: nat)
    requires
        n <= vs.len(),
    ensures
        layer::values_estimate(vs.push(v), n) == layer::values_estimate(vs, n),
    decreases n,
{
    if n > 0 {
        estimate_of_values(vs, v, (n - 1) as nat);
        assert(vs.push(v)[n - 1] == vs[n - 1]);
    }
}

/// A layer without features counts for the bytes of its name and thirty-two more.
pub proof fn empty_layers_are_estimated(l: LayerView)
    requires
        l.features.len() == 0 && l.keys.len() == 0 && l.values.len() == 0,
    ensures
        layer::estimated_size(l) == encode_utf8(l.name).len() + 32,
{
}

/// Faults of an encoded tile are named.
pub proof fn faults_have_texts(wire: u8)
    ensures
        decode::fault_text(Fault::VarintPastEnd) == "varint runs past end of buffer"@,
        decode::fault_text(Fault::VarintTooLong) == "varint longer than 64 bits"@,
        decode::fault_text(Fault::LengthPastEnd) == "length-delimited field exceeds buffer"@,
        decode::fault_text(Fault::TruncatedFixed64) == "truncated fixed64"@,
        decode::fault_text(Fault::TruncatedFixed32) == "truncated fixed32"@,
        decode::fault_text(Fault::WireType(wire)) == "unsupported wire type "@ + text::decimal(
            wire as nat,
        ),
{
}

} // verus!
