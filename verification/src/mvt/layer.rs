//! Layers with interned keys and values, and their serialized form.
use vstd::prelude::*;
use vstd::hash_map::StringHashMap;
use vstd::utf8::*;
use std::collections::HashMap;
use crate::double::Double;
use crate::mvt::commands::GeomKind;
use crate::mvt::pbf;
use crate::mvt::pbf::PbfWriter;
use vstd::string::*;

verus! {

broadcast use vstd::std_specs::hash::group_hash_axioms;

/// Layers declare version 2 of the format.
pub const MVT_VERSION: u64 = 2;

/// Typed feature attribute values.
#[derive(Debug, PartialEq)]
pub enum MvtValue {
    String(String),
    Double(Double),
    Int(i64),
    Uint(u64),
    Bool(bool),
}

/// What an attribute value is.
pub enum ValueKey {
    String(Seq<char>),
    DoubleBits(u64),
    Int(i64),
    Uint(u64),
    Bool(bool),
}

impl View for MvtValue {
    type V = ValueKey;

    open spec fn view(&self) -> ValueKey {
        match self {
            MvtValue::String(s) => ValueKey::String(s@),
            MvtValue::Double(d) => ValueKey::DoubleBits(d.bits),
            MvtValue::Int(i) => ValueKey::Int(*i),
            MvtValue::Uint(u) => ValueKey::Uint(*u),
            MvtValue::Bool(b) => ValueKey::Bool(*b),
        }
    }
}

impl Clone for MvtValue {
    fn clone(&self) -> (v: Self)
        ensures
            v == *self,
    {
        match self {
            MvtValue::String(s) => MvtValue::String(s.clone()),
            MvtValue::Double(d) => MvtValue::Double(*d),
            MvtValue::Int(i) => MvtValue::Int(*i),
            MvtValue::Uint(u) => MvtValue::Uint(*u),
            MvtValue::Bool(b) => MvtValue::Bool(*b),
        }
    }
}

/// The fields of a `Tile.Value` message.
pub open spec fn value_bytes(v: ValueKey) -> Seq<u8> {
    match v {
        ValueKey::String(s) => pbf::len_field_bytes(1, encode_utf8(s)),
        ValueKey::DoubleBits(d) => pbf::fixed64_field_bytes(3, d as nat),
        ValueKey::Int(i) => pbf::varint_field_bytes(4, pbf::twos_complement64(i)),
        ValueKey::Uint(u) => pbf::varint_field_bytes(5, u as nat),
        ValueKey::Bool(b) => pbf::varint_field_bytes(
            7,
            if b {
                1
            } else {
                0
            },
        ),
    }
}

/// The rough serialized size of a value.
pub open spec fn value_size(v: ValueKey) -> nat {
    match v {
        ValueKey::String(s) => encode_utf8(s).len(),
        ValueKey::DoubleBits(_) => 8,
        ValueKey::Int(_) => 10,
        ValueKey::Uint(_) => 10,
        ValueKey::Bool(_) => 1,
    }
}

/// A number that tells the values apart that are not strings.
spec fn scalar_code(v: ValueKey) -> int {
    match v {
        ValueKey::String(_) => 0,
        ValueKey::DoubleBits(d) => d as int,
        ValueKey::Int(i) => 0x1_0000_0000_0000_0000int + pbf::twos_complement64(i) as int,
        ValueKey::Uint(u) => 0x2_0000_0000_0000_0000int + u as int,
        ValueKey::Bool(b) => 0x3_0000_0000_0000_0000int + if b {
            1int
        } else {
            0int
        },
    }
}

impl MvtValue {
    /// Serializes into the fields of a `Tile.Value` message.
    fn encode(&self, w: &mut PbfWriter)
        ensures
            final(w)@ == old(w)@ + value_bytes(self@),
    {
        match self {
            MvtValue::String(s) => w.string_field(1, s.as_str()),
            MvtValue::Double(d) => w.double_field(3, d.bits),
            MvtValue::Int(i) => w.int64_field(4, *i),
            MvtValue::Uint(u) => w.varint_field(5, *u),
            MvtValue::Bool(b) => w.bool_field(7, *b),
        }
    }

    /// Rough serialized size, used for the per-feature payload budget.
    pub fn size_estimate(&self) -> (n: usize)
        ensures
            n == value_size(self@),
    {
        match self {
            MvtValue::String(s) => s.as_str().as_bytes().len(),
            MvtValue::Double(_) => 8,
            MvtValue::Int(_) => 10,
            MvtValue::Uint(_) => 10,
            MvtValue::Bool(_) => 1,
        }
    }

    /// The code of a value that is not a string.
    fn code(&self) -> (c: u128)
        ensures
            c == scalar_code(self@),
    {
        match self {
            MvtValue::String(_) => 0,
            MvtValue::Double(d) => d.bits as u128,
            MvtValue::Int(i) => {
                let low: u64 = if *i >= 0 {
                    *i as u64
                } else {
                    u64::MAX - ((-(*i + 1)) as u64)
                };
                0x1_0000_0000_0000_0000 + low as u128
            },
            MvtValue::Uint(u) => 0x2_0000_0000_0000_0000 + *u as u128,
            MvtValue::Bool(b) => if *b {
                0x3_0000_0000_0000_0001
            } else {
                0x3_0000_0000_0000_0000
            },
        }
    }
}

/// A fully encoded feature ready for layer assembly.
#[derive(Debug)]
pub struct EncodedFeature {
    pub id: Option<u64>,
    pub kind: GeomKind,
    pub geometry: Vec<u32>,
    /// Pairs of already-interned (key index, value index).
    pub tags: Vec<u32>,
}

/// What an encoded feature is.
pub struct FeatureView {
    pub id: Option<u64>,
    pub kind: GeomKind,
    pub geometry: Seq<u32>,
    pub tags: Seq<u32>,
}

impl View for EncodedFeature {
    type V = FeatureView;

    open spec fn view(&self) -> FeatureView {
        FeatureView {
            id: self.id,
            kind: self.kind,
            geometry: self.geometry@,
            tags: self.tags@,
        }
    }
}

/// The fields of a `Tile.Feature` message.
pub open spec fn feature_bytes(f: FeatureView) -> Seq<u8> {
    let id = match f.id {
        Some(id) => pbf::varint_field_bytes(1, id as nat),
        None => Seq::empty(),
    };
    let tags = if f.tags.len() > 0 {
        pbf::len_field_bytes(2, pbf::packed(f.tags))
    } else {
        Seq::empty()
    };
    id + tags + pbf::varint_field_bytes(3, f.kind.number() as nat) + pbf::len_field_bytes(
        4,
        pbf::packed(f.geometry),
    )
}

/// What a layer is: its name, extent, interned keys and values, and features.
#[verifier::ext_equal]
pub struct LayerView {
    pub name: Seq<char>,
    pub extent: u32,
    pub keys: Seq<Seq<char>>,
    pub values: Seq<ValueKey>,
    pub features: Seq<FeatureView>,
}

pub open spec fn features_bytes(features: Seq<FeatureView>) -> Seq<u8>
    decreases features.len(),
{
    if features.len() == 0 {
        Seq::empty()
    } else {
        features_bytes(features.drop_last()) + pbf::len_field_bytes(
            2,
            feature_bytes(features.last()),
        )
    }
}

pub open spec fn keys_bytes(keys: Seq<Seq<char>>) -> Seq<u8>
    decreases keys.len(),
{
    if keys.len() == 0 {
        Seq::empty()
    } else {
        keys_bytes(keys.drop_last()) + pbf::len_field_bytes(3, encode_utf8(keys.last()))
    }
}

pub open spec fn values_bytes(values: Seq<ValueKey>) -> Seq<u8>
    decreases values.len(),
{
    if values.len() == 0 {
        Seq::empty()
    } else {
        values_bytes(values.drop_last()) + pbf::len_field_bytes(4, value_bytes(values.last()))
    }
}

/// The fields of a `Tile.Layer` message.
pub open spec fn layer_bytes(l: LayerView) -> Seq<u8> {
    pbf::len_field_bytes(1, encode_utf8(l.name)) + features_bytes(l.features) + keys_bytes(l.keys)
        + values_bytes(l.values) + pbf::varint_field_bytes(5, l.extent as nat)
        + pbf::varint_field_bytes(15, MVT_VERSION as nat)
}

/// A `Tile` message with the one layer.
pub open spec fn tile_bytes(l: LayerView) -> Seq<u8> {
    pbf::len_field_bytes(3, layer_bytes(l))
}

/// The place of `x` in `s`, or the place after the last where it is not there.
pub open spec fn place<T>(s: Seq<T>, x: T) -> nat
    decreases s.len(),
{
    if s.len() == 0 {
        0
    } else if s.drop_last().contains(x) {
        place(s.drop_last(), x)
    } else if s.last() == x {
        (s.len() - 1) as nat
    } else {
        s.len()
    }
}

/// `s` with `x` at the end, unless it is there already.
pub open spec fn interned<T>(s: Seq<T>, x: T) -> Seq<T> {
    if s.contains(x) {
        s
    } else {
        s.push(x)
    }
}

/// The keys of a layer after the properties of one more feature.
pub open spec fn keys_after(keys: Seq<Seq<char>>, props: Seq<(Seq<char>, ValueKey)>) -> Seq<
    Seq<char>,
>
    decreases props.len(),
{
    if props.len() == 0 {
        keys
    } else {
        interned(keys_after(keys, props.drop_last()), props.last().0)
    }
}

/// The values of a layer after the properties of one more feature.
pub open spec fn values_after(values: Seq<ValueKey>, props: Seq<(Seq<char>, ValueKey)>) -> Seq<
    ValueKey,
>
    decreases props.len(),
{
    if props.len() == 0 {
        values
    } else {
        interned(values_after(values, props.drop_last()), props.last().1)
    }
}

/// The tags of a feature: for each property the places of its key and of its value.
pub open spec fn tags_of(
    keys: Seq<Seq<char>>,
    values: Seq<ValueKey>,
    props: Seq<(Seq<char>, ValueKey)>,
) -> Seq<u32>
    decreases props.len(),
{
    if props.len() == 0 {
        Seq::empty()
    } else {
        let (key, value) = props.last();
        tags_of(keys, values, props.drop_last()).push(
            place(keys_after(keys, props.drop_last()), key) as u32,
        ).push(place(values_after(values, props.drop_last()), value) as u32)
    }
}

/// The properties of a feature, by what they are.
pub open spec fn props_view(props: Seq<(String, MvtValue)>) -> Seq<(Seq<char>, ValueKey)> {
    props.map_values(|p: (String, MvtValue)| (p.0@, p.1@))
}

/// A layer after one more feature; a feature without geometry is left out.
pub open spec fn with_feature(
    l: LayerView,
    id: Option<u64>,
    kind: GeomKind,
    geometry: Seq<u32>,
    props: Seq<(Seq<char>, ValueKey)>,
) -> LayerView {
    if geometry.len() == 0 {
        l
    } else {
        LayerView {
            keys: keys_after(l.keys, props),
            values: values_after(l.values, props),
            features: l.features.push(
                FeatureView { id, kind, geometry, tags: tags_of(l.keys, l.values, props) },
            ),
            ..l
        }
    }
}

/// The estimate for the first `n` features.
pub open spec fn features_estimate(fs: Seq<FeatureView>, n: nat) -> nat
    decreases n,
{
    if n == 0 {
        0
    } else {
        features_estimate(fs, (n - 1) as nat) + fs[n - 1].geometry.len() * 4 + fs[n
            - 1].tags.len() * 2 + 16
    }
}

/// The estimate for the first `n` keys.
pub open spec fn keys_estimate(keys: Seq<Seq<char>>, n: nat) -> nat
    decreases n,
{
    if n == 0 {
        0
    } else {
        keys_estimate(keys, (n - 1) as nat) + encode_utf8(keys[n - 1]).len() + 4
    }
}

/// The estimate for the first `n` values.
pub open spec fn values_estimate(values: Seq<ValueKey>, n: nat) -> nat
    decreases n,
{
    if n == 0 {
        0
    } else {
        values_estimate(values, (n - 1) as nat) + value_size(values[n - 1]) + 4
    }
}

/// The estimated size of a layer.
pub open spec fn estimated_size(l: LayerView) -> nat {
    features_estimate(l.features, l.features.len()) + keys_estimate(l.keys, l.keys.len())
        + values_estimate(l.values, l.values.len()) + encode_utf8(l.name).len() + 32
}

proof fn features_estimate_grows(fs: Seq<FeatureView>, n: nat, m: nat)
    requires
        n <= m,
    ensures
        features_estimate(fs, n) <= features_estimate(fs, m),
    decreases m,
{
    if n < m {
        features_estimate_grows(fs, n, (m - 1) as nat);
    }
}

proof fn keys_estimate_grows(keys: Seq<Seq<char>>, n: nat, m: nat)
    requires
        n <= m,
    ensures
        keys_estimate(keys, n) <= keys_estimate(keys, m),
    decreases m,
{
    if n < m {
        keys_estimate_grows(keys, n, (m - 1) as nat);
    }
}

proof fn values_estimate_grows(values: Seq<ValueKey>, n: nat, m: nat)
    requires
        n <= m,
    ensures
        values_estimate(values, n) <= values_estimate(values, m),
    decreases m,
{
    if n < m {
        values_estimate_grows(values, n, (m - 1) as nat);
    }
}

pub proof fn place_props<T>(s: Seq<T>, x: T)
    ensures
        s.contains(x) ==> place(s, x) < s.len() && s[place(s, x) as int] == x,
        !s.contains(x) ==> place(s, x) == s.len(),
    decreases s.len(),
{
    if s.len() > 0 {
        place_props(s.drop_last(), x);
        assert(s.drop_last().contains(x) ==> s.contains(x)) by {
            if s.drop_last().contains(x) {
                let i = choose|i: int| 0 <= i < s.drop_last().len() && s.drop_last()[i] == x;
                assert(s[i] == x);
            }
        }
        assert(s.contains(x) && s.last() != x ==> s.drop_last().contains(x)) by {
            if s.contains(x) && s.last() != x {
                let i = choose|i: int| 0 <= i < s.len() && s[i] == x;
                assert(s.drop_last()[i] == x);
            }
        }
        assert(s.last() == x ==> s.contains(x));
    }
}

/// The place of an element does not move when others come behind it.
pub proof fn place_push<T>(s: Seq<T>, x: T, y: T)
    ensures
        s.contains(x) ==> place(s.push(y), x) == place(s, x),
        !s.contains(x) ==> place(s.push(x), x) == s.len(),
        s.push(y).contains(x) <==> s.contains(x) || x == y,
{
    assert(s.push(y).drop_last() =~= s);
    assert(s.push(x).drop_last() =~= s);
    if s.contains(x) {
        let i = choose|i: int| 0 <= i < s.len() && s[i] == x;
        assert(s.push(y)[i] == x);
    }
    if x == y {
        assert(s.push(y)[s.len() as int] == x);
    }
    if s.push(y).contains(x) && x != y {
        let i = choose|i: int| 0 <= i < s.push(y).len() && s.push(y)[i] == x;
        assert(s[i] == x);
    }
}

/// Layer builder with key and value interning.
///
/// Keys and values are deduplicated per layer; features reference them by index through the
/// `tags` array.
pub struct MvtLayer {
    name: String,
    extent: u32,
    keys: Vec<String>,
    key_index: StringHashMap<u32>,
    values: Vec<MvtValue>,
    string_index: StringHashMap<u32>,
    scalar_index: HashMap<u128, u32>,
    features: Vec<EncodedFeature>,
}

impl View for MvtLayer {
    type V = LayerView;

    closed spec fn view(&self) -> LayerView {
        LayerView {
            name: self.name@,
            extent: self.extent,
            keys: self.keys@.map_values(|k: String| k@),
            values: self.values@.map_values(|v: MvtValue| v@),
            features: self.features@.map_values(|f: EncodedFeature| f@),
        }
    }
}

impl MvtLayer {
    /// The index entry of a value, where it has one.
    spec fn value_entry(&self, v: ValueKey) -> Option<u32> {
        match v {
            ValueKey::String(s) => if self.string_index@.contains_key(s) {
                Some(self.string_index@[s])
            } else {
                None
            },
            _ => if self.scalar_index@.contains_key(scalar_code(v) as u128) {
                Some(self.scalar_index@[scalar_code(v) as u128])
            } else {
                None
            },
        }
    }

    /// Nothing is interned twice, and the indexes hold the places of the keys and the values.
    pub closed spec fn wf(&self) -> bool {
        let view = self@;
        &&& view.keys.no_duplicates()
        &&& view.values.no_duplicates()
        &&& forall|k: Seq<char>| #[trigger]
            self.key_index@.contains_key(k) <==> view.keys.contains(k)
        &&& forall|k: Seq<char>| #[trigger]
            view.keys.contains(k) ==> self.key_index@[k] == place(view.keys, k) as u32
        &&& forall|v: ValueKey| #[trigger]
            self.value_entry(v) == if view.values.contains(v) {
                Some(place(view.values, v) as u32)
            } else {
                None
            }
    }

    pub fn new(name: String, extent: u32) -> (l: Self)
        ensures
            l.wf(),
            l@ == (LayerView {
                name: name@,
                extent,
                keys: Seq::empty(),
                values: Seq::empty(),
                features: Seq::empty(),
            }),
    {
        let l = MvtLayer {
            name,
            extent,
            keys: Vec::new(),
            key_index: StringHashMap::new(),
            values: Vec::new(),
            string_index: StringHashMap::new(),
            scalar_index: HashMap::new(),
            features: Vec::new(),
        };
        assert(l@.keys =~= Seq::empty());
        assert(l@.values =~= Seq::empty());
        assert(l@.features =~= Seq::empty());
        l
    }

    pub fn name(&self) -> (s: &str)
        ensures
            s@ == self@.name,
    {
        self.name.as_str()
    }

    pub fn feature_count(&self) -> (n: usize)
        ensures
            n == self@.features.len(),
    {
        self.features.len()
    }

    pub fn is_empty(&self) -> (b: bool)
        ensures
            b == (self@.features.len() == 0),
    {
        self.features.len() == 0
    }

    fn intern_key(&mut self, key: &str) -> (idx: u32)
        requires
            old(self).wf(),
        ensures
            final(self).wf(),
            final(self)@ == (LayerView { keys: interned(old(self)@.keys, key@), ..old(self)@ }),
            idx == place(old(self)@.keys, key@) as u32,
    {
        proof {
            place_props(self@.keys, key@);
        }
        match self.key_index.get(key) {
            Some(idx) => {
                assert(self@ == (LayerView { keys: interned(self@.keys, key@), ..self@ }));
                return *idx;
            },
            None => {},
        }
        let idx: u32 = self.keys.len() as u32;
        self.keys.push(key.to_string());
        self.key_index.insert(key.to_string(), idx);
        proof {
            let ghost before = old(self)@;
            assert(self@.keys =~= before.keys.push(key@));
            assert(self@.values =~= before.values);
            assert(self@.features =~= before.features);
            assert forall|k: Seq<char>| #[trigger] self@.keys.contains(k) implies self.key_index@[k]
                == place(self@.keys, k) as u32 by {
                place_push(before.keys, k, key@);
                if k == key@ {
                    place_push(before.keys, key@, key@);
                }
            }
            assert forall|k: Seq<char>| #[trigger]
                self.key_index@.contains_key(k) <==> self@.keys.contains(k) by {
                place_push(before.keys, k, key@);
            }
            assert forall|v: ValueKey| #[trigger]
                self.value_entry(v) == if self@.values.contains(v) {
                    Some(place(self@.values, v) as u32)
                } else {
                    None
                } by {
                assert(self.value_entry(v) == old(self).value_entry(v));
            }
        }
        idx
    }

    fn intern_value(&mut self, value: &MvtValue) -> (idx: u32)
        requires
            old(self).wf(),
        ensures
            final(self).wf(),
            final(self)@ == (LayerView { values: interned(old(self)@.values, value@), ..old(self)@ }),
            idx == place(old(self)@.values, value@) as u32,
    {
        proof {
            place_props(self@.values, value@);
            assert(self.value_entry(value@) == if self@.values.contains(value@) {
                Some(place(self@.values, value@) as u32)
            } else {
                None
            });
        }
        let found: Option<u32> = match value {
            MvtValue::String(s) => match self.string_index.get(s.as_str()) {
                Some(idx) => Some(*idx),
                None => None,
            },
            _ => match self.scalar_index.get(&value.code()) {
                Some(idx) => Some(*idx),
                None => None,
            },
        };
        assert(found == self.value_entry(value@));
        if let Some(idx) = found {
            assert(self@ == (LayerView { values: interned(self@.values, value@), ..self@ }));
            return idx;
        }
        let idx: u32 = self.values.len() as u32;
        self.values.push(value.clone());
        match value {
            MvtValue::String(s) => {
                self.string_index.insert(s.clone(), idx);
            },
            _ => {
                self.scalar_index.insert(value.code(), idx);
            },
        }
        proof {
            let ghost before = old(self)@;
            assert(self@.values =~= before.values.push(value@));
            assert(self@.keys =~= before.keys);
            assert(self@.features =~= before.features);
            assert forall|v: ValueKey| #[trigger]
                self.value_entry(v) == if self@.values.contains(v) {
                    Some(place(self@.values, v) as u32)
                } else {
                    None
                } by {
                assert(old(self).value_entry(v) == if before.values.contains(v) {
                    Some(place(before.values, v) as u32)
                } else {
                    None
                });
                place_push(before.values, v, value@);
                if v == value@ {
                    place_push(before.values, v, v);
                } else {
                    assert(self.value_entry(v) == old(self).value_entry(v));
                }
            }
        }
        idx
    }

    /// Adds a feature, interning its properties into keys and values. A feature without geometry
    /// is left out.
    pub fn add_feature(
        &mut self,
        id: Option<u64>,
        kind: GeomKind,
        geometry: Vec<u32>,
        properties: &[(String, MvtValue)],
    )
        requires
            old(self).wf(),
        ensures
            final(self).wf(),
            final(self)@ == with_feature(
                old(self)@,
                id,
                kind,
                geometry@,
                props_view(properties@),
            ),
    {
        if geometry.len() == 0 {
            return;
        }
        let ghost props = props_view(properties@);
        let ghost start = self@;
        let mut tags: Vec<u32> = Vec::new();
        let mut i: usize = 0;
        assert(props.take(0) =~= Seq::empty());
        while i < properties.len()
            invariant
                i <= properties@.len(),
                props == props_view(properties@),
                start == old(self)@,
                self.wf(),
                self@ == (LayerView {
                    keys: keys_after(start.keys, props.take(i as int)),
                    values: values_after(start.values, props.take(i as int)),
                    ..start
                }),
                tags@ == tags_of(start.keys, start.values, props.take(i as int)),
            decreases properties@.len() - i,
        {
            let prop = &properties[i];
            assert(props.take(i + 1).drop_last() =~= props.take(i as int));
            assert(props.take(i + 1).last() == (prop.0@, prop.1@));
            let ki: u32 = self.intern_key(prop.0.as_str());
            let vi: u32 = self.intern_value(&prop.1);
            tags.push(ki);
            tags.push(vi);
            i = i + 1;
        }
        assert(props.take(i as int) =~= props);
        let feature = EncodedFeature { id, kind, geometry, tags };
        let ghost mid = *self;
        self.features.push(feature);
        proof {
            assert(self@.features =~= start.features.push(feature@));
            assert(self@.keys =~= mid@.keys);
            assert(self@.values =~= mid@.values);
            assert forall|v: ValueKey| #[trigger]
                self.value_entry(v) == if self@.values.contains(v) {
                    Some(place(self@.values, v) as u32)
                } else {
                    None
                } by {
                assert(self.value_entry(v) == mid.value_entry(v));
            }
        }
    }

    /// Estimated uncompressed size (for cheap pre-checks before encoding).
    pub fn approximate_bytes(&self) -> (n: usize)
        requires
            estimated_size(self@) <= usize::MAX,
        ensures
            n == estimated_size(self@),
    {
        let ghost view = self@;
        let mut n: usize = 0;
        let mut i: usize = 0;
        while i < self.features.len()
            invariant
                view == self@,
                i <= self.features@.len(),
                n == features_estimate(view.features, i as nat),
                estimated_size(view) <= usize::MAX,
            decreases self.features@.len() - i,
        {
            let f = &self.features[i];
            proof {
                features_estimate_grows(view.features, (i + 1) as nat, view.features.len());
                assert(view.features[i as int] == f@);
            }
            n = n + f.geometry.len() * 4 + f.tags.len() * 2 + 16;
            i = i + 1;
        }
        let mut j: usize = 0;
        while j < self.keys.len()
            invariant
                view == self@,
                j <= self.keys@.len(),
                n == features_estimate(view.features, view.features.len()) + keys_estimate(
                    view.keys,
                    j as nat,
                ),
                estimated_size(view) <= usize::MAX,
            decreases self.keys@.len() - j,
        {
            proof {
                keys_estimate_grows(view.keys, (j + 1) as nat, view.keys.len());
                assert(view.keys[j as int] == self.keys@[j as int]@);
            }
            n = n + self.keys[j].as_str().as_bytes().len() + 4;
            j = j + 1;
        }
        let mut k: usize = 0;
        while k < self.values.len()
            invariant
                view == self@,
                k <= self.values@.len(),
                n == features_estimate(view.features, view.features.len()) + keys_estimate(
                    view.keys,
                    view.keys.len(),
                ) + values_estimate(view.values, k as nat),
                estimated_size(view) <= usize::MAX,
            decreases self.values@.len() - k,
        {
            proof {
                values_estimate_grows(view.values, (k + 1) as nat, view.values.len());
                assert(view.values[k as int] == self.values@[k as int]@);
            }
            n = n + self.values[k].size_estimate() + 4;
            k = k + 1;
        }
        n + self.name.as_str().as_bytes().len() + 32
    }

    /// Serializes the layer as a complete `Tile` message.
    pub fn to_tile_bytes(&self) -> (bytes: Vec<u8>)
        ensures
            bytes@ == tile_bytes(self@),
    {
        let mut tile = PbfWriter::new();
        let build = |layer: &mut PbfWriter|
            ensures
                final(layer)@ == old(layer)@ + layer_bytes(self@),
            { self.encode_layer(layer) };
        tile.message_field(3, build);
        assert(Seq::<u8>::empty() + layer_bytes(self@) =~= layer_bytes(self@));
        assert(tile@ =~= tile_bytes(self@));
        tile.into_bytes()
    }

    fn encode_layer(&self, layer: &mut PbfWriter)
        ensures
            final(layer)@ == old(layer)@ + layer_bytes(self@),
    {
        let ghost start = layer@;
        let ghost view = self@;
        // required string name = 1;
        layer.string_field(1, self.name.as_str());
        let ghost named = layer@;
        // repeated Feature features = 2;
        let mut i: usize = 0;
        assert(view.features.take(0) =~= Seq::empty());
        assert(named + features_bytes(view.features.take(0)) =~= named);
        while i < self.features.len()
            invariant
                i <= self.features@.len(),
                view == self@,
                layer@ == named + features_bytes(view.features.take(i as int)),
            decreases self.features@.len() - i,
        {
            let f = &self.features[i];
            let ghost before = layer@;
            put_feature(f, layer);
            assert(view.features.take(i + 1).drop_last() =~= view.features.take(i as int));
            assert(view.features.take(i + 1).last() == f@);
            assert(layer@ =~= named + features_bytes(view.features.take(i + 1)));
            i = i + 1;
        }
        assert(view.features.take(i as int) =~= view.features);
        let ghost featured = layer@;
        // repeated string keys = 3;
        let mut j: usize = 0;
        assert(view.keys.take(0) =~= Seq::empty());
        assert(featured + keys_bytes(view.keys.take(0)) =~= featured);
        while j < self.keys.len()
            invariant
                j <= self.keys@.len(),
                view == self@,
                layer@ == featured + keys_bytes(view.keys.take(j as int)),
            decreases self.keys@.len() - j,
        {
            layer.string_field(3, self.keys[j].as_str());
            assert(view.keys.take(j + 1).drop_last() =~= view.keys.take(j as int));
            assert(view.keys.take(j + 1).last() == self.keys@[j as int]@);
            assert(layer@ =~= featured + keys_bytes(view.keys.take(j + 1)));
            j = j + 1;
        }
        assert(view.keys.take(j as int) =~= view.keys);
        let ghost keyed = layer@;
        // repeated Value values = 4;
        let mut k: usize = 0;
        assert(view.values.take(0) =~= Seq::empty());
        assert(keyed + values_bytes(view.values.take(0)) =~= keyed);
        while k < self.values.len()
            invariant
                k <= self.values@.len(),
                view == self@,
                layer@ == keyed + values_bytes(view.values.take(k as int)),
            decreases self.values@.len() - k,
        {
            let v = &self.values[k];
            put_value(v, layer);
            assert(view.values.take(k + 1).drop_last() =~= view.values.take(k as int));
            assert(view.values.take(k + 1).last() == v@);
            assert(layer@ =~= keyed + values_bytes(view.values.take(k + 1)));
            k = k + 1;
        }
        assert(view.values.take(k as int) =~= view.values);
        // optional uint32 extent = 5;
        layer.varint_field(5, self.extent as u64);
        // required uint32 version = 15;
        layer.varint_field(15, MVT_VERSION);
        assert(layer@ =~= start + layer_bytes(view));
    }
}

/// Writes a feature as a field of its layer.
fn put_feature(f: &EncodedFeature, layer: &mut PbfWriter)
    ensures
        final(layer)@ == old(layer)@ + pbf::len_field_bytes(2, feature_bytes(f@)),
{
    let build = |feat: &mut PbfWriter|
        ensures
            final(feat)@ == old(feat)@ + feature_bytes(f@),
        { encode_feature(f, feat) };
    layer.message_field(2, build);
    assert(Seq::<u8>::empty() + feature_bytes(f@) =~= feature_bytes(f@));
}

/// Writes a value as a field of its layer.
fn put_value(v: &MvtValue, layer: &mut PbfWriter)
    ensures
        final(layer)@ == old(layer)@ + pbf::len_field_bytes(4, value_bytes(v@)),
{
    let build = |val: &mut PbfWriter|
        ensures
            final(val)@ == old(val)@ + value_bytes(v@),
        { v.encode(val) };
    layer.message_field(4, build);
    assert(Seq::<u8>::empty() + value_bytes(v@) =~= value_bytes(v@));
}

/// Writes the fields of a `Tile.Feature` message.
fn encode_feature(f: &EncodedFeature, feat: &mut PbfWriter)
    ensures
        final(feat)@ == old(feat)@ + feature_bytes(f@),
{
    if let Some(id) = f.id {
        feat.varint_field(1, id);
    }
    if f.tags.len() > 0 {
        feat.packed_varint_field(2, f.tags.as_slice());
    }
    feat.varint_field(3, f.kind.as_number() as u64);
    feat.packed_varint_field(4, f.geometry.as_slice());
    assert(feat@ =~= old(feat)@ + feature_bytes(f@));
}

} // verus!
