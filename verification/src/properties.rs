//! Property handling: JSON attributes to tile values, with policy enforcement.
use vstd::prelude::*;
use vstd::utf8::*;
use crate::config::PropertyPolicy;
use crate::json;
use crate::json::{Entry, JsonMap, JsonValue, JsonView};
use crate::mvt::layer;
use crate::mvt::layer::{MvtValue, ValueKey};
use crate::sorted;
use crate::sorted::key_order;
use crate::text;
use vstd::string::*;

verus! {

/// Property attribute mode used during tile-size mitigation: low-value attributes go before the
/// geometry is touched.
#[derive(Debug, Clone, Copy, PartialEq, Eq, Structural)]
pub enum AttrMode {
    /// Keep every allowed property.
    Full,
    /// Keep only core identifiers.
    Core,
    /// Drop all properties (geometry only).
    NoProperties,
}

/// The tile value of a JSON value: whole numbers signed where they fit, `null` dropped, arrays and
/// objects as their JSON text.
pub open spec fn tile_value(v: JsonView) -> Option<ValueKey> {
    match v {
        JsonView::Null => None,
        JsonView::Bool(b) => Some(ValueKey::Bool(b)),
        JsonView::Unsigned(n) => if n <= i64::MAX {
            Some(ValueKey::Int(n as i64))
        } else {
            Some(ValueKey::Uint(n))
        },
        JsonView::Negative(n) => Some(ValueKey::Int(n)),
        JsonView::Float { bits, spelling } => Some(ValueKey::DoubleBits(bits)),
        JsonView::Text(s) => Some(ValueKey::String(s)),
        JsonView::Nested(s) => Some(ValueKey::String(s)),
    }
}

/// Whether a mode keeps a key. A denied key is kept in none.
pub open spec fn mode_keeps(policy: PropertyPolicy, mode: AttrMode, key: Seq<char>) -> bool {
    match mode {
        AttrMode::Full => policy.allows(key),
        AttrMode::Core => policy.keeps_as_core(key) && !policy.denies(key),
        AttrMode::NoProperties => false,
    }
}

/// The bytes that a property counts for.
pub open spec fn payload(key: Seq<char>, v: ValueKey) -> nat {
    encode_utf8(key).len() + layer::value_size(v)
}

/// The tile properties of ordered entries, of which `taken` with `used` bytes went before: the
/// kept ones in order, up to the field cap and up to the first that breaks the byte cap.
pub open spec fn select(
    entries: Seq<Entry>,
    policy: PropertyPolicy,
    mode: AttrMode,
    taken: nat,
    used: nat,
) -> Seq<(Seq<char>, ValueKey)>
    decreases entries.len(),
{
    if entries.len() == 0 || taken >= policy.max_fields_per_feature {
        Seq::empty()
    } else {
        let (key, value) = entries[0];
        let rest = entries.skip(1);
        match tile_value(value) {
            Some(v) if mode_keeps(policy, mode, key) => if used + payload(key, v)
                > policy.max_property_bytes_per_feature {
                Seq::empty()
            } else {
                seq![(key, v)] + select(rest, policy, mode, taken + 1, used + payload(key, v))
            },
            _ => select(rest, policy, mode, taken, used),
        }
    }
}

/// The tile properties of a property map.
pub open spec fn tile_properties(
    props: Seq<Entry>,
    policy: PropertyPolicy,
    mode: AttrMode,
) -> Seq<(Seq<char>, ValueKey)> {
    select(sorted::by_key(props), policy, mode, 0, 0)
}

/// Maps a JSON value onto the tile value types.
///
/// * whole numbers become `Int` or `Uint`, other numbers `Double`
/// * strings and booleans pass through
/// * `null` is dropped
/// * arrays and objects are kept as JSON strings
pub fn json_value_to_mvt(value: &JsonValue) -> (r: Option<MvtValue>)
    ensures
        match r {
            Some(v) => tile_value(value@) == Some(v@),
            None => tile_value(value@) is None,
        },
{
    match value {
        JsonValue::Null => None,
        JsonValue::Bool(b) => Some(MvtValue::Bool(*b)),
        JsonValue::Unsigned(n) => if *n <= i64::MAX as u64 {
            Some(MvtValue::Int(*n as i64))
        } else {
            Some(MvtValue::Uint(*n))
        },
        JsonValue::Negative(n) => Some(MvtValue::Int(*n)),
        JsonValue::Float { value, spelling } => Some(MvtValue::Double(*value)),
        JsonValue::Text(s) => Some(MvtValue::String(s.clone())),
        JsonValue::Nested(s) => Some(MvtValue::String(s.clone())),
    }
}

/// Whether a mode keeps a key.
pub(crate) fn keeps(policy: &PropertyPolicy, mode: AttrMode, key: &str) -> (b: bool)
    ensures
        b == mode_keeps(*policy, mode, key@),
{
    match mode {
        AttrMode::Full => policy.is_allowed(key),
        AttrMode::Core => policy.is_core(key) && !policy.is_denied(key),
        AttrMode::NoProperties => false,
    }
}

/// Converts a property map into an ordered list of tile values, applying the policy caps.
///
/// Keys are sorted for deterministic output: the same properties always produce the same bytes.
pub fn json_to_mvt_properties(props: &JsonMap, policy: &PropertyPolicy, mode: AttrMode) -> (out:
    Vec<(String, MvtValue)>)
    ensures
        layer::props_view(out@) == tile_properties(props@, *policy, mode),
{
    let order = key_order(props);
    let ghost entries = sorted::by_key(props@);
    let mut out: Vec<(String, MvtValue)> = Vec::new();
    let mut used: usize = 0;
    let mut i: usize = 0;
    assert(entries.skip(0) =~= entries);
    assert(layer::props_view(out@) + select(entries, *policy, mode, 0, 0) =~= select(
        entries,
        *policy,
        mode,
        0,
        0,
    ));
    while i < order.len()
        invariant
            i <= order@.len(),
            order@.len() == props@.len(),
            forall|k: int| 0 <= k < order@.len() ==> (#[trigger] order@[k]) < props@.len(),
            entries == sorted::by_key(props@),
            entries.len() == order@.len(),
            entries == Seq::new(order@.len(), |k: int| props@[order@[k] as int]),
            used <= policy.max_property_bytes_per_feature,
            layer::props_view(out@) + select(
                entries.skip(i as int),
                *policy,
                mode,
                out@.len(),
                used as nat,
            ) == tile_properties(props@, *policy, mode),
        ensures
            layer::props_view(out@) == tile_properties(props@, *policy, mode),
        decreases order@.len() - i,
    {
        let ghost rest = entries.skip(i as int);
        let ghost so_far = layer::props_view(out@);
        if out.len() >= policy.max_fields_per_feature {
            assert(so_far + Seq::<(Seq<char>, ValueKey)>::empty() =~= so_far);
            break;
        }
        let (key, value) = props.entry(order[i]);
        assert(rest[0] == (key@, value@));
        assert(rest.skip(1) =~= entries.skip(i + 1));
        let mapped = json_value_to_mvt(value);
        if keeps(policy, mode, key) {
            if let Some(mv) = mapped {
                let key_len: usize = key.as_bytes().len();
                let size: usize = mv.size_estimate();
                let room: usize = policy.max_property_bytes_per_feature - used;
                if key_len > room || size > room - key_len {
                    assert(so_far + Seq::<(Seq<char>, ValueKey)>::empty() =~= so_far);
                    break;
                }
                used = used + key_len + size;
                let ghost v = mv@;
                out.push((key.to_string(), mv));
                proof {
                    assert(layer::props_view(out@) =~= so_far.push((key@, v)));
                    let tail = select(
                        entries.skip(i + 1),
                        *policy,
                        mode,
                        out@.len(),
                        used as nat,
                    );
                    assert(so_far + (seq![(key@, v)] + tail) =~= so_far.push((key@, v)) + tail);
                }
            }
        }
        i = i + 1;
    }
    proof {
        if i == order@.len() {
            assert(layer::props_view(out@) + Seq::<(Seq<char>, ValueKey)>::empty()
                =~= layer::props_view(out@));
        }
    }
    out
}

/// The serialized size of the first `n` entries: key bytes and JSON text bytes.
pub open spec fn serialized_size(props: Seq<Entry>) -> nat
    decreases props.len(),
{
    if props.len() == 0 {
        0
    } else {
        serialized_size(props.drop_last()) + encode_utf8(props.last().0).len() + encode_utf8(
            json::json_text(props.last().1),
        ).len()
    }
}

proof fn serialized_size_prefix(props: Seq<Entry>, n: int)
    requires
        0 <= n <= props.len(),
    ensures
        serialized_size(props.take(n)) <= serialized_size(props),
    decreases props.len(),
{
    if n < props.len() {
        serialized_size_prefix(props.drop_last(), n);
        assert(props.drop_last().take(n) =~= props.take(n));
    } else {
        assert(props.take(n) =~= props);
    }
}

/// Estimates the serialized size of a property map (used for validation reports before tiling).
pub fn property_payload_bytes(props: &JsonMap) -> (n: usize)
    requires
        serialized_size(props@) <= usize::MAX,
    ensures
        n == serialized_size(props@),
{
    let mut n: usize = 0;
    let mut i: usize = 0;
    while i < props.len()
        invariant
            i <= props@.len(),
            serialized_size(props@) <= usize::MAX,
            n == serialized_size(props@.take(i as int)),
        decreases props@.len() - i,
    {
        let (key, value) = props.entry(i);
        let rendered = value.to_json();
        proof {
            serialized_size_prefix(props@, i + 1);
            assert(props@.take(i + 1).drop_last() =~= props@.take(i as int));
        }
        n = n + key.as_bytes().len() + rendered.as_str().as_bytes().len();
        i = i + 1;
    }
    assert(props@.take(i as int) =~= props@);
    n
}

/// The same properties give the same tile properties, in whatever order they were put in.
pub proof fn tile_properties_are_deterministic(
    a: Seq<Entry>,
    b: Seq<Entry>,
    policy: PropertyPolicy,
    mode: AttrMode,
)
    requires
        json::keys_distinct(a),
        json::keys_distinct(b),
        a.to_multiset() == b.to_multiset(),
    ensures
        tile_properties(a, policy, mode) == tile_properties(b, policy, mode),
{
    sorted::order_is_canonical(a, b);
}

/// The bytes that a list of tile properties counts for.
pub open spec fn total_payload(props: Seq<(Seq<char>, ValueKey)>) -> nat
    decreases props.len(),
{
    if props.len() == 0 {
        0
    } else {
        payload(props[0].0, props[0].1) + total_payload(props.skip(1))
    }
}

proof fn select_respects_policy(
    entries: Seq<Entry>,
    policy: PropertyPolicy,
    mode: AttrMode,
    taken: nat,
    used: nat,
)
    requires
        used <= policy.max_property_bytes_per_feature,
    ensures
        ({
            let out = select(entries, policy, mode, taken, used);
            &&& taken <= policy.max_fields_per_feature ==> taken + out.len()
                <= policy.max_fields_per_feature
            &&& used + total_payload(out) <= policy.max_property_bytes_per_feature
            &&& forall|i: int|
                0 <= i < out.len() ==> mode_keeps(policy, mode, (#[trigger] out[i]).0)
            &&& forall|i: int|
                0 <= i < out.len() ==> exists|j: int|
                    0 <= j < entries.len() && (#[trigger] entries[j]).0 == (#[trigger] out[i]).0
                        && tile_value(entries[j].1) == Some(out[i].1)
        }),
    decreases entries.len(),
{
    let out = select(entries, policy, mode, taken, used);
    if entries.len() > 0 && taken < policy.max_fields_per_feature {
        let (key, value) = entries[0];
        let rest = entries.skip(1);
        let kept = tile_value(value) is Some && mode_keeps(policy, mode, key);
        if kept {
            let v = tile_value(value)->Some_0;
            if used + payload(key, v) <= policy.max_property_bytes_per_feature {
                let tail = select(rest, policy, mode, taken + 1, used + payload(key, v));
                select_respects_policy(rest, policy, mode, taken + 1, used + payload(key, v));
                assert(out.skip(1) =~= tail);
                assert forall|i: int| 0 <= i < out.len() implies mode_keeps(
                    policy,
                    mode,
                    (#[trigger] out[i]).0,
                ) by {
                    if i > 0 {
                        assert(out[i] == tail[i - 1]);
                    }
                }
                assert forall|i: int| 0 <= i < out.len() implies exists|j: int|
                    0 <= j < entries.len() && (#[trigger] entries[j]).0 == (#[trigger] out[i]).0
                        && tile_value(entries[j].1) == Some(out[i].1) by {
                    if i > 0 {
                        assert(out[i] == tail[i - 1]);
                        let j = choose|j: int|
                            0 <= j < rest.len() && (#[trigger] rest[j]).0 == tail[i - 1].0
                                && tile_value(rest[j].1) == Some(tail[i - 1].1);
                        assert(entries[j + 1] == rest[j]);
                    } else {
                        assert(entries[0].0 == out[0].0);
                    }
                }
            }
        } else {
            select_respects_policy(rest, policy, mode, taken, used);
            assert forall|i: int| 0 <= i < out.len() implies exists|j: int|
                0 <= j < entries.len() && (#[trigger] entries[j]).0 == (#[trigger] out[i]).0
                    && tile_value(entries[j].1) == Some(out[i].1) by {
                let j = choose|j: int|
                    0 <= j < rest.len() && (#[trigger] rest[j]).0 == out[i].0 && tile_value(
                        rest[j].1,
                    ) == Some(out[i].1);
                assert(entries[j + 1] == rest[j]);
            }
        }
    }
}

/// The policy is enforced: every key is one that the mode keeps, the number of fields and the
/// payload stay within their caps. In particular a denied key never gets into a tile.
pub proof fn tile_properties_respect_policy(
    props: Seq<Entry>,
    policy: PropertyPolicy,
    mode: AttrMode,
)
    ensures
        ({
            let out = tile_properties(props, policy, mode);
            &&& out.len() <= policy.max_fields_per_feature
            &&& total_payload(out) <= policy.max_property_bytes_per_feature
            &&& forall|i: int|
                0 <= i < out.len() ==> mode_keeps(policy, mode, (#[trigger] out[i]).0)
                    && !policy.denies(out[i].0)
            &&& mode is NoProperties ==> out.len() == 0
        }),
{
    select_respects_policy(sorted::by_key(props), policy, mode, 0, 0);
    let out = tile_properties(props, policy, mode);
    if mode is NoProperties && out.len() > 0 {
        assert(mode_keeps(policy, mode, out[0].0));
    }
}

proof fn select_keeps_order(
    entries: Seq<Entry>,
    policy: PropertyPolicy,
    mode: AttrMode,
    taken: nat,
    used: nat,
    i: int,
    j: int,
)
    requires
        sorted::strictly_ordered(entries),
        used <= policy.max_property_bytes_per_feature,
        0 <= i < j < select(entries, policy, mode, taken, used).len(),
    ensures
        text::lex_less(
            select(entries, policy, mode, taken, used)[i].0,
            select(entries, policy, mode, taken, used)[j].0,
        ),
    decreases entries.len(),
{
    let out = select(entries, policy, mode, taken, used);
    let (key, value) = entries[0];
    let rest = entries.skip(1);
    assert(sorted::strictly_ordered(rest)) by {
        assert forall|a: int, b: int| 0 <= a < b < rest.len() implies text::lex_less(
            (#[trigger] rest[a]).0,
            (#[trigger] rest[b]).0,
        ) by {
            assert(rest[a] == entries[a + 1] && rest[b] == entries[b + 1]);
        }
    }
    if tile_value(value) is Some && mode_keeps(policy, mode, key) {
        let v = tile_value(value)->Some_0;
        let more = used + payload(key, v);
        let tail = select(rest, policy, mode, taken + 1, more);
        assert(out =~= seq![(key, v)] + tail);
        assert(out[j] == tail[j - 1]);
        if i > 0 {
            assert(out[i] == tail[i - 1]);
            select_keeps_order(rest, policy, mode, taken + 1, more, i - 1, j - 1);
        } else {
            select_respects_policy(rest, policy, mode, taken + 1, more);
            let k = choose|k: int|
                0 <= k < rest.len() && (#[trigger] rest[k]).0 == tail[j - 1].0 && tile_value(
                    rest[k].1,
                ) == Some(tail[j - 1].1);
            assert(rest[k] == entries[k + 1]);
            assert(text::lex_less(entries[0].0, entries[k + 1].0));
        }
    } else {
        select_keeps_order(rest, policy, mode, taken, used, i, j);
    }
}

/// The keys of the tile properties come in strictly increasing order.
pub proof fn tile_properties_are_sorted(
    props: Seq<Entry>,
    policy: PropertyPolicy,
    mode: AttrMode,
    i: int,
    j: int,
)
    requires
        json::keys_distinct(props),
        0 <= i < j < tile_properties(props, policy, mode).len(),
    ensures
        text::lex_less(
            tile_properties(props, policy, mode)[i].0,
            tile_properties(props, policy, mode)[j].0,
        ),
{
    sorted::order_is_strict(props);
    select_keeps_order(sorted::by_key(props), policy, mode, 0, 0, i, j);
}

} // verus!
