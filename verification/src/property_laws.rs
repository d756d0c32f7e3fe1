//! Which properties of a feature get into a tile, and as what values.
use vstd::prelude::*;
use vstd::utf8::*;
use crate::config::PropertyPolicy;
use crate::json;
use crate::json::{Entry, JsonView};
use crate::mvt::layer::ValueKey;
use crate::picking;
use crate::properties;
use crate::properties::AttrMode;
use crate::sorted;
use crate::text;
use crate::tileset::ladder_laws;

verus! {

/// Values keep what they are: truth values and texts stay, a whole number is a number of the same
/// value, signed where it fits, a number with decimals keeps its bits, arrays and objects are their
/// text, and only `null` is left out.
pub proof fn values_keep_what_they_are(v: JsonView)
    ensures
        v is Null <==> properties::tile_value(v) is None,
        v matches JsonView::Bool(b) ==> properties::tile_value(v) == Some(ValueKey::Bool(b)),
        v matches JsonView::Unsigned(n) ==> match properties::tile_value(v) {
            Some(ValueKey::Int(i)) => i == n,
            Some(ValueKey::Uint(u)) => u == n && n > i64::MAX,
            _ => false,
        },
        v matches JsonView::Negative(n) ==> properties::tile_value(v) == Some(ValueKey::Int(n)),
        v matches JsonView::Float { bits, spelling } ==> properties::tile_value(v) == Some(
            ValueKey::DoubleBits(bits),
        ),
        v matches JsonView::Text(s) ==> properties::tile_value(v) == Some(ValueKey::String(s)),
        v matches JsonView::Nested(s) ==> properties::tile_value(v) == Some(ValueKey::String(s)),
{
}

/// A property counts for the bytes of its key and of its value: a text for its own bytes, a number
/// with decimals for eight, a whole number for ten, a truth value for one.
pub proof fn properties_count_for_their_bytes(key: Seq<char>, v: ValueKey)
    ensures
        properties::payload(key, v) == encode_utf8(key).len() + match v {
            ValueKey::String(s) => encode_utf8(s).len(),
            ValueKey::DoubleBits(_) => 8,
            ValueKey::Int(_) => 10,
            ValueKey::Uint(_) => 10,
            ValueKey::Bool(_) => 1,
        },
{
}

/// Whether a list holds a key, in whatever case.
pub open spec fn names(list: Seq<String>, key: Seq<char>) -> bool {
    exists|i: int|
        0 <= i < list.len() && text::lowercase((#[trigger] list[i])@) == text::lowercase(key)
}

/// Whether a policy lets a key into a tile in a mode: no denied key, with an allowlist only its
/// keys, and only core keys where only those are kept.
pub open spec fn lets_in(policy: PropertyPolicy, mode: AttrMode, key: Seq<char>) -> bool {
    &&& !names(policy.denylist@, key)
    &&& match mode {
        AttrMode::Full => match policy.allowlist {
            Some(list) => names(list@, key),
            None => true,
        },
        AttrMode::Core => names(policy.core_properties@, key),
        AttrMode::NoProperties => false,
    }
}

/// The policy lets in exactly the keys that its lists say.
pub proof fn policies_go_by_their_lists(policy: PropertyPolicy, mode: AttrMode, key: Seq<char>)
    ensures
        properties::mode_keeps(policy, mode, key) == lets_in(policy, mode, key),
        policy.denies(key) == names(policy.denylist@, key),
        policy.allows(key) == lets_in(policy, AttrMode::Full, key),
        policy.keeps_as_core(key) == names(policy.core_properties@, key),
{
    ladder_laws::listed_by_name(policy.denylist@, key);
    ladder_laws::listed_by_name(policy.core_properties@, key);
    if let Some(list) = policy.allowlist {
        ladder_laws::listed_by_name(list@, key);
    }
}

/// A property as it gets into a tile, where the policy lets its key in and it has a value.
pub open spec fn if_let_in(policy: PropertyPolicy, mode: AttrMode) -> spec_fn(Entry) -> Option<
    (Seq<char>, ValueKey),
> {
    |e: Entry|
        match properties::tile_value(e.1) {
            Some(v) if lets_in(policy, mode, e.0) => Some((e.0, v)),
            _ => None,
        }
}

/// `out` is the front of what the policy lets in, cut off only where a cap is reached.
pub open spec fn cut_at_caps(
    full: Seq<(Seq<char>, ValueKey)>,
    out: Seq<(Seq<char>, ValueKey)>,
    fields: nat,
    bytes: nat,
) -> bool {
    &&& out.len() <= full.len()
    &&& out == full.take(out.len() as int)
    &&& out.len() < full.len() ==> out.len() >= fields || properties::total_payload(out)
        + properties::payload(full[out.len() as int].0, full[out.len() as int].1) > bytes
}

proof fn selection(
    entries: Seq<Entry>,
    policy: PropertyPolicy,
    mode: AttrMode,
    taken: nat,
    used: nat,
) -> (full: Seq<(Seq<char>, ValueKey)>)
    requires
        taken <= policy.max_fields_per_feature,
        used <= policy.max_property_bytes_per_feature,
    ensures
        picking::picked(entries, if_let_in(policy, mode), full),
        cut_at_caps(
            full,
            properties::select(entries, policy, mode, taken, used),
            (policy.max_fields_per_feature - taken) as nat,
            (policy.max_property_bytes_per_feature - used) as nat,
        ),
    decreases entries.len(),
{
    let f = if_let_in(policy, mode);
    let out = properties::select(entries, policy, mode, taken, used);
    if entries.len() == 0 {
        picking::picked_of_nothing(entries, f);
        assert(Seq::<(Seq<char>, ValueKey)>::empty().take(0) =~= out);
        Seq::empty()
    } else {
        let (key, value) = entries[0];
        let rest = entries.skip(1);
        policies_go_by_their_lists(policy, mode, key);
        match f(entries[0]) {
            Some(p) => {
                let more = used + properties::payload(p.0, p.1);
                if taken < policy.max_fields_per_feature && more
                    <= policy.max_property_bytes_per_feature {
                    let tail = selection(rest, policy, mode, taken + 1, more);
                    picking::picked_starts(entries, f, tail);
                    let full = seq![p] + tail;
                    let t = properties::select(rest, policy, mode, taken + 1, more);
                    assert(out =~= seq![p] + t);
                    assert(out.skip(1) =~= t);
                    assert(full.take(out.len() as int) =~= seq![p] + tail.take(t.len() as int));
                    assert(out[0] == p);
                    assert(properties::total_payload(out) == properties::payload(p.0, p.1)
                        + properties::total_payload(t));
                    assert(out =~= full.take(out.len() as int));
                    if out.len() < full.len() {
                        assert(full[out.len() as int] == tail[t.len() as int]);
                    }
                    full
                } else {
                    let tail = picking::can_pick(rest, f);
                    picking::picked_starts(entries, f, tail);
                    let full = seq![p] + tail;
                    assert(out =~= Seq::empty());
                    assert(full.take(0) =~= out);
                    assert(full[0] == p);
                    assert(properties::total_payload(out) == 0);
                    full
                }
            },
            None => {
                if taken < policy.max_fields_per_feature {
                    let tail = selection(rest, policy, mode, taken, used);
                    picking::picked_starts(entries, f, tail);
                    tail
                } else {
                    let tail = picking::can_pick(rest, f);
                    picking::picked_starts(entries, f, tail);
                    assert(tail.take(0) =~= out);
                    tail
                }
            },
        }
    }
}

/// Every property that the policy lets in gets into the tile, in the order of the keys, until the
/// number of fields or of bytes is used up.
pub proof fn properties_get_into_tiles(props: Seq<Entry>, policy: PropertyPolicy, mode: AttrMode)
    ensures
        exists|full: Seq<(Seq<char>, ValueKey)>|
            {
                &&& #[trigger] picking::picked(
                    sorted::by_key(props),
                    if_let_in(policy, mode),
                    full,
                )
                &&& cut_at_caps(
                    full,
                    properties::tile_properties(props, policy, mode),
                    policy.max_fields_per_feature as nat,
                    policy.max_property_bytes_per_feature as nat,
                )
            },
{
    let full = selection(sorted::by_key(props), policy, mode, 0, 0);
}

/// The size of a list of properties is that of its parts together, and a property counts for the
/// bytes of its key and of its value as JSON.
pub proof fn sizes_add_up(a: Seq<Entry>, b: Seq<Entry>, key: Seq<char>, value: JsonView)
    ensures
        properties::serialized_size(a + b) == properties::serialized_size(a)
            + properties::serialized_size(b),
        properties::serialized_size(seq![(key, value)]) == encode_utf8(key).len() + encode_utf8(
            json::json_text(value),
        ).len(),
        properties::serialized_size(Seq::empty()) == 0,
    decreases b.len(),
{
    reveal_with_fuel(properties::serialized_size, 2);
    if b.len() == 0 {
        assert(a + b =~= a);
    } else {
        assert((a + b).drop_last() =~= a + b.drop_last());
        assert((a + b).last() == b.last());
        sizes_add_up(a, b.drop_last(), key, value);
    }
    let one: Seq<Entry> = seq![(key, value)];
    assert(one.drop_last() =~= Seq::empty());
    assert(one.last() == (key, value));
}

} // verus!
