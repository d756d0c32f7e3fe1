//! What holds of every normalized dataset.
use vstd::prelude::*;
use crate::config::PropertyPolicy;
use crate::geometry;
use crate::geometry::Coord;
use crate::ingest::crs::CrsInfo;
use crate::ingest::document::ParsedView;
use crate::ingest::normalize;
use crate::ingest::normalize::Normalization;
use crate::ingest::normalize::NormalizedDataset;
use crate::json;
use crate::json::Entry;
use crate::model::Bbox;
use crate::sorted;
use crate::text;

verus! {

/// The bytes that entries count for.
pub open spec fn total_size(entries: Seq<Entry>) -> nat
    decreases entries.len(),
{
    if entries.len() == 0 {
        0
    } else {
        normalize::entry_size(entries[0]) + total_size(entries.skip(1))
    }
}

proof fn clean_keeps_policy(entries: Seq<Entry>, policy: PropertyPolicy, taken: nat, used: nat)
    requires
        taken <= policy.max_fields_per_feature,
        used <= policy.max_property_bytes_per_feature,
    ensures
        ({
            let out = normalize::clean(entries, policy, taken, used);
            &&& taken + out.len() <= policy.max_fields_per_feature
            &&& used + total_size(out) <= policy.max_property_bytes_per_feature
            &&& forall|i: int| 0 <= i < out.len() ==> policy.allows((#[trigger] out[i]).0)
            &&& forall|i: int| 0 <= i < out.len() ==> entries.contains(#[trigger] out[i])
        }),
    decreases entries.len(),
{
    let out = normalize::clean(entries, policy, taken, used);
    if entries.len() > 0 {
        let e = entries[0];
        let rest = entries.skip(1);
        if !policy.allows(e.0) {
            clean_keeps_policy(rest, policy, taken, used);
            assert forall|i: int| 0 <= i < out.len() implies entries.contains(#[trigger] out[i]) by {
                let j = choose|j: int| 0 <= j < rest.len() && rest[j] == out[i];
                assert(entries[j + 1] == out[i]);
            }
        } else if taken < policy.max_fields_per_feature && used + normalize::entry_size(e)
            <= policy.max_property_bytes_per_feature {
            let tail = normalize::clean(rest, policy, taken + 1, used + normalize::entry_size(e));
            clean_keeps_policy(rest, policy, taken + 1, used + normalize::entry_size(e));
            assert(out.skip(1) =~= tail);
            assert forall|i: int| 0 <= i < out.len() implies policy.allows((#[trigger] out[i]).0)
                && entries.contains(out[i]) by {
                if i > 0 {
                    assert(out[i] == tail[i - 1]);
                    let j = choose|j: int| 0 <= j < rest.len() && rest[j] == tail[i - 1];
                    assert(entries[j + 1] == out[i]);
                } else {
                    assert(entries[0] == out[0]);
                }
            }
        }
    }
}

/// Cleaning enforces the policy: it keeps only allowed keys, changes no value, and stays within the
/// caps on fields and bytes.
pub proof fn cleaning_respects_policy(props: Seq<Entry>, policy: PropertyPolicy)
    ensures
        ({
            let out = normalize::cleaned(props, policy);
            &&& out.len() <= policy.max_fields_per_feature
            &&& total_size(out) <= policy.max_property_bytes_per_feature
            &&& forall|i: int|
                0 <= i < out.len() ==> policy.allows((#[trigger] out[i]).0) && !policy.denies(
                    out[i].0,
                )
            &&& forall|i: int| 0 <= i < out.len() ==> props.contains(#[trigger] out[i])
        }),
{
    let out = normalize::cleaned(props, policy);
    let entries = sorted::by_key(props);
    clean_keeps_policy(entries, policy, 0, 0);
    sorted::order_keeps_entries(props);
    assert forall|i: int| 0 <= i < out.len() implies props.contains(#[trigger] out[i]) by {
        assert(entries.contains(out[i]));
        assert(entries.to_multiset().count(out[i]) > 0) by {
            entries.to_multiset_ensures();
        }
        props.to_multiset_ensures();
    }
}

/// The same properties are cleaned to the same ones, in whatever order they were put in.
pub proof fn cleaning_is_deterministic(a: Seq<Entry>, b: Seq<Entry>, policy: PropertyPolicy)
    requires
        json::keys_distinct(a),
        json::keys_distinct(b),
        a.to_multiset() == b.to_multiset(),
    ensures
        normalize::cleaned(a, policy) == normalize::cleaned(b, policy),
{
    sorted::order_is_canonical(a, b);
}

proof fn clean_keeps_order(
    entries: Seq<Entry>,
    policy: PropertyPolicy,
    taken: nat,
    used: nat,
)
    requires
        sorted::strictly_ordered(entries),
        taken <= policy.max_fields_per_feature,
        used <= policy.max_property_bytes_per_feature,
    ensures
        sorted::strictly_ordered(normalize::clean(entries, policy, taken, used)),
    decreases entries.len(),
{
    let out = normalize::clean(entries, policy, taken, used);
    if entries.len() > 0 {
        let e = entries[0];
        let rest = entries.skip(1);
        assert(sorted::strictly_ordered(rest)) by {
            assert forall|a: int, b: int| 0 <= a < b < rest.len() implies text::lex_less(
                (#[trigger] rest[a]).0,
                (#[trigger] rest[b]).0,
            ) by {
                assert(rest[a] == entries[a + 1] && rest[b] == entries[b + 1]);
            }
        }
        if !policy.allows(e.0) {
            clean_keeps_order(rest, policy, taken, used);
        } else if taken < policy.max_fields_per_feature && used + normalize::entry_size(e)
            <= policy.max_property_bytes_per_feature {
            let tail = normalize::clean(rest, policy, taken + 1, used + normalize::entry_size(e));
            clean_keeps_order(rest, policy, taken + 1, used + normalize::entry_size(e));
            clean_keeps_policy(rest, policy, taken + 1, used + normalize::entry_size(e));
            assert forall|a: int, b: int| 0 <= a < b < out.len() implies text::lex_less(
                (#[trigger] out[a]).0,
                (#[trigger] out[b]).0,
            ) by {
                assert(out[b] == tail[b - 1]);
                if a > 0 {
                    assert(out[a] == tail[a - 1]);
                } else {
                    let j = choose|j: int| 0 <= j < rest.len() && rest[j] == tail[b - 1];
                    assert(entries[0].0 == out[0].0);
                    assert(entries[j + 1] == rest[j]);
                }
            }
        }
    }
}

/// Cleaned keys are in order, and none comes twice.
pub proof fn cleaned_keys_are_ordered(props: Seq<Entry>, policy: PropertyPolicy)
    requires
        json::keys_distinct(props),
    ensures
        sorted::strictly_ordered(normalize::cleaned(props, policy)),
{
    sorted::order_is_strict(props);
    clean_keeps_order(sorted::by_key(props), policy, 0, 0);
}

/// What is within the policy is cleaned to itself.
proof fn clean_of_clean(entries: Seq<Entry>, policy: PropertyPolicy, taken: nat, used: nat)
    requires
        taken + entries.len() <= policy.max_fields_per_feature,
        used + total_size(entries) <= policy.max_property_bytes_per_feature,
        forall|i: int| 0 <= i < entries.len() ==> policy.allows((#[trigger] entries[i]).0),
    ensures
        normalize::clean(entries, policy, taken, used) == entries,
    decreases entries.len(),
{
    if entries.len() > 0 {
        let rest = entries.skip(1);
        assert(policy.allows(entries[0].0));
        assert forall|i: int| 0 <= i < rest.len() implies policy.allows((#[trigger] rest[i]).0) by {
            assert(rest[i] == entries[i + 1]);
        }
        clean_of_clean(rest, policy, taken + 1, used + normalize::entry_size(entries[0]));
        assert(seq![entries[0]] + rest =~= entries);
    }
}

proof fn order_of_ordered(s: Seq<Entry>)
    requires
        sorted::strictly_ordered(s),
    ensures
        sorted::by_key(s) == s,
{
    assert(json::keys_distinct(s)) by {
        assert forall|i: int, j: int| 0 <= i < j < s.len() implies (#[trigger] s[i]).0 != (
        #[trigger] s[j]).0 by {
            text::lex_irreflexive(s[i].0);
        }
    }
    sorted::order_is_strict(s);
    sorted::order_keeps_entries(s);
    sorted::strict_order_is_unique(sorted::by_key(s), s);
}

/// Cleaning twice is cleaning once.
pub proof fn cleaning_is_idempotent(props: Seq<Entry>, policy: PropertyPolicy)
    requires
        json::keys_distinct(props),
    ensures
        normalize::cleaned(normalize::cleaned(props, policy), policy) == normalize::cleaned(
            props,
            policy,
        ),
{
    let out = normalize::cleaned(props, policy);
    cleaned_keys_are_ordered(props, policy);
    cleaning_respects_policy(props, policy);
    order_of_ordered(out);
    clean_of_clean(out, policy, 0, 0);
}

/// No key that the policy does not allow survives normalization.
pub proof fn datasets_respect_policy(fs: Seq<ParsedView>, policy: PropertyPolicy, i: int, k: int)
    requires
        0 <= i < normalize::usable(fs, policy).len(),
        0 <= k < normalize::usable(fs, policy)[i].properties.len(),
    ensures
        policy.allows(normalize::usable(fs, policy)[i].properties[k].0),
    decreases fs.len(),
{
    let before = normalize::usable(fs.drop_last(), policy);
    if i < before.len() {
        datasets_respect_policy(fs.drop_last(), policy, i, k);
    } else {
        cleaning_respects_policy(fs.last().properties, policy);
    }
}

/// Every feature of a file is kept or counted as rejected.
pub proof fn features_are_kept_or_counted(
    d: NormalizedDataset,
    fs: Seq<ParsedView>,
    crs: CrsInfo,
    policy: PropertyPolicy,
    format: Seq<char>,
)
    requires
        fs.len() <= u64::MAX,
        normalize::finishes(Ok(Normalization::Done(d)), fs, crs, policy, format),
    ensures
        d@.features.len() + d@.rejected_features == fs.len(),
{
    repaired_len(fs);
    usable_len(normalize::repaired_features(fs), policy);
}

proof fn repaired_len(fs: Seq<ParsedView>)
    ensures
        normalize::repaired_features(fs).len() <= fs.len(),
    decreases fs.len(),
{
    if fs.len() > 0 {
        repaired_len(fs.drop_last());
    }
}

proof fn usable_len(fs: Seq<ParsedView>, policy: PropertyPolicy)
    ensures
        normalize::usable(fs, policy).len() <= fs.len(),
    decreases fs.len(),
{
    if fs.len() > 0 {
        usable_len(fs.drop_last(), policy);
    }
}

/// Whether a box has a point in it.
pub open spec fn holds(b: Bbox, c: Coord) -> bool {
    &&& !c.x.lt_num(b.min_lon) && !b.max_lon.lt_num(c.x)
    &&& !c.y.lt_num(b.min_lat) && !b.max_lat.lt_num(c.y)
}

/// A box with numbers for bounds.
pub open spec fn proper(b: Bbox) -> bool {
    !b.min_lon.nan() && !b.min_lat.nan() && !b.max_lon.nan() && !b.max_lat.nan()
}

/// Whether there is a box with a finite point in it.
spec fn covered(b: Option<Bbox>, c: Coord) -> bool {
    b matches Some(x) && c.finite() && holds(x, c)
}

proof fn widening_holds(b: Option<Bbox>, cs: Seq<Coord>)
    requires
        b matches Some(x) ==> proper(x),
        forall|i: int| 0 <= i < cs.len() ==> (#[trigger] cs[i]).finite(),
    ensures
        normalize::widened(b, cs) matches Some(r) ==> {
            &&& proper(r)
            &&& forall|i: int| 0 <= i < cs.len() ==> holds(r, #[trigger] cs[i])
            &&& forall|c: Coord| covered(b, c) ==> #[trigger] holds(r, c)
        },
        cs.len() > 0 || b is Some ==> normalize::widened(b, cs) is Some,
    decreases cs.len(),
{
    if cs.len() > 0 {
        widening_holds(b, cs.drop_last());
        let r = normalize::widened(b, cs)->Some_0;
        assert forall|i: int| 0 <= i < cs.len() implies holds(r, #[trigger] cs[i]) by {
            if i < cs.len() - 1 {
                assert(cs.drop_last()[i] == cs[i]);
            }
        }
        assert forall|c: Coord| covered(b, c) implies #[trigger] holds(r, c) by {
            let before = normalize::widened(b, cs.drop_last())->Some_0;
            assert(holds(before, c));
        }
    }
}

/// The box of a dataset has every coordinate of every feature in it.
pub proof fn extents_hold_everything(fs: Seq<ParsedView>, i: int, k: int)
    requires
        forall|a: int, b: int|
            0 <= a < fs.len() && 0 <= b < geometry::coords(fs[a].geometry).len() ==> (
            #[trigger] geometry::coords(fs[a].geometry)[b]).finite(),
        0 <= i < fs.len(),
        0 <= k < geometry::coords(fs[i].geometry).len(),
    ensures
        normalize::extent(fs) matches Some(b) && proper(b) && holds(
            b,
            geometry::coords(fs[i].geometry)[k],
        ),
    decreases fs.len(),
{
    let before = fs.drop_last();
    let cs = geometry::coords(fs.last().geometry);
    assert forall|a: int, b: int|
        0 <= a < before.len() && 0 <= b < geometry::coords(before[a].geometry).len() implies (
    #[trigger] geometry::coords(before[a].geometry)[b]).finite() by {
        assert(before[a] == fs[a]);
    }
    assert forall|b: int| 0 <= b < cs.len() implies (#[trigger] cs[b]).finite() by {
        assert(geometry::coords(fs[fs.len() - 1].geometry)[b].finite());
    }
    extents_are_proper(before);
    widening_holds(normalize::extent(before), cs);
    if i < before.len() {
        assert(before[i] == fs[i]);
        extents_hold_everything(before, i, k);
        assert(covered(normalize::extent(before), geometry::coords(fs[i].geometry)[k]));
    }
}

proof fn extents_are_proper(fs: Seq<ParsedView>)
    requires
        forall|a: int, b: int|
            0 <= a < fs.len() && 0 <= b < geometry::coords(fs[a].geometry).len() ==> (
            #[trigger] geometry::coords(fs[a].geometry)[b]).finite(),
    ensures
        normalize::extent(fs) matches Some(b) ==> proper(b),
    decreases fs.len(),
{
    if fs.len() > 0 {
        let before = fs.drop_last();
        let cs = geometry::coords(fs.last().geometry);
        assert forall|a: int, b: int|
            0 <= a < before.len() && 0 <= b < geometry::coords(before[a].geometry).len() implies (
        #[trigger] geometry::coords(before[a].geometry)[b]).finite() by {
            assert(before[a] == fs[a]);
        }
        assert forall|b: int| 0 <= b < cs.len() implies (#[trigger] cs[b]).finite() by {
            assert(geometry::coords(fs[fs.len() - 1].geometry)[b].finite());
        }
        extents_are_proper(before);
        widening_holds(normalize::extent(before), cs);
    }
}

} // verus!
