//! Property entries in key order.
use vstd::prelude::*;
use crate::json;
use crate::json::{Entry, JsonMap};
use crate::text;
use crate::text::str_less;

verus! {

/// `t` with `e` behind the last entry whose key is not greater.
pub open spec fn insert_by_key(t: Seq<Entry>, e: Entry) -> Seq<Entry>
    decreases t.len(),
{
    if t.len() > 0 && text::lex_less(e.0, t.last().0) {
        insert_by_key(t.drop_last(), e).push(t.last())
    } else {
        t.push(e)
    }
}

/// The entries in key order; entries with the same key keep their order.
pub open spec fn by_key(s: Seq<Entry>) -> Seq<Entry>
    decreases s.len(),
{
    if s.len() == 0 {
        s
    } else {
        insert_by_key(by_key(s.drop_last()), s.last())
    }
}

/// Each key stands before the next.
pub open spec fn strictly_ordered(s: Seq<Entry>) -> bool {
    forall|i: int, j: int|
        0 <= i < j < s.len() ==> text::lex_less((#[trigger] s[i]).0, (#[trigger] s[j]).0)
}

/// The place where an entry goes into ordered entries: behind the last whose key is not greater.
pub open spec fn slot(t: Seq<Entry>, e: Entry) -> int
    decreases t.len(),
{
    if t.len() > 0 && text::lex_less(e.0, t.last().0) {
        slot(t.drop_last(), e)
    } else {
        t.len() as int
    }
}

pub proof fn insert_at_slot(t: Seq<Entry>, e: Entry)
    ensures
        0 <= slot(t, e) <= t.len(),
        insert_by_key(t, e) == t.insert(slot(t, e), e),
    decreases t.len(),
{
    if t.len() > 0 && text::lex_less(e.0, t.last().0) {
        insert_at_slot(t.drop_last(), e);
        assert(t.insert(slot(t, e), e) =~= t.drop_last().insert(slot(t.drop_last(), e), e).push(
            t.last(),
        ));
    } else {
        assert(t.insert(t.len() as int, e) =~= t.push(e));
    }
}

/// The order in which the entries of a map stand by key: places in the map.
pub fn key_order(map: &JsonMap) -> (order: Vec<usize>)
    ensures
        order@.len() == map@.len(),
        forall|i: int| 0 <= i < order@.len() ==> (#[trigger] order@[i]) < map@.len(),
        Seq::new(order@.len(), |i: int| map@[order@[i] as int]) == by_key(map@),
{
    let mut order: Vec<usize> = Vec::new();
    let mut n: usize = 0;
    let ghost all = map@;
    assert(Seq::new(0, |i: int| all[order@[i] as int]) =~= by_key(all.take(0)));
    while n < map.len()
        invariant
            all == map@,
            n <= all.len(),
            order@.len() == n,
            forall|i: int| 0 <= i < n ==> (#[trigger] order@[i]) < n,
            Seq::new(order@.len(), |i: int| all[order@[i] as int]) == by_key(all.take(n as int)),
        decreases all.len() - n,
    {
        let ghost done = Seq::new(order@.len(), |i: int| all[order@[i] as int]);
        let ghost e = all[n as int];
        let (key, _) = map.entry(n);
        let mut at: usize = order.len();
        assert(done.take(at as int) =~= done);
        while at > 0
            invariant
                all == map@,
                at <= order@.len() == n,
                n < all.len(),
                e == all[n as int],
                key@ == e.0,
                done == Seq::new(order@.len(), |i: int| all[order@[i] as int]),
                forall|i: int| 0 <= i < n ==> (#[trigger] order@[i]) < n,
                slot(done, e) == slot(done.take(at as int), e),
            ensures
                slot(done, e) == at,
            decreases at,
        {
            let (other, _) = map.entry(order[at - 1]);
            assert(done.take(at as int).last() == all[order@[at - 1] as int]);
            if !str_less(key, other) {
                break;
            }
            assert(done.take(at as int).drop_last() =~= done.take(at - 1));
            at = at - 1;
        }
        let ghost before = order@;
        order.insert(at, n);
        proof {
            insert_at_slot(done, e);
            assert(all.take(n + 1).drop_last() =~= all.take(n as int));
            assert(order@ =~= before.insert(at as int, n));
            assert(Seq::new(order@.len(), |i: int| all[order@[i] as int]) =~= done.insert(
                at as int,
                e,
            ));
        }
        n = n + 1;
    }
    assert(all.take(n as int) =~= all);
    order
}

proof fn insert_keeps_entries(t: Seq<Entry>, e: Entry)
    ensures
        insert_by_key(t, e).to_multiset() == t.to_multiset().insert(e),
        insert_by_key(t, e).len() == t.len() + 1,
    decreases t.len(),
{
    broadcast use vstd::seq_lib::group_to_multiset_ensures;
    if t.len() > 0 && text::lex_less(e.0, t.last().0) {
        insert_keeps_entries(t.drop_last(), e);
        assert(t =~= t.drop_last().push(t.last()));
        assert(insert_by_key(t, e).to_multiset() =~= t.to_multiset().insert(e));
    }
}

/// Ordering the entries loses none and adds none.
pub proof fn order_keeps_entries(s: Seq<Entry>)
    ensures
        by_key(s).to_multiset() == s.to_multiset(),
        by_key(s).len() == s.len(),
    decreases s.len(),
{
    broadcast use vstd::seq_lib::group_to_multiset_ensures;
    if s.len() > 0 {
        order_keeps_entries(s.drop_last());
        insert_keeps_entries(by_key(s.drop_last()), s.last());
        assert(s =~= s.drop_last().push(s.last()));
    }
}

proof fn insert_keeps_order(t: Seq<Entry>, e: Entry)
    requires
        strictly_ordered(t),
        forall|i: int| 0 <= i < t.len() ==> (#[trigger] t[i]).0 != e.0,
    ensures
        strictly_ordered(insert_by_key(t, e)),
    decreases t.len(),
{
    insert_at_slot(t, e);
    let k = slot(t, e);
    slot_splits(t, e);
    let r = t.insert(k, e);
    assert forall|i: int, j: int| 0 <= i < j < r.len() implies text::lex_less(
        (#[trigger] r[i]).0,
        (#[trigger] r[j]).0,
    ) by {
        if i < k && j < k {
            assert(r[i] == t[i] && r[j] == t[j]);
        } else if i < k && j == k {
            assert(r[i] == t[i] && r[j] == e);
            text::lex_total(t[i].0, e.0);
        } else if i < k {
            assert(r[i] == t[i] && r[j] == t[j - 1]);
        } else if i == k {
            assert(r[i] == e && r[j] == t[j - 1]);
        } else {
            assert(r[i] == t[i - 1] && r[j] == t[j - 1]);
        }
    }
}

proof fn slot_splits(t: Seq<Entry>, e: Entry)
    requires
        strictly_ordered(t),
    ensures
        forall|i: int| 0 <= i < slot(t, e) ==> !text::lex_less(e.0, (#[trigger] t[i]).0),
        forall|i: int| slot(t, e) <= i < t.len() ==> text::lex_less(e.0, (#[trigger] t[i]).0),
    decreases t.len(),
{
    insert_at_slot(t, e);
    if t.len() > 0 {
        if text::lex_less(e.0, t.last().0) {
            let d = t.drop_last();
            assert forall|i: int, j: int| 0 <= i < j < d.len() implies text::lex_less(
                (#[trigger] d[i]).0,
                (#[trigger] d[j]).0,
            ) by {
                assert(d[i] == t[i] && d[j] == t[j]);
            }
            slot_splits(d, e);
            assert forall|i: int| 0 <= i < slot(t, e) implies !text::lex_less(
                e.0,
                (#[trigger] t[i]).0,
            ) by {
                insert_at_slot(d, e);
                assert(d[i] == t[i]);
            }
            assert forall|i: int| slot(t, e) <= i < t.len() implies text::lex_less(
                e.0,
                (#[trigger] t[i]).0,
            ) by {
                if i < t.len() - 1 {
                    assert(d[i] == t[i]);
                }
            }
        } else {
            assert forall|i: int| 0 <= i < slot(t, e) implies !text::lex_less(
                e.0,
                (#[trigger] t[i]).0,
            ) by {
                if i < t.len() - 1 && text::lex_less(e.0, t[i].0) {
                    text::lex_transitive(e.0, t[i].0, t.last().0);
                }
            }
        }
    }
}

/// Entries with distinct keys come out strictly in key order.
pub proof fn order_is_strict(s: Seq<Entry>)
    requires
        json::keys_distinct(s),
    ensures
        strictly_ordered(by_key(s)),
    decreases s.len(),
{
    if s.len() > 0 {
        let d = s.drop_last();
        assert forall|i: int, j: int| 0 <= i < j < d.len() implies (#[trigger] d[i]).0 != (
        #[trigger] d[j]).0 by {
            assert(d[i] == s[i] && d[j] == s[j]);
        }
        order_is_strict(d);
        order_keeps_entries(d);
        let t = by_key(d);
        assert forall|i: int| 0 <= i < t.len() implies (#[trigger] t[i]).0 != s.last().0 by {
            broadcast use vstd::seq_lib::group_to_multiset_ensures;
            assert(t.contains(t[i]));
            assert(t.to_multiset().count(t[i]) > 0);
            assert(d.to_multiset().count(t[i]) > 0);
            assert(d.contains(t[i]));
            let j = choose|j: int| 0 <= j < d.len() && d[j] == t[i];
            assert(s[j] == t[i]);
        }
        insert_keeps_order(t, s.last());
    }
}

/// Two strictly ordered lists of the same entries are the same list.
pub proof fn strict_order_is_unique(a: Seq<Entry>, b: Seq<Entry>)
    requires
        strictly_ordered(a),
        strictly_ordered(b),
        a.to_multiset() == b.to_multiset(),
    ensures
        a == b,
    decreases a.len(),
{
    broadcast use vstd::seq_lib::group_to_multiset_ensures;
    assert(a.len() == a.to_multiset().len());
    assert(b.len() == b.to_multiset().len());
    if a.len() > 0 {
        let x = a.last();
        let y = b.last();
        assert(a.to_multiset().count(x) > 0);
        assert(b.contains(x));
        assert(b.to_multiset().count(y) > 0);
        assert(a.contains(y));
        let i = choose|i: int| 0 <= i < b.len() && b[i] == x;
        let j = choose|j: int| 0 <= j < a.len() && a[j] == y;
        if x != y {
            assert(text::lex_less(b[i].0, b[b.len() - 1].0));
            assert(text::lex_less(a[j].0, a[a.len() - 1].0));
            text::lex_transitive(x.0, y.0, x.0);
            text::lex_irreflexive(x.0);
        }
        let a0 = a.drop_last();
        let b0 = b.drop_last();
        assert(a =~= a0.push(x));
        assert(b =~= b0.push(x));
        assert(a0.to_multiset() =~= a.to_multiset().remove(x));
        assert(b0.to_multiset() =~= b.to_multiset().remove(x));
        assert(strictly_ordered(a0)) by {
            assert forall|i: int, j: int| 0 <= i < j < a0.len() implies text::lex_less(
                (#[trigger] a0[i]).0,
                (#[trigger] a0[j]).0,
            ) by {
                assert(a0[i] == a[i] && a0[j] == a[j]);
            }
        }
        assert(strictly_ordered(b0)) by {
            assert forall|i: int, j: int| 0 <= i < j < b0.len() implies text::lex_less(
                (#[trigger] b0[i]).0,
                (#[trigger] b0[j]).0,
            ) by {
                assert(b0[i] == b[i] && b0[j] == b[j]);
            }
        }
        strict_order_is_unique(a0, b0);
    } else {
        assert(a =~= b);
    }
}

/// The order in which a map was filled leaves no trace: maps with the same entries give the same
/// ordered list.
pub proof fn order_is_canonical(a: Seq<Entry>, b: Seq<Entry>)
    requires
        json::keys_distinct(a),
        json::keys_distinct(b),
        a.to_multiset() == b.to_multiset(),
    ensures
        by_key(a) == by_key(b),
{
    order_is_strict(a);
    order_is_strict(b);
    order_keeps_entries(a);
    order_keeps_entries(b);
    strict_order_is_unique(by_key(a), by_key(b));
}

} // verus!
