//! What it means to pick items of a list.
use vstd::prelude::*;

verus! {

/// `out` is what `f` makes of the items of `s` that it makes anything of, in their order: item `k`
/// comes from the place `at[k]`.
pub open spec fn picks<A, B>(
    s: Seq<A>,
    f: spec_fn(A) -> Option<B>,
    out: Seq<B>,
    at: Seq<int>,
) -> bool {
    &&& at.len() == out.len()
    &&& forall|k: int|
        0 <= k < at.len() ==> 0 <= (#[trigger] at[k]) < s.len() && f(s[at[k]]) == Some(out[k])
    &&& forall|j: int, k: int| 0 <= j < k < at.len() ==> #[trigger] at[j] < #[trigger] at[k]
    &&& forall|i: int| 0 <= i < s.len() && f(#[trigger] s[i]) is Some ==> at.contains(i)
}

/// `out` is what `f` makes of the items of `s` that it makes anything of: none of them is missing,
/// none stands twice, and they keep their order.
pub open spec fn picked<A, B>(s: Seq<A>, f: spec_fn(A) -> Option<B>, out: Seq<B>) -> bool {
    exists|at: Seq<int>| #[trigger] picks(s, f, out, at)
}

/// Of nothing nothing is picked.
pub proof fn picked_of_nothing<A, B>(s: Seq<A>, f: spec_fn(A) -> Option<B>)
    requires
        s.len() == 0,
    ensures
        picked(s, f, Seq::<B>::empty()),
{
    assert(picks(s, f, Seq::<B>::empty(), Seq::empty()));
}

/// One more item adds what `f` makes of it, where it makes anything of it.
pub proof fn picked_grows<A, B>(s: Seq<A>, f: spec_fn(A) -> Option<B>, before: Seq<B>, out: Seq<B>)
    requires
        s.len() > 0,
        picked(s.drop_last(), f, before),
        out == match f(s.last()) {
            Some(b) => before.push(b),
            None => before,
        },
    ensures
        picked(s, f, out),
{
    let d = s.drop_last();
    let at = choose|at: Seq<int>| #[trigger] picks(d, f, before, at);
    let n = s.len() - 1;
    match f(s.last()) {
        Some(b) => {
            let new = at.push(n);
            assert forall|k: int| 0 <= k < new.len() implies 0 <= (#[trigger] new[k]) < s.len()
                && f(s[new[k]]) == Some(out[k]) by {
                if k < at.len() {
                    assert(new[k] == at[k]);
                    assert(d[at[k]] == s[at[k]]);
                }
            }
            assert forall|j: int, k: int| 0 <= j < k < new.len() implies #[trigger] new[j]
                < #[trigger] new[k] by {
                assert(new[j] == at[j]);
                if k < at.len() {
                    assert(new[k] == at[k]);
                }
            }
            assert forall|i: int| 0 <= i < s.len() && f(#[trigger] s[i]) is Some implies new.contains(
                i,
            ) by {
                if i < n {
                    assert(d[i] == s[i]);
                    assert(at.contains(i));
                    let k = choose|k: int| 0 <= k < at.len() && at[k] == i;
                    assert(new[k] == i);
                } else {
                    assert(new[at.len() as int] == i);
                }
            }
            assert(picks(s, f, out, new));
        },
        None => {
            assert forall|k: int| 0 <= k < at.len() implies 0 <= (#[trigger] at[k]) < s.len()
                && f(s[at[k]]) == Some(out[k]) by {
                assert(d[at[k]] == s[at[k]]);
            }
            assert forall|i: int| 0 <= i < s.len() && f(#[trigger] s[i]) is Some implies at.contains(
                i,
            ) by {
                assert(i < n);
                assert(d[i] == s[i]);
            }
            assert(picks(s, f, out, at));
        },
    }
}

/// Where something is made of every item, there are as many as before, each at its place.
pub proof fn all_picked<A, B>(s: Seq<A>, f: spec_fn(A) -> Option<B>, out: Seq<B>)
    requires
        picked(s, f, out),
        forall|i: int| 0 <= i < s.len() ==> f(#[trigger] s[i]) is Some,
    ensures
        out.len() == s.len(),
        forall|i: int| 0 <= i < s.len() ==> f(#[trigger] s[i]) == Some(out[i]),
{
    let at = choose|at: Seq<int>| #[trigger] picks(s, f, out, at);
    assert forall|k: int| 0 <= k < s.len() implies k < at.len() && #[trigger] at[k] == k by {
        stands_at_its_place(s, f, out, at, k);
    }
    if at.len() > s.len() {
        assert(at[s.len() as int] < s.len());
        if s.len() > 0 {
            assert(at[s.len() - 1] < at[s.len() as int]);
        }
    }
    if s.len() > 0 {
        assert(at[s.len() - 1] == s.len() - 1);
    }
    assert forall|i: int| 0 <= i < s.len() implies f(#[trigger] s[i]) == Some(out[i]) by {
        assert(at[i] == i);
    }
}

proof fn stands_at_its_place<A, B>(
    s: Seq<A>,
    f: spec_fn(A) -> Option<B>,
    out: Seq<B>,
    at: Seq<int>,
    k: int,
)
    requires
        picks(s, f, out, at),
        forall|i: int| 0 <= i < s.len() ==> f(#[trigger] s[i]) is Some,
        0 <= k < s.len(),
    ensures
        k < at.len(),
        at[k] == k,
    decreases k,
{
    assert(f(s[k]) is Some);
    assert(at.contains(k));
    let j = choose|j: int| 0 <= j < at.len() && at[j] == k;
    if k > 0 {
        stands_at_its_place(s, f, out, at, k - 1);
        if j < k - 1 {
            assert(at[j] < at[k - 1]);
        }
        assert(j >= k);
        assert(at[k - 1] < at[k]);
    }
    if j > k {
        assert(at[k] < at[j]);
        assert(k == 0 ==> at[0] >= 0);
    }
}

/// What is picked is determined: two lists picked alike are the same.
pub proof fn picked_once<A, B>(s: Seq<A>, f: spec_fn(A) -> Option<B>, a: Seq<B>, b: Seq<B>)
    requires
        picked(s, f, a),
        picked(s, f, b),
    ensures
        a == b,
    decreases s.len(),
{
    let p = choose|at: Seq<int>| #[trigger] picks(s, f, a, at);
    let q = choose|at: Seq<int>| #[trigger] picks(s, f, b, at);
    if s.len() == 0 {
        if a.len() > 0 {
            assert(p[0] < s.len());
        }
        if b.len() > 0 {
            assert(q[0] < s.len());
        }
        assert(a =~= b);
    } else {
        let n = s.len() - 1;
        let d = s.drop_last();
        let a0 = without_last(s, f, a, p);
        let b0 = without_last(s, f, b, q);
        picked_once(d, f, a0, b0);
    }
}

/// What is picked without the last item.
proof fn without_last<A, B>(s: Seq<A>, f: spec_fn(A) -> Option<B>, out: Seq<B>, at: Seq<int>) -> (r:
    Seq<B>)
    requires
        s.len() > 0,
        picks(s, f, out, at),
    ensures
        picked(s.drop_last(), f, r),
        out == match f(s.last()) {
            Some(b) => r.push(b),
            None => r,
        },
{
    let d = s.drop_last();
    let n = s.len() - 1;
    assert(s[n] == s.last());
    if f(s.last()) is Some {
        assert(at.contains(n));
        let j = choose|j: int| 0 <= j < at.len() && at[j] == n;
        if j < at.len() - 1 {
            assert(at[j] < at[at.len() - 1]);
        }
        let r = out.drop_last();
        let rest = at.drop_last();
        assert forall|k: int| 0 <= k < rest.len() implies 0 <= (#[trigger] rest[k]) < d.len()
            && f(d[rest[k]]) == Some(r[k]) by {
            assert(rest[k] == at[k]);
            assert(at[k] < at[at.len() - 1]);
        }
        assert forall|i: int, k: int| 0 <= i < k < rest.len() implies #[trigger] rest[i]
            < #[trigger] rest[k] by {
            assert(rest[i] == at[i] && rest[k] == at[k]);
        }
        assert forall|i: int| 0 <= i < d.len() && f(#[trigger] d[i]) is Some implies rest.contains(
            i,
        ) by {
            assert(s[i] == d[i]);
            assert(at.contains(i));
            let k = choose|k: int| 0 <= k < at.len() && at[k] == i;
            assert(rest[k] == i);
        }
        assert(picks(d, f, r, rest));
        assert(out =~= r.push(f(s.last())->Some_0));
        r
    } else {
        assert forall|k: int| 0 <= k < at.len() implies 0 <= (#[trigger] at[k]) < d.len() && f(
            d[at[k]],
        ) == Some(out[k]) by {
            assert(f(s[at[k]]) is Some);
        }
        assert forall|i: int| 0 <= i < d.len() && f(#[trigger] d[i]) is Some implies at.contains(
            i,
        ) by {
            assert(s[i] == d[i]);
        }
        assert(picks(d, f, out, at));
        out
    }
}

/// An item in front adds what `f` makes of it in front.
pub proof fn picked_starts<A, B>(s: Seq<A>, f: spec_fn(A) -> Option<B>, tail: Seq<B>)
    requires
        s.len() > 0,
        picked(s.skip(1), f, tail),
    ensures
        picked(
            s,
            f,
            match f(s[0]) {
                Some(b) => seq![b] + tail,
                None => tail,
            },
        ),
{
    let d = s.skip(1);
    let at = choose|at: Seq<int>| #[trigger] picks(d, f, tail, at);
    let moved = at.map_values(|i: int| i + 1);
    let new = if f(s[0]) is Some {
        seq![0int] + moved
    } else {
        moved
    };
    let first: int = if f(s[0]) is Some {
        1
    } else {
        0
    };
    let out = match f(s[0]) {
        Some(b) => seq![b] + tail,
        None => tail,
    };
    assert forall|k: int| 0 <= k < new.len() implies 0 <= (#[trigger] new[k]) < s.len() && f(
        s[new[k]],
    ) == Some(out[k]) by {
        if k >= first {
            assert(new[k] == at[k - first] + 1);
            assert(d[at[k - first]] == s[at[k - first] + 1]);
            assert(out[k] == tail[k - first]);
        }
    }
    assert forall|j: int, k: int| 0 <= j < k < new.len() implies #[trigger] new[j]
        < #[trigger] new[k] by {
        assert(new[k] == at[k - first] + 1);
        if j >= first {
            assert(new[j] == at[j - first] + 1);
        }
    }
    assert forall|i: int| 0 <= i < s.len() && f(#[trigger] s[i]) is Some implies new.contains(
        i,
    ) by {
        if i > 0 {
            assert(d[i - 1] == s[i]);
            assert(at.contains(i - 1));
            let k = choose|k: int| 0 <= k < at.len() && at[k] == i - 1;
            assert(new[k + first] == i);
        } else {
            assert(new[0] == 0);
        }
    }
    assert(picks(s, f, out, new));
}

/// Of every list something is picked.
pub proof fn can_pick<A, B>(s: Seq<A>, f: spec_fn(A) -> Option<B>) -> (out: Seq<B>)
    ensures
        picked(s, f, out),
    decreases s.len(),
{
    if s.len() == 0 {
        picked_of_nothing(s, f);
        Seq::empty()
    } else {
        let tail = can_pick(s.skip(1), f);
        picked_starts(s, f, tail);
        match f(s[0]) {
            Some(b) => seq![b] + tail,
            None => tail,
        }
    }
}

/// What is picked of what was picked is picked of the first list.
pub proof fn picked_twice<A, B, C>(
    s: Seq<A>,
    f: spec_fn(A) -> Option<B>,
    mid: Seq<B>,
    g: spec_fn(B) -> Option<C>,
    out: Seq<C>,
    h: spec_fn(A) -> Option<C>,
)
    requires
        picked(s, f, mid),
        picked(mid, g, out),
        forall|a: A| #[trigger]
            h(a) == match f(a) {
                Some(b) => g(b),
                None => None,
            },
    ensures
        picked(s, h, out),
{
    let p = choose|at: Seq<int>| #[trigger] picks(s, f, mid, at);
    let q = choose|at: Seq<int>| #[trigger] picks(mid, g, out, at);
    let at = Seq::new(q.len(), |k: int| p[q[k]]);
    assert forall|k: int| 0 <= k < at.len() implies 0 <= (#[trigger] at[k]) < s.len() && h(s[at[k]])
        == Some(out[k]) by {
        assert(0 <= q[k] < mid.len());
        assert(0 <= p[q[k]] < s.len());
    }
    assert forall|j: int, k: int| 0 <= j < k < at.len() implies #[trigger] at[j] < #[trigger] at[k] by {
        assert(q[j] < q[k]);
        assert(0 <= q[j] && q[k] < mid.len());
        assert(p[q[j]] < p[q[k]]);
    }
    assert forall|i: int| 0 <= i < s.len() && h(#[trigger] s[i]) is Some implies at.contains(i) by {
        assert(f(s[i]) is Some);
        assert(p.contains(i));
        let m = choose|m: int| 0 <= m < p.len() && p[m] == i;
        assert(f(s[p[m]]) == Some(mid[m]));
        assert(g(mid[m]) is Some);
        assert(q.contains(m));
        let k = choose|k: int| 0 <= k < q.len() && q[k] == m;
        assert(at[k] == i);
    }
    assert(picks(s, h, out, at));
}

/// No more is picked than there is.
pub proof fn picked_is_not_longer<A, B>(s: Seq<A>, f: spec_fn(A) -> Option<B>, out: Seq<B>)
    requires
        picked(s, f, out),
    ensures
        out.len() <= s.len(),
{
    let at = choose|at: Seq<int>| #[trigger] picks(s, f, out, at);
    if out.len() > 0 {
        places_grow(s, f, out, at, out.len() - 1);
        assert(at[out.len() - 1] < s.len());
    }
}

proof fn places_grow<A, B>(s: Seq<A>, f: spec_fn(A) -> Option<B>, out: Seq<B>, at: Seq<int>, k: int)
    requires
        picks(s, f, out, at),
        0 <= k < at.len(),
    ensures
        at[k] >= k,
    decreases k,
{
    if k > 0 {
        places_grow(s, f, out, at, k - 1);
        assert(at[k - 1] < at[k]);
    } else {
        assert(at[0] >= 0);
    }
}

} // verus!
