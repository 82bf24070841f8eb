//! Lists built from lists.

use vstd::prelude::*;

verus! {

/// What `f` gives for the elements of `s`, in order, where it gives anything.
pub open spec fn filter_map<A, B>(s: Seq<A>, f: spec_fn(A) -> Option<B>) -> Seq<B>
    decreases s.len(),
{
    if s.len() == 0 {
        Seq::empty()
    } else {
        match f(s.last()) {
            Some(b) => filter_map(s.drop_last(), f).push(b),
            None => filter_map(s.drop_last(), f),
        }
    }
}

/// What `f` gives for the elements of `s`, one list behind the other.
pub open spec fn flat_map<A, B>(s: Seq<A>, f: spec_fn(A) -> Seq<B>) -> Seq<B>
    decreases s.len(),
{
    if s.len() == 0 {
        Seq::empty()
    } else {
        flat_map(s.drop_last(), f) + f(s.last())
    }
}

/// One more element.
pub proof fn lemma_filter_map_step<A, B>(s: Seq<A>, f: spec_fn(A) -> Option<B>, i: int)
    requires
        0 <= i < s.len(),
    ensures
        filter_map(s.take(i + 1), f) == match f(s[i]) {
            Some(b) => filter_map(s.take(i), f).push(b),
            None => filter_map(s.take(i), f),
        },
{
    assert(s.take(i + 1).drop_last() == s.take(i));
    assert(s.take(i + 1).last() == s[i]);
}

/// One more element.
pub proof fn lemma_flat_map_step<A, B>(s: Seq<A>, f: spec_fn(A) -> Seq<B>, i: int)
    requires
        0 <= i < s.len(),
    ensures
        flat_map(s.take(i + 1), f) == flat_map(s.take(i), f) + f(s[i]),
{
    assert(s.take(i + 1).drop_last() == s.take(i));
    assert(s.take(i + 1).last() == s[i]);
}

/// An element comes out exactly when `f` gives it for some element.
pub proof fn lemma_filter_map_contains<A, B>(s: Seq<A>, f: spec_fn(A) -> Option<B>, b: B)
    ensures
        filter_map(s, f).contains(b) <==> exists|i: int|
            0 <= i < s.len() && f(#[trigger] s[i]) == Some(b),
    decreases s.len(),
{
    if s.len() == 0 {
    } else {
        let init = s.drop_last();
        lemma_filter_map_contains(init, f, b);
        let r = filter_map(s, f);
        let p = filter_map(init, f);
        if r.contains(b) {
            let k = choose|k: int| 0 <= k < r.len() && r[k] == b;
            if k < p.len() {
                assert(p[k] == b);
                let i = choose|i: int| 0 <= i < init.len() && f(#[trigger] init[i]) == Some(b);
                assert(s[i] == init[i]);
            } else {
                assert(f(s[s.len() - 1]) == Some(b));
            }
        }
        if exists|i: int| 0 <= i < s.len() && f(#[trigger] s[i]) == Some(b) {
            let i = choose|i: int| 0 <= i < s.len() && f(#[trigger] s[i]) == Some(b);
            if i < init.len() {
                assert(init[i] == s[i]);
                let k = choose|k: int| 0 <= k < p.len() && p[k] == b;
                assert(r[k] == b);
            } else {
                assert(r[r.len() - 1] == b);
            }
        }
    }
}

/// An element comes out exactly when it stands in what `f` gives for some
/// element.
pub proof fn lemma_flat_map_contains<A, B>(s: Seq<A>, f: spec_fn(A) -> Seq<B>, b: B)
    ensures
        flat_map(s, f).contains(b) <==> exists|i: int|
            0 <= i < s.len() && f(#[trigger] s[i]).contains(b),
    decreases s.len(),
{
    if s.len() == 0 {
    } else {
        let init = s.drop_last();
        lemma_flat_map_contains(init, f, b);
        let r = flat_map(s, f);
        let p = flat_map(init, f);
        let q = f(s.last());
        if r.contains(b) {
            let k = choose|k: int| 0 <= k < r.len() && r[k] == b;
            if k < p.len() {
                assert(p[k] == b);
                let i = choose|i: int| 0 <= i < init.len() && f(#[trigger] init[i]).contains(b);
                assert(s[i] == init[i]);
            } else {
                assert(q[k - p.len()] == b);
                assert(f(s[s.len() - 1]).contains(b));
            }
        }
        if exists|i: int| 0 <= i < s.len() && f(#[trigger] s[i]).contains(b) {
            let i = choose|i: int| 0 <= i < s.len() && f(#[trigger] s[i]).contains(b);
            if i < init.len() {
                assert(init[i] == s[i]);
                let k = choose|k: int| 0 <= k < p.len() && p[k] == b;
                assert(r[k] == b);
            } else {
                let k = choose|k: int| 0 <= k < q.len() && q[k] == b;
                assert(r[p.len() + k] == b);
            }
        }
    }
}

} // verus!
