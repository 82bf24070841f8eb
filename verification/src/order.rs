//! The order of texts, and lists kept in it.

use vstd::prelude::*;

use crate::json::{models, opt_text, Json, JsonView};
use crate::text::{chars_of, same, views};

verus! {

// ---------------------------------------------------------------------------
// The order
// ---------------------------------------------------------------------------

/// Whether `a` comes before `b`: by the first character in which they differ,
/// a text before its own extensions.
pub open spec fn before(a: Seq<char>, b: Seq<char>) -> bool
    decreases a.len(),
{
    if b.len() == 0 {
        false
    } else if a.len() == 0 {
        true
    } else if a[0] != b[0] {
        a[0] < b[0]
    } else {
        before(a.skip(1), b.skip(1))
    }
}

/// No text comes before itself.
pub proof fn law_before_irreflexive(a: Seq<char>)
    ensures
        !before(a, a),
    decreases a.len(),
{
    if a.len() > 0 {
        law_before_irreflexive(a.skip(1));
    }
}

/// The order is transitive.
pub proof fn law_before_transitive(a: Seq<char>, b: Seq<char>, c: Seq<char>)
    requires
        before(a, b),
        before(b, c),
    ensures
        before(a, c),
    decreases a.len(),
{
    if a.len() > 0 && a[0] == b[0] && b[0] == c[0] {
        law_before_transitive(a.skip(1), b.skip(1), c.skip(1));
    }
}

/// Of two different texts one comes before the other.
pub proof fn law_before_total(a: Seq<char>, b: Seq<char>)
    ensures
        a == b || before(a, b) || before(b, a),
    decreases a.len(),
{
    if a.len() == 0 || b.len() == 0 {
        if a.len() == 0 && b.len() == 0 {
            assert(a == b);
        }
    } else if a[0] == b[0] {
        law_before_total(a.skip(1), b.skip(1));
        if a.skip(1) == b.skip(1) {
            assert(a == seq![a[0]] + a.skip(1));
            assert(b == seq![b[0]] + b.skip(1));
        }
    }
}

/// Whether `a` comes before `b`.
pub fn text_before(a: &str, b: &str) -> (r: bool)
    ensures
        r == before(a@, b@),
{
    let x = chars_of(a);
    let y = chars_of(b);
    let mut i: usize = 0;
    assert(x@.skip(0) == x@ && y@.skip(0) == y@);
    while i < x.len() && i < y.len()
        invariant
            i <= x@.len(),
            i <= y@.len(),
            before(a@, b@) == before(x@.skip(i as int), y@.skip(i as int)),
        decreases x@.len() - i,
    {
        if x[i] != y[i] {
            return x[i] < y[i];
        }
        assert(x@.skip(i as int).skip(1) == x@.skip(i + 1));
        assert(y@.skip(i as int).skip(1) == y@.skip(i + 1));
        i = i + 1;
    }
    i < y.len()
}

// ---------------------------------------------------------------------------
// Sorted lists without repetition
// ---------------------------------------------------------------------------

/// Whether each text of `s` comes before the ones behind it.
pub open spec fn strictly_sorted(s: Seq<Seq<char>>) -> bool {
    forall|i: int, j: int| 0 <= i < j < s.len() ==> before(#[trigger] s[i], #[trigger] s[j])
}

/// The first position of `s` whose text does not come before `x`.
pub open spec fn slot(s: Seq<Seq<char>>, x: Seq<char>) -> nat
    decreases s.len(),
{
    if s.len() == 0 || !before(s[0], x) {
        0
    } else {
        1 + slot(s.skip(1), x)
    }
}

/// `s` with `x` at its place, unless it is there already.
pub open spec fn insert_distinct(s: Seq<Seq<char>>, x: Seq<char>) -> Seq<Seq<char>> {
    let at = slot(s, x);
    if at < s.len() && s[at as int] == x {
        s
    } else {
        s.insert(at as int, x)
    }
}

/// The texts of `s` in order, each once.
pub open spec fn sorted_distinct(s: Seq<Seq<char>>) -> Seq<Seq<char>>
    decreases s.len(),
{
    if s.len() == 0 {
        Seq::empty()
    } else {
        insert_distinct(sorted_distinct(s.drop_last()), s.last())
    }
}

proof fn lemma_slot(s: Seq<Seq<char>>, x: Seq<char>)
    ensures
        slot(s, x) <= s.len(),
        forall|i: int| 0 <= i < slot(s, x) ==> before(#[trigger] s[i], x),
        slot(s, x) < s.len() ==> !before(s[slot(s, x) as int], x),
    decreases s.len(),
{
    if s.len() == 0 || !before(s[0], x) {
    } else {
        let rest = s.skip(1);
        lemma_slot(rest, x);
        assert forall|i: int| 0 <= i < slot(s, x) implies before(#[trigger] s[i], x) by {
            if i > 0 {
                assert(rest[i - 1] == s[i]);
            }
        }
    }
}

proof fn lemma_insert_distinct(s: Seq<Seq<char>>, x: Seq<char>)
    requires
        strictly_sorted(s),
    ensures
        strictly_sorted(insert_distinct(s, x)),
        forall|t: Seq<char>|
            #[trigger] insert_distinct(s, x).contains(t) <==> s.contains(t) || t == x,
{
    lemma_slot(s, x);
    let at = slot(s, x) as int;
    let r = insert_distinct(s, x);
    if at < s.len() && s[at] == x {
    } else {
        assert forall|i: int| at <= i < s.len() implies before(x, #[trigger] s[i]) by {
            law_before_total(x, s[at]);
            if i > at {
                law_before_transitive(x, s[at], s[i]);
            }
        }
        assert forall|i: int, j: int| 0 <= i < j < r.len() implies before(
            #[trigger] r[i],
            #[trigger] r[j],
        ) by {
            let a = if i < at {
                i
            } else {
                i - 1
            };
            let b = if j < at {
                j
            } else {
                j - 1
            };
            if i != at {
                assert(r[i] == s[a]);
            }
            if j != at {
                assert(r[j] == s[b]);
            }
        }
        assert forall|t: Seq<char>| #[trigger] r.contains(t) <==> s.contains(t) || t == x by {
            assert(r[at] == x);
            if s.contains(t) {
                let k = choose|k: int| 0 <= k < s.len() && s[k] == t;
                if k < at {
                    assert(r[k] == t);
                } else {
                    assert(r[k + 1] == t);
                }
            }
            if r.contains(t) {
                let k = choose|k: int| 0 <= k < r.len() && r[k] == t;
                if k < at {
                    assert(s[k] == t);
                } else if k > at {
                    assert(s[k - 1] == t);
                }
            }
        }
    }
}

/// The texts of a list in order: sorted, none twice, and the same texts.
pub proof fn law_sorted_distinct(s: Seq<Seq<char>>)
    ensures
        strictly_sorted(sorted_distinct(s)),
        forall|t: Seq<char>| #[trigger] sorted_distinct(s).contains(t) <==> s.contains(t),
    decreases s.len(),
{
    if s.len() > 0 {
        let init = s.drop_last();
        law_sorted_distinct(init);
        lemma_insert_distinct(sorted_distinct(init), s.last());
        assert forall|t: Seq<char>| #[trigger]
            sorted_distinct(s).contains(t) <==> s.contains(t) by {
            if s.contains(t) && t != s.last() {
                let k = choose|k: int| 0 <= k < s.len() && s[k] == t;
                assert(init[k] == t);
            }
            if init.contains(t) {
                let k = choose|k: int| 0 <= k < init.len() && init[k] == t;
                assert(s[k] == t);
            }
            if t == s.last() {
                assert(s[s.len() - 1] == t);
            }
        }
    }
}

/// Two sorted lists without repetition that hold the same texts are the same.
pub proof fn lemma_same_texts_same_list(a: Seq<Seq<char>>, b: Seq<Seq<char>>)
    requires
        strictly_sorted(a),
        strictly_sorted(b),
        forall|t: Seq<char>| #[trigger] a.contains(t) <==> b.contains(t),
    ensures
        a == b,
    decreases a.len(),
{
    if a.len() == 0 {
        if b.len() > 0 {
            assert(b.contains(b[0]));
            assert(a.contains(b[0]));
        }
        assert(a == b);
    } else {
        assert(a.contains(a.last()));
        assert(b.contains(a.last()));
        assert(b.contains(b.last()));
        assert(a.contains(b.last()));
        let x = a.last();
        let y = b.last();
        let i = choose|i: int| 0 <= i < b.len() && b[i] == x;
        let j = choose|j: int| 0 <= j < a.len() && a[j] == y;
        if x != y {
            assert(before(b[i], b[b.len() - 1]));
            assert(before(a[j], a[a.len() - 1]));
            law_before_transitive(x, y, x);
            law_before_irreflexive(x);
        }
        let p = a.drop_last();
        let q = b.drop_last();
        assert forall|t: Seq<char>| #[trigger] p.contains(t) <==> q.contains(t) by {
            if p.contains(t) {
                let k = choose|k: int| 0 <= k < p.len() && p[k] == t;
                assert(a[k] == t);
                assert(before(a[k], a[a.len() - 1]));
                law_before_irreflexive(t);
                assert(a.contains(t));
                assert(b.contains(t));
                let m = choose|m: int| 0 <= m < b.len() && b[m] == t;
                assert(q[m] == t);
            }
            if q.contains(t) {
                let k = choose|k: int| 0 <= k < q.len() && q[k] == t;
                assert(b[k] == t);
                assert(before(b[k], b[b.len() - 1]));
                law_before_irreflexive(t);
                assert(b.contains(t));
                assert(a.contains(t));
                let m = choose|m: int| 0 <= m < a.len() && a[m] == t;
                assert(p[m] == t);
            }
        }
        assert(strictly_sorted(p)) by {
            assert forall|m: int, n: int| 0 <= m < n < p.len() implies before(
                #[trigger] p[m],
                #[trigger] p[n],
            ) by {
                assert(before(a[m], a[n]));
            }
        }
        assert(strictly_sorted(q)) by {
            assert forall|m: int, n: int| 0 <= m < n < q.len() implies before(
                #[trigger] q[m],
                #[trigger] q[n],
            ) by {
                assert(before(b[m], b[n]));
            }
        }
        lemma_same_texts_same_list(p, q);
        assert(a == p.push(x));
        assert(b == q.push(x));
    }
}

/// The order and the repetitions of a list do not matter to its sorted form.
pub proof fn law_sorted_distinct_of_same_texts(a: Seq<Seq<char>>, b: Seq<Seq<char>>)
    requires
        forall|t: Seq<char>| #[trigger] a.contains(t) <==> b.contains(t),
    ensures
        sorted_distinct(a) == sorted_distinct(b),
{
    law_sorted_distinct(a);
    law_sorted_distinct(b);
    let x = sorted_distinct(a);
    let y = sorted_distinct(b);
    assert forall|t: Seq<char>| #[trigger] x.contains(t) <==> y.contains(t) by {
        assert(a.contains(t) <==> b.contains(t));
    }
    lemma_same_texts_same_list(x, y);
}

/// The texts of a list in order, each once.
pub fn sort_distinct(list: &Vec<String>) -> (r: Vec<String>)
    ensures
        views(r@) == sorted_distinct(views(list@)),
{
    let mut out: Vec<String> = Vec::new();
    let mut i: usize = 0;
    let ghost all = views(list@);
    assert(views(out@) == sorted_distinct(all.take(0)));
    while i < list.len()
        invariant
            i <= list@.len(),
            all == views(list@),
            views(out@) == sorted_distinct(all.take(i as int)),
        decreases list@.len() - i,
    {
        let ghost cur = views(out@);
        let x = list[i].as_str();
        let mut at: usize = 0;
        assert(cur.skip(0) == cur);
        while at < out.len() && text_before(out[at].as_str(), x)
            invariant
                at <= out@.len(),
                cur == views(out@),
                slot(cur, x@) == at + slot(cur.skip(at as int), x@),
            decreases out@.len() - at,
        {
            assert(cur.skip(at as int).skip(1) == cur.skip(at + 1));
            at = at + 1;
        }
        assert(slot(cur, x@) == at);
        assert(all.take(i + 1).drop_last() == all.take(i as int));
        assert(all.take(i + 1).last() == x@);
        if at < out.len() && same(out[at].as_str(), x) {
            assert(views(out@) == sorted_distinct(all.take(i + 1)));
        } else {
            let copy = list[i].clone();
            out.insert(at, copy);
            assert(views(out@) == cur.insert(at as int, x@));
        }
        i = i + 1;
    }
    assert(all.take(i as int) == all);
    out
}

// ---------------------------------------------------------------------------
// Stable sorting of entries by one or two of their texts
// ---------------------------------------------------------------------------

/// Where an entry belongs: by its first text, then by its second.
pub struct SortKey {
    pub first: Option<Seq<char>>,
    pub second: Option<Seq<char>>,
}

/// A missing text comes before any other.
pub open spec fn opt_before(a: Option<Seq<char>>, b: Option<Seq<char>>) -> bool {
    match (a, b) {
        (None, Some(_)) => true,
        (Some(x), Some(y)) => before(x, y),
        _ => false,
    }
}

/// Whether `a` belongs before `b`.
pub open spec fn key_before(a: SortKey, b: SortKey) -> bool {
    opt_before(a.first, b.first) || (a.first == b.first && opt_before(a.second, b.second))
}

/// The order of the keys is transitive.
pub proof fn lemma_key_before_transitive(a: SortKey, b: SortKey, c: SortKey)
    requires
        key_before(a, b),
        key_before(b, c),
    ensures
        key_before(a, c),
{
    lemma_opt_before_transitive(a.first, b.first, c.first);
    lemma_opt_before_transitive(a.second, b.second, c.second);
}

proof fn lemma_opt_before_transitive(
    a: Option<Seq<char>>,
    b: Option<Seq<char>>,
    c: Option<Seq<char>>,
)
    ensures
        opt_before(a, b) && opt_before(b, c) ==> opt_before(a, c),
{
    if opt_before(a, b) && opt_before(b, c) && a is Some {
        law_before_transitive(a->0, b->0, c->0);
    }
}

proof fn lemma_opt_before_total(a: Option<Seq<char>>, b: Option<Seq<char>>)
    ensures
        a == b || opt_before(a, b) || opt_before(b, a),
        !opt_before(a, a),
{
    if a is Some && b is Some {
        law_before_total(a->0, b->0);
    }
    if a is Some {
        law_before_irreflexive(a->0);
    }
}

/// Of two different keys one belongs before the other, and none before itself.
pub proof fn lemma_key_before_total(a: SortKey, b: SortKey)
    ensures
        a == b || key_before(a, b) || key_before(b, a),
        !key_before(a, a),
{
    lemma_opt_before_total(a.first, b.first);
    lemma_opt_before_total(a.second, b.second);
}

/// The key of an entry: the texts of its members `first` and `second`.
pub open spec fn entry_key(v: JsonView, first: Seq<char>, second: Seq<char>) -> SortKey {
    SortKey { first: v.text_at(first), second: v.text_at(second) }
}

/// Whether no entry belongs before an earlier one.
pub open spec fn entries_sorted(s: Seq<JsonView>, first: Seq<char>, second: Seq<char>) -> bool {
    forall|i: int, j: int|
        0 <= i < j < s.len() ==> !key_before(
            entry_key(#[trigger] s[j], first, second),
            entry_key(#[trigger] s[i], first, second),
        )
}

/// The first position of `s` whose entry belongs behind `x`.
pub open spec fn entry_slot(
    s: Seq<JsonView>,
    x: JsonView,
    first: Seq<char>,
    second: Seq<char>,
) -> nat
    decreases s.len(),
{
    if s.len() == 0 || key_before(entry_key(x, first, second), entry_key(s[0], first, second)) {
        0
    } else {
        1 + entry_slot(s.skip(1), x, first, second)
    }
}

/// The entries by their texts `first` and `second`; those alike in both stay
/// in the order in which they came.
pub open spec fn sorted_entries(s: Seq<JsonView>, first: Seq<char>, second: Seq<char>) -> Seq<
    JsonView,
>
    decreases s.len(),
{
    if s.len() == 0 {
        Seq::empty()
    } else {
        let init = sorted_entries(s.drop_last(), first, second);
        init.insert(entry_slot(init, s.last(), first, second) as int, s.last())
    }
}

/// The entries of `s` that have the key `k`, in order.
pub open spec fn with_key(
    s: Seq<JsonView>,
    k: SortKey,
    first: Seq<char>,
    second: Seq<char>,
) -> Seq<JsonView>
    decreases s.len(),
{
    if s.len() == 0 {
        Seq::empty()
    } else if entry_key(s.last(), first, second) == k {
        with_key(s.drop_last(), k, first, second).push(s.last())
    } else {
        with_key(s.drop_last(), k, first, second)
    }
}

proof fn lemma_entry_slot(s: Seq<JsonView>, x: JsonView, first: Seq<char>, second: Seq<char>)
    ensures
        entry_slot(s, x, first, second) <= s.len(),
        forall|i: int|
            0 <= i < entry_slot(s, x, first, second) ==> !key_before(
                entry_key(x, first, second),
                entry_key(#[trigger] s[i], first, second),
            ),
        entry_slot(s, x, first, second) < s.len() ==> key_before(
            entry_key(x, first, second),
            entry_key(s[entry_slot(s, x, first, second) as int], first, second),
        ),
    decreases s.len(),
{
    if s.len() == 0 || key_before(entry_key(x, first, second), entry_key(s[0], first, second)) {
    } else {
        let rest = s.skip(1);
        lemma_entry_slot(rest, x, first, second);
        assert forall|i: int| 0 <= i < entry_slot(s, x, first, second) implies !key_before(
            entry_key(x, first, second),
            entry_key(#[trigger] s[i], first, second),
        ) by {
            if i > 0 {
                assert(rest[i - 1] == s[i]);
            }
        }
    }
}

/// `with_key` of two lists, one behind the other.
proof fn lemma_with_key_concat(
    a: Seq<JsonView>,
    b: Seq<JsonView>,
    k: SortKey,
    first: Seq<char>,
    second: Seq<char>,
)
    ensures
        with_key(a + b, k, first, second) == with_key(a, k, first, second) + with_key(
            b,
            k,
            first,
            second,
        ),
    decreases b.len(),
{
    if b.len() == 0 {
        assert(a + b == a);
        assert(with_key(b, k, first, second) == Seq::<JsonView>::empty());
    } else {
        lemma_with_key_concat(a, b.drop_last(), k, first, second);
        assert((a + b).drop_last() == a + b.drop_last());
        assert((a + b).last() == b.last());
    }
}

proof fn lemma_with_key_none(
    s: Seq<JsonView>,
    k: SortKey,
    first: Seq<char>,
    second: Seq<char>,
)
    requires
        forall|i: int| 0 <= i < s.len() ==> entry_key(#[trigger] s[i], first, second) != k,
    ensures
        with_key(s, k, first, second) == Seq::<JsonView>::empty(),
    decreases s.len(),
{
    if s.len() > 0 {
        assert(entry_key(s[s.len() - 1], first, second) != k);
        let init = s.drop_last();
        assert forall|i: int| 0 <= i < init.len() implies entry_key(
            #[trigger] init[i],
            first,
            second,
        ) != k by {
            assert(init[i] == s[i]);
        }
        lemma_with_key_none(init, k, first, second);
    }
}

/// What sorting entries does: it keeps the same entries, puts none before one
/// that belongs before it, and leaves those with one key in their order.
pub proof fn law_sorted_entries(s: Seq<JsonView>, first: Seq<char>, second: Seq<char>)
    ensures
        entries_sorted(sorted_entries(s, first, second), first, second),
        sorted_entries(s, first, second).to_multiset() == s.to_multiset(),
        forall|k: SortKey| #[trigger]
            with_key(sorted_entries(s, first, second), k, first, second) == with_key(
                s,
                k,
                first,
                second,
            ),
    decreases s.len(),
{
    broadcast use vstd::seq_lib::group_to_multiset_ensures;

    if s.len() > 0 {
        let x = s.last();
        let prior = s.drop_last();
        law_sorted_entries(prior, first, second);
        let init = sorted_entries(prior, first, second);
        lemma_entry_slot(init, x, first, second);
        let at = entry_slot(init, x, first, second) as int;
        let r = init.insert(at, x);
        let kx = entry_key(x, first, second);
        assert forall|i: int| at <= i < init.len() implies key_before(
            kx,
            entry_key(#[trigger] init[i], first, second),
        ) by {
            if i > at {
                let ka = entry_key(init[at], first, second);
                let ki = entry_key(init[i], first, second);
                lemma_key_before_total(ka, ki);
                if key_before(ka, ki) {
                    lemma_key_before_transitive(kx, ka, ki);
                }
            }
        }
        assert forall|i: int, j: int| 0 <= i < j < r.len() implies !key_before(
            entry_key(#[trigger] r[j], first, second),
            entry_key(#[trigger] r[i], first, second),
        ) by {
            let a = if i < at {
                i
            } else {
                i - 1
            };
            let b = if j < at {
                j
            } else {
                j - 1
            };
            if i != at {
                assert(r[i] == init[a]);
            }
            if j != at {
                assert(r[j] == init[b]);
            }
            if i == at {
                let kb = entry_key(init[b], first, second);
                if key_before(kb, kx) {
                    lemma_key_before_transitive(kb, kx, kb);
                    lemma_key_before_total(kb, kb);
                }
            }
        }
        assert(s == prior.push(x));
        vstd::seq_lib::to_multiset_insert(init, at, x);
        assert forall|k: SortKey| #[trigger]
            with_key(r, k, first, second) == with_key(s, k, first, second) by {
            let lo = init.take(at);
            let hi = init.skip(at);
            assert(init == lo + hi);
            assert(r == lo + seq![x] + hi);
            assert(s == prior + seq![x]);
            lemma_with_key_concat(lo, hi, k, first, second);
            lemma_with_key_concat(lo + seq![x], hi, k, first, second);
            lemma_with_key_concat(lo, seq![x], k, first, second);
            lemma_with_key_concat(prior, seq![x], k, first, second);
            assert(with_key(init, k, first, second) == with_key(prior, k, first, second));
            if k == kx {
                assert forall|i: int| 0 <= i < hi.len() implies entry_key(
                    #[trigger] hi[i],
                    first,
                    second,
                ) != k by {
                    assert(hi[i] == init[at + i]);
                    lemma_key_before_total(kx, kx);
                }
                lemma_with_key_none(hi, k, first, second);
            } else {
                assert(entry_key(seq![x][0], first, second) != k);
                lemma_with_key_none(seq![x], k, first, second);
            }
            assert(with_key(r, k, first, second) == with_key(s, k, first, second));
        }
    }
}

/// Whether entries that are alike in their key are alike altogether.
pub open spec fn keys_tell_apart(s: Seq<JsonView>, first: Seq<char>, second: Seq<char>) -> bool {
    forall|i: int, j: int|
        0 <= i < j < s.len() && entry_key(#[trigger] s[i], first, second) == entry_key(
            #[trigger] s[j],
            first,
            second,
        ) ==> s[i] == s[j]
}

/// The order in which two lists of entries came does not matter to their
/// sorted form, as long as entries with one key are alike.
pub proof fn law_order_of_entries_does_not_matter(
    a: Seq<JsonView>,
    b: Seq<JsonView>,
    first: Seq<char>,
    second: Seq<char>,
)
    requires
        a.to_multiset() == b.to_multiset(),
        keys_tell_apart(a, first, second),
    ensures
        sorted_entries(a, first, second) == sorted_entries(b, first, second),
{
    law_sorted_entries(a, first, second);
    law_sorted_entries(b, first, second);
    let p = sorted_entries(a, first, second);
    assert forall|x: JsonView| #[trigger] p.contains(x) implies a.contains(x) by {
        lemma_multiset_contains(p, a, x);
    }
    lemma_sorted_lists_equal(
        p,
        sorted_entries(b, first, second),
        a,
        first,
        second,
    );
}

/// An entry of one list is an entry of any list with the same entries.
proof fn lemma_multiset_contains(a: Seq<JsonView>, b: Seq<JsonView>, x: JsonView)
    requires
        a.to_multiset() == b.to_multiset(),
        a.contains(x),
    ensures
        b.contains(x),
{
    broadcast use vstd::seq_lib::group_to_multiset_ensures;

    assert(a.to_multiset().count(x) > 0);
    assert(b.to_multiset().count(x) > 0);
}

proof fn lemma_sorted_lists_equal(
    p: Seq<JsonView>,
    q: Seq<JsonView>,
    a: Seq<JsonView>,
    first: Seq<char>,
    second: Seq<char>,
)
    requires
        entries_sorted(p, first, second),
        entries_sorted(q, first, second),
        p.to_multiset() == q.to_multiset(),
        forall|x: JsonView| #[trigger] p.contains(x) ==> a.contains(x),
        keys_tell_apart(a, first, second),
    ensures
        p == q,
    decreases p.len(),
{
    broadcast use vstd::seq_lib::group_to_multiset_ensures;

    vstd::seq_lib::to_multiset_len(p);
    vstd::seq_lib::to_multiset_len(q);
    if p.len() == 0 {
        assert(p == q);
    } else {
        let x = p.last();
        let y = q.last();
        assert(p.contains(p[p.len() - 1]));
        assert(q.contains(q[q.len() - 1]));
        lemma_multiset_contains(p, q, x);
        lemma_multiset_contains(q, p, y);
        let i = choose|i: int| 0 <= i < q.len() && q[i] == x;
        let j = choose|j: int| 0 <= j < p.len() && p[j] == y;
        let kx = entry_key(x, first, second);
        let ky = entry_key(y, first, second);
        if i < q.len() - 1 {
            assert(!key_before(
                entry_key(q[q.len() - 1], first, second),
                entry_key(q[i], first, second),
            ));
        }
        if j < p.len() - 1 {
            assert(!key_before(
                entry_key(p[p.len() - 1], first, second),
                entry_key(p[j], first, second),
            ));
        }
        lemma_key_before_total(kx, ky);
        assert(kx == ky);
        assert(a.contains(x));
        assert(a.contains(y));
        let m = choose|m: int| 0 <= m < a.len() && a[m] == x;
        let n = choose|n: int| 0 <= n < a.len() && a[n] == y;
        assert(x == y) by {
            if m < n {
                assert(a[m] == a[n]);
            } else if n < m {
                assert(a[n] == a[m]);
            }
        }
        let p0 = p.drop_last();
        let q0 = q.drop_last();
        assert(p == p0.push(x));
        assert(q == q0.push(x));
        assert(p0.to_multiset() == p.to_multiset().remove(x));
        assert(q0.to_multiset() == q.to_multiset().remove(x));
        assert forall|t: JsonView| #[trigger] p0.contains(t) implies a.contains(t) by {
            let k = choose|k: int| 0 <= k < p0.len() && p0[k] == t;
            assert(p[k] == t);
            assert(p.contains(t));
        }
        assert(entries_sorted(p0, first, second)) by {
            assert forall|u: int, w: int| 0 <= u < w < p0.len() implies !key_before(
                entry_key(#[trigger] p0[w], first, second),
                entry_key(#[trigger] p0[u], first, second),
            ) by {
                assert(p0[w] == p[w] && p0[u] == p[u]);
            }
        }
        assert(entries_sorted(q0, first, second)) by {
            assert forall|u: int, w: int| 0 <= u < w < q0.len() implies !key_before(
                entry_key(#[trigger] q0[w], first, second),
                entry_key(#[trigger] q0[u], first, second),
            ) by {
                assert(q0[w] == q[w] && q0[u] == q[u]);
            }
        }
        lemma_sorted_lists_equal(p0, q0, a, first, second);
    }
}

/// Whether a text that may be missing comes before another.
fn opt_text_before(a: Option<&str>, b: Option<&str>) -> (r: bool)
    ensures
        r == opt_before(opt_text(a), opt_text(b)),
{
    match (a, b) {
        (None, Some(_)) => true,
        (Some(x), Some(y)) => text_before(x, y),
        _ => false,
    }
}

/// Whether two texts that may be missing are the same.
fn opt_text_same(a: Option<&str>, b: Option<&str>) -> (r: bool)
    ensures
        r == (opt_text(a) == opt_text(b)),
{
    match (a, b) {
        (None, None) => true,
        (Some(x), Some(y)) => same(x, y),
        _ => false,
    }
}

/// Whether `a` belongs before `b`.
fn entry_before(a: &Json, b: &Json, first: &str, second: &str) -> (r: bool)
    ensures
        r == key_before(entry_key(a@, first@, second@), entry_key(b@, first@, second@)),
{
    let x = a.text_at(first);
    let y = b.text_at(first);
    opt_text_before(x, y) || (opt_text_same(x, y) && opt_text_before(
        a.text_at(second),
        b.text_at(second),
    ))
}

/// The entries by their texts `first` and `second`; those alike in both stay
/// in the order in which they came.
pub fn sort_entries(entries: &Vec<Json>, first: &str, second: &str) -> (r: Vec<Json>)
    ensures
        models(r@) == sorted_entries(models(entries@), first@, second@),
{
    let mut out: Vec<Json> = Vec::new();
    let mut i: usize = 0;
    let ghost all = models(entries@);
    assert(models(out@) == sorted_entries(all.take(0), first@, second@));
    while i < entries.len()
        invariant
            i <= entries@.len(),
            all == models(entries@),
            models(out@) == sorted_entries(all.take(i as int), first@, second@),
        decreases entries@.len() - i,
    {
        let ghost cur = models(out@);
        let x = entries[i].clone();
        let mut at: usize = 0;
        assert(cur.skip(0) == cur);
        while at < out.len() && !entry_before(&x, &out[at], first, second)
            invariant
                at <= out@.len(),
                cur == models(out@),
                entry_slot(cur, x@, first@, second@) == at + entry_slot(
                    cur.skip(at as int),
                    x@,
                    first@,
                    second@,
                ),
            decreases out@.len() - at,
        {
            assert(cur.skip(at as int).skip(1) == cur.skip(at + 1));
            at = at + 1;
        }
        assert(entry_slot(cur, x@, first@, second@) == at);
        assert(all.take(i + 1).drop_last() == all.take(i as int));
        assert(all.take(i + 1).last() == x@);
        out.insert(at, x);
        assert(models(out@) == cur.insert(at as int, x@));
        i = i + 1;
    }
    assert(all.take(i as int) == all);
    out
}

} // verus!
