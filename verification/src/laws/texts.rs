//! Laws of texts and lists.

use vstd::prelude::*;

use crate::digits::{decimal, decimal_value, hex, u32_value, unsigned_part};
use crate::lists::{filter_map, flat_map};
use crate::mcp::receipt::lemma_split_concat;
use crate::order::{before, law_sorted_distinct, sorted_distinct};
use crate::text::{
    drop_prefixes, drop_suffixes, find, has_part, has_prefix, is_white, join, lemma_find,
    lemma_first_at, lemma_words_concat, lemma_words_of_word, lines, lower, occurs_at, split,
    split_once, trim, trim_end, trim_start, words,
};

verus! {

/// White space is what Unicode says it is, by number.
pub proof fn law_white_space(c: char)
    ensures
        is_white(c) <==> {
            let n = c as u32;
            ||| 0x9 <= n <= 0xd
            ||| n == 0x20
            ||| n == 0x85
            ||| n == 0xa0
            ||| n == 0x1680
            ||| 0x2000 <= n <= 0x200a
            ||| n == 0x2028
            ||| n == 0x2029
            ||| n == 0x202f
            ||| n == 0x205f
            ||| n == 0x3000
        },
{
}

proof fn lemma_trim_start_at(s: Seq<char>) -> (i: int)
    ensures
        0 <= i <= s.len(),
        trim_start(s) == s.skip(i),
        forall|k: int| 0 <= k < i ==> is_white(#[trigger] s[k]),
        i < s.len() ==> !is_white(s[i]),
    decreases s.len(),
{
    if s.len() > 0 && is_white(s[0]) {
        let rest = s.skip(1);
        let j = lemma_trim_start_at(rest);
        assert(rest.skip(j) == s.skip(j + 1));
        assert forall|k: int| 0 <= k < j + 1 implies is_white(#[trigger] s[k]) by {
            if k > 0 {
                assert(rest[k - 1] == s[k]);
            }
        }
        if j + 1 < s.len() {
            assert(rest[j] == s[j + 1]);
        }
        j + 1
    } else {
        assert(s.skip(0) == s);
        0
    }
}

proof fn lemma_trim_end_at(s: Seq<char>) -> (j: int)
    ensures
        0 <= j <= s.len(),
        trim_end(s) == s.take(j),
        forall|k: int| j <= k < s.len() ==> is_white(#[trigger] s[k]),
        j > 0 ==> !is_white(s[j - 1]),
    decreases s.len(),
{
    if s.len() > 0 && is_white(s.last()) {
        let init = s.drop_last();
        let j = lemma_trim_end_at(init);
        assert(init.take(j) == s.take(j));
        assert forall|k: int| j <= k < s.len() implies is_white(#[trigger] s[k]) by {
            if k < init.len() {
                assert(init[k] == s[k]);
            }
        }
        if j > 0 {
            assert(init[j - 1] == s[j - 1]);
        }
        j
    } else {
        assert(s.take(s.len() as int) == s);
        s.len() as int
    }
}

/// Trimming cuts white space off both sides and nothing else: what is left
/// stands in the text with only white space around it, and neither starts nor
/// ends with any.
pub proof fn law_trim(s: Seq<char>)
    ensures
        exists|i: int, j: int|
            0 <= i <= j <= s.len() && trim(s) == #[trigger] s.subrange(i, j) && (forall|k: int|
                (0 <= k < i || j <= k < s.len()) ==> is_white(#[trigger] s[k])) && (i < j
                ==> !is_white(s[i]) && !is_white(s[j - 1])),
{
    let i = lemma_trim_start_at(s);
    let t = s.skip(i);
    let j = lemma_trim_end_at(t);
    let w = s.subrange(i, i + j);
    assert(t.take(j) == w);
    assert forall|k: int| (0 <= k < i || i + j <= k < s.len()) implies is_white(
        #[trigger] s[k],
    ) by {
        if k >= i {
            assert(t[k - i] == s[k]);
        }
    }
    if j > 0 {
        assert(t[j - 1] == s[i + j - 1]);
    }
    assert(trim(s) == s.subrange(i, i + j));
}

/// Where the last run of characters other than white space starts.
proof fn lemma_last_word(s: Seq<char>) -> (i: int)
    ensures
        0 <= i <= s.len(),
        forall|k: int| i <= k < s.len() ==> !is_white(#[trigger] s[k]),
        i > 0 ==> is_white(s[i - 1]),
    decreases s.len(),
{
    if s.len() == 0 || is_white(s.last()) {
        s.len() as int
    } else {
        let init = s.drop_last();
        let i = lemma_last_word(init);
        assert forall|k: int| i <= k < s.len() implies !is_white(#[trigger] s[k]) by {
            if k < init.len() {
                assert(init[k] == s[k]);
            }
        }
        if i > 0 {
            assert(init[i - 1] == s[i - 1]);
        }
        i
    }
}

proof fn lemma_words_behind_white(w: char, t: Seq<char>)
    requires
        is_white(w),
        forall|k: int| 0 <= k < t.len() ==> !is_white(#[trigger] t[k]),
    ensures
        words(seq![w] + t) == if t.len() == 0 {
            Seq::<Seq<char>>::empty()
        } else {
            seq![t]
        },
{
    let s = seq![w] + t;
    assert(s.skip(1) == t);
    assert(trim_start(s) == trim_start(t));
    assert(words(s) == words(t));
    if t.len() > 0 {
        lemma_words_of_word(t);
    }
}

/// The words of a text, character by character: white space adds nothing, and
/// any other character starts a word behind white space or at the start, and
/// else goes to the end of the last word.
pub proof fn law_words(s: Seq<char>, c: char)
    ensures
        words(Seq::<char>::empty()) == Seq::<Seq<char>>::empty(),
        is_white(c) ==> words(s.push(c)) == words(s),
        !is_white(c) && (s.len() == 0 || is_white(s.last())) ==> words(s.push(c)) == words(s).push(
            seq![c],
        ),
        !is_white(c) && s.len() > 0 && !is_white(s.last()) ==> words(s).len() > 0 && words(
            s.push(c),
        ) == words(s).drop_last().push(words(s).last().push(c)),
{
    assert(s.push(c) == s + seq![c]);
    if is_white(c) {
        lemma_words_concat(s, seq![c]);
        lemma_words_behind_white(c, Seq::empty());
        assert(seq![c] + Seq::<char>::empty() == seq![c]);
        assert(words(s) + Seq::<Seq<char>>::empty() == words(s));
    } else {
        let i = lemma_last_word(s);
        let t = s.skip(i);
        assert forall|k: int| 0 <= k < t.len() implies !is_white(#[trigger] t[k]) by {
            assert(t[k] == s[i + k]);
        }
        assert forall|k: int| 0 <= k < t.push(c).len() implies !is_white(
            #[trigger] t.push(c)[k],
        ) by {
            if k < t.len() {
                assert(t.push(c)[k] == t[k]);
            }
        }
        if i == 0 {
            assert(t == s);
            lemma_words_of_word(s.push(c));
            if s.len() > 0 {
                lemma_words_of_word(s);
                assert(words(s).drop_last().push(words(s).last().push(c)) == seq![s.push(c)]);
            } else {
                assert(s.push(c) == seq![c]);
                assert(words(s) == Seq::<Seq<char>>::empty());
                assert(words(s).push(seq![c]) == seq![seq![c]]);
            }
        } else {
            let a = s.take(i - 1);
            let w = s[i - 1];
            assert(s == a + (seq![w] + t));
            assert(s.push(c) == a + (seq![w] + t.push(c)));
            lemma_words_concat(a, seq![w] + t);
            lemma_words_concat(a, seq![w] + t.push(c));
            lemma_words_behind_white(w, t);
            lemma_words_behind_white(w, t.push(c));
            if t.len() == 0 {
                assert(t.push(c) == seq![c]);
                assert(words(s) == words(a));
                assert(words(s.push(c)) == words(s).push(seq![c]));
                assert(s.last() == w);
            } else {
                assert(s.last() == t.last());
                assert(words(s) == words(a).push(t));
                assert(words(s.push(c)) == words(a).push(t.push(c)));
                assert(words(s).drop_last() == words(a));
            }
        }
    }
}

/// Joining puts the separator between neighbours and adds nothing else.
pub proof fn law_join(pieces: Seq<Seq<char>>, sep: Seq<char>, next: Seq<char>)
    ensures
        join(Seq::<Seq<char>>::empty(), sep) == Seq::<char>::empty(),
        join(seq![next], sep) == next,
        pieces.len() > 0 ==> join(pieces.push(next), sep) == join(pieces, sep) + sep + next,
{
    assert(pieces.push(next).drop_last() == pieces);
}

/// Splitting parts a text at each separator and nowhere else.
pub proof fn law_split(a: Seq<char>, b: Seq<char>, c: char)
    ensures
        !a.contains(c) ==> split(a, c) == seq![a],
        split(a + seq![c] + b, c) == split(a, c) + split(b, c),
{
    lemma_find(a, c);
    if !a.contains(c) && find(a, c) < a.len() {
        assert(a.contains(a[find(a, c) as int]));
    }
    lemma_split_concat(a, b, c);
}

/// The lines of a text: none where it is empty; a text without a line feed is
/// its own line; and a line feed ends a line, which loses one carriage return
/// at its end.
pub proof fn law_lines(a: Seq<char>, b: Seq<char>)
    requires
        !a.contains('\n'),
    ensures
        lines(Seq::<char>::empty()) == Seq::<Seq<char>>::empty(),
        a.len() > 0 ==> lines(a) == seq![a],
        a.len() > 0 && a.last() == '\r' ==> lines(a + seq!['\n'] + b) == seq![a.drop_last()]
            + lines(b),
        a.len() == 0 || a.last() != '\r' ==> lines(a + seq!['\n'] + b) == seq![a] + lines(b),
{
    let s = a + seq!['\n'] + b;
    lemma_find(a, '\n');
    if find(a, '\n') < a.len() {
        assert(a.contains(a[find(a, '\n') as int]));
    }
    lemma_find(s, '\n');
    let n = find(s, '\n') as int;
    if n < a.len() {
        assert(s[n] == a[n]);
        assert(a.contains(a[n]));
    }
    if a.len() < n {
        assert(s[a.len() as int] == '\n');
    }
    assert(n == a.len());
    assert(s.take(n) == a);
    assert(s.skip(n + 1) == b);
}

/// A text has a part where the characters of the part stand in it side by
/// side, and a prefix where they stand at its start.
pub proof fn law_parts(s: Seq<char>, part: Seq<char>)
    ensures
        has_part(s, part) <==> exists|at: int|
            0 <= at && at + part.len() <= s.len() && #[trigger] s.subrange(at, at + part.len())
                == part,
        has_prefix(s, part) <==> part.len() <= s.len() && s.take(part.len() as int) == part,
{
    if has_part(s, part) {
        let at = choose|at: int| occurs_at(s, part, at);
        assert(s.subrange(at, at + part.len()) == part);
    }
    if exists|at: int|
        0 <= at && at + part.len() <= s.len() && #[trigger] s.subrange(at, at + part.len())
            == part {
        let at = choose|at: int|
            0 <= at && at + part.len() <= s.len() && #[trigger] s.subrange(at, at + part.len())
                == part;
        assert(occurs_at(s, part, at));
    }
    if part.len() <= s.len() {
        assert(s.subrange(0, part.len() as int) == s.take(part.len() as int));
    }
}

proof fn lemma_first_occurrence(s: Seq<char>, part: Seq<char>, at: int) -> (first: int)
    requires
        occurs_at(s, part, at),
    ensures
        occurs_at(s, part, first),
        forall|k: int| 0 <= k < first ==> !occurs_at(s, part, k),
    decreases at,
{
    if exists|k: int| 0 <= k < at && occurs_at(s, part, k) {
        let k = choose|k: int| 0 <= k < at && occurs_at(s, part, k);
        lemma_first_occurrence(s, part, k)
    } else {
        at
    }
}

/// Cutting a text once takes the first place where the part stands, and keeps
/// all that comes before it and all that comes after it.
pub proof fn law_split_once(s: Seq<char>, part: Seq<char>)
    ensures
        match split_once(s, part) {
            Some((a, b)) => s == a + part + b && forall|k: int|
                0 <= k < a.len() ==> #[trigger] s.subrange(k, k + part.len()) != part,
            None => forall|k: int|
                0 <= k && k + part.len() <= s.len() ==> #[trigger] s.subrange(k, k + part.len())
                    != part,
        },
{
    if has_part(s, part) {
        let at = choose|at: int| occurs_at(s, part, at);
        let first = lemma_first_occurrence(s, part, at);
        lemma_first_at(s, part, first);
        assert(s == s.take(first) + part + s.skip(first + part.len())) by {
            assert(s == s.take(first) + s.subrange(first, first + part.len()) + s.skip(
                first + part.len(),
            ));
        }
        assert forall|k: int| 0 <= k < first implies #[trigger] s.subrange(k, k + part.len())
            != part by {
            assert(!occurs_at(s, part, k));
        }
    } else {
        assert forall|k: int| 0 <= k && k + part.len() <= s.len() implies #[trigger] s.subrange(
            k,
            k + part.len(),
        ) != part by {
            assert(!occurs_at(s, part, k));
        }
    }
}

/// Dropping a prefix drops every copy of it at the start, and nothing from a
/// text that does not start with it.
pub proof fn law_drop_prefixes(s: Seq<char>, part: Seq<char>)
    ensures
        part.len() > 0 ==> drop_prefixes(part + s, part) == drop_prefixes(s, part),
        part.len() == 0 || part.len() > s.len() || s.take(part.len() as int) != part
            ==> drop_prefixes(s, part) == s,
{
    if part.len() > 0 {
        assert((part + s).subrange(0, part.len() as int) == part);
        assert((part + s).skip(part.len() as int) == s);
    }
    if part.len() <= s.len() {
        assert(s.subrange(0, part.len() as int) == s.take(part.len() as int));
    }
}

/// Dropping a suffix drops every copy of it at the end, and nothing else.
pub proof fn law_drop_suffixes(s: Seq<char>, c: char)
    ensures
        drop_suffixes(s.push(c), c) == drop_suffixes(s, c),
        s.len() == 0 || s.last() != c ==> drop_suffixes(s, c) == s,
{
    assert(s.push(c).drop_last() == s);
}

/// Lower case changes the ASCII capitals and nothing else, character by
/// character.
pub proof fn law_lower(s: Seq<char>)
    ensures
        lower(s).len() == s.len(),
        forall|i: int|
            0 <= i < s.len() ==> (#[trigger] lower(s)[i]) as u32 == if 65 <= s[i] as u32 <= 90 {
                s[i] as u32 + 32
            } else {
                s[i] as u32 as int
            },
{
}

/// What a filter gives for one more element: one more result where it gives
/// anything, and none of the earlier ones is lost.
pub proof fn law_filter_map<A, B>(s: Seq<A>, f: spec_fn(A) -> Option<B>, a: A)
    ensures
        filter_map(Seq::<A>::empty(), f) == Seq::<B>::empty(),
        f(a) is None ==> filter_map(s.push(a), f) == filter_map(s, f),
        f(a) is Some ==> filter_map(s.push(a), f) == filter_map(s, f).push(f(a)->0),
{
    assert(s.push(a).drop_last() == s);
}

/// What one more element adds to a list of lists, one behind the other.
pub proof fn law_flat_map<A, B>(s: Seq<A>, f: spec_fn(A) -> Seq<B>, a: A)
    ensures
        flat_map(Seq::<A>::empty(), f) == Seq::<B>::empty(),
        flat_map(s.push(a), f) == flat_map(s, f) + f(a),
{
    assert(s.push(a).drop_last() == s);
}

/// The order of texts is that of a dictionary: a text comes before another
/// where it is a shorter start of it, or has the smaller character at the first
/// place where they differ.
pub proof fn law_before_is_lexicographic(a: Seq<char>, b: Seq<char>)
    ensures
        before(a, b) <==> exists|k: int|
            0 <= k <= a.len() && k < b.len() && #[trigger] a.take(k) == b.take(k) && (k == a.len()
                || a[k] < b[k]),
    decreases a.len(),
{
    if a.len() > 0 && b.len() > 0 && a[0] == b[0] {
        let x = a.skip(1);
        let y = b.skip(1);
        law_before_is_lexicographic(x, y);
        if before(x, y) {
            let k = choose|k: int|
                0 <= k <= x.len() && k < y.len() && #[trigger] x.take(k) == y.take(k) && (k
                    == x.len() || x[k] < y[k]);
            assert(a.take(k + 1) == seq![a[0]] + x.take(k));
            assert(b.take(k + 1) == seq![b[0]] + y.take(k));
            assert(a.take(k + 1) == b.take(k + 1));
        }
        if exists|k: int|
            0 <= k <= a.len() && k < b.len() && #[trigger] a.take(k) == b.take(k) && (k == a.len()
                || a[k] < b[k]) {
            let k = choose|k: int|
                0 <= k <= a.len() && k < b.len() && #[trigger] a.take(k) == b.take(k) && (k
                    == a.len() || a[k] < b[k]);
            assert(k > 0);
            assert(x.take(k - 1) == a.take(k).skip(1));
            assert(y.take(k - 1) == b.take(k).skip(1));
            assert(x.take(k - 1) == y.take(k - 1));
        }
    } else if a.len() > 0 && b.len() > 0 {
        assert(a.take(0) == b.take(0));
        if exists|k: int|
            0 <= k <= a.len() && k < b.len() && #[trigger] a.take(k) == b.take(k) && (k == a.len()
                || a[k] < b[k]) {
            let k = choose|k: int|
                0 <= k <= a.len() && k < b.len() && #[trigger] a.take(k) == b.take(k) && (k
                    == a.len() || a[k] < b[k]);
            if k > 0 {
                assert(a.take(k)[0] == a[0] && b.take(k)[0] == b[0]);
            }
        }
    } else if b.len() > 0 {
        assert(a.take(0) == b.take(0));
    }
}

/// Sorting texts without repetition gives the same texts, each before the ones
/// behind it.
pub proof fn law_sorted_texts(s: Seq<Seq<char>>)
    ensures
        forall|i: int, j: int|
            0 <= i < j < sorted_distinct(s).len() ==> before(
                #[trigger] sorted_distinct(s)[i],
                #[trigger] sorted_distinct(s)[j],
            ),
        forall|i: int| 0 <= i < s.len() ==> sorted_distinct(s).contains(#[trigger] s[i]),
        forall|i: int|
            0 <= i < sorted_distinct(s).len() ==> s.contains(#[trigger] sorted_distinct(s)[i]),
{
    law_sorted_distinct(s);
    assert forall|i: int| 0 <= i < s.len() implies sorted_distinct(s).contains(
        #[trigger] s[i],
    ) by {
        assert(s.contains(s[i]));
    }
    assert forall|i: int| 0 <= i < sorted_distinct(s).len() implies s.contains(
        #[trigger] sorted_distinct(s)[i],
    ) by {
        assert(sorted_distinct(s).contains(sorted_distinct(s)[i]));
    }
}

/// Decimal digits, one by one: appending the digit `d` makes ten times the
/// number and `d` more, both when it is written and when it is read.
pub proof fn law_decimal(n: nat, d: nat, s: Seq<char>, c: char)
    requires
        d < 10,
        '0' <= c <= '9',
    ensures
        n > 0 ==> decimal(10 * n + d) == decimal(n).push((48 + d) as char),
        decimal(d) == seq![(48 + d) as char],
        decimal_value(Seq::<char>::empty()) == 0,
        decimal_value(s.push(c)) == 10 * decimal_value(s) + (c as u32 - 48),
{
    assert(s.push(c).drop_last() == s);
    assert((10 * n + d) / 10 == n);
    assert((10 * n + d) % 10 == d);
}

/// A text is a small number exactly when it is one or more decimal digits,
/// after a plus sign or not, that stand for a number of 32 bits; and then it is
/// that number.
pub proof fn law_small_numbers(s: Seq<char>)
    ensures
        u32_value(seq!['+'] + s) == if s.len() > 0 && s[0] == '+' {
            None
        } else {
            u32_value(s)
        },
        s.len() > 0 && s[0] != '+' ==> match u32_value(s) {
            Some(n) => n == decimal_value(s) && n <= 0xffff_ffff && forall|i: int|
                0 <= i < s.len() ==> '0' <= #[trigger] s[i] <= '9',
            None => decimal_value(s) > 0xffff_ffff || exists|i: int|
                0 <= i < s.len() && !('0' <= #[trigger] s[i] <= '9'),
        },
        u32_value(Seq::<char>::empty()) is None,
{
    assert((seq!['+'] + s).skip(1) == s);
    if s.len() > 0 && s[0] == '+' {
        assert(unsigned_part(seq!['+'] + s)[0] == '+');
    }
}

/// Bytes in hexadecimal: two digits for each, the high half first.
pub proof fn law_hex(bytes: Seq<u8>, b: u8)
    ensures
        hex(Seq::<u8>::empty()) == Seq::<char>::empty(),
        hex(bytes.push(b)).len() == hex(bytes).len() + 2,
        hex(bytes.push(b)).take(hex(bytes).len() as int) == hex(bytes),
        hex(bytes.push(b))[hex(bytes).len() as int] as u32 == if b / 16 < 10 {
            48 + b / 16
        } else {
            87 + b / 16
        },
        hex(bytes.push(b))[hex(bytes).len() as int + 1] as u32 == if b % 16 < 10 {
            48 + b % 16
        } else {
            87 + b % 16
        },
{
    let more = bytes.push(b);
    let n = bytes.len() as int;
    assert(hex(bytes).len() == 2 * n);
    assert(hex(more).len() == 2 * (n + 1));
    assert forall|i: int| 0 <= i < 2 * n implies hex(more).take(2 * n)[i] == hex(bytes)[i] by {
        assert(more[i / 2] == bytes[i / 2]);
    }
    assert(hex(more).take(2 * n) == hex(bytes));
    assert((2 * n) / 2 == n && (2 * n) % 2 == 0);
    assert((2 * n + 1) / 2 == n && (2 * n + 1) % 2 == 1);
}

} // verus!
