//! Text as a sequence of characters: splitting, trimming, joining and comparing.
//!
//! Every function here has a specification over `Seq<char>` and an executable
//! counterpart proved equal to it.

use vstd::prelude::*;
use vstd::string::StringExecFns;

verus! {

// ---------------------------------------------------------------------------
// Characters
// ---------------------------------------------------------------------------

/// The characters that Unicode gives the White_Space property.
pub open spec fn is_white(c: char) -> bool {
    ||| '\u{9}' <= c <= '\u{d}'
    ||| c == ' '
    ||| c == '\u{85}'
    ||| c == '\u{a0}'
    ||| c == '\u{1680}'
    ||| '\u{2000}' <= c <= '\u{200a}'
    ||| c == '\u{2028}'
    ||| c == '\u{2029}'
    ||| c == '\u{202f}'
    ||| c == '\u{205f}'
    ||| c == '\u{3000}'
}

/// Whether `c` is white space.
pub fn white(c: char) -> (r: bool)
    ensures
        r == is_white(c),
{
    ('\u{9}' <= c && c <= '\u{d}') || c == ' ' || c == '\u{85}' || c == '\u{a0}' || c
        == '\u{1680}' || ('\u{2000}' <= c && c <= '\u{200a}') || c == '\u{2028}' || c == '\u{2029}'
        || c == '\u{202f}' || c == '\u{205f}' || c == '\u{3000}'
}

/// Appends one character: `String::push`.
///
/// The string afterwards is the string before with `c` at its end.
pub assume_specification[ String::push ](s: &mut String, c: char)
    ensures
        final(s)@ == old(s)@.push(c),
;

/// The characters of `text`, in order.
pub fn chars_of(text: &str) -> (r: Vec<char>)
    ensures
        r@ == text@,
{
    let mut out: Vec<char> = Vec::new();
    for c in it: text.chars()
        invariant
            it.seq() == text@,
            out@ == text@.take(it.index() as int),
    {
        out.push(c);
    }
    assert(out@ == text@);
    out
}

/// The string made of the characters of `chars` from `from` up to `to`.
pub fn string_of(chars: &Vec<char>, from: usize, to: usize) -> (r: String)
    requires
        from <= to <= chars@.len(),
    ensures
        r@ == chars@.subrange(from as int, to as int),
{
    let mut out = String::new();
    let mut i: usize = from;
    while i < to
        invariant
            from <= i <= to <= chars@.len(),
            out@ == chars@.subrange(from as int, i as int),
        decreases to - i,
    {
        out.push(chars[i]);
        i = i + 1;
    }
    out
}

/// Whether two texts are the same.
pub fn same(a: &str, b: &str) -> (r: bool)
    ensures
        r == (a@ == b@),
{
    let x = chars_of(a);
    let y = chars_of(b);
    if x.len() != y.len() {
        return false;
    }
    let mut i: usize = 0;
    while i < x.len()
        invariant
            i <= x@.len() == y@.len(),
            x@ == a@,
            y@ == b@,
            forall|k: int| 0 <= k < i ==> x@[k] == y@[k],
        decreases x@.len() - i,
    {
        if x[i] != y[i] {
            return false;
        }
        i = i + 1;
    }
    assert(x@ == y@);
    true
}

// ---------------------------------------------------------------------------
// Trimming
// ---------------------------------------------------------------------------

/// `s` without its leading white space.
pub open spec fn trim_start(s: Seq<char>) -> Seq<char>
    decreases s.len(),
{
    if s.len() > 0 && is_white(s[0]) {
        trim_start(s.skip(1))
    } else {
        s
    }
}

/// `s` without its trailing white space.
pub open spec fn trim_end(s: Seq<char>) -> Seq<char>
    decreases s.len(),
{
    if s.len() > 0 && is_white(s.last()) {
        trim_end(s.drop_last())
    } else {
        s
    }
}

/// `s` without the white space on either side.
pub open spec fn trim(s: Seq<char>) -> Seq<char> {
    trim_end(trim_start(s))
}

/// The first position at or after `from` that is not white space.
fn skip_white(chars: &Vec<char>, from: usize) -> (r: usize)
    requires
        from <= chars@.len(),
    ensures
        from <= r <= chars@.len(),
        trim_start(chars@.skip(from as int)) == chars@.skip(r as int),
        r < chars@.len() ==> !is_white(chars@[r as int]),
{
    let mut i: usize = from;
    while i < chars.len() && white(chars[i])
        invariant
            from <= i <= chars@.len(),
            trim_start(chars@.skip(from as int)) == trim_start(chars@.skip(i as int)),
        decreases chars@.len() - i,
    {
        assert(chars@.skip(i as int).skip(1) == chars@.skip(i + 1));
        i = i + 1;
    }
    i
}

/// `text` without the white space on either side.
pub fn trimmed(text: &str) -> (r: String)
    ensures
        r@ == trim(text@),
{
    let chars = chars_of(text);
    assert(chars@.skip(0) == chars@);
    let i = skip_white(&chars, 0);
    let mut j: usize = chars.len();
    assert(chars@.subrange(i as int, j as int) == chars@.skip(i as int));
    while j > i && white(chars[j - 1])
        invariant
            i <= j <= chars@.len(),
            chars@ == text@,
            trim(text@) == trim_end(chars@.subrange(i as int, j as int)),
        decreases j - i,
    {
        assert(chars@.subrange(i as int, j as int).drop_last() == chars@.subrange(
            i as int,
            j - 1,
        ));
        j = j - 1;
    }
    string_of(&chars, i, j)
}

/// Whether `text` holds nothing but white space.
pub fn blank(text: &str) -> (r: bool)
    ensures
        r == (trim(text@).len() == 0),
{
    trimmed(text).as_str().is_empty()
}

// ---------------------------------------------------------------------------
// Words
// ---------------------------------------------------------------------------

/// How many characters of `s` come before its first white space.
pub open spec fn word_len(s: Seq<char>) -> nat
    decreases s.len(),
{
    if s.len() == 0 || is_white(s[0]) {
        0
    } else {
        1 + word_len(s.skip(1))
    }
}

pub proof fn lemma_word_len_bound(s: Seq<char>)
    ensures
        word_len(s) <= s.len(),
    decreases s.len(),
{
    if s.len() == 0 || is_white(s[0]) {
    } else {
        lemma_word_len_bound(s.skip(1));
    }
}

pub proof fn lemma_trim_start_shorter(s: Seq<char>)
    ensures
        trim_start(s).len() <= s.len(),
        trim_start(s).len() > 0 ==> !is_white(trim_start(s)[0]),
    decreases s.len(),
{
    if s.len() > 0 && is_white(s[0]) {
        lemma_trim_start_shorter(s.skip(1));
    }
}

/// The maximal runs of characters other than white space, in order.
pub open spec fn words(s: Seq<char>) -> Seq<Seq<char>>
    decreases s.len(),
{
    let t = trim_start(s);
    if t.len() == 0 {
        Seq::empty()
    } else {
        proof {
            lemma_trim_start_shorter(s);
            lemma_word_len_bound(t);
        }
        seq![t.take(word_len(t) as int)] + words(t.skip(word_len(t) as int))
    }
}

/// The views of a list of strings.
pub open spec fn views(v: Seq<String>) -> Seq<Seq<char>> {
    v.map_values(|s: String| s@)
}

/// The words of `text`, in order.
pub fn words_of(text: &str) -> (r: Vec<String>)
    ensures
        views(r@) == words(text@),
{
    let chars = chars_of(text);
    let mut out: Vec<String> = Vec::new();
    assert(chars@.skip(0) == chars@);
    assert(views(out@) + words(chars@.skip(0)) == words(text@));
    let mut i = skip_white(&chars, 0);
    assert(trim_start(chars@.skip(i as int)) == chars@.skip(i as int));
    while i < chars.len()
        invariant
            i <= chars@.len(),
            i < chars@.len() ==> !is_white(chars@[i as int]),
            views(out@) + words(chars@.skip(i as int)) == words(text@),
        decreases chars@.len() - i,
    {
        let ghost rest = chars@.skip(i as int);
        let mut j: usize = i;
        while j < chars.len() && !white(chars[j])
            invariant
                i <= j <= chars@.len(),
                word_len(chars@.skip(i as int)) == (j - i) + word_len(chars@.skip(j as int)),
            decreases chars@.len() - j,
        {
            assert(chars@.skip(j as int).skip(1) == chars@.skip(j + 1));
            j = j + 1;
        }
        assert(word_len(rest) == j - i);
        let word = string_of(&chars, i, j);
        let ghost before = views(out@);
        out.push(word);
        assert(views(out@) == before.push(word@));
        assert(trim_start(rest) == rest);
        assert(rest.take(j - i) == word@);
        assert(rest.skip(j - i) == chars@.skip(j as int));
        assert(words(rest) == seq![word@] + words(chars@.skip(j as int)));
        assert(views(out@) + words(chars@.skip(j as int)) == words(text@));
        let k = skip_white(&chars, j);
        assert(trim_start(chars@.skip(k as int)) == chars@.skip(k as int));
        assert(words(chars@.skip(j as int)) == words(chars@.skip(k as int)));
        i = k;
    }
    assert(words(chars@.skip(i as int)) == Seq::<Seq<char>>::empty());
    out
}

/// Whether `w` is a word: not empty, and without white space.
pub open spec fn is_word(w: Seq<char>) -> bool {
    w.len() > 0 && forall|i: int| 0 <= i < w.len() ==> !is_white(#[trigger] w[i])
}

proof fn lemma_word_len(s: Seq<char>)
    ensures
        word_len(s) <= s.len(),
        forall|i: int| 0 <= i < word_len(s) ==> !is_white(#[trigger] s[i]),
        word_len(s) < s.len() ==> is_white(s[word_len(s) as int]),
    decreases s.len(),
{
    if s.len() == 0 || is_white(s[0]) {
    } else {
        let rest = s.skip(1);
        lemma_word_len(rest);
        assert forall|i: int| 0 <= i < word_len(s) implies !is_white(#[trigger] s[i]) by {
            if i > 0 {
                assert(rest[i - 1] == s[i]);
            }
        }
    }
}

proof fn lemma_word_len_is(s: Seq<char>, n: int)
    requires
        0 <= n <= s.len(),
        forall|i: int| 0 <= i < n ==> !is_white(#[trigger] s[i]),
        n < s.len() ==> is_white(s[n]),
    ensures
        word_len(s) == n,
{
    lemma_word_len(s);
    if word_len(s) < n {
        assert(is_white(s[word_len(s) as int]));
    }
    if n < word_len(s) {
        assert(!is_white(s[n]));
    }
}

/// The words of two texts, where white space parts them.
pub proof fn lemma_words_concat(a: Seq<char>, b: Seq<char>)
    requires
        b.len() > 0,
        is_white(b[0]),
    ensures
        words(a + b) == words(a) + words(b),
    decreases a.len(),
{
    if a.len() == 0 {
        assert(a + b == b);
        assert(words(a) == Seq::<Seq<char>>::empty());
        assert(words(a) + words(b) == words(b));
    } else if is_white(a[0]) {
        lemma_words_concat(a.skip(1), b);
        assert((a + b).skip(1) == a.skip(1) + b);
        assert(trim_start(a) == trim_start(a.skip(1)));
        assert(trim_start(a + b) == trim_start((a + b).skip(1)));
        assert(words(a) == words(a.skip(1)));
        assert(words(a + b) == words(a.skip(1) + b));
    } else {
        lemma_word_len(a);
        let n = word_len(a) as int;
        assert forall|i: int| 0 <= i < n implies !is_white(#[trigger] (a + b)[i]) by {
            assert((a + b)[i] == a[i]);
        }
        lemma_word_len_is(a + b, n);
        assert((a + b).take(n) == a.take(n));
        assert((a + b).skip(n) == a.skip(n) + b);
        lemma_words_concat(a.skip(n), b);
        assert(trim_start(a) == a);
        assert(trim_start(a + b) == a + b);
        assert(words(a) == seq![a.take(n)] + words(a.skip(n)));
        assert(words(a + b) == seq![a.take(n)] + words(a.skip(n) + b));
        assert(words(a + b) == words(a) + words(b));
    }
}

/// A word is its own only word.
pub proof fn lemma_words_of_word(w: Seq<char>)
    requires
        is_word(w),
    ensures
        words(w) == seq![w],
{
    lemma_word_len_is(w, w.len() as int);
    assert(!is_white(w[0]));
    assert(trim_start(w) == w);
    assert(w.take(w.len() as int) == w);
    let none = w.skip(w.len() as int);
    assert(none.len() == 0);
    assert(words(none) == Seq::<Seq<char>>::empty());
    assert(words(w) == seq![w]);
}

/// Each of the words of a text is a word.
pub proof fn lemma_words_are_words(s: Seq<char>)
    ensures
        forall|i: int| 0 <= i < words(s).len() ==> is_word(#[trigger] words(s)[i]),
    decreases s.len(),
{
    let t = trim_start(s);
    lemma_trim_start_shorter(s);
    if t.len() > 0 {
        lemma_word_len(t);
        let n = word_len(t) as int;
        let rest = t.skip(n);
        lemma_words_are_words(rest);
        assert forall|i: int| 0 <= i < words(s).len() implies is_word(#[trigger] words(s)[i]) by {
            if i == 0 {
                let w = t.take(n);
                assert forall|k: int| 0 <= k < w.len() implies !is_white(#[trigger] w[k]) by {
                    assert(w[k] == t[k]);
                }
                assert(words(s)[0] == w);
            } else {
                assert(words(s)[i] == words(rest)[i - 1]);
            }
        }
    }
}

/// Joining words by single spaces and taking the words again changes nothing.
pub proof fn lemma_words_of_joined(ws: Seq<Seq<char>>)
    requires
        forall|i: int| 0 <= i < ws.len() ==> is_word(#[trigger] ws[i]),
    ensures
        words(join(ws, seq![' '])) == ws,
    decreases ws.len(),
{
    if ws.len() == 0 {
        assert(words(join(ws, seq![' '])) == ws);
    } else if ws.len() == 1 {
        lemma_words_of_word(ws[0]);
        assert(seq![ws[0]] == ws);
    } else {
        let init = ws.drop_last();
        let w = ws.last();
        assert forall|i: int| 0 <= i < init.len() implies is_word(#[trigger] init[i]) by {
            assert(init[i] == ws[i]);
        }
        lemma_words_of_joined(init);
        let head = join(init, seq![' ']);
        let tail = seq![' '] + w;
        assert(join(ws, seq![' ']) == head + tail);
        lemma_words_concat(head, tail);
        assert(is_word(ws[ws.len() - 1]));
        assert(tail.skip(1) == w);
        assert(trim_start(tail) == trim_start(w));
        assert(words(tail) == words(w));
        lemma_words_of_word(w);
        assert(init + seq![w] == ws);
    }
}

// ---------------------------------------------------------------------------
// Joining
// ---------------------------------------------------------------------------

/// The pieces one after the other with `sep` between neighbours.
pub open spec fn join(pieces: Seq<Seq<char>>, sep: Seq<char>) -> Seq<char>
    decreases pieces.len(),
{
    if pieces.len() == 0 {
        Seq::empty()
    } else if pieces.len() == 1 {
        pieces[0]
    } else {
        join(pieces.drop_last(), sep) + sep + pieces.last()
    }
}

/// `pieces` joined by `sep`.
pub fn joined(pieces: &Vec<String>, sep: &str) -> (r: String)
    ensures
        r@ == join(views(pieces@), sep@),
{
    let mut out = String::new();
    let mut i: usize = 0;
    let ghost all = views(pieces@);
    while i < pieces.len()
        invariant
            i <= pieces@.len(),
            all == views(pieces@),
            out@ == join(all.take(i as int), sep@),
        decreases pieces@.len() - i,
    {
        if i > 0 {
            out.append(sep);
        }
        out.append(pieces[i].as_str());
        assert(all.take(i + 1).drop_last() == all.take(i as int));
        assert(all.take(i + 1).last() == pieces@[i as int]@);
        i = i + 1;
    }
    assert(all.take(i as int) == all);
    out
}

// ---------------------------------------------------------------------------
// Splitting
// ---------------------------------------------------------------------------

/// The first position of `c` in `s`, or the length of `s` if it is not there.
pub open spec fn find(s: Seq<char>, c: char) -> nat
    decreases s.len(),
{
    if s.len() == 0 || s[0] == c {
        0
    } else {
        1 + find(s.skip(1), c)
    }
}

pub proof fn lemma_find(s: Seq<char>, c: char)
    ensures
        find(s, c) <= s.len(),
        find(s, c) < s.len() ==> s[find(s, c) as int] == c,
        forall|k: int| 0 <= k < find(s, c) ==> s[k] != c,
    decreases s.len(),
{
    if s.len() == 0 || s[0] == c {
    } else {
        lemma_find(s.skip(1), c);
        assert forall|k: int| 0 <= k < find(s, c) implies s[k] != c by {
            if k > 0 {
                assert(s.skip(1)[k - 1] == s[k]);
            }
        }
    }
}

/// The first position of `c` at or after `from`.
fn find_from(chars: &Vec<char>, from: usize, c: char) -> (r: usize)
    requires
        from <= chars@.len(),
    ensures
        from <= r <= chars@.len(),
        r - from == find(chars@.skip(from as int), c),
{
    let mut i: usize = from;
    while i < chars.len() && chars[i] != c
        invariant
            from <= i <= chars@.len(),
            find(chars@.skip(from as int), c) == (i - from) + find(chars@.skip(i as int), c),
        decreases chars@.len() - i,
    {
        assert(chars@.skip(i as int).skip(1) == chars@.skip(i + 1));
        i = i + 1;
    }
    i
}

/// The pieces of `s` between the occurrences of `c`: one more than there are
/// occurrences, and empty where two of them meet.
pub open spec fn split(s: Seq<char>, c: char) -> Seq<Seq<char>>
    decreases s.len(),
{
    let n = find(s, c);
    if n >= s.len() {
        seq![s]
    } else {
        seq![s.take(n as int)] + split(s.skip(n as int + 1), c)
    }
}

/// The pieces of `text` between the occurrences of `c`.
pub fn split_at_char(text: &str, c: char) -> (r: Vec<String>)
    ensures
        views(r@) == split(text@, c),
{
    let chars = chars_of(text);
    let mut out: Vec<String> = Vec::new();
    let mut i: usize = 0;
    assert(chars@.skip(0) == chars@);
    assert(views(out@) + split(chars@.skip(0), c) == split(text@, c));
    loop
        invariant_except_break
            i <= chars@.len(),
            views(out@) + split(chars@.skip(i as int), c) == split(text@, c),
        ensures
            views(out@) == split(text@, c),
        decreases chars@.len() - i,
    {
        let ghost rest = chars@.skip(i as int);
        let ghost before = views(out@);
        let j = find_from(&chars, i, c);
        let piece = string_of(&chars, i, j);
        out.push(piece);
        assert(views(out@) == before.push(piece@));
        if j >= chars.len() {
            assert(piece@ == rest);
            break;
        }
        assert(piece@ == rest.take(j - i));
        assert(rest.skip(j - i + 1) == chars@.skip(j + 1));
        i = j + 1;
    }
    out
}

/// A line without the carriage return before its line feed.
pub open spec fn chop_return(line: Seq<char>) -> Seq<char> {
    if line.len() > 0 && line.last() == '\r' {
        line.drop_last()
    } else {
        line
    }
}

/// The lines of `s`. A line ends at a line feed, which is dropped with the
/// carriage return before it; what follows the last line feed is a line when
/// it is not empty.
pub open spec fn lines(s: Seq<char>) -> Seq<Seq<char>>
    decreases s.len(),
{
    let n = find(s, '\n');
    if s.len() == 0 {
        Seq::empty()
    } else if n >= s.len() {
        seq![s]
    } else {
        seq![chop_return(s.take(n as int))] + lines(s.skip(n as int + 1))
    }
}

/// The lines of `text`, in order.
pub fn lines_of(text: &str) -> (r: Vec<String>)
    ensures
        views(r@) == lines(text@),
{
    let chars = chars_of(text);
    let mut out: Vec<String> = Vec::new();
    let mut i: usize = 0;
    assert(chars@.skip(0) == chars@);
    assert(views(out@) + lines(chars@.skip(0)) == lines(text@));
    while i < chars.len()
        invariant
            i <= chars@.len(),
            views(out@) + lines(chars@.skip(i as int)) == lines(text@),
        decreases chars@.len() - i,
    {
        let ghost rest = chars@.skip(i as int);
        let ghost before = views(out@);
        let j = find_from(&chars, i, '\n');
        if j >= chars.len() {
            let piece = string_of(&chars, i, j);
            out.push(piece);
            assert(views(out@) == before.push(piece@));
            assert(piece@ == rest);
            assert(lines(rest) == seq![rest]);
            assert(lines(chars@.skip(j as int)) == Seq::<Seq<char>>::empty());
            i = j;
        } else {
            let end: usize = if j > i && chars[j - 1] == '\r' {
                j - 1
            } else {
                j
            };
            let piece = string_of(&chars, i, end);
            out.push(piece);
            assert(views(out@) == before.push(piece@));
            assert(piece@ == chop_return(rest.take(j - i)));
            assert(rest.skip(j - i + 1) == chars@.skip(j + 1));
            i = j + 1;
        }
    }
    assert(lines(chars@.skip(i as int)) == Seq::<Seq<char>>::empty());
    out
}

// ---------------------------------------------------------------------------
// Searching
// ---------------------------------------------------------------------------

/// Whether `part` stands in `s` at position `at`.
pub open spec fn occurs_at(s: Seq<char>, part: Seq<char>, at: int) -> bool {
    0 <= at && at + part.len() <= s.len() && s.subrange(at, at + part.len()) == part
}

/// Whether `part` stands somewhere in `s`.
pub open spec fn has_part(s: Seq<char>, part: Seq<char>) -> bool {
    exists|at: int| occurs_at(s, part, at)
}

/// Whether `s` starts with `part`.
pub open spec fn has_prefix(s: Seq<char>, part: Seq<char>) -> bool {
    occurs_at(s, part, 0)
}

/// Whether `part` stands in `chars` at position `at`.
fn found_at(chars: &Vec<char>, part: &Vec<char>, at: usize) -> (r: bool)
    requires
        at <= chars@.len(),
    ensures
        r == occurs_at(chars@, part@, at as int),
{
    let n: usize = chars.len();
    if part.len() > n - at {
        return false;
    }
    let mut k: usize = 0;
    while k < part.len()
        invariant
            k <= part@.len(),
            n == chars@.len(),
            at + part@.len() <= chars@.len(),
            forall|m: int| 0 <= m < k ==> chars@[at + m] == part@[m],
        decreases part@.len() - k,
    {
        if chars[at + k] != part[k] {
            assert(chars@.subrange(at as int, at + part@.len())[k as int] != part@[k as int]);
            return false;
        }
        k = k + 1;
    }
    assert(chars@.subrange(at as int, at + part@.len()) == part@);
    true
}

/// The first position of `part` in `chars`.
fn first_occurrence(chars: &Vec<char>, part: &Vec<char>) -> (r: Option<usize>)
    ensures
        match r {
            Some(at) => occurs_at(chars@, part@, at as int) && (forall|k: int|
                0 <= k < at ==> !occurs_at(chars@, part@, k)),
            None => !has_part(chars@, part@),
        },
{
    let mut at: usize = 0;
    loop
        invariant
            at <= chars@.len(),
            forall|k: int| 0 <= k < at ==> !occurs_at(chars@, part@, k),
        decreases chars@.len() - at,
    {
        if found_at(chars, part, at) {
            return Some(at);
        }
        if at == chars.len() {
            return None;
        }
        at = at + 1;
    }
}

/// Whether `part` stands somewhere in `text`.
pub fn contains(text: &str, part: &str) -> (r: bool)
    ensures
        r == has_part(text@, part@),
{
    let chars = chars_of(text);
    let wanted = chars_of(part);
    match first_occurrence(&chars, &wanted) {
        Some(_) => true,
        None => false,
    }
}

/// Whether `text` starts with `part`.
pub fn starts_with(text: &str, part: &str) -> (r: bool)
    ensures
        r == has_prefix(text@, part@),
{
    let chars = chars_of(text);
    let wanted = chars_of(part);
    found_at(&chars, &wanted, 0)
}

/// Where `part` first stands in `s`.
pub open spec fn first_at(s: Seq<char>, part: Seq<char>) -> int
    recommends
        has_part(s, part),
{
    choose|at: int|
        occurs_at(s, part, at) && (forall|k: int| 0 <= k < at ==> !occurs_at(s, part, k))
}

/// What comes before the first `part` in `s` and what comes after it.
pub open spec fn split_once(s: Seq<char>, part: Seq<char>) -> Option<(Seq<char>, Seq<char>)> {
    if has_part(s, part) {
        let at = first_at(s, part);
        Some((s.take(at), s.skip(at + part.len())))
    } else {
        None
    }
}

pub proof fn lemma_first_at(s: Seq<char>, part: Seq<char>, at: int)
    requires
        occurs_at(s, part, at),
        forall|k: int| 0 <= k < at ==> !occurs_at(s, part, k),
    ensures
        has_part(s, part),
        first_at(s, part) == at,
{
    let other = first_at(s, part);
    assert(occurs_at(s, part, other) && (forall|k: int|
        0 <= k < other ==> !occurs_at(s, part, k)));
    if other < at {
        assert(!occurs_at(s, part, other));
    }
    if at < other {
        assert(!occurs_at(s, part, at));
    }
}

/// What comes before the first `part` in `text` and what comes after it.
pub fn cut_once(text: &str, part: &str) -> (r: Option<(String, String)>)
    ensures
        match r {
            Some(p) => split_once(text@, part@) == Some((p.0@, p.1@)),
            None => split_once(text@, part@) is None,
        },
{
    let chars = chars_of(text);
    let wanted = chars_of(part);
    match first_occurrence(&chars, &wanted) {
        Some(at) => {
            proof {
                lemma_first_at(chars@, wanted@, at as int);
            }
            let n: usize = chars.len();
            let before = string_of(&chars, 0, at);
            let after = string_of(&chars, at + wanted.len(), n);
            assert(before@ == chars@.take(at as int));
            assert(after@ == chars@.skip(at + wanted@.len()));
            Some((before, after))
        },
        None => None,
    }
}

// ---------------------------------------------------------------------------
// Repeated affixes
// ---------------------------------------------------------------------------

/// `s` without the copies of `part` at its start.
pub open spec fn drop_prefixes(s: Seq<char>, part: Seq<char>) -> Seq<char>
    decreases s.len(),
{
    if part.len() > 0 && has_prefix(s, part) {
        drop_prefixes(s.skip(part.len() as int), part)
    } else {
        s
    }
}

/// `s` without the copies of `c` at its end.
pub open spec fn drop_suffixes(s: Seq<char>, c: char) -> Seq<char>
    decreases s.len(),
{
    if s.len() > 0 && s.last() == c {
        drop_suffixes(s.drop_last(), c)
    } else {
        s
    }
}

/// `text` without the copies of `part` at its start and of `c` at its end.
pub fn strip_affixes(text: &str, part: &str, c: char) -> (r: String)
    ensures
        r@ == drop_suffixes(drop_prefixes(text@, part@), c),
{
    let chars = chars_of(text);
    let wanted = chars_of(part);
    let n: usize = chars.len();
    let mut i: usize = 0;
    assert(chars@.skip(0) == chars@);
    while wanted.len() > 0 && found_at(&chars, &wanted, i)
        invariant
            i <= chars@.len() == n,
            chars@ == text@,
            wanted@ == part@,
            drop_prefixes(text@, part@) == drop_prefixes(chars@.skip(i as int), part@),
        decreases chars@.len() - i,
    {
        let ghost rest = chars@.skip(i as int);
        assert(rest.subrange(0, wanted@.len() as int) == chars@.subrange(
            i as int,
            i + wanted@.len(),
        ));
        assert(rest.skip(wanted@.len() as int) == chars@.skip(i + wanted@.len()));
        i = i + wanted.len();
    }
    let ghost rest = chars@.skip(i as int);
    assert(part@.len() > 0 && has_prefix(rest, part@) ==> occurs_at(chars@, part@, i as int)) by {
        if part@.len() > 0 && has_prefix(rest, part@) {
            assert(rest.subrange(0, part@.len() as int) == chars@.subrange(
                i as int,
                i + part@.len(),
            ));
        }
    }
    assert(drop_prefixes(text@, part@) == rest);
    let mut j: usize = chars.len();
    assert(chars@.subrange(i as int, j as int) == rest);
    while j > i && chars[j - 1] == c
        invariant
            i <= j <= chars@.len(),
            drop_suffixes(rest, c) == drop_suffixes(chars@.subrange(i as int, j as int), c),
        decreases j - i,
    {
        assert(chars@.subrange(i as int, j as int).drop_last() == chars@.subrange(
            i as int,
            j - 1,
        ));
        j = j - 1;
    }
    string_of(&chars, i, j)
}

// ---------------------------------------------------------------------------
// Case
// ---------------------------------------------------------------------------

/// `c` in lower case where it is an ASCII capital, else `c`.
pub open spec fn lower_char(c: char) -> char {
    if 'A' <= c <= 'Z' {
        (c as u32 + 32) as char
    } else {
        c
    }
}

/// `s` with each ASCII capital in lower case.
pub open spec fn lower(s: Seq<char>) -> Seq<char> {
    s.map_values(|c: char| lower_char(c))
}

/// `text` with each ASCII capital in lower case.
pub fn lowered(text: &str) -> (r: String)
    ensures
        r@ == lower(text@),
{
    let chars = chars_of(text);
    let mut out = String::new();
    let mut i: usize = 0;
    while i < chars.len()
        invariant
            i <= chars@.len(),
            chars@ == text@,
            out@ == lower(text@).take(i as int),
        decreases chars@.len() - i,
    {
        let c = chars[i];
        let d: char = if 'A' <= c && c <= 'Z' {
            ((c as u8) + 32) as char
        } else {
            c
        };
        assert(d == lower_char(c));
        out.push(d);
        assert(lower(text@).take(i + 1) == lower(text@).take(i as int).push(d));
        i = i + 1;
    }
    assert(lower(text@).take(i as int) == lower(text@));
    out
}

} // verus!
