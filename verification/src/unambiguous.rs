//! The compact text of a JSON value determines the value.

use vstd::prelude::*;

use crate::digits::{decimal, is_digit, law_decimal_reads_back, lemma_hex_char, signed_decimal};
use crate::json::{
    compact, compact_items, compact_members, escaped, quoted, JsonView, NumberView,
};
use crate::lists::flat_map;
use crate::text::join;

verus! {

/// The characters that numbers are written with.
pub open spec fn number_char(c: char) -> bool {
    is_digit(c) || c == '-' || c == '+' || c == '.' || c == 'e' || c == 'E'
}

/// Whether every character of `s` belongs to a number.
pub open spec fn all_number_chars(s: Seq<char>) -> bool {
    forall|i: int| 0 <= i < s.len() ==> number_char(#[trigger] s[i])
}

/// Whether `s` starts like a number: with a digit or a minus sign.
pub open spec fn starts_number(s: Seq<char>) -> bool {
    s.len() > 0 && (is_digit(s[0]) || s[0] == '-')
}

/// Whether `t` writes a number that is not written as a whole number.
pub open spec fn fraction_text(t: Seq<char>) -> bool {
    &&& starts_number(t)
    &&& all_number_chars(t)
    &&& t.contains('.') || t.contains('e') || t.contains('E')
}

/// Whether the numbers of a value that are not whole are written as numbers.
pub open spec fn numbers_written(v: JsonView) -> bool
    decreases v,
{
    match v {
        JsonView::Number(NumberView::Fraction(t)) => fraction_text(t),
        JsonView::Array(items) => forall|i: int|
            0 <= i < items.len() ==> numbers_written(#[trigger] items[i]),
        JsonView::Object(members) => forall|i: int|
            0 <= i < members.len() ==> numbers_written((#[trigger] members[i]).1),
        _ => true,
    }
}

/// Whether `s` is empty or starts with a character that ends a value.
pub open spec fn ends_value(s: Seq<char>) -> bool {
    s.len() == 0 || s[0] == ',' || s[0] == ']' || s[0] == '}'
}

proof fn lemma_same_start(a: Seq<char>, x: Seq<char>, b: Seq<char>, y: Seq<char>)
    requires
        a + x == b + y,
        a.len() == b.len(),
    ensures
        a == b,
        x == y,
{
    assert((a + x).take(a.len() as int) == a);
    assert((b + y).take(b.len() as int) == b);
    assert((a + x).skip(a.len() as int) == x);
    assert((b + y).skip(b.len() as int) == y);
}

/// Two numbers in front of what ends a value are written alike only where
/// they have the same characters.
proof fn lemma_number_runs(a: Seq<char>, x: Seq<char>, b: Seq<char>, y: Seq<char>)
    requires
        a + x == b + y,
        all_number_chars(a),
        all_number_chars(b),
        ends_value(x),
        ends_value(y),
    ensures
        a == b,
        x == y,
{
    if a.len() < b.len() {
        assert((a + x)[a.len() as int] == x[0]);
        assert((b + y)[a.len() as int] == b[a.len() as int]);
        assert(number_char(b[a.len() as int]));
    }
    if b.len() < a.len() {
        assert((b + y)[b.len() as int] == y[0]);
        assert((a + x)[b.len() as int] == a[b.len() as int]);
        assert(number_char(a[b.len() as int]));
    }
    lemma_same_start(a, x, b, y);
}

proof fn lemma_signed_decimal(n: int)
    ensures
        starts_number(signed_decimal(n)),
        forall|i: int|
            0 <= i < signed_decimal(n).len() ==> is_digit(#[trigger] signed_decimal(n)[i])
                || signed_decimal(n)[i] == '-',
{
    if n < 0 {
        let d = decimal((-n) as nat);
        law_decimal_reads_back((-n) as nat);
        assert forall|i: int| 0 <= i < signed_decimal(n).len() implies is_digit(
            #[trigger] signed_decimal(n)[i],
        ) || signed_decimal(n)[i] == '-' by {
            if i > 0 {
                assert(signed_decimal(n)[i] == d[i - 1]);
            }
        }
    } else {
        law_decimal_reads_back(n as nat);
        assert(is_digit(decimal(n as nat)[0]));
    }
}

/// Two whole numbers that are written alike are the same.
pub proof fn law_signed_decimal_tells_apart(n: int, m: int)
    requires
        signed_decimal(n) == signed_decimal(m),
    ensures
        n == m,
{
    let p = decimal(if n < 0 { (-n) as nat } else { n as nat });
    let q = decimal(if m < 0 { (-m) as nat } else { m as nat });
    law_decimal_reads_back(if n < 0 { (-n) as nat } else { n as nat });
    law_decimal_reads_back(if m < 0 { (-m) as nat } else { m as nat });
    if n < 0 {
        assert(signed_decimal(n)[0] == '-');
        assert(signed_decimal(n).skip(1) == p);
    } else {
        assert(is_digit(p[0]));
    }
    if m < 0 {
        assert(signed_decimal(m)[0] == '-');
        assert(signed_decimal(m).skip(1) == q);
    } else {
        assert(is_digit(q[0]));
    }
}

/// The text of a number, whole or not.
spec fn number_text(n: NumberView) -> Seq<char> {
    match n {
        NumberView::Whole(k) => signed_decimal(k),
        NumberView::Fraction(t) => t,
    }
}

spec fn number_written(n: NumberView) -> bool {
    match n {
        NumberView::Whole(_) => true,
        NumberView::Fraction(t) => fraction_text(t),
    }
}

proof fn lemma_number_text(n: NumberView)
    requires
        number_written(n),
    ensures
        starts_number(number_text(n)),
        all_number_chars(number_text(n)),
{
    if let NumberView::Whole(k) = n {
        lemma_signed_decimal(k);
    }
}

proof fn lemma_whole_is_no_fraction(k: int, t: Seq<char>)
    requires
        fraction_text(t),
    ensures
        signed_decimal(k) != t,
{
    lemma_signed_decimal(k);
    if signed_decimal(k) == t {
        let c = if t.contains('.') {
            '.'
        } else if t.contains('e') {
            'e'
        } else {
            'E'
        };
        let i = choose|i: int| 0 <= i < t.len() && t[i] == c;
        assert(is_digit(signed_decimal(k)[i]) || signed_decimal(k)[i] == '-');
    }
}

proof fn lemma_numbers(n: NumberView, x: Seq<char>, m: NumberView, y: Seq<char>)
    requires
        number_text(n) + x == number_text(m) + y,
        number_written(n),
        number_written(m),
        ends_value(x),
        ends_value(y),
    ensures
        n == m,
        x == y,
{
    lemma_number_text(n);
    lemma_number_text(m);
    lemma_number_runs(number_text(n), x, number_text(m), y);
    match (n, m) {
        (NumberView::Whole(k), NumberView::Whole(l)) => {
            law_signed_decimal_tells_apart(k, l);
        },
        (NumberView::Whole(k), NumberView::Fraction(t)) => {
            lemma_whole_is_no_fraction(k, t);
        },
        (NumberView::Fraction(t), NumberView::Whole(k)) => {
            lemma_whole_is_no_fraction(k, t);
        },
        _ => {},
    }
}

/// What comes first in a list of pieces one behind the other.
proof fn lemma_flat_map_head(s: Seq<char>)
    requires
        s.len() > 0,
    ensures
        flat_map(s, escaped()) == escaped()(s[0]) + flat_map(s.skip(1), escaped()),
    decreases s.len(),
{
    let f = escaped();
    if s.len() == 1 {
        assert(s.drop_last() == Seq::<char>::empty());
        assert(s.skip(1) == Seq::<char>::empty());
        assert(flat_map(s.drop_last(), f) == Seq::<char>::empty());
        assert(flat_map(s.skip(1), f) == Seq::<char>::empty());
        assert(flat_map(s, f) == f(s[0]));
        assert(f(s[0]) + flat_map(s.skip(1), f) == f(s[0]));
    } else {
        let init = s.drop_last();
        lemma_flat_map_head(init);
        assert(init.skip(1) == s.skip(1).drop_last());
        assert(s.skip(1).last() == s.last());
        assert(flat_map(s.skip(1), f) == flat_map(init.skip(1), f) + f(s.last()));
        assert(flat_map(s, f) == f(s[0]) + flat_map(init.skip(1), f) + f(s.last()));
        assert(flat_map(s, f) == f(s[0]) + flat_map(s.skip(1), f));
    }
}

/// No escaped character starts with a quote, and none is the start of another.
proof fn lemma_escapes(c: char, x: Seq<char>, d: char, y: Seq<char>)
    requires
        escaped()(c) + x == escaped()(d) + y,
    ensures
        c == d,
        x == y,
{
    let a = escaped()(c);
    let b = escaped()(d);
    let s = a + x;
    assert(s[0] == a[0]);
    assert((b + y)[0] == b[0]);
    if a.len() > 1 && b.len() > 1 {
        assert(s[1] == a[1]);
        assert((b + y)[1] == b[1]);
        assert(a[1] == b[1]);
        if a.len() == 6 {
            assert(b.len() == 6);
            assert(s[4] == a[4] && (b + y)[4] == b[4]);
            assert(s[5] == a[5] && (b + y)[5] == b[5]);
            lemma_hex_char(c as int / 16, d as int / 16);
            lemma_hex_char(c as int % 16, d as int % 16);
        }
    }
    assert(c == d);
    lemma_same_start(a, x, b, y);
}

/// String literals are told apart by what they hold, whatever follows them.
proof fn lemma_literal_bodies(s: Seq<char>, x: Seq<char>, t: Seq<char>, y: Seq<char>)
    requires
        flat_map(s, escaped()) + seq!['"'] + x == flat_map(t, escaped()) + seq!['"'] + y,
    ensures
        s == t,
        x == y,
    decreases s.len() + t.len(),
{
    let f = escaped();
    let p = flat_map(s, f) + seq!['"'] + x;
    let q = flat_map(t, f) + seq!['"'] + y;
    if s.len() > 0 {
        lemma_flat_map_head(s);
        let rest = flat_map(s.skip(1), f) + seq!['"'] + x;
        assert(p == f(s[0]) + rest);
        if t.len() > 0 {
            lemma_flat_map_head(t);
            let other = flat_map(t.skip(1), f) + seq!['"'] + y;
            assert(q == f(t[0]) + other);
            lemma_escapes(s[0], rest, t[0], other);
            lemma_literal_bodies(s.skip(1), x, t.skip(1), y);
            assert(s == seq![s[0]] + s.skip(1));
            assert(t == seq![t[0]] + t.skip(1));
        } else {
            assert(flat_map(t, f) == Seq::<char>::empty());
            assert(q[0] == '"');
            assert(p[0] == f(s[0])[0]);
        }
    } else {
        assert(flat_map(s, f) == Seq::<char>::empty());
        assert(p[0] == '"');
        if t.len() > 0 {
            lemma_flat_map_head(t);
            let other = flat_map(t.skip(1), f) + seq!['"'] + y;
            assert(q == f(t[0]) + other);
            assert(q[0] == f(t[0])[0]);
        } else {
            assert(flat_map(t, f) == Seq::<char>::empty());
            assert(s == t);
            assert(p.skip(1) == x);
            assert(q.skip(1) == y);
        }
    }
}

/// String literals are told apart by what they hold, whatever follows them.
pub proof fn law_literals_are_unambiguous(s: Seq<char>, x: Seq<char>, t: Seq<char>, y: Seq<char>)
    requires
        quoted(s) + x == quoted(t) + y,
    ensures
        s == t,
        x == y,
{
    let p = flat_map(s, escaped()) + seq!['"'] + x;
    let q = flat_map(t, escaped()) + seq!['"'] + y;
    assert((quoted(s) + x).skip(1) == p);
    assert((quoted(t) + y).skip(1) == q);
    lemma_literal_bodies(s, x, t, y);
}

/// What comes first among pieces that are joined.
proof fn lemma_join_head(pieces: Seq<Seq<char>>, sep: Seq<char>)
    requires
        pieces.len() > 1,
    ensures
        join(pieces, sep) == pieces[0] + sep + join(pieces.skip(1), sep),
    decreases pieces.len(),
{
    if pieces.len() == 2 {
        assert(pieces.drop_last()[0] == pieces[0]);
        assert(join(pieces.drop_last(), sep) == pieces[0]);
        assert(pieces.skip(1)[0] == pieces[1]);
        assert(join(pieces.skip(1), sep) == pieces[1]);
    } else {
        let init = pieces.drop_last();
        lemma_join_head(init, sep);
        let rest = pieces.skip(1);
        assert(rest.drop_last() == init.skip(1));
        assert(rest.last() == pieces.last());
        assert(join(rest, sep) == join(init.skip(1), sep) + sep + pieces.last());
        assert(join(pieces, sep) == (pieces[0] + sep + join(init.skip(1), sep)) + sep
            + pieces.last());
        assert(join(pieces, sep) == pieces[0] + sep + join(rest, sep));
    }
}

/// What stands behind the first of some pieces that are joined by commas and
/// closed.
spec fn behind_first(pieces: Seq<Seq<char>>, close: char, x: Seq<char>) -> Seq<char> {
    if pieces.len() > 1 {
        seq![','] + (join(pieces.skip(1), seq![',']) + seq![close] + x)
    } else {
        seq![close] + x
    }
}

proof fn lemma_behind_first(pieces: Seq<Seq<char>>, close: char, x: Seq<char>)
    requires
        pieces.len() > 0,
    ensures
        join(pieces, seq![',']) + seq![close] + x == pieces[0] + behind_first(pieces, close, x),
{
    let sep = seq![','];
    let all = join(pieces, sep) + seq![close] + x;
    if pieces.len() > 1 {
        lemma_join_head(pieces, sep);
        let tail = join(pieces.skip(1), sep) + seq![close] + x;
        assert(all == pieces[0] + (sep + tail));
    } else {
        assert(all == pieces[0] + (seq![close] + x));
    }
}

/// The first character of the text of a value says what kind of value it is.
proof fn lemma_first_char(v: JsonView)
    requires
        numbers_written(v),
    ensures
        compact(v).len() > 0,
        match v {
            JsonView::Null => compact(v)[0] == 'n',
            JsonView::Bool(b) => compact(v)[0] == if b {
                't'
            } else {
                'f'
            },
            JsonView::Number(n) => starts_number(compact(v)),
            JsonView::Text(_) => compact(v)[0] == '"',
            JsonView::Array(_) => compact(v)[0] == '[',
            JsonView::Object(_) => compact(v)[0] == '{',
        },
{
    reveal_strlit("null");
    reveal_strlit("true");
    reveal_strlit("false");
    if let JsonView::Number(n) = v {
        lemma_number_text(n);
    }
}

/// Values are told apart by their texts, whatever ends them.
proof fn lemma_values(a: JsonView, x: Seq<char>, b: JsonView, y: Seq<char>)
    requires
        compact(a) + x == compact(b) + y,
        numbers_written(a),
        numbers_written(b),
        ends_value(x),
        ends_value(y),
    ensures
        a == b,
        x == y,
    decreases a,
{
    lemma_first_char(a);
    lemma_first_char(b);
    assert((compact(a) + x)[0] == compact(a)[0]);
    assert((compact(b) + y)[0] == compact(b)[0]);
    match (a, b) {
        (JsonView::Null, JsonView::Null) => {
            lemma_same_start(compact(a), x, compact(b), y);
        },
        (JsonView::Bool(p), JsonView::Bool(q)) => {
            assert(p == q);
            lemma_same_start(compact(a), x, compact(b), y);
        },
        (JsonView::Number(n), JsonView::Number(m)) => {
            lemma_numbers(n, x, m, y);
        },
        (JsonView::Text(s), JsonView::Text(t)) => {
            law_literals_are_unambiguous(s, x, t, y);
        },
        (JsonView::Array(items), JsonView::Array(others)) => {
            let p = join(compact_items(items), seq![',']) + seq![']'] + x;
            let q = join(compact_items(others), seq![',']) + seq![']'] + y;
            assert((compact(a) + x).skip(1) == p);
            assert((compact(b) + y).skip(1) == q);
            lemma_lists(items, x, others, y);
        },
        (JsonView::Object(members), JsonView::Object(others)) => {
            let p = join(compact_members(members), seq![',']) + seq!['}'] + x;
            let q = join(compact_members(others), seq![',']) + seq!['}'] + y;
            assert((compact(a) + x).skip(1) == p);
            assert((compact(b) + y).skip(1) == q);
            lemma_member_lists(members, x, others, y);
        },
        _ => {},
    }
}

proof fn lemma_lists(a: Seq<JsonView>, x: Seq<char>, b: Seq<JsonView>, y: Seq<char>)
    requires
        join(compact_items(a), seq![',']) + seq![']'] + x == join(compact_items(b), seq![','])
            + seq![']'] + y,
        forall|i: int| 0 <= i < a.len() ==> numbers_written(#[trigger] a[i]),
        forall|i: int| 0 <= i < b.len() ==> numbers_written(#[trigger] b[i]),
    ensures
        a == b,
        x == y,
    decreases a,
{
    let p = compact_items(a);
    let q = compact_items(b);
    let s = join(p, seq![',']) + seq![']'] + x;
    let t = join(q, seq![',']) + seq![']'] + y;
    if a.len() > 0 {
        lemma_behind_first(p, ']', x);
        lemma_first_char(a[0]);
        assert(s[0] == compact(a[0])[0]);
    } else {
        assert(s[0] == ']');
        assert(s.skip(1) == x);
    }
    if b.len() > 0 {
        lemma_behind_first(q, ']', y);
        lemma_first_char(b[0]);
        assert(t[0] == compact(b[0])[0]);
    } else {
        assert(t[0] == ']');
        assert(t.skip(1) == y);
    }
    if a.len() > 0 && b.len() > 0 {
        let u = behind_first(p, ']', x);
        let v = behind_first(q, ']', y);
        lemma_values(a[0], u, b[0], v);
        let r = a.subrange(1, a.len() as int);
        let w = b.subrange(1, b.len() as int);
        assert(compact_items(r) == p.skip(1));
        assert(compact_items(w) == q.skip(1));
        if a.len() > 1 {
            assert(u[0] == ',');
        }
        if b.len() > 1 {
            assert(v[0] == ',');
        }
        assert((a.len() > 1) == (b.len() > 1));
        if a.len() > 1 {
            assert(u.skip(1) == join(p.skip(1), seq![',']) + seq![']'] + x);
            assert(v.skip(1) == join(q.skip(1), seq![',']) + seq![']'] + y);
            assert forall|i: int| 0 <= i < r.len() implies numbers_written(#[trigger] r[i]) by {
                assert(r[i] == a[i + 1]);
            }
            assert forall|i: int| 0 <= i < w.len() implies numbers_written(#[trigger] w[i]) by {
                assert(w[i] == b[i + 1]);
            }
            lemma_lists(r, x, w, y);
            assert(a == seq![a[0]] + r);
            assert(b == seq![b[0]] + w);
        } else {
            assert(u.skip(1) == x);
            assert(v.skip(1) == y);
            assert(a == seq![a[0]]);
            assert(b == seq![b[0]]);
        }
    } else {
        assert(a == b);
    }
}

proof fn lemma_member_lists(
    a: Seq<(Seq<char>, JsonView)>,
    x: Seq<char>,
    b: Seq<(Seq<char>, JsonView)>,
    y: Seq<char>,
)
    requires
        join(compact_members(a), seq![',']) + seq!['}'] + x == join(compact_members(b), seq![','])
            + seq!['}'] + y,
        forall|i: int| 0 <= i < a.len() ==> numbers_written((#[trigger] a[i]).1),
        forall|i: int| 0 <= i < b.len() ==> numbers_written((#[trigger] b[i]).1),
    ensures
        a == b,
        x == y,
    decreases a,
{
    let p = compact_members(a);
    let q = compact_members(b);
    let s = join(p, seq![',']) + seq!['}'] + x;
    let t = join(q, seq![',']) + seq!['}'] + y;
    if a.len() > 0 {
        lemma_behind_first(p, '}', x);
        assert(p[0][0] == '"');
        assert(s[0] == p[0][0]);
    } else {
        assert(s[0] == '}');
        assert(s.skip(1) == x);
    }
    if b.len() > 0 {
        lemma_behind_first(q, '}', y);
        assert(q[0][0] == '"');
        assert(t[0] == q[0][0]);
    } else {
        assert(t[0] == '}');
        assert(t.skip(1) == y);
    }
    if a.len() > 0 && b.len() > 0 {
        let u = behind_first(p, '}', x);
        let v = behind_first(q, '}', y);
        let m = seq![':'] + (compact(a[0].1) + u);
        let n = seq![':'] + (compact(b[0].1) + v);
        assert(p[0] + u == quoted(a[0].0) + m);
        assert(q[0] + v == quoted(b[0].0) + n);
        law_literals_are_unambiguous(a[0].0, m, b[0].0, n);
        assert(m.skip(1) == compact(a[0].1) + u);
        assert(n.skip(1) == compact(b[0].1) + v);
        lemma_values(a[0].1, u, b[0].1, v);
        let r = a.subrange(1, a.len() as int);
        let w = b.subrange(1, b.len() as int);
        assert(compact_members(r) == p.skip(1));
        assert(compact_members(w) == q.skip(1));
        if a.len() > 1 {
            assert(u[0] == ',');
        }
        if b.len() > 1 {
            assert(v[0] == ',');
        }
        assert((a.len() > 1) == (b.len() > 1));
        if a.len() > 1 {
            assert(u.skip(1) == join(p.skip(1), seq![',']) + seq!['}'] + x);
            assert(v.skip(1) == join(q.skip(1), seq![',']) + seq!['}'] + y);
            assert forall|i: int| 0 <= i < r.len() implies numbers_written(
                (#[trigger] r[i]).1,
            ) by {
                assert(r[i] == a[i + 1]);
            }
            assert forall|i: int| 0 <= i < w.len() implies numbers_written(
                (#[trigger] w[i]).1,
            ) by {
                assert(w[i] == b[i + 1]);
            }
            lemma_member_lists(r, x, w, y);
            assert(a == seq![a[0]] + r);
            assert(b == seq![b[0]] + w);
        } else {
            assert(u.skip(1) == x);
            assert(v.skip(1) == y);
            assert(a == seq![a[0]]);
            assert(b == seq![b[0]]);
        }
    } else {
        assert(a == b);
    }
}

/// Two values with one compact text are the same value.
pub proof fn law_compact_text_is_unambiguous(a: JsonView, b: JsonView)
    requires
        numbers_written(a),
        numbers_written(b),
        compact(a) == compact(b),
    ensures
        a == b,
{
    let none = Seq::<char>::empty();
    assert(compact(a) + none == compact(a));
    assert(compact(b) + none == compact(b));
    lemma_values(a, none, b, none);
}

} // verus!
