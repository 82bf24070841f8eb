//! Laws of JSON values and their digests.

use vstd::prelude::*;
use vstd::utf8::{encode_utf8, encode_utf8_decode_utf8};

use crate::digest::{json_digest, sha256};
use crate::digits::{decimal, hex, law_hex_tells_bytes_apart, signed_decimal};
use crate::json::{
    compact, compact_items, compact_members, escaped, key_position, lemma_array_view,
    lemma_key_position, lemma_key_position_found, lemma_object_view, lookup, member_models, models,
    opt_model, opt_models, opt_string, opt_text, put, quoted, ref_models, text_or_null, whole, Json,
    JsonView, Number, NumberView,
};
use crate::lists::flat_map;
use crate::order::{
    before, entry_key, key_before, law_sorted_entries, sorted_entries, with_key, SortKey,
};
use crate::text::{join, views};
use crate::unambiguous::{law_compact_text_is_unambiguous, numbers_written};

verus! {

/// A JSON tree stands for itself: every value, element and member of it is in
/// what it stands for, in order, and nothing else is.
pub proof fn law_trees_stand_for_themselves(
    b: bool,
    n: Number,
    t: String,
    items: Vec<Json>,
    members: Vec<(String, Json)>,
)
    ensures
        Json::Null@ == JsonView::Null,
        Json::Bool(b)@ == JsonView::Bool(b),
        Json::Text(t)@ == JsonView::Text(t@),
        Json::Number(n)@ == JsonView::Number(
            match n {
                Number::Unsigned(k) => NumberView::Whole(k as int),
                Number::Negative(k) => NumberView::Whole(k as int),
                Number::Fraction(f) => NumberView::Fraction(f@),
            },
        ),
        Json::Array(items)@ is Array,
        Json::Array(items)@->Array_0.len() == items@.len(),
        forall|i: int|
            0 <= i < items@.len() ==> #[trigger] Json::Array(items)@->Array_0[i] == items@[i]@,
        Json::Object(members)@ is Object,
        Json::Object(members)@->Object_0.len() == members@.len(),
        forall|i: int|
            0 <= i < members@.len() ==> #[trigger] Json::Object(members)@->Object_0[i] == (
                members@[i].0@,
                members@[i].1@,
            ),
{
    broadcast use {lemma_array_view, lemma_object_view};

}

/// A list of trees or of texts stands for its elements, in order.
pub proof fn law_lists_stand_for_their_elements(
    items: Seq<Json>,
    members: Seq<(String, Json)>,
    texts: Seq<String>,
)
    ensures
        models(items).len() == items.len(),
        forall|i: int| 0 <= i < items.len() ==> #[trigger] models(items)[i] == items[i]@,
        member_models(members).len() == members.len(),
        forall|i: int|
            0 <= i < members.len() ==> #[trigger] member_models(members)[i] == (
                members[i].0@,
                members[i].1@,
            ),
        views(texts).len() == texts.len(),
        forall|i: int| 0 <= i < texts.len() ==> #[trigger] views(texts)[i] == texts[i]@,
{
}

/// A text that may be missing stands for its characters, where it is there.
pub proof fn law_texts_that_may_be_missing(a: Option<&str>, b: Option<String>)
    ensures
        opt_text(a) is Some <==> a is Some,
        a is Some ==> opt_text(a) == Some(a->0@),
        opt_string(b) is Some <==> b is Some,
        b is Some ==> opt_string(b) == Some(b->0@),
        text_or_null(opt_text(a)) == match a {
            Some(t) => JsonView::Text(t@),
            None => JsonView::Null,
        },
{
}

/// Trees that are lent, or that may be missing, stand for themselves too.
pub proof fn law_lent_trees_stand_for_themselves(
    refs: Seq<&Json>,
    tree: Option<&Json>,
    list: Option<Vec<Json>>,
)
    ensures
        ref_models(refs).len() == refs.len(),
        forall|i: int| 0 <= i < refs.len() ==> #[trigger] ref_models(refs)[i] == refs[i]@,
        tree is None ==> opt_model(tree) is None,
        tree is Some ==> opt_model(tree) == Some(tree->0@),
        list is None ==> opt_models(list) is None,
        list is Some ==> opt_models(list) == Some(models(list->0@)),
{
}

/// Looking a name up finds the first member of that name, and nothing exactly
/// when no member has it.
pub proof fn law_lookup(members: Seq<(Seq<char>, JsonView)>, key: Seq<char>)
    ensures
        match lookup(members, key) {
            Some(v) => exists|i: int|
                0 <= i < members.len() && (#[trigger] members[i]) == (key, v) && forall|j: int|
                    0 <= j < i ==> (#[trigger] members[j]).0 != key,
            None => forall|i: int| 0 <= i < members.len() ==> (#[trigger] members[i]).0 != key,
        },
{
    lemma_key_position_found(members, key);
    if lookup(members, key) is Some {
        let i = key_position(members, key) as int;
        assert(members[i] == (key, lookup(members, key)->0));
    }
}

/// Putting a member replaces the first of that name where it stands, or else
/// adds one at the end; the others stay as they are, where they are.
pub proof fn law_put(
    members: Seq<(Seq<char>, JsonView)>,
    key: Seq<char>,
    value: JsonView,
    at: int,
)
    requires
        0 <= at <= members.len(),
        forall|i: int| 0 <= i < at ==> (#[trigger] members[i]).0 != key,
        at < members.len() ==> members[at].0 == key,
    ensures
        at == members.len() ==> put(members, key, value) == members.push((key, value)),
        at < members.len() ==> put(members, key, value) == members.update(at, (key, value)),
{
    lemma_key_position(members, key, at);
}

/// A value reads as what it is and as nothing else.
pub proof fn law_values_read_as_what_they_are(v: JsonView)
    ensures
        forall|t: Seq<char>| v.as_text() == Some(t) <==> v == JsonView::Text(t),
        forall|b: bool| v.as_flag() == Some(b) <==> v == JsonView::Bool(b),
        forall|n: i64|
            v.as_i64() == Some(n) <==> v == JsonView::Number(NumberView::Whole(n as int)),
        forall|n: u64|
            v.as_u64() == Some(n) <==> v == JsonView::Number(NumberView::Whole(n as int)),
        v is Array ==> v == JsonView::Array(v.items()),
        !(v is Array) ==> v.items().len() == 0,
{
}

/// A whole number is written as the number that it is.
pub proof fn law_whole_numbers(n: int)
    ensures
        whole(n) == JsonView::Number(NumberView::Whole(n)),
        n >= 0 ==> signed_decimal(n) == decimal(n as nat),
        n < 0 ==> signed_decimal(n) == seq!['-'] + decimal((-n) as nat),
{
}

/// Reading a member is looking it up and then reading what is there; a value
/// that is no object has none.
pub proof fn law_member_reading(v: JsonView, key: Seq<char>)
    ensures
        v is Object ==> v.get(key) == lookup(v->Object_0, key),
        !(v is Object) ==> v.get(key) is None,
        forall|t: Seq<char>| v.text_at(key) == Some(t) <==> v.get(key) == Some(JsonView::Text(t)),
        forall|b: bool| v.flag_at(key) == Some(b) <==> v.get(key) == Some(JsonView::Bool(b)),
        v.get(key) matches Some(JsonView::Array(items)) ==> v.items_at(key) == items,
        !(v.get(key) matches Some(JsonView::Array(_))) ==> v.items_at(key).len() == 0,
        v.get(key) is Some ==> v.get(key) == Some(v.get_or_null(key)),
        v.get(key) is None ==> v.get_or_null(key) == JsonView::Null,
{
}

/// The text of a value, part by part: nothing stands between the parts but
/// what JSON asks for.
pub proof fn law_compact_text(
    items: Seq<JsonView>,
    members: Seq<(Seq<char>, JsonView)>,
    name: Seq<char>,
    v: JsonView,
    n: int,
    t: Seq<char>,
)
    ensures
        compact(JsonView::Null) == "null"@,
        compact(JsonView::Bool(true)) == "true"@,
        compact(JsonView::Bool(false)) == "false"@,
        compact(JsonView::Number(NumberView::Whole(n))) == signed_decimal(n),
        compact(JsonView::Number(NumberView::Fraction(t))) == t,
        compact(JsonView::Text(t)) == quoted(t),
        compact(JsonView::Array(Seq::empty())) == seq!['[', ']'],
        compact(JsonView::Array(seq![v])) == seq!['['] + compact(v) + seq![']'],
        items.len() > 0 ==> compact(JsonView::Array(items.push(v))) == compact(
            JsonView::Array(items),
        ).drop_last() + seq![','] + compact(v) + seq![']'],
        compact(JsonView::Object(Seq::empty())) == seq!['{', '}'],
        compact(JsonView::Object(seq![(name, v)])) == seq!['{'] + quoted(name) + seq![':']
            + compact(v) + seq!['}'],
        members.len() > 0 ==> compact(JsonView::Object(members.push((name, v)))) == compact(
            JsonView::Object(members),
        ).drop_last() + seq![','] + quoted(name) + seq![':'] + compact(v) + seq!['}'],
{
    let none = Seq::<JsonView>::empty();
    assert(compact_items(none) == Seq::<Seq<char>>::empty());
    assert(compact_items(seq![v]) == seq![compact(v)]);
    assert(seq![compact(v)].drop_last() == Seq::<Seq<char>>::empty());
    assert(compact_items(items.push(v)) == compact_items(items).push(compact(v)));
    assert(compact_items(items).push(compact(v)).drop_last() == compact_items(items));
    let no_member = Seq::<(Seq<char>, JsonView)>::empty();
    let one = quoted(name) + seq![':'] + compact(v);
    assert(compact_members(no_member) == Seq::<Seq<char>>::empty());
    assert(compact_members(seq![(name, v)]) == seq![one]);
    assert(seq![one].drop_last() == Seq::<Seq<char>>::empty());
    assert(compact_members(members.push((name, v))) == compact_members(members).push(one));
    assert(compact_members(members).push(one).drop_last() == compact_members(members));
    assert(join(Seq::<Seq<char>>::empty(), seq![',']) == Seq::<char>::empty());
    assert(compact(JsonView::Array(none)) == seq!['[', ']']);
    assert(compact(JsonView::Object(no_member)) == seq!['{', '}']);
    if items.len() > 0 {
        let all = join(compact_items(items), seq![',']);
        assert(compact(JsonView::Array(items)) == seq!['['] + all + seq![']']);
        assert(compact(JsonView::Array(items)).drop_last() == seq!['['] + all);
        assert(compact(JsonView::Array(items.push(v))) == seq!['['] + (all + seq![','] + compact(v))
            + seq![']']);
        assert(compact(JsonView::Array(items.push(v))) == seq!['['] + all + seq![','] + compact(v)
            + seq![']']);
    }
    if members.len() > 0 {
        let all = join(compact_members(members), seq![',']);
        assert(compact(JsonView::Object(members)) == seq!['{'] + all + seq!['}']);
        assert(compact(JsonView::Object(members)).drop_last() == seq!['{'] + all);
        assert(compact(JsonView::Object(members.push((name, v)))) == seq!['{'] + (all + seq![',']
            + one) + seq!['}']);
        assert(compact(JsonView::Object(members.push((name, v)))) == seq!['{'] + all + seq![',']
            + quoted(name) + seq![':'] + compact(v) + seq!['}']);
    }
    assert(compact(JsonView::Object(seq![(name, v)])) == seq!['{'] + one + seq!['}']);
    assert(seq!['{'] + one + seq!['}'] == seq!['{'] + quoted(name) + seq![':'] + compact(v)
        + seq!['}']);
}

/// A quoted text, character by character: every character stands for itself
/// but the quote, the backslash and the control characters, which follow a
/// backslash.
pub proof fn law_quoted_text(t: Seq<char>, c: char)
    ensures
        quoted(Seq::<char>::empty()) == seq!['"', '"'],
        quoted(t.push(c)).len() > quoted(t).len(),
        quoted(t.push(c)).take(quoted(t).len() - 1) == quoted(t).drop_last(),
        quoted(t.push(c)).last() == '"',
        c != '"' && c != '\\' && c >= ' ' ==> quoted(t.push(c)) == quoted(t).drop_last() + seq![
            c,
            '"',
        ],
        c == '"' || c == '\\' ==> quoted(t.push(c)) == quoted(t).drop_last() + seq!['\\', c, '"'],
        ' ' > c ==> quoted(t.push(c))[quoted(t).len() - 1] == '\\',
{
    assert(t.push(c).drop_last() == t);
    let inner = flat_map(t, escaped());
    assert(flat_map(t.push(c), escaped()) == inner + escaped()(c));
    assert(quoted(t).drop_last() == seq!['"'] + inner);
    assert(quoted(t.push(c)) == seq!['"'] + inner + escaped()(c) + seq!['"']);
    assert(quoted(Seq::<char>::empty()) == seq!['"', '"']);
}

/// The digest of a value covers the whole of its text: two values have one
/// digest only where they are the same, or where SHA-256 gives one digest for
/// two texts.
pub proof fn law_digests_cover_the_whole_text(a: JsonView, b: JsonView)
    ensures
        json_digest(a) == hex(sha256(encode_utf8(compact(a)))),
        json_digest(a) == json_digest(b) ==> sha256(encode_utf8(compact(a))) == sha256(
            encode_utf8(compact(b)),
        ),
        numbers_written(a) && numbers_written(b) && json_digest(a) == json_digest(b) && a != b
            ==> encode_utf8(compact(a)) != encode_utf8(compact(b)),
{
    if json_digest(a) == json_digest(b) {
        law_hex_tells_bytes_apart(
            sha256(encode_utf8(compact(a))),
            sha256(encode_utf8(compact(b))),
        );
        if numbers_written(a) && numbers_written(b) && encode_utf8(compact(a)) == encode_utf8(
            compact(b),
        ) {
            encode_utf8_decode_utf8(compact(a));
            encode_utf8_decode_utf8(compact(b));
            law_compact_text_is_unambiguous(a, b);
        }
    }
}

/// Whether one text that may be missing comes strictly before another: a
/// missing one comes first.
pub open spec fn sooner(a: Option<Seq<char>>, b: Option<Seq<char>>) -> bool {
    b is Some && (a is None || before(a->0, b->0))
}

/// Sorting entries by two of their members keeps every entry, puts none behind
/// one that belongs after it, and leaves those with the same two members in the
/// order they had.
pub proof fn law_entries_in_order(
    s: Seq<JsonView>,
    first: Seq<char>,
    second: Seq<char>,
    k: (Option<Seq<char>>, Option<Seq<char>>),
)
    ensures
        sorted_entries(s, first, second).to_multiset() == s.to_multiset(),
        sorted_entries(s, first, second).len() == s.len(),
        forall|i: int, j: int|
            0 <= i < j < s.len() ==> {
                let a = #[trigger] sorted_entries(s, first, second)[i];
                let b = #[trigger] sorted_entries(s, first, second)[j];
                &&& !sooner(b.text_at(first), a.text_at(first))
                &&& a.text_at(first) == b.text_at(first) ==> !sooner(
                    b.text_at(second),
                    a.text_at(second),
                )
            },
        sorted_entries(s, first, second).filter(
            |v: JsonView| (v.text_at(first), v.text_at(second)) == k,
        ) == s.filter(|v: JsonView| (v.text_at(first), v.text_at(second)) == k),
{
    law_sorted_entries(s, first, second);
    let sorted = sorted_entries(s, first, second);
    assert(sorted.len() == sorted.to_multiset().len()) by {
        broadcast use vstd::seq_lib::group_to_multiset_ensures;

    }
    assert(s.len() == s.to_multiset().len()) by {
        broadcast use vstd::seq_lib::group_to_multiset_ensures;

    }
    lemma_with_key(sorted, k, first, second);
    lemma_with_key(s, k, first, second);
    let key = SortKey { first: k.0, second: k.1 };
    assert(with_key(sorted, key, first, second) == with_key(s, key, first, second));
    assert forall|i: int, j: int| 0 <= i < j < s.len() implies {
        let a = #[trigger] sorted[i];
        let b = #[trigger] sorted[j];
        &&& !sooner(b.text_at(first), a.text_at(first))
        &&& a.text_at(first) == b.text_at(first) ==> !sooner(
            b.text_at(second),
            a.text_at(second),
        )
    } by {
        assert(!key_before(
            entry_key(sorted[j], first, second),
            entry_key(sorted[i], first, second),
        ));
    }
}

proof fn lemma_with_key(
    s: Seq<JsonView>,
    k: (Option<Seq<char>>, Option<Seq<char>>),
    first: Seq<char>,
    second: Seq<char>,
)
    ensures
        with_key(s, SortKey { first: k.0, second: k.1 }, first, second) == s.filter(
            |v: JsonView| (v.text_at(first), v.text_at(second)) == k,
        ),
    decreases s.len(),
{
    reveal(Seq::filter);
    if s.len() > 0 {
        lemma_with_key(s.drop_last(), k, first, second);
    }
}

} // verus!
