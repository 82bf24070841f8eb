//! JSON values: the tree, its readers and its compact text.

use vstd::prelude::*;
use vstd::string::StringExecFns;

use crate::digits::{decimal_of, hex_char, signed_decimal, signed_decimal_of};
use crate::lists::flat_map;
use crate::text::{join, same};

verus! {

/// A JSON number.
#[derive(Debug, PartialEq, Eq)]
pub enum Number {
    /// A whole number from zero up.
    Unsigned(u64),
    /// A whole number below zero.
    Negative(i64),
    /// Any other number, as the text that writes it.
    Fraction(String),
}

/// A JSON value. The members of an object stand in the order they were added.
#[derive(Debug, PartialEq, Eq)]
pub enum Json {
    Null,
    Bool(bool),
    Number(Number),
    Text(String),
    Array(Vec<Json>),
    Object(Vec<(String, Json)>),
}

/// What a JSON number stands for.
pub enum NumberView {
    Whole(int),
    Fraction(Seq<char>),
}

/// What a JSON value stands for.
pub enum JsonView {
    Null,
    Bool(bool),
    Number(NumberView),
    Text(Seq<char>),
    Array(Seq<JsonView>),
    Object(Seq<(Seq<char>, JsonView)>),
}

impl View for Number {
    type V = NumberView;

    open spec fn view(&self) -> NumberView {
        match *self {
            Number::Unsigned(n) => NumberView::Whole(n as int),
            Number::Negative(n) => NumberView::Whole(n as int),
            Number::Fraction(t) => NumberView::Fraction(t@),
        }
    }
}

/// The value that a JSON tree stands for.
pub open spec fn model(j: Json) -> JsonView
    decreases j,
{
    match j {
        Json::Null => JsonView::Null,
        Json::Bool(b) => JsonView::Bool(b),
        Json::Number(n) => JsonView::Number(n@),
        Json::Text(t) => JsonView::Text(t@),
        Json::Array(items) => JsonView::Array(
            Seq::new(
                items@.len(),
                |i: int|
                    if 0 <= i < items@.len() {
                        model(items@[i])
                    } else {
                        JsonView::Null
                    },
            ),
        ),
        Json::Object(members) => JsonView::Object(
            Seq::new(
                members@.len(),
                |i: int|
                    if 0 <= i < members@.len() {
                        (members@[i].0@, model(members@[i].1))
                    } else {
                        (Seq::empty(), JsonView::Null)
                    },
            ),
        ),
    }
}

impl View for Json {
    type V = JsonView;

    open spec fn view(&self) -> JsonView {
        model(*self)
    }
}

/// What a list of JSON trees stands for.
pub open spec fn models(items: Seq<Json>) -> Seq<JsonView> {
    items.map_values(|j: Json| j@)
}

/// What a list of object members stands for.
pub open spec fn member_models(members: Seq<(String, Json)>) -> Seq<(Seq<char>, JsonView)> {
    members.map_values(|m: (String, Json)| (m.0@, m.1@))
}

pub broadcast proof fn lemma_array_view(items: Vec<Json>)
    ensures
        #[trigger] Json::Array(items)@ == JsonView::Array(models(items@)),
{
    assert(Json::Array(items)@->Array_0 == models(items@));
}

pub broadcast proof fn lemma_object_view(members: Vec<(String, Json)>)
    ensures
        #[trigger] Json::Object(members)@ == JsonView::Object(member_models(members@)),
{
    assert(Json::Object(members)@->Object_0 == member_models(members@));
}

impl Clone for Json {
    fn clone(&self) -> (r: Json)
        ensures
            r@ == self@,
        decreases self,
    {
        broadcast use {lemma_array_view, lemma_object_view};
        match self {
            Json::Null => Json::Null,
            Json::Bool(b) => Json::Bool(*b),
            Json::Number(n) => Json::Number(match n {
                Number::Unsigned(k) => Number::Unsigned(*k),
                Number::Negative(k) => Number::Negative(*k),
                Number::Fraction(t) => Number::Fraction(t.clone()),
            }),
            Json::Text(t) => Json::Text(t.clone()),
            Json::Array(items) => {
                let mut out: Vec<Json> = Vec::new();
                let mut i: usize = 0;
                while i < items.len()
                    invariant
                        i <= items@.len(),
                        *self == Json::Array(*items),
                        models(out@) == models(items@).take(i as int),
                    decreases items@.len() - i,
                {
                    assert(decreases_to!(*self => self->Array_0));
                    assert(decreases_to!(*items => items@));
                    assert(decreases_to!(items@ => items@[i as int]));
                    let c = items[i].clone();
                    let ghost before = models(out@);
                    out.push(c);
                    assert(models(out@) == before.push(c@));
                    i = i + 1;
                }
                assert(models(items@).take(i as int) == models(items@));
                Json::Array(out)
            },
            Json::Object(members) => {
                let mut out: Vec<(String, Json)> = Vec::new();
                let mut i: usize = 0;
                while i < members.len()
                    invariant
                        i <= members@.len(),
                        *self == Json::Object(*members),
                        member_models(out@) == member_models(members@).take(i as int),
                    decreases members@.len() - i,
                {
                    assert(decreases_to!(*self => self->Object_0));
                    assert(decreases_to!(*members => members@));
                    assert(decreases_to!(members@ => members@[i as int]));
                    assert(decreases_to!(members@[i as int] => members@[i as int].1));
                    let c = members[i].1.clone();
                    let k = members[i].0.clone();
                    let ghost before = member_models(out@);
                    out.push((k, c));
                    assert(member_models(out@) == before.push((k@, c@)));
                    i = i + 1;
                }
                assert(member_models(members@).take(i as int) == member_models(members@));
                Json::Object(out)
            },
        }
    }
}

// ---------------------------------------------------------------------------
// Reading
// ---------------------------------------------------------------------------

/// The first position of `key` among `members`, or their number.
pub open spec fn key_position(members: Seq<(Seq<char>, JsonView)>, key: Seq<char>) -> nat
    decreases members.len(),
{
    if members.len() == 0 || members[0].0 == key {
        0
    } else {
        1 + key_position(members.skip(1), key)
    }
}

/// The value of the member named `key`.
pub open spec fn lookup(members: Seq<(Seq<char>, JsonView)>, key: Seq<char>) -> Option<JsonView> {
    let at = key_position(members, key);
    if at < members.len() {
        Some(members[at as int].1)
    } else {
        None
    }
}

/// The members with `key` bound to `value`: in place where there is one of
/// that name, else at the end.
pub open spec fn put(
    members: Seq<(Seq<char>, JsonView)>,
    key: Seq<char>,
    value: JsonView,
) -> Seq<(Seq<char>, JsonView)> {
    let at = key_position(members, key);
    if at < members.len() {
        members.update(at as int, (key, value))
    } else {
        members.push((key, value))
    }
}

pub proof fn lemma_key_position(members: Seq<(Seq<char>, JsonView)>, key: Seq<char>, at: int)
    requires
        0 <= at <= members.len(),
        forall|i: int| 0 <= i < at ==> members[i].0 != key,
        at < members.len() ==> members[at].0 == key,
    ensures
        key_position(members, key) == at,
    decreases members.len(),
{
    if at > 0 {
        let rest = members.skip(1);
        assert forall|i: int| 0 <= i < at - 1 implies rest[i].0 != key by {
            assert(rest[i] == members[i + 1]);
        }
        lemma_key_position(rest, key, at - 1);
    }
}

/// Reading a member just bound gives what it was bound to.
pub proof fn law_lookup_after_put(
    members: Seq<(Seq<char>, JsonView)>,
    key: Seq<char>,
    value: JsonView,
)
    ensures
        lookup(put(members, key, value), key) == Some(value),
{
    lemma_key_position_found(members, key);
    let at = key_position(members, key) as int;
    lemma_key_position(put(members, key, value), key, at);
}

pub proof fn lemma_key_position_found(members: Seq<(Seq<char>, JsonView)>, key: Seq<char>)
    ensures
        key_position(members, key) <= members.len(),
        forall|i: int| 0 <= i < key_position(members, key) ==> members[i].0 != key,
        key_position(members, key) < members.len() ==> members[key_position(
            members,
            key,
        ) as int].0 == key,
    decreases members.len(),
{
    if members.len() == 0 || members[0].0 == key {
    } else {
        let rest = members.skip(1);
        lemma_key_position_found(rest, key);
        assert forall|i: int| 0 <= i < key_position(members, key) implies members[i].0 != key by {
            if i > 0 {
                assert(rest[i - 1] == members[i]);
            }
        }
    }
}

/// Binding one member leaves every other one as it was.
pub proof fn law_put_keeps_others(
    members: Seq<(Seq<char>, JsonView)>,
    key: Seq<char>,
    value: JsonView,
    other: Seq<char>,
)
    requires
        other != key,
    ensures
        lookup(put(members, key, value), other) == lookup(members, other),
{
    lemma_key_position_found(members, key);
    lemma_key_position_found(members, other);
    let after = put(members, key, value);
    let at = key_position(members, other) as int;
    let end = if at < members.len() {
        at
    } else {
        after.len() as int
    };
    lemma_key_position(after, other, end);
}

/// Whether no two members have one name.
pub open spec fn distinct_names(members: Seq<(Seq<char>, JsonView)>) -> bool {
    forall|i: int, j: int|
        0 <= i < j < members.len() ==> (#[trigger] members[i]).0 != (#[trigger] members[j]).0
}

/// Binding a member never makes a second one of its name.
pub proof fn law_put_keeps_names_distinct(
    members: Seq<(Seq<char>, JsonView)>,
    key: Seq<char>,
    value: JsonView,
)
    requires
        distinct_names(members),
    ensures
        distinct_names(put(members, key, value)),
{
    lemma_key_position_found(members, key);
}

impl JsonView {
    /// The member of an object by its name; nothing for any other value.
    pub open spec fn get(self, key: Seq<char>) -> Option<JsonView> {
        match self {
            JsonView::Object(members) => lookup(members, key),
            _ => None,
        }
    }

    /// The text of a string.
    pub open spec fn as_text(self) -> Option<Seq<char>> {
        match self {
            JsonView::Text(t) => Some(t),
            _ => None,
        }
    }

    /// The truth value of a boolean.
    pub open spec fn as_flag(self) -> Option<bool> {
        match self {
            JsonView::Bool(b) => Some(b),
            _ => None,
        }
    }

    /// The value of a whole number.
    pub open spec fn as_whole(self) -> Option<int> {
        match self {
            JsonView::Number(NumberView::Whole(n)) => Some(n),
            _ => None,
        }
    }

    /// The value of a whole number that fits in 64 bits with a sign.
    pub open spec fn as_i64(self) -> Option<i64> {
        match self.as_whole() {
            Some(n) => if i64::MIN <= n <= i64::MAX {
                Some(n as i64)
            } else {
                None
            },
            None => None,
        }
    }

    /// The value of a whole number that fits in 64 bits without a sign.
    pub open spec fn as_u64(self) -> Option<u64> {
        match self.as_whole() {
            Some(n) => if 0 <= n <= u64::MAX {
                Some(n as u64)
            } else {
                None
            },
            None => None,
        }
    }

    /// The elements of an array; none for any other value.
    pub open spec fn items(self) -> Seq<JsonView> {
        match self {
            JsonView::Array(items) => items,
            _ => Seq::empty(),
        }
    }

    /// The text of the member `key`, where it is there and a string.
    pub open spec fn text_at(self, key: Seq<char>) -> Option<Seq<char>> {
        match self.get(key) {
            Some(v) => v.as_text(),
            None => None,
        }
    }

    /// The elements of the member `key`, where it is there and an array.
    pub open spec fn items_at(self, key: Seq<char>) -> Seq<JsonView> {
        match self.get(key) {
            Some(v) => v.items(),
            None => Seq::empty(),
        }
    }

    /// The truth value of the member `key`, where it is there and a boolean.
    pub open spec fn flag_at(self, key: Seq<char>) -> Option<bool> {
        match self.get(key) {
            Some(v) => v.as_flag(),
            None => None,
        }
    }

    /// The member `key`, or null.
    pub open spec fn get_or_null(self, key: Seq<char>) -> JsonView {
        match self.get(key) {
            Some(v) => v,
            None => JsonView::Null,
        }
    }
}

/// The view of an optional reference to a tree.
pub open spec fn opt_model(j: Option<&Json>) -> Option<JsonView> {
    match j {
        Some(v) => Some(v@),
        None => None,
    }
}

/// The view of an optional list of trees.
pub open spec fn opt_models(items: Option<Vec<Json>>) -> Option<Seq<JsonView>> {
    match items {
        Some(v) => Some(models(v@)),
        None => None,
    }
}

/// The view of an optional text.
pub open spec fn opt_text(t: Option<&str>) -> Option<Seq<char>> {
    match t {
        Some(v) => Some(v@),
        None => None,
    }
}

/// The view of an optional string.
pub open spec fn opt_string(t: Option<String>) -> Option<Seq<char>> {
    match t {
        Some(v) => Some(v@),
        None => None,
    }
}

/// The views of a list of references to trees.
pub open spec fn ref_models(items: Seq<&Json>) -> Seq<JsonView> {
    items.map_values(|j: &Json| j@)
}

/// The first position of `key` among `members`.
fn key_index(members: &Vec<(String, Json)>, key: &str) -> (r: usize)
    ensures
        r == key_position(member_models(members@), key@),
        r <= members@.len(),
{
    let mut i: usize = 0;
    let ghost all = member_models(members@);
    while i < members.len()
        invariant
            i <= members@.len(),
            all == member_models(members@),
            forall|k: int| 0 <= k < i ==> all[k].0 != key@,
        decreases members@.len() - i,
    {
        if same(members[i].0.as_str(), key) {
            proof {
                lemma_key_position(all, key@, i as int);
            }
            return i;
        }
        i = i + 1;
    }
    proof {
        lemma_key_position(all, key@, i as int);
    }
    i
}

impl Json {
    /// The member of an object by its name; nothing for any other value.
    pub fn get(&self, key: &str) -> (r: Option<&Json>)
        ensures
            opt_model(r) == self@.get(key@),
    {
        broadcast use {lemma_array_view, lemma_object_view};
        match self {
            Json::Object(members) => {
                let i = key_index(members, key);
                if i < members.len() {
                    Some(&members[i].1)
                } else {
                    None
                }
            },
            _ => None,
        }
    }

    /// The text of a string.
    pub fn as_str(&self) -> (r: Option<&str>)
        ensures
            opt_text(r) == self@.as_text(),
    {
        match self {
            Json::Text(t) => Some(t.as_str()),
            _ => None,
        }
    }

    /// The truth value of a boolean.
    pub fn as_bool(&self) -> (r: Option<bool>)
        ensures
            r == self@.as_flag(),
    {
        match self {
            Json::Bool(b) => Some(*b),
            _ => None,
        }
    }

    /// The value of a whole number that fits in 64 bits with a sign.
    pub fn as_i64(&self) -> (r: Option<i64>)
        ensures
            r == self@.as_i64(),
    {
        match self {
            Json::Number(Number::Unsigned(n)) => if *n <= 0x7fff_ffff_ffff_ffffu64 {
                Some(*n as i64)
            } else {
                None
            },
            Json::Number(Number::Negative(n)) => Some(*n),
            _ => None,
        }
    }

    /// The value of a whole number that fits in 64 bits without a sign.
    pub fn as_u64(&self) -> (r: Option<u64>)
        ensures
            r == self@.as_u64(),
    {
        match self {
            Json::Number(Number::Unsigned(n)) => Some(*n),
            Json::Number(Number::Negative(n)) => if *n >= 0 {
                Some(*n as u64)
            } else {
                None
            },
            _ => None,
        }
    }

    /// The elements of an array; none for any other value.
    pub fn items(&self) -> (r: Vec<&Json>)
        ensures
            ref_models(r@) == self@.items(),
    {
        broadcast use {lemma_array_view, lemma_object_view};
        let mut out: Vec<&Json> = Vec::new();
        match self {
            Json::Array(items) => {
                let mut i: usize = 0;
                while i < items.len()
                    invariant
                        i <= items@.len(),
                        ref_models(out@) == models(items@).take(i as int),
                    decreases items@.len() - i,
                {
                    let ghost before = ref_models(out@);
                    out.push(&items[i]);
                    assert(ref_models(out@) == before.push(items@[i as int]@));
                    i = i + 1;
                }
                assert(models(items@).take(i as int) == models(items@));
            },
            _ => {},
        }
        out
    }

    /// The text of the member `key`, where it is there and a string.
    pub fn text_at(&self, key: &str) -> (r: Option<&str>)
        ensures
            opt_text(r) == self@.text_at(key@),
    {
        match self.get(key) {
            Some(v) => v.as_str(),
            None => None,
        }
    }

    /// The elements of the member `key`, where it is there and an array.
    pub fn items_at(&self, key: &str) -> (r: Vec<&Json>)
        ensures
            ref_models(r@) == self@.items_at(key@),
    {
        match self.get(key) {
            Some(v) => v.items(),
            None => Vec::new(),
        }
    }

    /// The truth value of the member `key`, where it is there and a boolean.
    pub fn flag_at(&self, key: &str) -> (r: Option<bool>)
        ensures
            r == self@.flag_at(key@),
    {
        match self.get(key) {
            Some(v) => v.as_bool(),
            None => None,
        }
    }

    /// The member `key`, or null.
    pub fn get_or_null(&self, key: &str) -> (r: Json)
        ensures
            r@ == self@.get_or_null(key@),
    {
        match self.get(key) {
            Some(v) => v.clone(),
            None => Json::Null,
        }
    }

    /// Binds the member `key` of an object; any other value stays as it is.
    pub fn insert(&mut self, key: &str, value: Json)
        ensures
            final(self)@ == match old(self)@ {
                JsonView::Object(members) => JsonView::Object(put(members, key@, value@)),
                other => other,
            },
    {
        broadcast use {lemma_array_view, lemma_object_view};
        match self {
            Json::Object(members) => {
                let ghost before = member_models(members@);
                let i = key_index(members, key);
                if i < members.len() {
                    let name = members[i].0.clone();
                    proof {
                        lemma_key_position_found(before, key@);
                    }
                    members.set(i, (name, value));
                    assert(member_models(members@) == before.update(i as int, (key@, value@)));
                } else {
                    members.push((key.to_owned(), value));
                    assert(member_models(members@) == before.push((key@, value@)));
                }
            },
            _ => {},
        }
    }

    /// The string that holds `text`.
    pub fn text(text: &str) -> (r: Json)
        ensures
            r@ == JsonView::Text(text@),
    {
        Json::Text(text.to_owned())
    }

    /// The string that holds `text`, or null.
    pub fn opt_text(text: Option<&str>) -> (r: Json)
        ensures
            r@ == text_or_null(opt_text(text)),
    {
        match text {
            Some(t) => Json::text(t),
            None => Json::Null,
        }
    }

    /// The number `n`.
    pub fn whole(n: i64) -> (r: Json)
        ensures
            r@ == whole(n as int),
    {
        if n >= 0 {
            Json::Number(Number::Unsigned(n as u64))
        } else {
            Json::Number(Number::Negative(n))
        }
    }

    /// The number `n`.
    pub fn count(n: u64) -> (r: Json)
        ensures
            r@ == whole(n as int),
    {
        Json::Number(Number::Unsigned(n))
    }
}

/// The value of a whole number.
pub open spec fn whole(n: int) -> JsonView {
    JsonView::Number(NumberView::Whole(n))
}

/// The string of a text that may be missing, which is then null.
pub open spec fn text_or_null(t: Option<Seq<char>>) -> JsonView {
    match t {
        Some(s) => JsonView::Text(s),
        None => JsonView::Null,
    }
}

/// No members yet.
pub fn no_members() -> (r: Vec<(String, Json)>)
    ensures
        member_models(r@) == Seq::<(Seq<char>, JsonView)>::empty(),
{
    let r: Vec<(String, Json)> = Vec::new();
    assert(member_models(r@) == Seq::<(Seq<char>, JsonView)>::empty());
    r
}

/// Adds a member to a list of members.
pub fn member(members: &mut Vec<(String, Json)>, key: &str, value: Json)
    ensures
        member_models(final(members)@) == member_models(old(members)@).push((key@, value@)),
{
    members.push((key.to_owned(), value));
    assert(member_models(members@) == member_models(old(members)@).push((key@, value@)));
}

// ---------------------------------------------------------------------------
// Compact text
// ---------------------------------------------------------------------------

/// How a character stands in a JSON string literal: the quote, the backslash
/// and the control characters behind a backslash, anything else as it is.
pub open spec fn escaped() -> spec_fn(char) -> Seq<char> {
    |c: char|
        if c == '"' {
            seq!['\\', '"']
        } else if c == '\\' {
            seq!['\\', '\\']
        } else if c == '\u{8}' {
            seq!['\\', 'b']
        } else if c == '\u{9}' {
            seq!['\\', 't']
        } else if c == '\u{a}' {
            seq!['\\', 'n']
        } else if c == '\u{c}' {
            seq!['\\', 'f']
        } else if c == '\u{d}' {
            seq!['\\', 'r']
        } else if ' ' > c {
            seq!['\\', 'u', '0', '0', hex_char(c as int / 16), hex_char(c as int % 16)]
        } else {
            seq![c]
        }
}

/// The JSON string literal for a text.
pub open spec fn quoted(text: Seq<char>) -> Seq<char> {
    seq!['"'] + flat_map(text, escaped()) + seq!['"']
}

/// The JSON string literal for `text`: `serde_json::Value::to_string` on a
/// string value.
///
/// It is the text between two quotes, with a quote, a backslash and each
/// control character below the space escaped, in the short form where there is
/// one and else by four hexadecimal digits.
#[verifier::external_body]
pub(crate) fn quote(text: &str) -> (r: String)
    ensures
        r@ == quoted(text@),
{
    serde_json::Value::String(text.to_owned()).to_string()
}

/// The text that writes `v` with no white space between its parts.
pub open spec fn compact(v: JsonView) -> Seq<char>
    decreases v,
{
    match v {
        JsonView::Null => "null"@,
        JsonView::Bool(b) => if b {
            "true"@
        } else {
            "false"@
        },
        JsonView::Number(NumberView::Whole(n)) => signed_decimal(n),
        JsonView::Number(NumberView::Fraction(t)) => t,
        JsonView::Text(t) => quoted(t),
        JsonView::Array(items) => seq!['['] + join(compact_items(items), seq![',']) + seq![']'],
        JsonView::Object(members) => seq!['{'] + join(compact_members(members), seq![','])
            + seq!['}'],
    }
}

/// The texts of a list of values.
pub open spec fn compact_items(items: Seq<JsonView>) -> Seq<Seq<char>>
    decreases items,
{
    Seq::new(
        items.len(),
        |i: int|
            if 0 <= i < items.len() {
                compact(items[i])
            } else {
                Seq::empty()
            },
    )
}

/// The texts of a list of members.
pub open spec fn compact_members(members: Seq<(Seq<char>, JsonView)>) -> Seq<Seq<char>>
    decreases members,
{
    Seq::new(
        members.len(),
        |i: int|
            if 0 <= i < members.len() {
                quoted(members[i].0) + seq![':'] + compact(members[i].1)
            } else {
                Seq::empty()
            },
    )
}

/// One more piece behind those joined so far.
proof fn lemma_join_push(pieces: Seq<Seq<char>>, sep: Seq<char>, next: Seq<char>)
    ensures
        join(pieces.push(next), sep) == if pieces.len() == 0 {
            next
        } else {
            join(pieces, sep) + sep + next
        },
{
    assert(pieces.push(next).drop_last() == pieces);
}

impl Json {
    /// The text that writes this value with no white space between its parts.
    pub fn to_compact(&self) -> (r: String)
        ensures
            r@ == compact(self@),
        decreases self,
    {
        broadcast use {lemma_array_view, lemma_object_view};
        match self {
            Json::Null => "null".to_owned(),
            Json::Bool(b) => if *b {
                "true".to_owned()
            } else {
                "false".to_owned()
            },
            Json::Number(Number::Unsigned(n)) => decimal_of(*n),
            Json::Number(Number::Negative(n)) => signed_decimal_of(*n),
            Json::Number(Number::Fraction(t)) => t.clone(),
            Json::Text(t) => quote(t.as_str()),
            Json::Array(items) => {
                let ghost all = compact_items(models(items@));
                let mut out = String::new();
                out.push('[');
                let mut i: usize = 0;
                while i < items.len()
                    invariant
                        i <= items@.len(),
                        *self == Json::Array(*items),
                        all == compact_items(models(items@)),
                        out@ == seq!['['] + join(all.take(i as int), seq![',']),
                    decreases items@.len() - i,
                {
                    assert(decreases_to!(*self => self->Array_0));
                    assert(decreases_to!(*items => items@));
                    assert(decreases_to!(items@ => items@[i as int]));
                    let piece = items[i].to_compact();
                    assert(all.take(i + 1) == all.take(i as int).push(piece@));
                    proof {
                        lemma_join_push(all.take(i as int), seq![','], piece@);
                    }
                    if i > 0 {
                        out.push(',');
                    }
                    out.append(piece.as_str());
                    i = i + 1;
                }
                out.push(']');
                assert(all.take(i as int) == all);
                out
            },
            Json::Object(members) => {
                let ghost all = compact_members(member_models(members@));
                let mut out = String::new();
                out.push('{');
                let mut i: usize = 0;
                while i < members.len()
                    invariant
                        i <= members@.len(),
                        *self == Json::Object(*members),
                        all == compact_members(member_models(members@)),
                        out@ == seq!['{'] + join(all.take(i as int), seq![',']),
                    decreases members@.len() - i,
                {
                    assert(decreases_to!(*self => self->Object_0));
                    assert(decreases_to!(*members => members@));
                    assert(decreases_to!(members@ => members@[i as int]));
                    assert(decreases_to!(members@[i as int] => members@[i as int].1));
                    let mut piece = quote(members[i].0.as_str());
                    piece.push(':');
                    let value = members[i].1.to_compact();
                    piece.append(value.as_str());
                    assert(piece@ == all[i as int]);
                    assert(all.take(i + 1) == all.take(i as int).push(piece@));
                    proof {
                        lemma_join_push(all.take(i as int), seq![','], piece@);
                    }
                    if i > 0 {
                        out.push(',');
                    }
                    out.append(piece.as_str());
                    i = i + 1;
                }
                out.push('}');
                assert(all.take(i as int) == all);
                out
            },
        }
    }
}

} // verus!
