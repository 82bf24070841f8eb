//! Proof receipts: what a run proved, under which environment, in a form that
//! two runs can be compared by.
//!
//! A receipt pins the source hashes, the contracts, the environment, the
//! effective WP configuration and the status of each goal, and hashes all of
//! it, so that two runs are comparable exactly when their receipts match.

use vstd::prelude::*;

use crate::digest::{
    collide, json_digest, json_sha256, law_digest_tells_values_apart, sha256, sha256_hex,
};
use crate::digits::{hex, hex_digit, is_hex};
use crate::json::{
    distinct_names, law_lookup_after_put, law_put_keeps_names_distinct, law_put_keeps_others,
    lemma_array_view, lemma_key_position, lemma_key_position_found, lemma_object_view, lookup,
    member, member_models, models, no_members, opt_text, put, ref_models, text_or_null, Json,
    JsonView,
};
use crate::lists::{filter_map, lemma_filter_map_contains, lemma_filter_map_step};
use crate::mcp::propose::{string_text, strings_of};
use crate::mcp::status::{goal_status, own_status};
use crate::order::{
    before, entry_key, keys_tell_apart, law_before_irreflexive,
    law_order_of_entries_does_not_matter, law_sorted_distinct, law_sorted_distinct_of_same_texts,
    law_sorted_entries, sort_distinct, sort_entries, sorted_distinct, sorted_entries,
};
use crate::text::{
    chars_of, cut_once, find, has_part, has_prefix, join, joined, lemma_find, lemma_first_at,
    occurs_at, same, split, split_at_char, split_once, starts_with, trim, trimmed, views,
};
use crate::unambiguous::numbers_written;

verus! {

// ---------------------------------------------------------------------------
// The name of a source file
// ---------------------------------------------------------------------------

/// A part of a path that names something: not empty and not a single dot.
pub open spec fn name_part() -> spec_fn(Seq<char>) -> Option<Seq<char>> {
    |part: Seq<char>|
        if part.len() == 0 || part == seq!['.'] {
            None
        } else {
            Some(part)
        }
}

/// The names along a path.
pub open spec fn path_names(path: Seq<char>) -> Seq<Seq<char>> {
    filter_map(split(path, '/'), name_part())
}

/// What a receipt calls a source file: its bare name where the directory that
/// holds it is named with the scratch prefix, else its own path.
pub open spec fn source_name(file: Seq<char>, scratch_prefix: Seq<char>) -> Seq<char> {
    let names = path_names(file);
    let n = names.len() as int;
    if n >= 2 && names[n - 1] != seq!['.', '.'] && names[n - 2] != seq!['.', '.'] && has_prefix(
        names[n - 2],
        scratch_prefix,
    ) {
        names[n - 1]
    } else {
        file
    }
}

/// What a receipt calls a source file.
///
/// Its own path, except for the scratch copy of an inline source, which is
/// recorded as its bare name: the directory that holds it is chosen fresh on
/// every call and is not part of what was proved. `scratch_prefix` is how the
/// names of those directories start.
pub fn receipt_source_path(file: &str, scratch_prefix: &str) -> (r: String)
    ensures
        r@ == source_name(file@, scratch_prefix@),
{
    proof {
        reveal_strlit(".");
        reveal_strlit("..");
        assert("."@ == seq!['.']);
        assert(".."@ == seq!['.', '.']);
    }
    let parts = split_at_char(file, '/');
    let ghost all = views(parts@);
    let mut names: Vec<String> = Vec::new();
    let mut i: usize = 0;
    assert(views(names@) == filter_map(all.take(0), name_part()));
    while i < parts.len()
        invariant
            i <= parts@.len(),
            all == views(parts@),
            "."@ == seq!['.'],
            views(names@) == filter_map(all.take(i as int), name_part()),
        decreases parts@.len() - i,
    {
        proof {
            lemma_filter_map_step(all, name_part(), i as int);
        }
        let ghost before = views(names@);
        if !parts[i].as_str().is_empty() && !same(parts[i].as_str(), ".") {
            names.push(parts[i].clone());
            assert(views(names@) == before.push(parts@[i as int]@));
        }
        i = i + 1;
    }
    assert(all.take(i as int) == all);
    let ghost listed = path_names(file@);
    assert(views(names@) == listed);
    let n: usize = names.len();
    if n >= 2 {
        assert(listed[n - 1] == names@[n - 1]@);
        assert(listed[n - 2] == names@[n - 2]@);
        if !same(names[n - 1].as_str(), "..") && !same(names[n - 2].as_str(), "..") && starts_with(
            names[n - 2].as_str(),
            scratch_prefix,
        ) {
            return names[n - 1].clone();
        }
    }
    file.to_owned()
}

/// Whether `s` can name a file or a directory: not empty, no slash, not one of
/// the two names with a meaning of their own.
pub open spec fn is_name(s: Seq<char>) -> bool {
    s.len() > 0 && !s.contains('/') && s != seq!['.'] && s != seq!['.', '.']
}

pub proof fn lemma_split_concat(a: Seq<char>, b: Seq<char>, c: char)
    ensures
        split(a + seq![c] + b, c) == split(a, c) + split(b, c),
    decreases a.len(),
{
    let whole_text = a + seq![c] + b;
    lemma_find(a, c);
    lemma_find(whole_text, c);
    let n = find(a, c) as int;
    let m = find(whole_text, c) as int;
    if n < a.len() {
        if m < n {
            assert(whole_text[m] == a[m]);
        }
        if n < m {
            assert(whole_text[n] == a[n]);
        }
        assert(m == n);
        assert(whole_text.take(n) == a.take(n));
        assert(whole_text.skip(n + 1) == a.skip(n + 1) + seq![c] + b);
        lemma_split_concat(a.skip(n + 1), b, c);
        assert(split(whole_text, c) == seq![a.take(n)] + (split(a.skip(n + 1), c) + split(b, c)));
        assert(split(a, c) == seq![a.take(n)] + split(a.skip(n + 1), c));
        assert(split(whole_text, c) == split(a, c) + split(b, c));
    } else {
        if m < a.len() {
            assert(whole_text[m] == a[m]);
        }
        if a.len() < m {
            assert(whole_text[a.len() as int] == c);
        }
        assert(m == a.len());
        assert(whole_text.take(m) == a);
        assert(whole_text.skip(m + 1) == b);
        assert(split(a, c) == seq![a]);
    }
}

proof fn lemma_filter_map_concat<A, B>(a: Seq<A>, b: Seq<A>, f: spec_fn(A) -> Option<B>)
    ensures
        filter_map(a + b, f) == filter_map(a, f) + filter_map(b, f),
    decreases b.len(),
{
    if b.len() == 0 {
        assert(a + b == a);
        assert(filter_map(b, f) == Seq::<B>::empty());
        assert(filter_map(a, f) + filter_map(b, f) == filter_map(a, f));
    } else {
        lemma_filter_map_concat(a, b.drop_last(), f);
        assert((a + b).drop_last() == a + b.drop_last());
        assert((a + b).last() == b.last());
        assert(filter_map(a + b, f) == filter_map(a, f) + filter_map(b, f));
    }
}

proof fn lemma_path_names_of_name(s: Seq<char>)
    requires
        is_name(s),
    ensures
        path_names(s) == seq![s],
{
    lemma_find(s, '/');
    if find(s, '/') < s.len() {
        assert(s.contains(s[find(s, '/') as int]));
    }
    assert(split(s, '/') == seq![s]);
    assert(seq![s].drop_last() == Seq::<Seq<char>>::empty());
    assert(filter_map(seq![s].drop_last(), name_part()) == Seq::<Seq<char>>::empty());
    assert(filter_map(seq![s], name_part()) == seq![s]);
}

/// Where the scratch directory lies and what it is called do not matter: a
/// file in a directory named with the scratch prefix is recorded as its bare
/// name.
pub proof fn law_scratch_directory_does_not_matter(
    above: Seq<char>,
    directory: Seq<char>,
    name: Seq<char>,
    scratch_prefix: Seq<char>,
)
    requires
        is_name(directory),
        is_name(name),
        has_prefix(directory, scratch_prefix),
    ensures
        source_name(above + seq!['/'] + directory + seq!['/'] + name, scratch_prefix) == name,
{
    let head = above + seq!['/'] + directory;
    let file = head + seq!['/'] + name;
    lemma_split_concat(head, name, '/');
    lemma_split_concat(above, directory, '/');
    lemma_filter_map_concat(split(head, '/'), split(name, '/'), name_part());
    lemma_filter_map_concat(split(above, '/'), split(directory, '/'), name_part());
    lemma_path_names_of_name(directory);
    lemma_path_names_of_name(name);
    let names = path_names(file);
    assert(names == path_names(above) + seq![directory] + seq![name]);
    assert(names[names.len() - 1] == name);
    assert(names[names.len() - 2] == directory);
}

// ---------------------------------------------------------------------------
// The source files
// ---------------------------------------------------------------------------

/// A source file as it was read.
#[derive(Debug, PartialEq, Eq)]
pub struct SourceRead {
    /// The path it was read from.
    pub file: String,
    /// Its bytes, or why it could not be read.
    pub content: Result<Vec<u8>, String>,
}

/// What a receipt says of a source file.
pub open spec fn source_entry(read: SourceRead, scratch_prefix: Seq<char>) -> JsonView {
    let path = JsonView::Text(source_name(read.file@, scratch_prefix));
    match read.content {
        Ok(bytes) => JsonView::Object(
            seq![("path"@, path), ("sha256"@, JsonView::Text(hex(sha256(bytes@))))],
        ),
        Err(error) => JsonView::Object(
            seq![
                ("path"@, path),
                ("sha256"@, JsonView::Null),
                ("error"@, JsonView::Text(error@)),
            ],
        ),
    }
}

/// What a receipt says of source files, by path.
pub open spec fn source_entries(reads: Seq<SourceRead>, scratch_prefix: Seq<char>) -> Seq<
    JsonView,
> {
    sorted_entries(
        reads.map_values(|read: SourceRead| source_entry(read, scratch_prefix)),
        "path"@,
        "path"@,
    )
}

/// What a receipt says of one source file.
fn make_source_entry(read: &SourceRead, scratch_prefix: &str) -> (r: Json)
    ensures
        r@ == source_entry(*read, scratch_prefix@),
{
    broadcast use {lemma_array_view, lemma_object_view};
    let path = receipt_source_path(read.file.as_str(), scratch_prefix);
    let mut entry = no_members();
    member(&mut entry, "path", Json::Text(path));
    match &read.content {
        Ok(bytes) => {
            member(&mut entry, "sha256", Json::Text(sha256_hex(bytes.as_slice())));
        },
        Err(error) => {
            member(&mut entry, "sha256", Json::Null);
            member(&mut entry, "error", Json::text(error.as_str()));
        },
    }
    assert(member_models(entry@) == source_entry(*read, scratch_prefix@)->Object_0);
    Json::Object(entry)
}

/// The files with the hashes of their contents, in the order of the paths that
/// the receipt calls them by.
pub fn proof_receipt_source_files(reads: &Vec<SourceRead>, scratch_prefix: &str) -> (r: Vec<Json>)
    ensures
        models(r@) == source_entries(reads@, scratch_prefix@),
{
    let ghost all = reads@.map_values(|read: SourceRead| source_entry(read, scratch_prefix@));
    let mut entries: Vec<Json> = Vec::new();
    let mut i: usize = 0;
    while i < reads.len()
        invariant
            i <= reads@.len(),
            all == reads@.map_values(|read: SourceRead| source_entry(read, scratch_prefix@)),
            models(entries@) == all.take(i as int),
        decreases reads@.len() - i,
    {
        let ghost before = models(entries@);
        let entry = make_source_entry(&reads[i], scratch_prefix);
        entries.push(entry);
        assert(models(entries@) == before.push(entry@));
        assert(all.take(i + 1) == all.take(i as int).push(entry@));
        i = i + 1;
    }
    assert(all.take(i as int) == all);
    sort_entries(&entries, "path", "path")
}

// ---------------------------------------------------------------------------
// The goals
// ---------------------------------------------------------------------------

/// A goal with `label` as its hash label, where it is an object that has none.
pub open spec fn labelled(goal: JsonView, label: Option<Seq<char>>) -> JsonView {
    match (goal, label) {
        (JsonView::Object(members), Some(text)) => if lookup(members, "hash_label"@) is None {
            JsonView::Object(put(members, "hash_label"@, JsonView::Text(text)))
        } else {
            goal
        },
        _ => goal,
    }
}

/// Gives a goal the label it was classified by, unless it carries one.
///
/// The stable identifier of a goal that carries a label is the label itself,
/// so the receipt and the goal list name an injected annotation alike.
pub fn attach_hash_label(goal: &mut Json, label: Option<&str>)
    ensures
        final(goal)@ == labelled(old(goal)@, opt_text(label)),
{
    if let Some(text) = label {
        if goal.get("hash_label").is_none() {
            goal.insert("hash_label", Json::text(text));
        }
    }
}

/// Whether the verdict on a goal was replayed from a cache, as the goal says;
/// false where it does not say.
pub open spec fn replayed(goal: JsonView) -> JsonView {
    match goal.get("from_cache"@) {
        Some(flag) => flag,
        None => JsonView::Bool(false),
    }
}

/// What a receipt says of a goal: which one it is, what WP decided, and
/// whether that verdict was replayed from a cache.
pub open spec fn goal_entry(goal: JsonView) -> JsonView {
    JsonView::Object(
        seq![
            ("stable_goal_id"@, goal.get_or_null("stable_goal_id"@)),
            ("status"@, text_or_null(goal_status(goal))),
            ("from_cache"@, replayed(goal)),
        ],
    )
}

/// What a receipt says of the goals, by identifier and then by status.
pub open spec fn goal_entries(goals: Seq<JsonView>) -> Seq<JsonView> {
    sorted_entries(
        goals.map_values(|goal: JsonView| goal_entry(goal)),
        "stable_goal_id"@,
        "status"@,
    )
}

/// What a receipt says of one goal.
fn make_goal_entry(goal: &Json) -> (r: Json)
    ensures
        r@ == goal_entry(goal@),
{
    broadcast use {lemma_array_view, lemma_object_view};
    let cached = match goal.get("from_cache") {
        Some(flag) => flag.clone(),
        None => Json::Bool(false),
    };
    let mut entry = no_members();
    member(&mut entry, "stable_goal_id", goal.get_or_null("stable_goal_id"));
    member(&mut entry, "status", Json::opt_text(own_status(goal)));
    member(&mut entry, "from_cache", cached);
    assert(member_models(entry@) == goal_entry(goal@)->Object_0);
    Json::Object(entry)
}

/// The goals as a receipt states them, in the order of their identifiers and,
/// under one identifier, of their verdicts.
///
/// `goals` carry their stable identifiers already.
pub fn proof_receipt_goals(goals: &Vec<Json>) -> (r: Vec<Json>)
    ensures
        models(r@) == goal_entries(models(goals@)),
{
    let ghost all = models(goals@).map_values(|goal: JsonView| goal_entry(goal));
    let mut entries: Vec<Json> = Vec::new();
    let mut i: usize = 0;
    while i < goals.len()
        invariant
            i <= goals@.len(),
            all == models(goals@).map_values(|goal: JsonView| goal_entry(goal)),
            models(entries@) == all.take(i as int),
        decreases goals@.len() - i,
    {
        let ghost before = models(entries@);
        let entry = make_goal_entry(&goals[i]);
        entries.push(entry);
        assert(models(entries@) == before.push(entry@));
        assert(all.take(i + 1) == all.take(i as int).push(entry@));
        i = i + 1;
    }
    assert(all.take(i as int) == all);
    sort_entries(&entries, "stable_goal_id", "status")
}

// ---------------------------------------------------------------------------
// The text of a clause
// ---------------------------------------------------------------------------

/// The prefixes of generated labels.
pub open spec fn generated_prefix(s: Seq<char>) -> bool {
    ||| s == "re"@
    ||| s == "en"@
    ||| s == "as"@
    ||| s == "li"@
    ||| s == "la"@
    ||| s == "lv"@
    ||| s == "at"@
    ||| s == "an"@
}

/// Whether `s` is a run of eight hexadecimal digits.
pub open spec fn eight_hex(s: Seq<char>) -> bool {
    s.len() == 8 && forall|i: int| 0 <= i < s.len() ==> is_hex(#[trigger] s[i])
}

/// Whether a label was generated: a known prefix, then eight hexadecimal
/// digits, parted by an underscore from each other and from what follows.
pub open spec fn generated_label(label: Seq<char>) -> bool {
    let parts = split(label, '_');
    parts.len() >= 2 && generated_prefix(parts[0]) && eight_hex(parts[1])
}

/// The text of a clause without a generated label in front of it.
pub open spec fn clause_text(text: Seq<char>) -> Seq<char> {
    match split_once(text, ": "@) {
        Some((label, rest)) => if generated_label(label) {
            trim(rest)
        } else {
            trim(text)
        },
        None => trim(text),
    }
}

/// Whether `text` is a run of eight hexadecimal digits.
fn is_eight_hex(text: &str) -> (r: bool)
    ensures
        r == eight_hex(text@),
{
    let chars = chars_of(text);
    if chars.len() != 8 {
        return false;
    }
    let mut i: usize = 0;
    while i < chars.len()
        invariant
            i <= chars@.len(),
            chars@ == text@,
            forall|k: int| 0 <= k < i ==> is_hex(#[trigger] chars@[k]),
        decreases chars@.len() - i,
    {
        if !hex_digit(chars[i]) {
            assert(!is_hex(text@[i as int]));
            return false;
        }
        i = i + 1;
    }
    true
}

/// Whether `text` is the prefix of a generated label.
fn is_generated_prefix(text: &str) -> (r: bool)
    ensures
        r == generated_prefix(text@),
{
    same(text, "re") || same(text, "en") || same(text, "as") || same(text, "li") || same(text, "la")
        || same(text, "lv") || same(text, "at") || same(text, "an")
}

/// Drops a generated hash label from the text of a clause, and the white space
/// around what is left.
///
/// An injected clause reads `an_ffed752e_Req0: x >= 0`. The label is fresh for
/// each injection, so leaving it in would make two identical contracts compare
/// unequal.
pub fn strip_generated_label(text: &str) -> (r: String)
    ensures
        r@ == clause_text(text@),
{
    if let Some((label, rest)) = cut_once(text, ": ") {
        let parts = split_at_char(label.as_str(), '_');
        assert(parts@.len() == split(label@, '_').len());
        if parts.len() >= 2 {
            assert(parts@[0]@ == split(label@, '_')[0]);
            assert(parts@[1]@ == split(label@, '_')[1]);
            if is_generated_prefix(parts[0].as_str()) && is_eight_hex(parts[1].as_str()) {
                return trimmed(rest.as_str());
            }
        }
    }
    trimmed(text)
}

proof fn lemma_split_whole(s: Seq<char>, c: char)
    requires
        !s.contains(c),
    ensures
        split(s, c) == seq![s],
{
    lemma_find(s, c);
    if find(s, c) < s.len() {
        assert(s.contains(s[find(s, c) as int]));
    }
}

pub proof fn lemma_generated_prefix(s: Seq<char>)
    requires
        generated_prefix(s),
    ensures
        !s.contains('_'),
        !s.contains(':'),
{
    reveal_strlit("re");
    reveal_strlit("en");
    reveal_strlit("as");
    reveal_strlit("li");
    reveal_strlit("la");
    reveal_strlit("lv");
    reveal_strlit("at");
    reveal_strlit("an");
}

/// Cutting at a separator of two different characters.
proof fn lemma_cut_at(label: Seq<char>, sep: Seq<char>, text: Seq<char>)
    requires
        sep.len() == 2,
        sep[0] != sep[1],
        !has_part(label, sep),
    ensures
        split_once(label + sep + text, sep) == Some((label, text)),
{
    let all = label + sep + text;
    let at = label.len() as int;
    assert(all.subrange(at, at + 2) == sep);
    assert(occurs_at(all, sep, at));
    assert forall|k: int| 0 <= k < at implies !occurs_at(all, sep, k) by {
        if occurs_at(all, sep, k) {
            let found = all.subrange(k, k + 2);
            assert(found == sep);
            if k + 1 == at {
                assert(found[1] == all[at]);
                assert(all[at] == sep[0]);
            } else {
                assert(label.subrange(k, k + 2) == found);
                assert(occurs_at(label, sep, k));
            }
        }
    }
    lemma_first_at(all, sep, at);
    assert(all.take(at) == label);
    assert(all.skip(at + 2) == text);
}

/// Cutting at the first colon with a space behind it.
pub proof fn lemma_cut_at_colon(label: Seq<char>, text: Seq<char>)
    requires
        !has_part(label, ": "@),
    ensures
        split_once(label + ": "@ + text, ": "@) == Some((label, text)),
{
    reveal_strlit(": ");
    lemma_cut_at(label, ": "@, text);
}

/// The parts of a generated label.
pub proof fn lemma_generated_label(prefix: Seq<char>, digits: Seq<char>, tail: Seq<char>)
    requires
        generated_prefix(prefix),
        eight_hex(digits),
        tail.len() > 0 ==> tail[0] == '_',
    ensures
        generated_label(prefix + seq!['_'] + digits + tail),
{
    let label = prefix + seq!['_'] + digits + tail;
    lemma_generated_prefix(prefix);
    assert(!digits.contains('_')) by {
        if digits.contains('_') {
            let i = choose|i: int| 0 <= i < digits.len() && digits[i] == '_';
            assert(is_hex(digits[i]));
        }
    }
    lemma_split_concat(prefix, digits + tail, '_');
    lemma_split_whole(prefix, '_');
    lemma_split_whole(digits, '_');
    assert(prefix + seq!['_'] + (digits + tail) == label);
    if tail.len() == 0 {
        assert(digits + tail == digits);
    } else {
        lemma_split_concat(digits, tail.skip(1), '_');
        assert(digits + seq!['_'] + tail.skip(1) == digits + tail);
    }
    assert(split(label, '_')[0] == prefix);
    assert(split(label, '_')[1] == digits);
}

/// A colon with a space behind it in a generated label stands in its tail.
proof fn lemma_colon_in_tail(prefix: Seq<char>, digits: Seq<char>, tail: Seq<char>, k: int)
    requires
        generated_prefix(prefix),
        eight_hex(digits),
        occurs_at(prefix + seq!['_'] + digits + tail, ": "@, k),
    ensures
        has_part(tail, ": "@),
{
    reveal_strlit(": ");
    let sep = ": "@;
    let label = prefix + seq!['_'] + digits + tail;
    let n = prefix.len() as int;
    let m = n + 1 + digits.len();
    lemma_generated_prefix(prefix);
    assert(label.subrange(k, k + sep.len())[0] == ':');
    assert(label[k] == ':');
    if k < n {
        assert(prefix.contains(prefix[k]));
    } else if n < k && k < m {
        assert(is_hex(digits[k - n - 1]));
    }
    assert(k >= m);
    assert(tail.subrange(k - m, k - m + sep.len()) == label.subrange(k, k + sep.len()));
    assert(occurs_at(tail, sep, k - m));
}

/// The label that an injection generated does not matter: whatever its prefix,
/// its digits and what follows them, the clause reads the same without it.
pub proof fn law_generated_label_does_not_matter(
    prefix: Seq<char>,
    digits: Seq<char>,
    tail: Seq<char>,
    text: Seq<char>,
)
    requires
        generated_prefix(prefix),
        eight_hex(digits),
        tail.len() > 0 ==> tail[0] == '_',
        !has_part(tail, ": "@),
    ensures
        clause_text(prefix + seq!['_'] + digits + tail + ": "@ + text) == trim(text),
{
    let label = prefix + seq!['_'] + digits + tail;
    assert(!has_part(label, ": "@)) by {
        if has_part(label, ": "@) {
            let k = choose|k: int| occurs_at(label, ": "@, k);
            lemma_colon_in_tail(prefix, digits, tail, k);
        }
    }
    lemma_cut_at_colon(label, text);
    lemma_generated_label(prefix, digits, tail);
}

// ---------------------------------------------------------------------------
// The contracts
// ---------------------------------------------------------------------------

/// What the source of the goals is called when the files on disk were proved
/// in a process of their own, which saw nothing that was injected.
pub const ISOLATED_RETRY: &'static str = "unavailable_isolated_cli_retry";

/// A clause of a contract by its own kind and without its label; an entry that
/// states no kind is of the kind that its array is named after.
pub open spec fn clause_entry(array: Seq<char>) -> spec_fn(JsonView) -> Option<
    (Seq<char>, Seq<char>),
> {
    |entry: JsonView|
        match entry.get("predicate"@) {
            Some(predicate) => match predicate.text_at("text"@) {
                Some(text) => Some(
                    (
                        match entry.text_at("kind"@) {
                            Some(kind) => kind,
                            None => array,
                        },
                        clause_text(text),
                    ),
                ),
                None => None,
            },
            None => None,
        }
}

/// The clauses of a contract: the preconditions, then the postconditions.
pub open spec fn contract_clauses(contract: JsonView) -> Seq<(Seq<char>, Seq<char>)> {
    filter_map(contract.items_at("requires"@), clause_entry("requires"@)) + filter_map(
        contract.items_at("ensures"@),
        clause_entry("ensures"@),
    )
}

/// The names of one group of behaviors as ACSL writes them; nothing for a
/// group without names.
pub open spec fn group_text() -> spec_fn(JsonView) -> Option<Seq<char>> {
    |entry: JsonView|
        {
            let names = filter_map(entry.items(), string_text());
            if names.len() > 0 {
                Some(join(names, ", "@))
            } else {
                None
            }
        }
}

/// The groups of behaviors that a contract states to be complete or disjoint.
pub open spec fn behavior_groups(contract: JsonView, name: Seq<char>) -> Seq<Seq<char>> {
    filter_map(contract.items_at(name), group_text())
}

/// The text of a clause of this kind.
pub open spec fn of_kind(kind: Seq<char>) -> spec_fn((Seq<char>, Seq<char>)) -> Option<Seq<char>> {
    |clause: (Seq<char>, Seq<char>)|
        if clause.0 == kind {
            Some(clause.1)
        } else {
            None
        }
}

/// What a contract states under one kind: the groups of behaviors for the two
/// kinds that name them and have any, else the clauses of that kind.
pub open spec fn kind_texts(contract: JsonView, kind: Seq<char>) -> Seq<Seq<char>> {
    if (kind == "complete"@ || kind == "disjoint"@) && behavior_groups(contract, kind).len() > 0 {
        behavior_groups(contract, kind)
    } else {
        filter_map(contract_clauses(contract), of_kind(kind))
    }
}

/// The name of a list of groups that is not empty.
pub open spec fn group_kind(contract: JsonView, name: Seq<char>) -> Seq<Seq<char>> {
    if behavior_groups(contract, name).len() > 0 {
        seq![name]
    } else {
        Seq::empty()
    }
}

/// The kinds under which a contract states something.
pub open spec fn stated_kinds(contract: JsonView) -> Seq<Seq<char>> {
    contract_clauses(contract).map_values(|clause: (Seq<char>, Seq<char>)| clause.0) + group_kind(
        contract,
        "complete"@,
    ) + group_kind(contract, "disjoint"@)
}

/// The kinds under which a contract states something, in order, each once.
pub open spec fn contract_kinds(contract: JsonView) -> Seq<Seq<char>> {
    sorted_distinct(stated_kinds(contract))
}

/// The array of these texts.
pub open spec fn text_array(texts: Seq<Seq<char>>) -> JsonView {
    JsonView::Array(texts.map_values(|text: Seq<char>| JsonView::Text(text)))
}

/// A contract as a receipt states it: under each kind its texts, in order,
/// each once.
pub open spec fn contract_snapshot(contract: JsonView) -> Seq<(Seq<char>, JsonView)> {
    contract_kinds(contract).map_values(
        |kind: Seq<char>| (kind, text_array(sorted_distinct(kind_texts(contract, kind)))),
    )
}

/// The contract in what was answered for a function, as a receipt states it;
/// nothing where it is not there or states nothing.
pub open spec fn function_contract(context: Option<JsonView>) -> Option<JsonView> {
    match context {
        Some(answer) => match answer.get("function"@) {
            Some(function) => match function.get("contract"@) {
                Some(contract) => if contract_kinds(contract).len() > 0 {
                    Some(JsonView::Object(contract_snapshot(contract)))
                } else {
                    None
                },
                None => None,
            },
            None => None,
        },
        None => None,
    }
}

/// The contracts of the functions in scope, by function.
pub open spec fn function_contracts(contexts: Seq<(Seq<char>, Option<JsonView>)>) -> Seq<
    (Seq<char>, JsonView),
>
    decreases contexts.len(),
{
    if contexts.len() == 0 {
        Seq::empty()
    } else {
        let earlier = function_contracts(contexts.drop_last());
        match function_contract(contexts.last().1) {
            Some(contract) => put(earlier, contexts.last().0, contract),
            None => earlier,
        }
    }
}

/// The functions that a WP configuration lists.
pub open spec fn listed_functions(wp_config: JsonView) -> Seq<Seq<char>> {
    filter_map(wp_config.items_at("functions"@), string_text())
}

/// Each function with what was answered about it; nothing where there is no
/// answer.
pub open spec fn with_answers(functions: Seq<Seq<char>>, answers: Seq<Option<JsonView>>) -> Seq<
    (Seq<char>, Option<JsonView>),
> {
    Seq::new(
        functions.len(),
        |i: int|
            (
                functions[i],
                if i < answers.len() {
                    answers[i]
                } else {
                    None
                },
            ),
    )
}

/// What a receipt says of the contracts that a run proved under: those of the
/// functions that the configuration lists, or, for a retry in a process of its
/// own, that they are unavailable.
pub open spec fn receipt_contracts(
    wp_config: JsonView,
    goals_status_source: Seq<char>,
    answers: Seq<Option<JsonView>>,
) -> JsonView {
    if goals_status_source == ISOLATED_RETRY@ {
        JsonView::Text(ISOLATED_RETRY@)
    } else {
        JsonView::Object(
            function_contracts(with_answers(listed_functions(wp_config), answers)),
        )
    }
}

/// The view of an answer.
pub open spec fn answer_view(answer: Option<Json>) -> Option<JsonView> {
    match answer {
        Some(json) => Some(json@),
        None => None,
    }
}

/// What was answered, as values.
pub open spec fn answer_views(answers: Seq<Option<Json>>) -> Seq<Option<JsonView>> {
    answers.map_values(|answer: Option<Json>| answer_view(answer))
}

/// The clauses of a list, as values.
pub open spec fn clause_views(clauses: Seq<(String, String)>) -> Seq<(Seq<char>, Seq<char>)> {
    clauses.map_values(|clause: (String, String)| (clause.0@, clause.1@))
}

/// Appends the clauses of one array.
fn push_clauses(out: &mut Vec<(String, String)>, contract: &Json, array: &str)
    ensures
        clause_views(final(out)@) == clause_views(old(out)@) + filter_map(
            contract@.items_at(array@),
            clause_entry(array@),
        ),
{
    let entries = contract.items_at(array);
    let ghost all = ref_models(entries@);
    let ghost f = clause_entry(array@);
    let ghost start = clause_views(out@);
    let mut i: usize = 0;
    assert(start + filter_map(all.take(0), f) == start);
    while i < entries.len()
        invariant
            i <= entries@.len(),
            all == ref_models(entries@),
            f == clause_entry(array@),
            clause_views(out@) == start + filter_map(all.take(i as int), f),
        decreases entries@.len() - i,
    {
        proof {
            lemma_filter_map_step(all, f, i as int);
        }
        let ghost before = clause_views(out@);
        let entry = entries[i];
        assert(entry@ == all[i as int]);
        if let Some(predicate) = entry.get("predicate") {
            if let Some(text) = predicate.text_at("text") {
                let kind = match entry.text_at("kind") {
                    Some(kind) => kind,
                    None => array,
                };
                let clause = (kind.to_owned(), strip_generated_label(text));
                out.push(clause);
                assert(clause_views(out@) == before.push((clause.0@, clause.1@)));
            }
        }
        i = i + 1;
    }
    assert(all.take(i as int) == all);
}

/// The groups of behaviors that a contract states to be complete or disjoint.
fn groups_of(contract: &Json, name: &str) -> (r: Vec<String>)
    ensures
        views(r@) == behavior_groups(contract@, name@),
{
    let entries = contract.items_at(name);
    let ghost all = ref_models(entries@);
    let mut out: Vec<String> = Vec::new();
    let mut i: usize = 0;
    assert(views(out@) == filter_map(all.take(0), group_text()));
    while i < entries.len()
        invariant
            i <= entries@.len(),
            all == ref_models(entries@),
            views(out@) == filter_map(all.take(i as int), group_text()),
        decreases entries@.len() - i,
    {
        proof {
            lemma_filter_map_step(all, group_text(), i as int);
        }
        let ghost before = views(out@);
        let names = strings_of(&entries[i].items());
        assert(names@.len() == views(names@).len());
        if names.len() > 0 {
            let group = joined(&names, ", ");
            out.push(group);
            assert(views(out@) == before.push(group@));
        }
        i = i + 1;
    }
    assert(all.take(i as int) == all);
    out
}

/// The texts of the clauses of one kind.
fn texts_of_kind(clauses: &Vec<(String, String)>, kind: &str) -> (r: Vec<String>)
    ensures
        views(r@) == filter_map(clause_views(clauses@), of_kind(kind@)),
{
    let ghost all = clause_views(clauses@);
    let ghost f = of_kind(kind@);
    let mut out: Vec<String> = Vec::new();
    let mut i: usize = 0;
    assert(views(out@) == filter_map(all.take(0), f));
    while i < clauses.len()
        invariant
            i <= clauses@.len(),
            all == clause_views(clauses@),
            f == of_kind(kind@),
            views(out@) == filter_map(all.take(i as int), f),
        decreases clauses@.len() - i,
    {
        proof {
            lemma_filter_map_step(all, f, i as int);
        }
        let ghost before = views(out@);
        if same(clauses[i].0.as_str(), kind) {
            out.push(clauses[i].1.clone());
            assert(views(out@) == before.push(clauses@[i as int].1@));
        }
        i = i + 1;
    }
    assert(all.take(i as int) == all);
    out
}

/// The array of these texts.
fn make_text_array(texts: &Vec<String>) -> (r: Json)
    ensures
        r@ == text_array(views(texts@)),
{
    broadcast use {lemma_array_view, lemma_object_view};
    let ghost all = views(texts@).map_values(|text: Seq<char>| JsonView::Text(text));
    let mut out: Vec<Json> = Vec::new();
    let mut i: usize = 0;
    while i < texts.len()
        invariant
            i <= texts@.len(),
            all == views(texts@).map_values(|text: Seq<char>| JsonView::Text(text)),
            models(out@) == all.take(i as int),
        decreases texts@.len() - i,
    {
        let ghost before = models(out@);
        let text = Json::text(texts[i].as_str());
        out.push(text);
        assert(models(out@) == before.push(text@));
        assert(all.take(i + 1) == all.take(i as int).push(text@));
        i = i + 1;
    }
    assert(all.take(i as int) == all);
    Json::Array(out)
}

/// The kinds under which a contract states something, in order, each once.
fn kinds_of(
    clauses: &Vec<(String, String)>,
    complete: &Vec<String>,
    disjoint: &Vec<String>,
    contract: Ghost<JsonView>,
) -> (r: Vec<String>)
    requires
        clause_views(clauses@) == contract_clauses(contract@),
        views(complete@) == behavior_groups(contract@, "complete"@),
        views(disjoint@) == behavior_groups(contract@, "disjoint"@),
    ensures
        views(r@) == contract_kinds(contract@),
{
    let ghost all = clause_views(clauses@).map_values(
        |clause: (Seq<char>, Seq<char>)| clause.0,
    );
    let mut kinds: Vec<String> = Vec::new();
    let mut i: usize = 0;
    while i < clauses.len()
        invariant
            i <= clauses@.len(),
            all == clause_views(clauses@).map_values(|clause: (Seq<char>, Seq<char>)| clause.0),
            views(kinds@) == all.take(i as int),
        decreases clauses@.len() - i,
    {
        let ghost before = views(kinds@);
        kinds.push(clauses[i].0.clone());
        assert(views(kinds@) == before.push(all[i as int]));
        assert(all.take(i + 1) == all.take(i as int).push(all[i as int]));
        i = i + 1;
    }
    assert(all.take(i as int) == all);
    assert(complete@.len() == views(complete@).len());
    assert(disjoint@.len() == views(disjoint@).len());
    if complete.len() > 0 {
        kinds.push("complete".to_owned());
    }
    assert(views(kinds@) == all + group_kind(contract@, "complete"@));
    if disjoint.len() > 0 {
        kinds.push("disjoint".to_owned());
    }
    assert(views(kinds@) == all + group_kind(contract@, "complete"@) + group_kind(
        contract@,
        "disjoint"@,
    ));
    sort_distinct(&kinds)
}

/// A contract as a receipt states it; nothing where it states nothing.
///
/// Clauses are grouped by their own kind and not by the array they came from:
/// an exits clause stands among the postconditions, tagged as what it is.
/// Groups of behaviors are kept whole, because one group of two names and two
/// groups of one name say different things.
fn snapshot_of(contract: &Json) -> (r: Option<Json>)
    ensures
        match r {
            Some(snapshot) => contract_kinds(contract@).len() > 0 && snapshot@ == JsonView::Object(
                contract_snapshot(contract@),
            ),
            None => contract_kinds(contract@).len() == 0,
        },
{
    let ghost c = contract@;
    let mut clauses: Vec<(String, String)> = Vec::new();
    assert(clause_views(clauses@) == Seq::<(Seq<char>, Seq<char>)>::empty());
    push_clauses(&mut clauses, contract, "requires");
    push_clauses(&mut clauses, contract, "ensures");
    assert(clause_views(clauses@) == contract_clauses(c));
    let complete = groups_of(contract, "complete");
    let disjoint = groups_of(contract, "disjoint");
    let kinds = kinds_of(&clauses, &complete, &disjoint, Ghost(c));
    assert(kinds@.len() == contract_kinds(c).len());
    assert(complete@.len() == views(complete@).len());
    assert(disjoint@.len() == views(disjoint@).len());
    if kinds.len() == 0 {
        return None;
    }
    let ghost all = contract_snapshot(c);
    let mut out = no_members();
    let mut i: usize = 0;
    assert(all.take(0) == Seq::<(Seq<char>, JsonView)>::empty());
    while i < kinds.len()
        invariant
            i <= kinds@.len(),
            all == contract_snapshot(c),
            views(kinds@) == contract_kinds(c),
            clause_views(clauses@) == contract_clauses(c),
            views(complete@) == behavior_groups(c, "complete"@),
            views(disjoint@) == behavior_groups(c, "disjoint"@),
            complete@.len() == views(complete@).len(),
            disjoint@.len() == views(disjoint@).len(),
            member_models(out@) == all.take(i as int),
        decreases kinds@.len() - i,
    {
        let kind = kinds[i].as_str();
        assert(kind@ == contract_kinds(c)[i as int]);
        let texts = if same(kind, "complete") && complete.len() > 0 {
            sort_distinct(&complete)
        } else if same(kind, "disjoint") && disjoint.len() > 0 {
            sort_distinct(&disjoint)
        } else {
            sort_distinct(&texts_of_kind(&clauses, kind))
        };
        assert(views(texts@) == sorted_distinct(kind_texts(c, kind@)));
        member(&mut out, kind, make_text_array(&texts));
        assert(all.take(i + 1) == all.take(i as int).push(all[i as int]));
        i = i + 1;
    }
    assert(all.take(i as int) == all);
    proof {
        lemma_object_view(out);
    }
    Some(Json::Object(out))
}

/// The contract in what was answered for a function, as a receipt states it.
fn contract_of(answer: &Option<Json>) -> (r: Option<Json>)
    ensures
        answer_view(r) == function_contract(answer_view(*answer)),
{
    if let Some(answer) = answer {
        if let Some(function) = answer.get("function") {
            if let Some(contract) = function.get("contract") {
                return snapshot_of(contract);
            }
        }
    }
    None
}

/// The functions whose contracts a receipt records: those that WP was pointed
/// at, as its effective configuration lists them.
pub fn contract_functions(wp_config: &Json) -> (r: Vec<String>)
    ensures
        views(r@) == listed_functions(wp_config@),
{
    strings_of(&wp_config.items_at("functions"))
}

/// The contracts that a run proved under, by function in scope.
///
/// The file hashes of a receipt do not cover what was injected in this
/// session, so the contracts are recorded beside them. `answers` holds, for
/// each of the [`contract_functions`] in order, what was answered about it. A
/// retry in a process of its own proved the files on disk and saw none of this,
/// so its receipt records no contracts.
pub fn proof_receipt_contracts(
    wp_config: &Json,
    goals_status_source: &str,
    answers: &Vec<Option<Json>>,
) -> (r: Json)
    ensures
        r@ == receipt_contracts(wp_config@, goals_status_source@, answer_views(answers@)),
{
    if same(goals_status_source, ISOLATED_RETRY) {
        return Json::text(ISOLATED_RETRY);
    }
    let functions = contract_functions(wp_config);
    let ghost named = listed_functions(wp_config@);
    let ghost all = with_answers(named, answer_views(answers@));
    let mut out = Json::Object(no_members());
    proof {
        lemma_object_view(out->Object_0);
    }
    let mut i: usize = 0;
    assert(all.take(0) == Seq::<(Seq<char>, Option<JsonView>)>::empty());
    while i < functions.len()
        invariant
            i <= functions@.len(),
            views(functions@) == named,
            all == with_answers(named, answer_views(answers@)),
            out@ == JsonView::Object(function_contracts(all.take(i as int))),
        decreases functions@.len() - i,
    {
        assert(functions@[i as int]@ == named[i as int]);
        assert(all.take(i + 1).drop_last() == all.take(i as int));
        assert(all.take(i + 1).last() == all[i as int]);
        if i < answers.len() {
            if let Some(contract) = contract_of(&answers[i]) {
                out.insert(functions[i].as_str(), contract);
            }
        }
        i = i + 1;
    }
    assert(all.take(i as int) == all);
    out
}

/// What is recorded under contracts is recorded once, and only for functions
/// that the configuration lists: no name occurs twice, neither among the
/// functions nor among the kinds under which a contract states something.
pub proof fn law_recorded_contracts_are_those_in_scope(
    functions: Seq<Seq<char>>,
    answers: Seq<Option<JsonView>>,
    contract: JsonView,
)
    ensures
        distinct_names(function_contracts(with_answers(functions, answers))),
        distinct_names(contract_snapshot(contract)),
        forall|i: int|
            0 <= i < function_contracts(with_answers(functions, answers)).len()
                ==> functions.contains(
                (#[trigger] function_contracts(with_answers(functions, answers))[i]).0,
            ),
{
    let contexts = with_answers(functions, answers);
    let recorded = function_contracts(contexts);
    lemma_recorded_names(contexts);
    assert forall|i: int| 0 <= i < recorded.len() implies functions.contains(
        (#[trigger] recorded[i]).0,
    ) by {
        let j = choose|j: int| 0 <= j < contexts.len() && (#[trigger] contexts[j]).0
            == recorded[i].0;
        assert(functions[j] == recorded[i].0);
    }
    let kinds = contract_kinds(contract);
    law_sorted_distinct(stated_kinds(contract));
    assert forall|i: int, j: int|
        0 <= i < j < contract_snapshot(contract).len() implies (
    #[trigger] contract_snapshot(contract)[i]).0 != (#[trigger] contract_snapshot(
        contract,
    )[j]).0 by {
        assert(before(kinds[i], kinds[j]));
        law_before_irreflexive(kinds[i]);
    }
}

proof fn lemma_recorded_names(contexts: Seq<(Seq<char>, Option<JsonView>)>)
    ensures
        distinct_names(function_contracts(contexts)),
        forall|i: int|
            0 <= i < function_contracts(contexts).len() ==> exists|j: int|
                0 <= j < contexts.len() && (#[trigger] contexts[j]).0 == (
                #[trigger] function_contracts(contexts)[i]).0,
    decreases contexts.len(),
{
    if contexts.len() > 0 {
        let init = contexts.drop_last();
        let last = contexts.last();
        let earlier = function_contracts(init);
        let recorded = function_contracts(contexts);
        lemma_recorded_names(init);
        if let Some(contract) = function_contract(last.1) {
            law_put_keeps_names_distinct(earlier, last.0, contract);
            lemma_key_position_found(earlier, last.0);
        }
        assert forall|i: int| 0 <= i < recorded.len() implies exists|j: int|
            0 <= j < contexts.len() && (#[trigger] contexts[j]).0 == (
            #[trigger] recorded[i]).0 by {
            if i < earlier.len() && recorded[i].0 == earlier[i].0 {
                let j = choose|j: int| 0 <= j < init.len() && (#[trigger] init[j]).0
                    == earlier[i].0;
                assert(contexts[j] == init[j]);
            } else {
                assert(contexts[contexts.len() - 1].0 == recorded[i].0);
            }
        }
    }
}

// ---------------------------------------------------------------------------
// The receipt
// ---------------------------------------------------------------------------

/// The schema that a receipt follows.
pub const RECEIPT_SCHEMA: &'static str = "frama-c-mcp.proof-receipt.v4";

/// What a receipt states, with everything resolved: the source files and
/// their hashes, the digest of the AST, the contracts as loaded, the
/// environment, and the goals with their stable identifiers.
pub struct ProofReceiptBody<'a> {
    pub tool: &'a str,
    pub source_files: Vec<Json>,
    pub ast_digest: Json,
    pub contracts: Json,
    pub environment: Json,
    pub wp_config: Json,
    pub goals: Vec<Json>,
    pub goals_status_source: &'a str,
    pub reported: Json,
}

/// What a [`ProofReceiptBody`] stands for.
pub struct BodyView {
    pub tool: Seq<char>,
    pub source_files: Seq<JsonView>,
    pub ast_digest: JsonView,
    pub contracts: JsonView,
    pub environment: JsonView,
    pub wp_config: JsonView,
    pub goals: Seq<JsonView>,
    pub goals_status_source: Seq<char>,
    pub reported: JsonView,
}

impl<'a> View for ProofReceiptBody<'a> {
    type V = BodyView;

    open spec fn view(&self) -> BodyView {
        BodyView {
            tool: self.tool@,
            source_files: models(self.source_files@),
            ast_digest: self.ast_digest@,
            contracts: self.contracts@,
            environment: self.environment@,
            wp_config: self.wp_config@,
            goals: models(self.goals@),
            goals_status_source: self.goals_status_source@,
            reported: self.reported@,
        }
    }
}

/// What a receipt is a receipt of.
pub open spec fn receipt_subject(body: BodyView) -> JsonView {
    JsonView::Object(
        seq![
            ("tool"@, JsonView::Text(body.tool)),
            ("source_hash"@, JsonView::Text(json_digest(JsonView::Array(body.source_files)))),
            ("ast_digest"@, body.ast_digest),
            ("files"@, JsonView::Array(body.source_files)),
            ("contracts"@, body.contracts),
        ],
    )
}

/// A receipt before it is hashed.
pub open spec fn receipt_body(body: BodyView) -> JsonView {
    JsonView::Object(
        seq![
            ("schema"@, JsonView::Text(RECEIPT_SCHEMA@)),
            ("subject"@, receipt_subject(body)),
            ("environment"@, body.environment),
            ("wp"@, body.wp_config),
            ("goals_status_source"@, JsonView::Text(body.goals_status_source)),
            ("goals"@, JsonView::Array(body.goals)),
            ("reported"@, body.reported),
        ],
    )
}

/// What a receipt is a receipt of. `files` is the array of the source files.
fn make_subject(
    tool: &str,
    source_hash: String,
    ast_digest: Json,
    files: Json,
    contracts: Json,
) -> (r: Json)
    ensures
        r@ == JsonView::Object(
            seq![
                ("tool"@, JsonView::Text(tool@)),
                ("source_hash"@, JsonView::Text(source_hash@)),
                ("ast_digest"@, ast_digest@),
                ("files"@, files@),
                ("contracts"@, contracts@),
            ],
        ),
{
    broadcast use lemma_object_view;
    let ghost wanted = seq![
        ("tool"@, JsonView::Text(tool@)),
        ("source_hash"@, JsonView::Text(source_hash@)),
        ("ast_digest"@, ast_digest@),
        ("files"@, files@),
        ("contracts"@, contracts@),
    ];
    let mut subject = no_members();
    member(&mut subject, "tool", Json::text(tool));
    member(&mut subject, "source_hash", Json::Text(source_hash));
    member(&mut subject, "ast_digest", ast_digest);
    member(&mut subject, "files", files);
    member(&mut subject, "contracts", contracts);
    assert(member_models(subject@) == wanted);
    Json::Object(subject)
}

/// A receipt before it is hashed.
pub fn proof_receipt_body(body: ProofReceiptBody<'_>) -> (r: Json)
    ensures
        r@ == receipt_body(body@),
{
    broadcast use {lemma_array_view, lemma_object_view};
    let ghost stated = body@;
    let files = Json::Array(body.source_files);
    let source_hash = json_sha256(&files);
    let subject = make_subject(body.tool, source_hash, body.ast_digest, files, body.contracts);
    assert(subject@ == receipt_subject(stated));
    let mut out = no_members();
    member(&mut out, "schema", Json::text(RECEIPT_SCHEMA));
    member(&mut out, "subject", subject);
    member(&mut out, "environment", body.environment);
    member(&mut out, "wp", body.wp_config);
    member(&mut out, "goals_status_source", Json::text(body.goals_status_source));
    member(&mut out, "goals", Json::Array(body.goals));
    member(&mut out, "reported", body.reported);
    assert(member_models(out@) == receipt_body(stated)->Object_0);
    Json::Object(out)
}

/// A receipt with the digest of everything in it; a value that is not an
/// object stays as it is.
pub open spec fn hashed(body: JsonView) -> JsonView {
    match body {
        JsonView::Object(members) => JsonView::Object(
            put(members, "sha256"@, JsonView::Text(json_digest(body))),
        ),
        _ => body,
    }
}

/// Adds to a receipt the digest of everything in it.
pub fn proof_receipt_with_hash(body: Json) -> (r: Json)
    ensures
        r@ == hashed(body@),
{
    let mut body = body;
    let digest = json_sha256(&body);
    body.insert("sha256", Json::Text(digest));
    body
}

/// What the probes of the tools answered.
pub struct ToolProbes {
    pub frama_c_version: Json,
    pub why3_provers: Json,
    pub opam_switch: Json,
}

/// The environment of a run, as the probes of its tools answered.
pub open spec fn environment(probes: ToolProbes) -> JsonView {
    JsonView::Object(
        seq![
            ("frama_c_version"@, probes.frama_c_version@),
            ("why3_provers"@, probes.why3_provers@),
            ("opam_switch"@, probes.opam_switch@),
        ],
    )
}

/// The environment of a run, as the probes of its tools answered.
pub fn receipt_environment(probes: ToolProbes) -> (r: Json)
    ensures
        r@ == environment(probes),
{
    broadcast use lemma_object_view;
    let ghost wanted = environment(probes)->Object_0;
    let mut out = no_members();
    member(&mut out, "frama_c_version", probes.frama_c_version);
    member(&mut out, "why3_provers", probes.why3_provers);
    member(&mut out, "opam_switch", probes.opam_switch);
    assert(member_models(out@) == wanted);
    Json::Object(out)
}

/// What a receipt is asked for, as it was gathered: the files as read, the
/// digest of the AST, what was answered about each of the
/// [`contract_functions`] in order, what the probes answered, and the goals with
/// their stable identifiers.
///
/// Named fields, because several of them have one type and two that changed
/// places would describe another run.
pub struct ProofReceiptRequest<'a> {
    pub tool: &'a str,
    pub source_files: Vec<SourceRead>,
    pub ast_digest: Json,
    pub answers: Vec<Option<Json>>,
    pub probes: ToolProbes,
    pub wp_config: Json,
    pub goals: Vec<Json>,
    pub goals_status_source: &'a str,
    pub reported: Json,
}

/// What a request resolves to.
pub open spec fn resolved(request: ProofReceiptRequest, scratch_prefix: Seq<char>) -> BodyView {
    BodyView {
        tool: request.tool@,
        source_files: source_entries(request.source_files@, scratch_prefix),
        ast_digest: request.ast_digest@,
        contracts: receipt_contracts(
            request.wp_config@,
            request.goals_status_source@,
            answer_views(request.answers@),
        ),
        environment: environment(request.probes),
        wp_config: request.wp_config@,
        goals: goal_entries(models(request.goals@)),
        goals_status_source: request.goals_status_source@,
        reported: request.reported@,
    }
}

/// The receipt of a run.
pub fn proof_receipt(request: ProofReceiptRequest<'_>, scratch_prefix: &str) -> (r: Json)
    ensures
        r@ == hashed(receipt_body(resolved(request, scratch_prefix@))),
{
    let source_files = proof_receipt_source_files(&request.source_files, scratch_prefix);
    let contracts = proof_receipt_contracts(
        &request.wp_config,
        request.goals_status_source,
        &request.answers,
    );
    let goals = proof_receipt_goals(&request.goals);
    proof_receipt_with_hash(
        proof_receipt_body(
            ProofReceiptBody {
                tool: request.tool,
                source_files,
                ast_digest: request.ast_digest,
                contracts,
                environment: receipt_environment(request.probes),
                wp_config: request.wp_config,
                goals,
                goals_status_source: request.goals_status_source,
                reported: request.reported,
            },
        ),
    )
}

/// What is remembered of a receipt: its hash and its goals.
pub open spec fn remembered(receipt: JsonView) -> Option<(Seq<char>, Seq<JsonView>)> {
    match (receipt.text_at("sha256"@), receipt.get("goals"@)) {
        (Some(hash), Some(JsonView::Array(goals))) => Some((hash, goals)),
        _ => None,
    }
}

/// The hash of a receipt and its goals, under which they are remembered;
/// nothing for a value that lacks either.
pub fn receipt_to_remember(receipt: &Json) -> (r: Option<(String, Vec<Json>)>)
    ensures
        match r {
            Some(kept) => remembered(receipt@) == Some((kept.0@, models(kept.1@))),
            None => remembered(receipt@) is None,
        },
{
    broadcast use {lemma_array_view, lemma_object_view};
    let hash = match receipt.text_at("sha256") {
        Some(hash) => hash,
        None => {
            return None;
        },
    };
    match receipt.get("goals") {
        Some(value) => match value.clone() {
            Json::Array(goals) => Some((hash.to_owned(), goals)),
            _ => None,
        },
        None => None,
    }
}

proof fn lemma_body_has_no_hash(body: BodyView)
    ensures
        lookup(receipt_body(body)->Object_0, "sha256"@) is None,
{
    reveal_strlit("sha256");
    reveal_strlit("schema");
    reveal_strlit("subject");
    reveal_strlit("environment");
    reveal_strlit("wp");
    reveal_strlit("goals_status_source");
    reveal_strlit("goals");
    reveal_strlit("reported");
    let members = receipt_body(body)->Object_0;
    assert("sha256"@[1] == 'h' && "schema"@[1] == 'c');
    assert forall|i: int| 0 <= i < members.len() implies members[i].0 != "sha256"@ by {
        if i == 0 {
            assert(members[i].0 == "schema"@);
        }
    }
    lemma_key_position(members, "sha256"@, members.len() as int);
}

/// The hash stands at the end of a receipt, and is the digest of all that
/// comes before it.
pub proof fn law_hash_covers_the_receipt(body: BodyView)
    ensures
        hashed(receipt_body(body)) == JsonView::Object(
            receipt_body(body)->Object_0.push(
                ("sha256"@, JsonView::Text(json_digest(receipt_body(body)))),
            ),
        ),
        remembered(hashed(receipt_body(body))) == Some((json_digest(receipt_body(body)), body.goals)),
{
    lemma_body_has_no_hash(body);
    let before = receipt_body(body)->Object_0;
    let digest = JsonView::Text(json_digest(receipt_body(body)));
    law_lookup_after_put(before, "sha256"@, digest);
    let after = put(before, "sha256"@, digest);
    lemma_goals_member(body);
    lemma_key_position(after, "goals"@, 5);
}

proof fn lemma_goals_member(body: BodyView)
    ensures
        receipt_body(body)->Object_0[5].0 == "goals"@,
        forall|i: int| 0 <= i < 5 ==> receipt_body(body)->Object_0[i].0 != "goals"@,
{
    reveal_strlit("schema");
    reveal_strlit("subject");
    reveal_strlit("environment");
    reveal_strlit("wp");
    reveal_strlit("goals_status_source");
    reveal_strlit("goals");
    assert("goals"@.len() == 5);
}

proof fn lemma_body_tells_runs_apart(a: BodyView, b: BodyView)
    requires
        receipt_body(a) == receipt_body(b),
    ensures
        a == b,
{
    let x = receipt_body(a)->Object_0;
    let y = receipt_body(b)->Object_0;
    assert(x[1].1 == receipt_subject(a));
    assert(y[1].1 == receipt_subject(b));
    let p = receipt_subject(a)->Object_0;
    let q = receipt_subject(b)->Object_0;
    assert(p[0].1 == JsonView::Text(a.tool) && q[0].1 == JsonView::Text(b.tool));
    assert(p[2].1 == a.ast_digest && q[2].1 == b.ast_digest);
    assert(p[3].1 == JsonView::Array(a.source_files));
    assert(q[3].1 == JsonView::Array(b.source_files));
    assert(p[4].1 == a.contracts && q[4].1 == b.contracts);
    assert(x[2].1 == a.environment && y[2].1 == b.environment);
    assert(x[3].1 == a.wp_config && y[3].1 == b.wp_config);
    assert(x[4].1 == JsonView::Text(a.goals_status_source));
    assert(y[4].1 == JsonView::Text(b.goals_status_source));
    assert(x[5].1 == JsonView::Array(a.goals) && y[5].1 == JsonView::Array(b.goals));
    assert(x[6].1 == a.reported && y[6].1 == b.reported);
}

/// Two runs have one receipt exactly when they agree in everything that a
/// receipt states: tool, source files with their hashes, AST digest,
/// contracts, environment, WP configuration, goals with their verdicts and
/// where those come from, and what was reported.
pub proof fn law_receipts_match_exactly_when_the_runs_agree(a: BodyView, b: BodyView)
    ensures
        hashed(receipt_body(a)) == hashed(receipt_body(b)) <==> a == b,
{
    law_hash_covers_the_receipt(a);
    law_hash_covers_the_receipt(b);
    if hashed(receipt_body(a)) == hashed(receipt_body(b)) {
        let x = hashed(receipt_body(a))->Object_0;
        let y = hashed(receipt_body(b))->Object_0;
        assert(x.drop_last() == receipt_body(a)->Object_0);
        assert(y.drop_last() == receipt_body(b)->Object_0);
        lemma_body_tells_runs_apart(a, b);
    }
}

/// Two runs have one hash exactly when they agree in everything that a receipt
/// states, unless SHA-256 collides on the texts of their receipts.
pub proof fn law_hashes_match_exactly_when_the_runs_agree(a: BodyView, b: BodyView)
    requires
        numbers_written(receipt_body(a)),
        numbers_written(receipt_body(b)),
        !collide(receipt_body(a), receipt_body(b)),
    ensures
        json_digest(receipt_body(a)) == json_digest(receipt_body(b)) <==> a == b,
{
    if json_digest(receipt_body(a)) == json_digest(receipt_body(b)) {
        law_digest_tells_values_apart(receipt_body(a), receipt_body(b));
        lemma_body_tells_runs_apart(a, b);
    }
}

/// The order in which the goals came does not matter to what a receipt says of
/// them, as long as those with one identifier and one verdict read alike.
pub proof fn law_goal_order_does_not_matter(a: Seq<JsonView>, b: Seq<JsonView>)
    requires
        a.map_values(|goal: JsonView| goal_entry(goal)).to_multiset() == b.map_values(
            |goal: JsonView| goal_entry(goal),
        ).to_multiset(),
        keys_tell_apart(
            a.map_values(|goal: JsonView| goal_entry(goal)),
            "stable_goal_id"@,
            "status"@,
        ),
    ensures
        goal_entries(a) == goal_entries(b),
{
    law_order_of_entries_does_not_matter(
        a.map_values(|goal: JsonView| goal_entry(goal)),
        b.map_values(|goal: JsonView| goal_entry(goal)),
        "stable_goal_id"@,
        "status"@,
    );
}

/// The order in which the source files came does not matter to what a receipt
/// says of them, as long as those with one name read alike.
pub proof fn law_file_order_does_not_matter(
    a: Seq<SourceRead>,
    b: Seq<SourceRead>,
    scratch_prefix: Seq<char>,
)
    requires
        a.map_values(|read: SourceRead| source_entry(read, scratch_prefix)).to_multiset()
            == b.map_values(|read: SourceRead| source_entry(read, scratch_prefix)).to_multiset(),
        forall|i: int, j: int|
            0 <= i < j < a.len() && source_name((#[trigger] a[i]).file@, scratch_prefix)
                == source_name((#[trigger] a[j]).file@, scratch_prefix) ==> source_entry(
                a[i],
                scratch_prefix,
            ) == source_entry(a[j], scratch_prefix),
    ensures
        source_entries(a, scratch_prefix) == source_entries(b, scratch_prefix),
{
    let x = a.map_values(|read: SourceRead| source_entry(read, scratch_prefix));
    let y = b.map_values(|read: SourceRead| source_entry(read, scratch_prefix));
    assert forall|i: int, j: int|
        0 <= i < j < x.len() && entry_key(#[trigger] x[i], "path"@, "path"@) == entry_key(
            #[trigger] x[j],
            "path"@,
            "path"@,
        ) implies x[i] == x[j] by {
        assert(x[i] == source_entry(a[i], scratch_prefix));
        assert(x[j] == source_entry(a[j], scratch_prefix));
        lemma_source_key(a[i], scratch_prefix);
        lemma_source_key(a[j], scratch_prefix);
    }
    law_order_of_entries_does_not_matter(x, y, "path"@, "path"@);
}

proof fn lemma_source_key(read: SourceRead, scratch_prefix: Seq<char>)
    ensures
        source_entry(read, scratch_prefix).text_at("path"@) == Some(
            source_name(read.file@, scratch_prefix),
        ),
{
    let members = source_entry(read, scratch_prefix)->Object_0;
    assert(members[0].0 == "path"@);
    lemma_key_position(members, "path"@, 0);
}

/// A contract reads as the set of what it states: neither the order of its
/// clauses and groups nor how often one is repeated changes what a receipt
/// says of it.
pub proof fn law_contract_reads_as_a_set(a: JsonView, b: JsonView)
    requires
        forall|clause: (Seq<char>, Seq<char>)| #[trigger]
            contract_clauses(a).contains(clause) <==> contract_clauses(b).contains(clause),
        forall|text: Seq<char>| #[trigger]
            behavior_groups(a, "complete"@).contains(text) <==> behavior_groups(
                b,
                "complete"@,
            ).contains(text),
        forall|text: Seq<char>| #[trigger]
            behavior_groups(a, "disjoint"@).contains(text) <==> behavior_groups(
                b,
                "disjoint"@,
            ).contains(text),
    ensures
        contract_snapshot(a) == contract_snapshot(b),
{
    lemma_same_emptiness(behavior_groups(a, "complete"@), behavior_groups(b, "complete"@));
    lemma_same_emptiness(behavior_groups(a, "disjoint"@), behavior_groups(b, "disjoint"@));
    assert forall|k: Seq<char>| #[trigger] stated_kinds(a).contains(k) <==> stated_kinds(
        b,
    ).contains(k) by {
        if stated_kinds(a).contains(k) {
            lemma_kind_stated(a, b, k);
        }
        if stated_kinds(b).contains(k) {
            lemma_kind_stated(b, a, k);
        }
    }
    law_sorted_distinct_of_same_texts(stated_kinds(a), stated_kinds(b));
    assert(contract_kinds(a) == contract_kinds(b));
    assert forall|k: Seq<char>| true implies #[trigger] sorted_distinct(kind_texts(a, k))
        == sorted_distinct(kind_texts(b, k)) by {
        assert forall|t: Seq<char>| #[trigger] kind_texts(a, k).contains(t) <==> kind_texts(
            b,
            k,
        ).contains(t) by {
            if kind_texts(a, k).contains(t) {
                lemma_text_stated(a, b, k, t);
            }
            if kind_texts(b, k).contains(t) {
                lemma_text_stated(b, a, k, t);
            }
        }
        law_sorted_distinct_of_same_texts(kind_texts(a, k), kind_texts(b, k));
    }
    assert(contract_snapshot(a) == contract_snapshot(b));
}

proof fn lemma_same_emptiness(a: Seq<Seq<char>>, b: Seq<Seq<char>>)
    requires
        forall|t: Seq<char>| #[trigger] a.contains(t) <==> b.contains(t),
    ensures
        a.len() > 0 <==> b.len() > 0,
{
    if a.len() > 0 {
        assert(a.contains(a[0]));
    }
    if b.len() > 0 {
        assert(b.contains(b[0]));
        assert(a.contains(b[0]));
    }
}

/// A kind that one contract states a clause under, the other does too.
proof fn lemma_kind_stated(a: JsonView, b: JsonView, kind: Seq<char>)
    requires
        forall|clause: (Seq<char>, Seq<char>)| #[trigger]
            contract_clauses(a).contains(clause) ==> contract_clauses(b).contains(clause),
        group_kind(a, "complete"@) == group_kind(b, "complete"@),
        group_kind(a, "disjoint"@) == group_kind(b, "disjoint"@),
        stated_kinds(a).contains(kind),
    ensures
        stated_kinds(b).contains(kind),
{
    let ca = contract_clauses(a);
    let cb = contract_clauses(b);
    let x = stated_kinds(a);
    let y = stated_kinds(b);
    let i = choose|i: int| 0 <= i < x.len() && x[i] == kind;
    if i < ca.len() {
        assert(ca.contains(ca[i]));
        assert(cb.contains(ca[i]));
        let j = choose|j: int| 0 <= j < cb.len() && cb[j] == ca[i];
        assert(y[j] == kind);
    } else {
        assert(y[i - ca.len() + cb.len()] == kind);
    }
}

/// A text that one contract states under a kind, the other does too.
proof fn lemma_text_stated(a: JsonView, b: JsonView, kind: Seq<char>, text: Seq<char>)
    requires
        forall|clause: (Seq<char>, Seq<char>)| #[trigger]
            contract_clauses(a).contains(clause) ==> contract_clauses(b).contains(clause),
        forall|t: Seq<char>| #[trigger]
            behavior_groups(a, "complete"@).contains(t) ==> behavior_groups(
                b,
                "complete"@,
            ).contains(t),
        forall|t: Seq<char>| #[trigger]
            behavior_groups(a, "disjoint"@).contains(t) ==> behavior_groups(
                b,
                "disjoint"@,
            ).contains(t),
        behavior_groups(a, "complete"@).len() > 0 <==> behavior_groups(b, "complete"@).len() > 0,
        behavior_groups(a, "disjoint"@).len() > 0 <==> behavior_groups(b, "disjoint"@).len() > 0,
        kind_texts(a, kind).contains(text),
    ensures
        kind_texts(b, kind).contains(text),
{
    let f = of_kind(kind);
    let ca = contract_clauses(a);
    let cb = contract_clauses(b);
    if (kind == "complete"@ || kind == "disjoint"@) && behavior_groups(a, kind).len() > 0 {
    } else {
        lemma_filter_map_contains(ca, f, text);
        lemma_filter_map_contains(cb, f, text);
        let i = choose|i: int| 0 <= i < ca.len() && f(#[trigger] ca[i]) == Some(text);
        assert(ca.contains(ca[i]));
        assert(cb.contains(ca[i]));
        let j = choose|j: int| 0 <= j < cb.len() && cb[j] == ca[i];
        assert(f(cb[j]) == Some(text));
    }
}

/// What a receipt says of the goals is what it says of each of them: sorting
/// drops none and adds none.
pub proof fn law_no_goal_is_lost(goals: Seq<JsonView>)
    ensures
        goal_entries(goals).to_multiset() == goals.map_values(
            |goal: JsonView| goal_entry(goal),
        ).to_multiset(),
{
    law_sorted_entries(
        goals.map_values(|goal: JsonView| goal_entry(goal)),
        "stable_goal_id"@,
        "status"@,
    );
}

/// Two goals read alike in a receipt exactly when they agree in identifier,
/// verdict and whether the verdict was replayed: a replayed verdict never
/// reads like one that was computed.
pub proof fn law_goals_read_alike_exactly_when_they_agree(a: JsonView, b: JsonView)
    ensures
        goal_entry(a) == goal_entry(b) <==> {
            &&& a.get_or_null("stable_goal_id"@) == b.get_or_null("stable_goal_id"@)
            &&& goal_status(a) == goal_status(b)
            &&& replayed(a) == replayed(b)
        },
{
    let x = goal_entry(a)->Object_0;
    let y = goal_entry(b)->Object_0;
    assert(x[0].1 == a.get_or_null("stable_goal_id"@));
    assert(y[0].1 == b.get_or_null("stable_goal_id"@));
    assert(x[1].1 == text_or_null(goal_status(a)));
    assert(y[1].1 == text_or_null(goal_status(b)));
    assert(x[2].1 == replayed(a));
    assert(y[2].1 == replayed(b));
}

/// The contract of a function stands in a receipt under the name of the
/// function, unless a later answer about the same function took its place.
pub proof fn law_each_contract_is_recorded(
    contexts: Seq<(Seq<char>, Option<JsonView>)>,
    at: int,
)
    requires
        0 <= at < contexts.len(),
        function_contract(contexts[at].1) is Some,
        forall|j: int|
            at < j < contexts.len() ==> (#[trigger] contexts[j]).0 != contexts[at].0,
    ensures
        lookup(function_contracts(contexts), contexts[at].0) == function_contract(contexts[at].1),
    decreases contexts.len(),
{
    let init = contexts.drop_last();
    let last = contexts.last();
    let earlier = function_contracts(init);
    if at == contexts.len() - 1 {
        law_lookup_after_put(earlier, last.0, function_contract(last.1)->0);
    } else {
        assert forall|j: int| at < j < init.len() implies (#[trigger] init[j]).0 != init[at].0 by {
            assert(init[j] == contexts[j]);
        }
        law_each_contract_is_recorded(init, at);
        assert(contexts[contexts.len() - 1].0 != contexts[at].0);
        if function_contract(last.1) is Some {
            law_put_keeps_others(earlier, last.0, function_contract(last.1)->0, contexts[at].0);
        }
    }
}

proof fn lemma_stated_texts(contract: JsonView, kind: Seq<char>, text: Seq<char>)
    requires
        kind_texts(contract, kind).contains(text),
    ensures
        contract_kinds(contract).contains(kind),
{
    let clauses = contract_clauses(contract);
    let stated = stated_kinds(contract);
    law_sorted_distinct(stated);
    let n = clauses.len() as int;
    let m = group_kind(contract, "complete"@).len() as int;
    if (kind == "complete"@ || kind == "disjoint"@) && behavior_groups(contract, kind).len() > 0 {
        if kind == "complete"@ {
            assert(stated[n] == kind);
        } else {
            assert(stated[n + m] == kind);
        }
    } else {
        lemma_filter_map_contains(clauses, of_kind(kind), text);
        let i = choose|i: int|
            0 <= i < clauses.len() && of_kind(kind)(#[trigger] clauses[i]) == Some(text);
        assert(stated[i] == kind);
    }
    assert(stated.contains(kind));
}

/// A contract that states something else reads differently: where two
/// contracts read alike in a receipt, they state the same texts under every
/// kind.
pub proof fn law_changed_contracts_show(a: JsonView, b: JsonView)
    requires
        contract_snapshot(a) == contract_snapshot(b),
    ensures
        forall|kind: Seq<char>, text: Seq<char>| #[trigger]
            kind_texts(a, kind).contains(text) <==> kind_texts(b, kind).contains(text),
{
    assert forall|kind: Seq<char>, text: Seq<char>| #[trigger]
        kind_texts(a, kind).contains(text) <==> kind_texts(b, kind).contains(text) by {
        if kind_texts(a, kind).contains(text) {
            lemma_same_text_under_kind(a, b, kind, text);
        }
        if kind_texts(b, kind).contains(text) {
            lemma_same_text_under_kind(b, a, kind, text);
        }
    }
}

proof fn lemma_same_text_under_kind(a: JsonView, b: JsonView, kind: Seq<char>, text: Seq<char>)
    requires
        contract_snapshot(a) == contract_snapshot(b),
        kind_texts(a, kind).contains(text),
    ensures
        kind_texts(b, kind).contains(text),
{
    lemma_stated_texts(a, kind, text);
    let kinds = contract_kinds(a);
    let i = choose|i: int| 0 <= i < kinds.len() && kinds[i] == kind;
    let x = contract_snapshot(a)[i];
    let y = contract_snapshot(b)[i];
    assert(contract_snapshot(a).len() == contract_kinds(a).len());
    assert(contract_snapshot(b).len() == contract_kinds(b).len());
    assert(x == (kind, text_array(sorted_distinct(kind_texts(a, kind)))));
    assert(y.0 == contract_kinds(b)[i]);
    let s = sorted_distinct(kind_texts(a, kind));
    let t = sorted_distinct(kind_texts(b, kind));
    assert(text_array(s)->Array_0 == text_array(t)->Array_0);
    law_sorted_distinct(kind_texts(a, kind));
    law_sorted_distinct(kind_texts(b, kind));
    assert(s.contains(text));
    let k = choose|k: int| 0 <= k < s.len() && s[k] == text;
    assert(text_array(s)->Array_0.len() == s.len());
    assert(text_array(t)->Array_0.len() == t.len());
    assert(text_array(s)->Array_0[k] == JsonView::Text(text));
    assert(text_array(t)->Array_0[k] == JsonView::Text(t[k]));
    assert(t.contains(t[k]));
}

} // verus!
