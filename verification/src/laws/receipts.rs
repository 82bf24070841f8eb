//! Laws of proof receipts: what they record of files, goals and contracts, and
//! what their hash covers.

use vstd::prelude::*;
use vstd::utf8::encode_utf8;

use crate::digest::sha256;
use crate::digits::{hex, is_hex, law_hex_tells_bytes_apart};
use crate::json::{compact, lookup, models, put, JsonView};
use crate::lists::{filter_map, lemma_filter_map_contains};
use crate::mcp::propose::string_text;
use crate::mcp::receipt::{
    answer_views, behavior_groups, clause_entry, clause_text, contract_clauses, contract_kinds,
    contract_snapshot, environment, function_contract, function_contracts, generated_label,
    generated_prefix, goal_entries, goal_entry, group_kind, group_text, hashed, kind_texts,
    labelled, lemma_cut_at_colon, lemma_generated_label, listed_functions, name_part, of_kind,
    path_names, receipt_body, receipt_contracts, remembered, resolved, source_entries, source_entry,
    source_name, stated_kinds, text_array, with_answers, BodyView, ProofReceiptBody,
    ProofReceiptRequest, SourceRead, ToolProbes,
};
use crate::mcp::status::goal_status;
use crate::order::{before, law_sorted_distinct, sorted_distinct};
use crate::text::{find, has_part, join, lemma_find, split, split_once, trim};

use super::texts::{law_parts, law_split_once};
use super::values::{law_entries_in_order, sooner};

verus! {

// ---------------------------------------------------------------------------
// Files
// ---------------------------------------------------------------------------

/// The names in a path are its parts between the slashes, but for the empty
/// ones and the single dots.
pub proof fn law_names_in_a_path(part: Seq<char>, path: Seq<char>)
    ensures
        part.len() == 0 || part == seq!['.'] ==> name_part()(part) is None,
        part.len() > 0 && part != seq!['.'] ==> name_part()(part) == Some(part),
        path_names(path) == filter_map(split(path, '/'), name_part()),
{
}

/// A file is recorded under its whole path, unless it lies directly in a
/// directory whose name starts with the scratch prefix: then under its own name.
pub proof fn law_files_are_recorded_under_their_path(file: Seq<char>, scratch_prefix: Seq<char>)
    ensures
        ({
            let names = path_names(file);
            let n = names.len() as int;
            let scratch = n >= 2 && names[n - 1] != seq!['.', '.'] && names[n - 2] != seq!['.', '.']
                && scratch_prefix.len() <= names[n - 2].len() && names[n - 2].take(
                scratch_prefix.len() as int,
            ) == scratch_prefix;
            &&& scratch ==> source_name(file, scratch_prefix) == names[n - 1]
            &&& !scratch ==> source_name(file, scratch_prefix) == file
        }),
{
    let names = path_names(file);
    let n = names.len() as int;
    if n >= 2 {
        law_parts(names[n - 2], scratch_prefix);
    }
}

/// The entry of a file that was read states its name and the digest of exactly
/// the bytes that were read, in hexadecimal; the entry of one that was not
/// states no digest, and why.
pub proof fn law_entries_state_the_digest_of_what_was_read(
    read: SourceRead,
    scratch_prefix: Seq<char>,
)
    ensures
        ({
            let entry = source_entry(read, scratch_prefix);
            let m = entry->Object_0;
            &&& entry is Object
            &&& m[0] == ("path"@, JsonView::Text(source_name(read.file@, scratch_prefix)))
            &&& m[1].0 == "sha256"@
            &&& match read.content {
                Ok(bytes) => m.len() == 2 && m[1].1 == JsonView::Text(hex(sha256(bytes@))),
                Err(error) => m.len() == 3 && m[1].1 == JsonView::Null && m[2] == (
                    "error"@,
                    JsonView::Text(error@),
                ),
            }
        }),
{
}

/// Two files that were read have one entry only where they have one name, and
/// where their bytes are equal or SHA-256 gives one digest for different bytes:
/// no byte goes unhashed.
pub proof fn law_changed_files_show(
    a: SourceRead,
    b: SourceRead,
    x: Vec<u8>,
    y: Vec<u8>,
    scratch_prefix: Seq<char>,
)
    requires
        a.content == Ok::<Vec<u8>, String>(x),
        b.content == Ok::<Vec<u8>, String>(y),
    ensures
        source_entry(a, scratch_prefix) == source_entry(b, scratch_prefix) <==> source_name(
            a.file@,
            scratch_prefix,
        ) == source_name(b.file@, scratch_prefix) && sha256(x@) == sha256(y@),
        source_entry(a, scratch_prefix) == source_entry(b, scratch_prefix) ==> x@ == y@ || (x@ != y@
            && sha256(x@) == sha256(y@)),
{
    let m = source_entry(a, scratch_prefix)->Object_0;
    let n = source_entry(b, scratch_prefix)->Object_0;
    if source_entry(a, scratch_prefix) == source_entry(b, scratch_prefix) {
        assert(m[0] == n[0]);
        assert(m[1] == n[1]);
        law_hex_tells_bytes_apart(sha256(x@), sha256(y@));
    }
}

/// The entry of a file that was read differs from that of one that was not.
pub proof fn law_unread_files_show(a: SourceRead, b: SourceRead, scratch_prefix: Seq<char>)
    requires
        a.content is Ok,
        b.content is Err,
    ensures
        source_entry(a, scratch_prefix) != source_entry(b, scratch_prefix),
{
    assert(source_entry(a, scratch_prefix)->Object_0.len() == 2);
    assert(source_entry(b, scratch_prefix)->Object_0.len() == 3);
}

/// Every file has its entry, once for each time that it was read, and the
/// entries stand in the order of their names; under one name they stay in the
/// order they were read in.
pub proof fn law_every_file_is_recorded(
    reads: Seq<SourceRead>,
    scratch_prefix: Seq<char>,
    name: Option<Seq<char>>,
)
    ensures
        source_entries(reads, scratch_prefix).filter(
            |v: JsonView| (v.text_at("path"@), v.text_at("path"@)) == (name, name),
        ) == Seq::new(reads.len(), |i: int| source_entry(reads[i], scratch_prefix)).filter(
            |v: JsonView| (v.text_at("path"@), v.text_at("path"@)) == (name, name),
        ),
        source_entries(reads, scratch_prefix).len() == reads.len(),
        source_entries(reads, scratch_prefix).to_multiset() == Seq::new(
            reads.len(),
            |i: int| source_entry(reads[i], scratch_prefix),
        ).to_multiset(),
        forall|i: int, j: int|
            0 <= i < j < reads.len() ==> !sooner(
                (#[trigger] source_entries(reads, scratch_prefix)[j]).text_at("path"@),
                (#[trigger] source_entries(reads, scratch_prefix)[i]).text_at("path"@),
            ),
{
    let each = reads.map_values(|read: SourceRead| source_entry(read, scratch_prefix));
    assert(each == Seq::new(reads.len(), |i: int| source_entry(reads[i], scratch_prefix)));
    law_entries_in_order(each, "path"@, "path"@, (name, name));
}

// ---------------------------------------------------------------------------
// Goals
// ---------------------------------------------------------------------------

/// A label is attached to a goal that has none, behind its other members; a
/// goal that has one keeps it, and nothing else changes.
pub proof fn law_labels_are_attached_once(
    members: Seq<(Seq<char>, JsonView)>,
    label: Seq<char>,
    other: JsonView,
)
    ensures
        lookup(members, "hash_label"@) is None ==> labelled(
            JsonView::Object(members),
            Some(label),
        ) == JsonView::Object(members.push(("hash_label"@, JsonView::Text(label)))),
        lookup(members, "hash_label"@) is Some ==> labelled(
            JsonView::Object(members),
            Some(label),
        ) == JsonView::Object(members),
        labelled(other, None) == other,
        !(other is Object) ==> labelled(other, Some(label)) == other,
{
}

/// What a receipt keeps of a goal: its id as it is, its status, and whether the
/// proof was replayed, which it was not where nothing is said.
pub proof fn law_goal_entries_say(goal: JsonView)
    ensures
        ({
            let entry = goal_entry(goal);
            let m = entry->Object_0;
            &&& entry is Object
            &&& m.len() == 3
            &&& m[0] == ("stable_goal_id"@, goal.get_or_null("stable_goal_id"@))
            &&& m[1].0 == "status"@
            &&& goal_status(goal) is Some ==> m[1].1 == JsonView::Text(goal_status(goal)->0)
            &&& goal_status(goal) is None ==> m[1].1 == JsonView::Null
            &&& m[2].0 == "from_cache"@
            &&& goal.get("from_cache"@) is Some ==> m[2].1 == goal.get("from_cache"@)->0
            &&& goal.get("from_cache"@) is None ==> m[2].1 == JsonView::Bool(false)
        }),
{
}

/// Every goal has its entry, and the entries stand in the order of their ids
/// and, under one id, of their statuses; those that have both in common stay in
/// the order they came in.
pub proof fn law_every_goal_is_recorded(
    goals: Seq<JsonView>,
    k: (Option<Seq<char>>, Option<Seq<char>>),
)
    ensures
        goal_entries(goals).filter(
            |v: JsonView| (v.text_at("stable_goal_id"@), v.text_at("status"@)) == k,
        ) == Seq::new(goals.len(), |i: int| goal_entry(goals[i])).filter(
            |v: JsonView| (v.text_at("stable_goal_id"@), v.text_at("status"@)) == k,
        ),
        goal_entries(goals).len() == goals.len(),
        goal_entries(goals).to_multiset() == Seq::new(
            goals.len(),
            |i: int| goal_entry(goals[i]),
        ).to_multiset(),
        forall|i: int, j: int|
            0 <= i < j < goals.len() ==> {
                let a = #[trigger] goal_entries(goals)[i];
                let b = #[trigger] goal_entries(goals)[j];
                &&& !sooner(b.text_at("stable_goal_id"@), a.text_at("stable_goal_id"@))
                &&& a.text_at("stable_goal_id"@) == b.text_at("stable_goal_id"@) ==> !sooner(
                    b.text_at("status"@),
                    a.text_at("status"@),
                )
            },
{
    let each = goals.map_values(|goal: JsonView| goal_entry(goal));
    assert(each == Seq::new(goals.len(), |i: int| goal_entry(goals[i])));
    law_entries_in_order(each, "stable_goal_id"@, "status"@, k);
}

// ---------------------------------------------------------------------------
// Clauses
// ---------------------------------------------------------------------------

/// A generated label, place by place: one of eight pairs of letters, an
/// underscore and eight hexadecimal digits, and then the end or an underscore.
pub open spec fn label_by_place(label: Seq<char>) -> bool {
    &&& label.len() >= 11
    &&& {
        ||| label[0] == 'r' && label[1] == 'e'
        ||| label[0] == 'e' && label[1] == 'n'
        ||| label[0] == 'a' && label[1] == 's'
        ||| label[0] == 'l' && label[1] == 'i'
        ||| label[0] == 'l' && label[1] == 'a'
        ||| label[0] == 'l' && label[1] == 'v'
        ||| label[0] == 'a' && label[1] == 't'
        ||| label[0] == 'a' && label[1] == 'n'
    }
    &&& label[2] == '_'
    &&& forall|i: int|
        3 <= i < 11 ==> '0' <= #[trigger] label[i] <= '9' || 'a' <= label[i] <= 'f' || 'A'
            <= label[i] <= 'F'
    &&& label.len() == 11 || label[11] == '_'
}

proof fn lemma_prefix_letters(s: Seq<char>)
    ensures
        generated_prefix(s) <==> s.len() == 2 && {
            ||| s[0] == 'r' && s[1] == 'e'
            ||| s[0] == 'e' && s[1] == 'n'
            ||| s[0] == 'a' && s[1] == 's'
            ||| s[0] == 'l' && s[1] == 'i'
            ||| s[0] == 'l' && s[1] == 'a'
            ||| s[0] == 'l' && s[1] == 'v'
            ||| s[0] == 'a' && s[1] == 't'
            ||| s[0] == 'a' && s[1] == 'n'
        },
{
    reveal_strlit("re");
    reveal_strlit("en");
    reveal_strlit("as");
    reveal_strlit("li");
    reveal_strlit("la");
    reveal_strlit("lv");
    reveal_strlit("at");
    reveal_strlit("an");
    if s.len() == 2 {
        assert(s == seq![s[0], s[1]]);
        assert("re"@ == seq!['r', 'e']);
        assert("en"@ == seq!['e', 'n']);
        assert("as"@ == seq!['a', 's']);
        assert("li"@ == seq!['l', 'i']);
        assert("la"@ == seq!['l', 'a']);
        assert("lv"@ == seq!['l', 'v']);
        assert("at"@ == seq!['a', 't']);
        assert("an"@ == seq!['a', 'n']);
    }
}

/// A label with a generated label's parts has its places.
proof fn lemma_parts_have_places(label: Seq<char>)
    requires
        generated_label(label),
    ensures
        label_by_place(label),
{
    let parts = split(label, '_');
    lemma_find(label, '_');
    let n = find(label, '_') as int;
    assert(n < label.len());
    let rest = label.skip(n + 1);
    assert(parts == seq![label.take(n)] + split(rest, '_'));
    assert(parts[0] == label.take(n));
    lemma_prefix_letters(parts[0]);
    assert(n == 2);
    assert(label.take(2)[0] == label[0] && label.take(2)[1] == label[1]);
    lemma_find(rest, '_');
    let m = find(rest, '_') as int;
    assert(split(rest, '_')[0] == rest.take(m)) by {
        if m == rest.len() {
            assert(rest.take(m) == rest);
        }
    }
    assert(parts[1] == split(rest, '_')[0]);
    assert(m == 8);
    assert forall|i: int| 3 <= i < 11 implies '0' <= #[trigger] label[i] <= '9' || 'a' <= label[i]
        <= 'f' || 'A' <= label[i] <= 'F' by {
        assert(parts[1][i - 3] == label[i]);
    }
    if label.len() > 11 {
        assert(rest[8] == label[11]);
    }
}

/// A label with a generated label's places has its parts.
proof fn lemma_places_have_parts(label: Seq<char>)
    requires
        label_by_place(label),
    ensures
        generated_label(label),
{
    let prefix = label.take(2);
    let digits = label.subrange(3, 11);
    let rest = label.skip(11);
    lemma_prefix_letters(prefix);
    assert forall|i: int| 0 <= i < digits.len() implies is_hex(
        #[trigger] digits[i],
    ) by {
        assert(digits[i] == label[i + 3]);
    }
    lemma_generated_label(prefix, digits, rest);
    assert(label == prefix + seq!['_'] + digits + rest);
}

/// A clause loses a label only where it was generated: where no colon and space
/// stand in it, or what comes before the first is anything but a known pair of
/// letters, an underscore and eight hexadecimal digits, ended or followed by an
/// underscore, the whole text is kept, trimmed. Where it is such a label, what
/// comes after it is kept, trimmed.
pub proof fn law_only_generated_labels_are_stripped(
    label: Seq<char>,
    rest: Seq<char>,
    text: Seq<char>,
)
    requires
        forall|k: int| 0 <= k < label.len() - 1 ==> !(#[trigger] label[k] == ':' && label[k + 1]
            == ' '),
        forall|k: int| 0 <= k < text.len() - 1 ==> !(#[trigger] text[k] == ':' && text[k + 1]
            == ' '),
    ensures
        clause_text(text) == trim(text),
        !label_by_place(label) ==> clause_text(label + seq![':', ' '] + rest) == trim(
            label + seq![':', ' '] + rest,
        ),
        label_by_place(label) ==> clause_text(label + seq![':', ' '] + rest) == trim(rest),
{
    reveal_strlit(": ");
    assert(": "@ == seq![':', ' ']);
    lemma_no_colon(label);
    lemma_no_colon(text);
    lemma_cut_at_colon(label, rest);
    if label_by_place(label) {
        lemma_places_have_parts(label);
    } else if generated_label(label) {
        lemma_parts_have_places(label);
    }
}

proof fn lemma_no_colon(s: Seq<char>)
    requires
        forall|k: int| 0 <= k < s.len() - 1 ==> !(#[trigger] s[k] == ':' && s[k + 1] == ' '),
    ensures
        !has_part(s, ": "@),
{
    reveal_strlit(": ");
    law_parts(s, ": "@);
    if has_part(s, ": "@) {
        let at = choose|at: int|
            0 <= at && at + ": "@.len() <= s.len() && #[trigger] s.subrange(at, at + ": "@.len())
                == ": "@;
        assert(s.subrange(at, at + 2)[0] == s[at]);
        assert(s.subrange(at, at + 2)[1] == s[at + 1]);
    }
}

/// Nothing inside a clause is lost: it reads as the whole text, trimmed, or it
/// starts with a generated label and reads as all that comes after it, trimmed.
pub proof fn law_clauses_are_kept_whole(text: Seq<char>)
    ensures
        clause_text(text) == trim(text) || exists|n: int|
            0 <= n && n + 2 <= text.len() && label_by_place(#[trigger] text.take(n)) && text[n]
                == ':' && text[n + 1] == ' ' && clause_text(text) == trim(text.skip(n + 2)),
{
    reveal_strlit(": ");
    law_split_once(text, ": "@);
    match split_once(text, ": "@) {
        Some((label, rest)) => {
            if generated_label(label) {
                lemma_parts_have_places(label);
                let n = label.len() as int;
                assert(text.take(n) == label);
                assert(text.skip(n + 2) == rest);
            }
        },
        None => {},
    }
}

// ---------------------------------------------------------------------------
// Contracts
// ---------------------------------------------------------------------------

/// A clause of a contract is recorded where it has a predicate with a text, of
/// its own kind or else of that of the list it stands in, without a generated
/// label.
pub proof fn law_clauses_are_recorded(entry: JsonView, array: Seq<char>)
    ensures
        ({
            let text = entry.get_or_null("predicate"@).text_at("text"@);
            &&& text is None ==> clause_entry(array)(entry) is None
            &&& text is Some && entry.text_at("kind"@) is Some ==> clause_entry(array)(entry)
                == Some((entry.text_at("kind"@)->0, clause_text(text->0)))
            &&& text is Some && entry.text_at("kind"@) is None ==> clause_entry(array)(entry)
                == Some((array, clause_text(text->0)))
        }),
{
}

/// The clauses of a contract are those of its `requires` and of its `ensures`,
/// and no others.
pub proof fn law_contracts_have_two_lists(contract: JsonView, clause: (Seq<char>, Seq<char>))
    ensures
        contract_clauses(contract).contains(clause) <==> {
            ||| exists|i: int|
                0 <= i < contract.items_at("requires"@).len() && clause_entry("requires"@)(
                    #[trigger] contract.items_at("requires"@)[i],
                ) == Some(clause)
            ||| exists|i: int|
                0 <= i < contract.items_at("ensures"@).len() && clause_entry("ensures"@)(
                    #[trigger] contract.items_at("ensures"@)[i],
                ) == Some(clause)
        },
{
    let r = contract.items_at("requires"@);
    let e = contract.items_at("ensures"@);
    lemma_filter_map_contains(r, clause_entry("requires"@), clause);
    lemma_filter_map_contains(e, clause_entry("ensures"@), clause);
    let a = filter_map(r, clause_entry("requires"@));
    let b = filter_map(e, clause_entry("ensures"@));
    let c = contract_clauses(contract);
    assert(c == a + b);
    if a.contains(clause) {
        let k = choose|k: int| 0 <= k < a.len() && a[k] == clause;
        assert(c[k] == clause);
    }
    if b.contains(clause) {
        let k = choose|k: int| 0 <= k < b.len() && b[k] == clause;
        assert(c[a.len() + k] == clause);
    }
    if c.contains(clause) {
        let k = choose|k: int| 0 <= k < c.len() && c[k] == clause;
        if k < a.len() {
            assert(a[k] == clause);
        } else {
            assert(b[k - a.len()] == clause);
        }
    }
}

/// A group of behaviors is recorded as their names, with a comma and a space
/// between them, unless it names none.
pub proof fn law_groups_of_behaviors(
    entry: JsonView,
    contract: JsonView,
    name: Seq<char>,
    text: Seq<char>,
)
    ensures
        ({
            let names = filter_map(entry.items(), |v: JsonView| v.as_text());
            &&& names.len() == 0 ==> group_text()(entry) is None
            &&& names.len() > 0 ==> group_text()(entry) == Some(join(names, seq![',', ' ']))
        }),
        behavior_groups(contract, name).contains(text) <==> exists|i: int|
            0 <= i < contract.items_at(name).len() && group_text()(
                #[trigger] contract.items_at(name)[i],
            ) == Some(text),
{
    reveal_strlit(", ");
    assert(", "@ == seq![',', ' ']);
    assert(string_text() =~= |v: JsonView| v.as_text());
    lemma_filter_map_contains(contract.items_at(name), group_text(), text);
}

/// What a contract states under a kind: its clauses of that kind. Where behaviors
/// are grouped as complete or as disjoint, the groups stand for that kind
/// instead.
pub proof fn law_texts_of_a_kind(contract: JsonView, kind: Seq<char>, text: Seq<char>)
    ensures
        (kind == "complete"@ || kind == "disjoint"@) && behavior_groups(contract, kind).len() > 0
            ==> kind_texts(contract, kind) == behavior_groups(contract, kind),
        !((kind == "complete"@ || kind == "disjoint"@) && behavior_groups(contract, kind).len() > 0)
            ==> (kind_texts(contract, kind).contains(text) <==> contract_clauses(
            contract,
        ).contains((kind, text))),
{
    let clauses = contract_clauses(contract);
    lemma_filter_map_contains(clauses, of_kind(kind), text);
    if clauses.contains((kind, text)) {
        let i = choose|i: int| 0 <= i < clauses.len() && clauses[i] == (kind, text);
        assert(of_kind(kind)(clauses[i]) == Some(text));
    }
    if exists|i: int| 0 <= i < clauses.len() && of_kind(kind)(#[trigger] clauses[i]) == Some(text) {
        let i = choose|i: int|
            0 <= i < clauses.len() && of_kind(kind)(#[trigger] clauses[i]) == Some(text);
        assert(clauses[i] == (kind, text));
        assert(clauses.contains((kind, text)));
    }
}

/// The kinds of a contract are those of its clauses and of its groups, in the
/// order of texts and each once.
pub proof fn law_kinds_of_a_contract(contract: JsonView, kind: Seq<char>)
    ensures
        contract_kinds(contract).contains(kind) <==> {
            ||| exists|i: int|
                0 <= i < contract_clauses(contract).len() && (#[trigger] contract_clauses(
                    contract,
                )[i]).0 == kind
            ||| kind == "complete"@ && behavior_groups(contract, "complete"@).len() > 0
            ||| kind == "disjoint"@ && behavior_groups(contract, "disjoint"@).len() > 0
        },
        forall|i: int, j: int|
            0 <= i < j < contract_kinds(contract).len() ==> before(
                #[trigger] contract_kinds(contract)[i],
                #[trigger] contract_kinds(contract)[j],
            ),
{
    let clauses = contract_clauses(contract);
    let stated = stated_kinds(contract);
    let n = clauses.len() as int;
    let c = group_kind(contract, "complete"@);
    let d = group_kind(contract, "disjoint"@);
    law_sorted_distinct(stated);
    assert(contract_kinds(contract).contains(kind) <==> stated.contains(kind));
    if stated.contains(kind) {
        let k = choose|k: int| 0 <= k < stated.len() && stated[k] == kind;
        if k < n {
            assert(clauses[k].0 == kind);
        } else if k < n + c.len() {
            assert(c[k - n] == kind);
        } else {
            assert(d[k - n - c.len()] == kind);
        }
    }
    if exists|i: int| 0 <= i < clauses.len() && (#[trigger] clauses[i]).0 == kind {
        let i = choose|i: int| 0 <= i < clauses.len() && (#[trigger] clauses[i]).0 == kind;
        assert(stated[i] == kind);
    }
    if kind == "complete"@ && c.len() > 0 {
        assert(stated[n] == kind);
    }
    if kind == "disjoint"@ && d.len() > 0 {
        assert(stated[n + c.len()] == kind);
    }
}

/// A snapshot of a contract has one member for each of its kinds, in order, and
/// under it all that the contract states of that kind, as texts, in the order of
/// texts and each once.
pub proof fn law_snapshots_hold_what_is_stated(contract: JsonView, at: int, text: Seq<char>)
    requires
        0 <= at < contract_kinds(contract).len(),
    ensures
        contract_snapshot(contract).len() == contract_kinds(contract).len(),
        ({
            let kind = contract_kinds(contract)[at];
            let member = contract_snapshot(contract)[at];
            let texts = member.1->Array_0;
            &&& member.0 == kind
            &&& member.1 is Array
            &&& texts.contains(JsonView::Text(text)) <==> kind_texts(contract, kind).contains(text)
            &&& forall|i: int| 0 <= i < texts.len() ==> (#[trigger] texts[i]) is Text
            &&& forall|i: int, j: int|
                0 <= i < j < texts.len() ==> before(
                    (#[trigger] texts[i])->Text_0,
                    (#[trigger] texts[j])->Text_0,
                )
        }),
{
    let kind = contract_kinds(contract)[at];
    let sorted = sorted_distinct(kind_texts(contract, kind));
    law_sorted_distinct(kind_texts(contract, kind));
    let snapshot = contract_snapshot(contract);
    assert(snapshot[at] == (kind, text_array(sorted)));
    let texts = snapshot[at].1->Array_0;
    assert(texts.len() == sorted.len());
    assert forall|i: int| 0 <= i < texts.len() implies #[trigger] texts[i] == JsonView::Text(
        sorted[i],
    ) by {}
    if texts.contains(JsonView::Text(text)) {
        let i = choose|i: int| 0 <= i < texts.len() && texts[i] == JsonView::Text(text);
        assert(sorted[i] == text);
        assert(sorted.contains(text));
    }
    if kind_texts(contract, kind).contains(text) {
        assert(sorted.contains(text));
        let i = choose|i: int| 0 <= i < sorted.len() && sorted[i] == text;
        assert(texts[i] == JsonView::Text(text));
    }
}

/// The contract of a function is that of the answer about it, where that has
/// one and it states anything.
pub proof fn law_contracts_come_from_the_answer(answer: JsonView)
    ensures
        function_contract(None) is None,
        ({
            let contract = answer.get_or_null("function"@).get("contract"@);
            &&& contract is None ==> function_contract(Some(answer)) is None
            &&& contract is Some && contract_kinds(contract->0).len() == 0 ==> function_contract(
                Some(answer),
            ) is None
            &&& contract is Some && contract_kinds(contract->0).len() > 0 ==> function_contract(
                Some(answer),
            ) == Some(JsonView::Object(contract_snapshot(contract->0)))
        }),
{
}

/// The contracts are recorded function by function, as the configuration lists
/// them: each under its name, where there is one, and a later one of the same
/// name in place of the earlier.
pub proof fn law_contracts_are_recorded_by_name(
    contexts: Seq<(Seq<char>, Option<JsonView>)>,
    name: Seq<char>,
    answer: Option<JsonView>,
    wp_config: JsonView,
    status_source: Seq<char>,
    answers: Seq<Option<JsonView>>,
    i: int,
)
    ensures
        function_contracts(Seq::empty()).len() == 0,
        function_contract(answer) is None ==> function_contracts(contexts.push((name, answer)))
            == function_contracts(contexts),
        function_contract(answer) matches Some(contract) ==> function_contracts(
            contexts.push((name, answer)),
        ) == put(function_contracts(contexts), name, contract),
        with_answers(listed_functions(wp_config), answers).len() == listed_functions(
            wp_config,
        ).len(),
        0 <= i < listed_functions(wp_config).len() ==> with_answers(
            listed_functions(wp_config),
            answers,
        )[i].0 == listed_functions(wp_config)[i],
        0 <= i < listed_functions(wp_config).len() && i < answers.len() ==> with_answers(
            listed_functions(wp_config),
            answers,
        )[i].1 == answers[i],
        0 <= i < listed_functions(wp_config).len() && i >= answers.len() ==> with_answers(
            listed_functions(wp_config),
            answers,
        )[i].1 is None,
        listed_functions(wp_config) == filter_map(
            wp_config.items_at("functions"@),
            |v: JsonView| v.as_text(),
        ),
        status_source != "unavailable_isolated_cli_retry"@ ==> receipt_contracts(
            wp_config,
            status_source,
            answers,
        ) == JsonView::Object(
            function_contracts(with_answers(listed_functions(wp_config), answers)),
        ),
        receipt_contracts(wp_config, "unavailable_isolated_cli_retry"@, answers) == JsonView::Text(
            "unavailable_isolated_cli_retry"@,
        ),
{
    assert(contexts.push((name, answer)).drop_last() == contexts);
    assert(string_text() =~= |v: JsonView| v.as_text());
}

// ---------------------------------------------------------------------------
// Receipts
// ---------------------------------------------------------------------------

/// A receipt holds all of the run: its members, in this order, are the schema,
/// the subject, the environment, the configuration, where the statuses come
/// from, the goals and what was reported. The subject is the tool, the digest of
/// the list of files, the digest of the AST, the files and the contracts.
pub proof fn law_receipts_hold_the_run(body: BodyView)
    ensures
        ({
            let m = receipt_body(body)->Object_0;
            let s = m[1].1->Object_0;
            &&& receipt_body(body) is Object
            &&& m.len() == 7
            &&& m[0] == ("schema"@, JsonView::Text("frama-c-mcp.proof-receipt.v4"@))
            &&& m[1].0 == "subject"@
            &&& m[1].1 is Object
            &&& s.len() == 5
            &&& s[0] == ("tool"@, JsonView::Text(body.tool))
            &&& s[1].0 == "source_hash"@
            &&& s[1].1 == JsonView::Text(
                hex(sha256(encode_utf8(compact(JsonView::Array(body.source_files))))),
            )
            &&& s[2] == ("ast_digest"@, body.ast_digest)
            &&& s[3] == ("files"@, JsonView::Array(body.source_files))
            &&& s[4] == ("contracts"@, body.contracts)
            &&& m[2] == ("environment"@, body.environment)
            &&& m[3] == ("wp"@, body.wp_config)
            &&& m[4] == ("goals_status_source"@, JsonView::Text(body.goals_status_source))
            &&& m[5] == ("goals"@, JsonView::Array(body.goals))
            &&& m[6] == ("reported"@, body.reported)
        }),
{
}

/// The hash of a receipt is the digest of all of it as it was before, and the
/// hash is put in as the member `sha256` and changes no other.
pub proof fn law_hashes_cover_the_whole(members: Seq<(Seq<char>, JsonView)>, other: JsonView)
    ensures
        hashed(JsonView::Object(members)) == JsonView::Object(
            put(
                members,
                "sha256"@,
                JsonView::Text(hex(sha256(encode_utf8(compact(JsonView::Object(members)))))),
            ),
        ),
        !(other is Object) ==> hashed(other) == other,
{
}

/// The environment is the answers of the three probes, each under its name.
pub proof fn law_environments_hold_the_probes(probes: ToolProbes)
    ensures
        ({
            let m = environment(probes)->Object_0;
            &&& environment(probes) is Object
            &&& m.len() == 3
            &&& m[0] == ("frama_c_version"@, probes.frama_c_version@)
            &&& m[1] == ("why3_provers"@, probes.why3_provers@)
            &&& m[2] == ("opam_switch"@, probes.opam_switch@)
        }),
{
}

/// A receipt is made of what the request gives: the files that were read, the
/// contracts of the functions in scope, the probes, the goals and the rest as it
/// came.
pub proof fn law_receipts_are_made_of_the_request(
    request: ProofReceiptRequest,
    scratch_prefix: Seq<char>,
)
    ensures
        ({
            let body = resolved(request, scratch_prefix);
            &&& body.tool == request.tool@
            &&& body.source_files == source_entries(request.source_files@, scratch_prefix)
            &&& body.ast_digest == request.ast_digest@
            &&& body.contracts == receipt_contracts(
                request.wp_config@,
                request.goals_status_source@,
                answer_views(request.answers@),
            )
            &&& body.environment == environment(request.probes)
            &&& body.wp_config == request.wp_config@
            &&& body.goals == goal_entries(models(request.goals@))
            &&& body.goals_status_source == request.goals_status_source@
            &&& body.reported == request.reported@
        }),
        answer_views(request.answers@).len() == request.answers@.len(),
        forall|i: int|
            0 <= i < request.answers@.len() ==> #[trigger] answer_views(request.answers@)[i] == (
            match request.answers@[i] {
                Some(answer) => Some(answer@),
                None => None,
            }),
{
}

/// A receipt body stands for all of its fields.
pub proof fn law_bodies_stand_for_their_fields(body: ProofReceiptBody)
    ensures
        body@.tool == body.tool@,
        body@.source_files == models(body.source_files@),
        body@.ast_digest == body.ast_digest@,
        body@.contracts == body.contracts@,
        body@.environment == body.environment@,
        body@.wp_config == body.wp_config@,
        body@.goals == models(body.goals@),
        body@.goals_status_source == body.goals_status_source@,
        body@.reported == body.reported@,
{
}

/// A receipt is remembered under its hash with its goals, exactly where it has
/// both: a hash that is a text and goals that are a list.
pub proof fn law_receipts_are_remembered(receipt: JsonView)
    ensures
        remembered(receipt) is Some <==> receipt.text_at("sha256"@) is Some && receipt.get(
            "goals"@,
        ) is Some && receipt.get("goals"@)->0 is Array,
        remembered(receipt) is Some ==> remembered(receipt) == Some(
            (receipt.text_at("sha256"@)->0, receipt.items_at("goals"@)),
        ),
{
}

} // verus!
