//! Candidate annotations derived from what the AST already says.
//!
//! Only what the analyses determine is proposed. The set of locations that a
//! loop body or a function writes is a fact about the code, so a frame is a
//! transcription; a loop invariant is not in the AST, so its absence is
//! reported instead of guessed at.
//!
//! Proposals fail closed. A frame that omits a location is worse than no frame,
//! so anything that cannot be accounted for makes the whole frame unavailable
//! and never shrinks it: a callee without a finite list of assigns, an effect
//! that could not be enumerated, and one that does not say which location it
//! writes. Every proposal is dry-run, and one that does not type-check stops
//! being a proposal.

use vstd::prelude::*;
use vstd::string::StringExecFns;

use crate::digits::{signed_decimal, signed_decimal_of};
use crate::json::{
    compact, law_lookup_after_put, lemma_array_view, lemma_key_position, lemma_object_view, member,
    member_models, models, no_members, opt_model, opt_models, opt_string, opt_text, put,
    ref_models, whole, Json, JsonView,
};
use crate::lists::{
    filter_map, flat_map, lemma_filter_map_contains, lemma_filter_map_step,
    lemma_flat_map_contains, lemma_flat_map_step,
};
use crate::order::{law_sorted_distinct, sort_distinct, sorted_distinct, strictly_sorted};
use crate::text::{
    drop_prefixes, drop_suffixes, join, joined, lemma_words_are_words, lemma_words_of_joined, same,
    split, split_at_char, strip_affixes, views, words, words_of,
};

verus! {

/// What a frame may say, or why it may not be made.
#[derive(Debug, PartialEq, Eq)]
pub enum Frame {
    /// The locations written, in order, each once.
    Writes(Vec<String>),
    /// The set of locations is unknown, for the reason given.
    Unknown(String),
}

/// What a [`Frame`] stands for.
pub enum FrameView {
    Writes(Seq<Seq<char>>),
    Unknown(Seq<char>),
}

impl View for Frame {
    type V = FrameView;

    open spec fn view(&self) -> FrameView {
        match *self {
            Frame::Writes(targets) => FrameView::Writes(views(targets@)),
            Frame::Unknown(reason) => FrameView::Unknown(reason@),
        }
    }
}

// ---------------------------------------------------------------------------
// What the callees write
// ---------------------------------------------------------------------------

/// The name of a callee.
pub open spec fn callee_name(callee: JsonView) -> Seq<char> {
    match callee.text_at("function"@) {
        Some(name) => name,
        None => "a callee"@,
    }
}

/// Whether a callee states a finite list of what it assigns.
pub open spec fn callee_listed(callee: JsonView) -> bool {
    match callee.get("assigns"@) {
        Some(assigns) => assigns.text_at("kind"@) == Some("list"@),
        None => false,
    }
}

/// The target of one write.
pub open spec fn write_target() -> spec_fn(JsonView) -> Option<Seq<char>> {
    |write: JsonView| write.text_at("target"@)
}

/// The locations that a callee lists as assigned.
pub open spec fn callee_targets() -> spec_fn(JsonView) -> Seq<Seq<char>> {
    |callee: JsonView|
        match callee.get("assigns"@) {
            Some(assigns) => filter_map(assigns.items_at("assigns"@), write_target()),
            None => Seq::empty(),
        }
}

/// The first position of a callee without a finite list, or their number.
pub open spec fn unlisted_at(callees: Seq<JsonView>) -> nat
    decreases callees.len(),
{
    if callees.len() == 0 || !callee_listed(callees[0]) {
        0
    } else {
        1 + unlisted_at(callees.skip(1))
    }
}

/// Why a frame that goes through the callee `name` is unknown.
pub open spec fn unlisted_reason(name: Seq<char>) -> Seq<char> {
    name
        + " states no finite assigns, so what this writes through it is unknown.                  Give "@
        + name + " an assigns clause first, then ask again."@
}

pub proof fn lemma_unlisted_at(callees: Seq<JsonView>)
    ensures
        unlisted_at(callees) <= callees.len(),
        forall|i: int| 0 <= i < unlisted_at(callees) ==> callee_listed(#[trigger] callees[i]),
        unlisted_at(callees) < callees.len() ==> !callee_listed(
            callees[unlisted_at(callees) as int],
        ),
    decreases callees.len(),
{
    if callees.len() == 0 || !callee_listed(callees[0]) {
    } else {
        let rest = callees.skip(1);
        lemma_unlisted_at(rest);
        assert forall|i: int| 0 <= i < unlisted_at(callees) implies callee_listed(
            #[trigger] callees[i],
        ) by {
            if i > 0 {
                assert(rest[i - 1] == callees[i]);
            }
        }
    }
}

/// Appends to `targets` the targets of `writes`.
fn push_targets(targets: &mut Vec<String>, writes: &Vec<&Json>)
    ensures
        views(final(targets)@) == views(old(targets)@) + filter_map(
            ref_models(writes@),
            write_target(),
        ),
{
    let ghost all = ref_models(writes@);
    let ghost start = views(targets@);
    let mut i: usize = 0;
    assert(start + filter_map(all.take(0), write_target()) == start);
    while i < writes.len()
        invariant
            i <= writes@.len(),
            all == ref_models(writes@),
            views(targets@) == start + filter_map(all.take(i as int), write_target()),
        decreases writes@.len() - i,
    {
        proof {
            lemma_filter_map_step(all, write_target(), i as int);
        }
        let ghost before = views(targets@);
        match writes[i].text_at("target") {
            Some(target) => {
                targets.push(target.to_owned());
                assert(views(targets@) == before.push(target@));
            },
            None => {},
        }
        i = i + 1;
    }
    assert(all.take(i as int) == all);
}

/// Adds what the callees assign to the frame, or gives up on the frame.
///
/// A callee whose assigns is not a finite list writes an unknown set: the
/// answer is then the reason, and `targets` holds what the callees before it
/// list.
pub fn extend_with_callee_assigns(targets: &mut Vec<String>, effects: &Json) -> (r: Option<String>)
    ensures
        ({
            let callees = effects@.items_at("callee_assigns"@);
            let at = unlisted_at(callees) as int;
            &&& views(final(targets)@) == views(old(targets)@) + flat_map(
                callees.take(at),
                callee_targets(),
            )
            &&& match r {
                Some(reason) => at < callees.len() && reason@ == unlisted_reason(
                    callee_name(callees[at]),
                ),
                None => at == callees.len(),
            }
        }),
{
    let callees = effects.items_at("callee_assigns");
    let ghost all = ref_models(callees@);
    let ghost start = views(targets@);
    proof {
        lemma_unlisted_at(all);
        assert(start + flat_map(all.take(0), callee_targets()) == start);
        assert(all.skip(0) == all);
    }
    let mut i: usize = 0;
    while i < callees.len()
        invariant
            i <= callees@.len(),
            all == ref_models(callees@),
            all == effects@.items_at("callee_assigns"@),
            start == views(old(targets)@),
            unlisted_at(all) == i + unlisted_at(all.skip(i as int)),
            views(targets@) == start + flat_map(all.take(i as int), callee_targets()),
        decreases callees@.len() - i,
    {
        let callee = callees[i];
        assert(callee@ == all[i as int]);
        assert(all.skip(i as int)[0] == all[i as int]);
        let assigns = callee.get("assigns");
        let listed = match assigns {
            Some(assigns) => match assigns.text_at("kind") {
                Some(kind) => same(kind, "list"),
                None => false,
            },
            None => false,
        };
        if !listed {
            let name = match callee.text_at("function") {
                Some(name) => name,
                None => "a callee",
            };
            let mut reason = name.to_owned();
            reason.append(
                " states no finite assigns, so what this writes through it is unknown.                  Give ",
            );
            reason.append(name);
            reason.append(" an assigns clause first, then ask again.");
            return Some(reason);
        }
        proof {
            lemma_flat_map_step(all, callee_targets(), i as int);
            assert(all.skip(i as int).skip(1) == all.skip(i + 1));
        }
        if let Some(assigns) = assigns {
            let writes = assigns.items_at("assigns");
            push_targets(targets, &writes);
        }
        i = i + 1;
    }
    assert(all.take(i as int) == all);
    None
}

// ---------------------------------------------------------------------------
// The frame of a function
// ---------------------------------------------------------------------------

/// The location of a write that callers can observe: one that lands on a
/// global, or one through a pointer, which has no base.
pub open spec fn visible_target() -> spec_fn(JsonView) -> Option<Seq<char>> {
    |write: JsonView|
        match (write.text_at("target"@), write.text_at("base"@)) {
            (Some(target), Some(base)) => if write.flag_at("global"@) == Some(true) || base.len()
                == 0 {
                Some(target)
            } else {
                None
            },
            _ => None,
        }
}

/// The kind of an effect that could not be enumerated.
pub open spec fn effect_kind() -> spec_fn(JsonView) -> Option<Seq<char>> {
    |entry: JsonView| entry.text_at("kind"@)
}

/// What a frame is made of, in a reason: a function.
pub const FUNCTION_CONTAINS: &'static str = "This function contains ";

/// What a frame is made of, in a reason: a loop.
pub const LOOP_CONTAINS: &'static str = "This loop contains ";

/// Why a frame with effects of these kinds is unknown. `contains` says what
/// they stand in.
pub open spec fn unresolved_reason(contains: Seq<char>, kinds: Seq<Seq<char>>) -> Seq<char> {
    contains + join(kinds, " and "@)
        + " that the effect analysis cannot enumerate, so what it writes is unknown. Name the frame by hand, or give the indirect target a contract the caller can see."@
}

/// Why a frame is unknown where some effect does not say what it writes.
pub const UNSTATED_REASON: &'static str = "Some effect here does not say which location it writes, so what this writes is unknown. Name the frame by hand.";

/// Whether the member `key` is a list, or missing.
pub open spec fn list_if_any(effects: JsonView, key: Seq<char>) -> bool {
    match effects.get(key) {
        Some(JsonView::Array(_)) => true,
        Some(_) => false,
        None => true,
    }
}

/// Whether an effect says which location it writes.
pub open spec fn target_stated(write: JsonView) -> bool {
    write.text_at("target"@) is Some
}

/// Whether a callee that lists what it assigns says where each of that lies.
pub open spec fn targets_stated(callee: JsonView) -> bool {
    match callee.get_or_null("assigns"@).get("assigns"@) {
        Some(JsonView::Array(writes)) => forall|j: int|
            0 <= j < writes.len() ==> target_stated(#[trigger] writes[j]),
        _ => false,
    }
}

/// Whether the callees of some effects say where everything that they assign
/// lies.
pub open spec fn callees_stated(effects: JsonView) -> bool {
    &&& list_if_any(effects, "callee_assigns"@)
    &&& forall|i: int|
        0 <= i < effects.items_at("callee_assigns"@).len() ==> targets_stated(
            #[trigger] effects.items_at("callee_assigns"@)[i],
        )
}

/// Whether a write says which location it writes and what that belongs to.
pub open spec fn write_stated(write: JsonView) -> bool {
    target_stated(write) && write.text_at("base"@) is Some
}

/// Whether every write effect of a function says where it lands.
pub open spec fn locations_stated(writes: JsonView) -> bool {
    &&& list_if_any(writes, "writes"@)
    &&& list_if_any(writes, "unresolved"@)
    &&& callees_stated(writes)
    &&& forall|i: int|
        0 <= i < writes.items_at("writes"@).len() ==> write_stated(
            #[trigger] writes.items_at("writes"@)[i],
        )
}

/// Whether the member `key` is a list, or missing.
fn is_list_if_any(effects: &Json, key: &str) -> (r: bool)
    ensures
        r == list_if_any(effects@, key@),
{
    match effects.get(key) {
        Some(Json::Array(_)) => true,
        Some(_) => false,
        None => true,
    }
}

/// Whether a callee that lists what it assigns says where each of that lies.
fn are_targets_stated(callee: &Json) -> (r: bool)
    ensures
        r == targets_stated(callee@),
{
    broadcast use {lemma_array_view, lemma_object_view};
    let assigns = callee.get_or_null("assigns");
    let listed = match assigns.get("assigns") {
        Some(Json::Array(_)) => true,
        _ => false,
    };
    if !listed {
        return false;
    }
    let writes = assigns.items_at("assigns");
    let ghost all = ref_models(writes@);
    let mut j: usize = 0;
    while j < writes.len()
        invariant
            j <= writes@.len(),
            all == ref_models(writes@),
            assigns@ == callee@.get_or_null("assigns"@),
            assigns@.get("assigns"@) == Some(JsonView::Array(all)),
            forall|k: int| 0 <= k < j ==> target_stated(#[trigger] all[k]),
        decreases writes@.len() - j,
    {
        assert(writes@[j as int]@ == all[j as int]);
        if writes[j].text_at("target").is_none() {
            assert(j < all.len() && !target_stated(all[j as int]));
            assert(callee@.get_or_null("assigns"@).get("assigns"@)->0->Array_0 == all);
            return false;
        }
        j = j + 1;
    }
    true
}

/// Whether the callees of some effects say where everything that they assign
/// lies.
fn are_callees_stated(effects: &Json) -> (r: bool)
    ensures
        r == callees_stated(effects@),
{
    if !is_list_if_any(effects, "callee_assigns") {
        return false;
    }
    let callees = effects.items_at("callee_assigns");
    let ghost all = ref_models(callees@);
    let mut i: usize = 0;
    while i < callees.len()
        invariant
            i <= callees@.len(),
            all == ref_models(callees@),
            all == effects@.items_at("callee_assigns"@),
            forall|k: int| 0 <= k < i ==> targets_stated(#[trigger] all[k]),
        decreases callees@.len() - i,
    {
        assert(callees@[i as int]@ == all[i as int]);
        if !are_targets_stated(callees[i]) {
            assert(!targets_stated(effects@.items_at("callee_assigns"@)[i as int]));
            return false;
        }
        i = i + 1;
    }
    true
}

/// Whether every write effect of a function says where it lands.
fn are_locations_stated(writes: &Json) -> (r: bool)
    ensures
        r == locations_stated(writes@),
{
    if !is_list_if_any(writes, "writes") || !is_list_if_any(writes, "unresolved")
        || !are_callees_stated(writes) {
        return false;
    }
    let entries = writes.items_at("writes");
    let ghost all = ref_models(entries@);
    let mut i: usize = 0;
    while i < entries.len()
        invariant
            i <= entries@.len(),
            all == ref_models(entries@),
            all == writes@.items_at("writes"@),
            forall|k: int| 0 <= k < i ==> write_stated(#[trigger] all[k]),
        decreases entries@.len() - i,
    {
        assert(entries@[i as int]@ == all[i as int]);
        if entries[i].text_at("target").is_none() || entries[i].text_at("base").is_none() {
            assert(!write_stated(writes@.items_at("writes"@)[i as int]));
            return false;
        }
        i = i + 1;
    }
    true
}

/// The reason for effects that were not enumerated.
fn make_unresolved_reason(contains: &str, unresolved: &Vec<&Json>) -> (r: String)
    ensures
        r@ == unresolved_reason(contains@, filter_map(ref_models(unresolved@), effect_kind())),
{
    let ghost open_effects = ref_models(unresolved@);
    let mut kinds: Vec<String> = Vec::new();
    let mut k: usize = 0;
    assert(views(kinds@) == filter_map(open_effects.take(0), effect_kind()));
    while k < unresolved.len()
        invariant
            k <= unresolved@.len(),
            open_effects == ref_models(unresolved@),
            views(kinds@) == filter_map(open_effects.take(k as int), effect_kind()),
        decreases unresolved@.len() - k,
    {
        proof {
            lemma_filter_map_step(open_effects, effect_kind(), k as int);
        }
        let ghost before = views(kinds@);
        if let Some(kind) = unresolved[k].text_at("kind") {
            kinds.push(kind.to_owned());
            assert(views(kinds@) == before.push(kind@));
        }
        k = k + 1;
    }
    assert(open_effects.take(k as int) == open_effects);
    let list = joined(&kinds, " and ");
    let mut reason = contains.to_owned();
    reason.append(list.as_str());
    reason.append(
        " that the effect analysis cannot enumerate, so what it writes is unknown. Name the frame by hand, or give the indirect target a contract the caller can see.",
    );
    reason
}

/// The locations that the write effects and the callees name.
pub open spec fn frame_targets(writes: JsonView) -> Seq<Seq<char>> {
    filter_map(writes.items_at("writes"@), visible_target()) + flat_map(
        writes.items_at("callee_assigns"@),
        callee_targets(),
    )
}

/// The frame that the write effects of a function determine.
pub open spec fn frame(writes: JsonView) -> FrameView {
    let callees = writes.items_at("callee_assigns"@);
    let unresolved = writes.items_at("unresolved"@);
    let at = unlisted_at(callees);
    if at < callees.len() {
        FrameView::Unknown(unlisted_reason(callee_name(callees[at as int])))
    } else if unresolved.len() > 0 {
        FrameView::Unknown(
            unresolved_reason(FUNCTION_CONTAINS@, filter_map(unresolved, effect_kind())),
        )
    } else if !locations_stated(writes) {
        FrameView::Unknown(UNSTATED_REASON@)
    } else {
        FrameView::Writes(sorted_distinct(frame_targets(writes)))
    }
}

/// The locations a function writes that its callers can observe, or why they
/// are not known.
pub fn function_frame(writes: &Json) -> (r: Frame)
    ensures
        r@ == frame(writes@),
{
    let entries = writes.items_at("writes");
    let ghost all = ref_models(entries@);
    let mut targets: Vec<String> = Vec::new();
    let mut i: usize = 0;
    assert(views(targets@) == filter_map(all.take(0), visible_target()));
    while i < entries.len()
        invariant
            i <= entries@.len(),
            all == ref_models(entries@),
            views(targets@) == filter_map(all.take(i as int), visible_target()),
        decreases entries@.len() - i,
    {
        let write = entries[i];
        proof {
            lemma_filter_map_step(all, visible_target(), i as int);
        }
        let ghost before = views(targets@);
        if let Some(target) = write.text_at("target") {
            if let Some(base) = write.text_at("base") {
                let global = match write.flag_at("global") {
                    Some(b) => b,
                    None => false,
                };
                if global || base.is_empty() {
                    targets.push(target.to_owned());
                    assert(views(targets@) == before.push(target@));
                }
            }
        }
        i = i + 1;
    }
    assert(all.take(i as int) == all);
    let ghost callees = writes@.items_at("callee_assigns"@);
    proof {
        lemma_unlisted_at(callees);
    }
    if let Some(reason) = extend_with_callee_assigns(&mut targets, writes) {
        return Frame::Unknown(reason);
    }
    assert(callees.take(callees.len() as int) == callees);
    let unresolved = writes.items_at("unresolved");
    if unresolved.len() > 0 {
        return Frame::Unknown(make_unresolved_reason(FUNCTION_CONTAINS, &unresolved));
    }
    if !are_locations_stated(writes) {
        return Frame::Unknown(UNSTATED_REASON.to_owned());
    }
    Frame::Writes(sort_distinct(&targets))
}

/// A frame that is made omits nothing and invents nothing: it lists, in order
/// and each once, exactly the targets of the writes that callers can observe
/// and of what the callees list; every callee lists what it assigns, no effect
/// was left unenumerated, and each says where it lands.
pub proof fn law_frame_is_exact(writes: JsonView)
    requires
        frame(writes) is Writes,
    ensures
        strictly_sorted(frame(writes)->Writes_0),
        forall|i: int|
            0 <= i < writes.items_at("callee_assigns"@).len() ==> callee_listed(
                #[trigger] writes.items_at("callee_assigns"@)[i],
            ),
        writes.items_at("unresolved"@).len() == 0,
        locations_stated(writes),
        forall|t: Seq<char>| #[trigger]
            frame(writes)->Writes_0.contains(t) <==> {
                ||| exists|i: int|
                    0 <= i < writes.items_at("writes"@).len() && visible_target()(
                        #[trigger] writes.items_at("writes"@)[i],
                    ) == Some(t)
                ||| exists|i: int|
                    0 <= i < writes.items_at("callee_assigns"@).len() && callee_targets()(
                        #[trigger] writes.items_at("callee_assigns"@)[i],
                    ).contains(t)
            },
{
    let callees = writes.items_at("callee_assigns"@);
    let entries = writes.items_at("writes"@);
    lemma_unlisted_at(callees);
    let a = filter_map(entries, visible_target());
    let b = flat_map(callees, callee_targets());
    law_sorted_distinct(a + b);
    assert forall|t: Seq<char>| #[trigger] frame(writes)->Writes_0.contains(t) <==> {
        ||| exists|i: int|
            0 <= i < entries.len() && visible_target()(#[trigger] entries[i]) == Some(t)
        ||| exists|i: int|
            0 <= i < callees.len() && callee_targets()(#[trigger] callees[i]).contains(t)
    } by {
        lemma_filter_map_contains(entries, visible_target(), t);
        lemma_flat_map_contains(callees, callee_targets(), t);
        let c = a + b;
        if a.contains(t) {
            let k = choose|k: int| 0 <= k < a.len() && a[k] == t;
            assert(c[k] == t);
        }
        if b.contains(t) {
            let k = choose|k: int| 0 <= k < b.len() && b[k] == t;
            assert(c[a.len() + k] == t);
        }
        if c.contains(t) {
            let k = choose|k: int| 0 <= k < c.len() && c[k] == t;
            if k < a.len() {
                assert(a[k] == t);
            } else {
                assert(b[k - a.len()] == t);
            }
        }
    }
}

/// A frame omits no location: one that is made lists the target of every write
/// to a global, of every write through a pointer, and of everything that a
/// callee assigns, and each of these says its target.
pub proof fn law_frame_omits_nothing(writes: JsonView)
    requires
        frame(writes) is Writes,
    ensures
        forall|i: int|
            0 <= i < writes.items_at("writes"@).len() ==> {
                let write = #[trigger] writes.items_at("writes"@)[i];
                &&& write_stated(write)
                &&& write.flag_at("global"@) == Some(true) || write.text_at("base"@)->0.len() == 0
                    ==> frame(writes)->Writes_0.contains(write.text_at("target"@)->0)
            },
        forall|i: int, j: int|
            0 <= i < writes.items_at("callee_assigns"@).len() && 0 <= j
                < writes.items_at("callee_assigns"@)[i].get_or_null("assigns"@).items_at(
                "assigns"@,
            ).len() ==> {
                let write = #[trigger] writes.items_at("callee_assigns"@)[i].get_or_null(
                    "assigns"@,
                ).items_at("assigns"@)[j];
                target_stated(write) && frame(writes)->Writes_0.contains(
                    write.text_at("target"@)->0,
                )
            },
{
    law_frame_is_exact(writes);
    let entries = writes.items_at("writes"@);
    let callees = writes.items_at("callee_assigns"@);
    let listed = frame(writes)->Writes_0;
    assert forall|i: int| 0 <= i < entries.len() implies {
        let write = #[trigger] entries[i];
        &&& write_stated(write)
        &&& write.flag_at("global"@) == Some(true) || write.text_at("base"@)->0.len() == 0
            ==> listed.contains(write.text_at("target"@)->0)
    } by {
        let write = entries[i];
        assert(write_stated(writes.items_at("writes"@)[i]));
        if write.flag_at("global"@) == Some(true) || write.text_at("base"@)->0.len() == 0 {
            assert(visible_target()(entries[i]) == write.text_at("target"@));
        }
    }
    assert forall|i: int, j: int|
        0 <= i < callees.len() && 0 <= j < callees[i].get_or_null("assigns"@).items_at(
            "assigns"@,
        ).len() implies {
        let write = #[trigger] callees[i].get_or_null("assigns"@).items_at("assigns"@)[j];
        target_stated(write) && listed.contains(write.text_at("target"@)->0)
    } by {
        lemma_callee_target(writes, i, j);
        let t = callees[i].get_or_null("assigns"@).items_at("assigns"@)[j].text_at("target"@)->0;
        assert(callee_targets()(callees[i]).contains(t));
    }
}

proof fn lemma_callee_target(effects: JsonView, i: int, j: int)
    requires
        callees_stated(effects),
        0 <= i < effects.items_at("callee_assigns"@).len(),
        0 <= j < effects.items_at("callee_assigns"@)[i].get_or_null("assigns"@).items_at(
            "assigns"@,
        ).len(),
    ensures
        ({
            let callee = effects.items_at("callee_assigns"@)[i];
            let write = callee.get_or_null("assigns"@).items_at("assigns"@)[j];
            target_stated(write) && callee_targets()(callee).contains(
                write.text_at("target"@)->0,
            )
        }),
{
    let callee = effects.items_at("callee_assigns"@)[i];
    assert(targets_stated(callee));
    let assigned = callee.get_or_null("assigns"@).items_at("assigns"@);
    assert(target_stated(assigned[j]));
    let t = assigned[j].text_at("target"@)->0;
    lemma_filter_map_contains(assigned, write_target(), t);
    assert(write_target()(assigned[j]) == Some(t));
}

/// A frame is not made where a callee states no finite list of assigns, nor
/// where an effect could not be enumerated or does not say where it lands.
pub proof fn law_frame_fails_closed(writes: JsonView)
    requires
        (exists|i: int|
            0 <= i < writes.items_at("callee_assigns"@).len() && !callee_listed(
                #[trigger] writes.items_at("callee_assigns"@)[i],
            )) || writes.items_at("unresolved"@).len() > 0 || !locations_stated(writes),
    ensures
        frame(writes) is Unknown,
{
    lemma_unlisted_at(writes.items_at("callee_assigns"@));
}

// ---------------------------------------------------------------------------
// What is annotated already
// ---------------------------------------------------------------------------

/// Whether an annotation is a clause of this kind at this loop, or, without a
/// marker, of the contract.
pub open spec fn clause_of(
    annotation: JsonView,
    kind: Seq<char>,
    marker: Option<Seq<char>>,
) -> bool {
    annotation.text_at("kind"@) == Some(kind) && annotation.text_at("kinstr_marker"@) == marker
}

/// Whether some annotation is a clause of this kind at this place.
pub open spec fn annotated(
    annotations: JsonView,
    kind: Seq<char>,
    marker: Option<Seq<char>>,
) -> bool {
    exists|i: int|
        0 <= i < annotations.items().len() && clause_of(
            #[trigger] annotations.items()[i],
            kind,
            marker,
        )
}

/// Does this function already carry a clause of the given kind?
///
/// Keyed on the loop marker where there is one, so that a loop that states
/// assigns does not suppress the proposal for the loop next to it.
pub fn already_annotated(annotations: &Json, kind: &str, kinstr_marker: Option<&str>) -> (r: bool)
    ensures
        r == annotated(annotations@, kind@, opt_text(kinstr_marker)),
{
    let items = annotations.items();
    let ghost all = ref_models(items@);
    let mut i: usize = 0;
    while i < items.len()
        invariant
            i <= items@.len(),
            all == ref_models(items@),
            all == annotations@.items(),
            forall|k: int|
                0 <= k < i ==> !clause_of(#[trigger] all[k], kind@, opt_text(kinstr_marker)),
        decreases items@.len() - i,
    {
        let annotation = items[i];
        assert(annotation@ == all[i as int]);
        let kind_matches = match annotation.text_at("kind") {
            Some(k) => same(k, kind),
            None => false,
        };
        let marker_matches = match (annotation.text_at("kinstr_marker"), kinstr_marker) {
            (Some(a), Some(b)) => same(a, b),
            (None, None) => true,
            _ => false,
        };
        if kind_matches && marker_matches {
            assert(clause_of(annotations@.items()[i as int], kind@, opt_text(kinstr_marker)));
            return true;
        }
        i = i + 1;
    }
    false
}

/// A clause at one loop says nothing of another loop: what is annotated at a
/// marker is decided by the annotations that carry that marker.
pub proof fn law_annotated_by_own_marker(
    annotations: Seq<JsonView>,
    other: JsonView,
    kind: Seq<char>,
    marker: Option<Seq<char>>,
)
    requires
        other.text_at("kinstr_marker"@) != marker,
    ensures
        annotated(JsonView::Array(annotations.push(other)), kind, marker) == annotated(
            JsonView::Array(annotations),
            kind,
            marker,
        ),
{
    let more = annotations.push(other);
    assert(JsonView::Array(more).items() == more);
    assert(JsonView::Array(annotations).items() == annotations);
    if annotated(JsonView::Array(annotations), kind, marker) {
        let i = choose|i: int|
            0 <= i < annotations.len() && clause_of(#[trigger] annotations[i], kind, marker);
        assert(more[i] == annotations[i]);
        assert(clause_of(JsonView::Array(more).items()[i], kind, marker));
    }
    if annotated(JsonView::Array(more), kind, marker) {
        let i = choose|i: int| 0 <= i < more.len() && clause_of(#[trigger] more[i], kind, marker);
        assert(more[i] == annotations[i]);
        assert(clause_of(JsonView::Array(annotations).items()[i], kind, marker));
    }
}

/// The predicate of a postcondition.
pub open spec fn postcondition() -> spec_fn(JsonView) -> Option<Seq<char>> {
    |annotation: JsonView|
        if annotation.text_at("kind"@) == Some("ensures"@) {
            annotation.text_at("predicate"@)
        } else {
            None
        }
}

/// The predicates of the postconditions, one behind the other.
pub fn ensures_text(annotations: &Json) -> (r: String)
    ensures
        r@ == join(filter_map(annotations@.items(), postcondition()), " "@),
{
    let items = annotations.items();
    let ghost all = ref_models(items@);
    let mut texts: Vec<String> = Vec::new();
    let mut i: usize = 0;
    assert(views(texts@) == filter_map(all.take(0), postcondition()));
    while i < items.len()
        invariant
            i <= items@.len(),
            all == ref_models(items@),
            views(texts@) == filter_map(all.take(i as int), postcondition()),
        decreases items@.len() - i,
    {
        proof {
            lemma_filter_map_step(all, postcondition(), i as int);
        }
        let ghost before = views(texts@);
        if let Some(kind) = items[i].text_at("kind") {
            if same(kind, "ensures") {
                if let Some(predicate) = items[i].text_at("predicate") {
                    texts.push(predicate.to_owned());
                    assert(views(texts@) == before.push(predicate@));
                }
            }
        }
        i = i + 1;
    }
    assert(all.take(i as int) == all);
    joined(&texts, " ")
}

// ---------------------------------------------------------------------------
// The frames of the loops
// ---------------------------------------------------------------------------

/// Where a loop frame comes from.
pub const LOOP_SOURCE: &'static str = "getLoopEffects.modified_vars and callee_assigns";

/// Why a loop frame is proposed.
pub const LOOP_RATIONALE: &'static str = "Every location this loop body writes, and nothing else. WP loses each fact it holds about a location the loop writes without listing.";

/// Why no loop invariant is proposed.
pub const INVARIANT_REASON: &'static str = "A loop invariant states what the body maintains, which the AST does not determine. Two are usually needed: the bound on the induction variable, readable off the loop guard, and the relation between the accumulator and what it accumulates.";

/// The text of a string.
pub open spec fn string_text() -> spec_fn(JsonView) -> Option<Seq<char>> {
    |v: JsonView| v.as_text()
}

/// The marker of the statement `id`.
pub open spec fn loop_marker(id: int) -> Seq<char> {
    "#k"@ + signed_decimal(id)
}

/// The locations that a loop body writes, where its callees list theirs.
pub open spec fn loop_targets(effect: JsonView) -> Seq<Seq<char>> {
    sorted_distinct(
        filter_map(effect.items_at("modified_vars"@), string_text()) + flat_map(
            effect.items_at("callee_assigns"@),
            callee_targets(),
        ),
    )
}

/// The frame proposed for the loop `id`.
pub open spec fn loop_proposal(id: int, targets: Seq<Seq<char>>) -> JsonView {
    JsonView::Object(
        seq![
            ("kind"@, JsonView::Text("loop"@)),
            ("stmt_id"@, whole(id)),
            (
                "assigns"@,
                JsonView::Array(
                    seq![
                        JsonView::Object(
                            seq![("acsl"@, JsonView::Text(join(targets, ", "@)))],
                        ),
                    ],
                ),
            ),
            ("invariants"@, JsonView::Array(seq![])),
            ("confidence"@, JsonView::Text("derived"@)),
            ("derived_from"@, JsonView::Text(LOOP_SOURCE@)),
            ("rationale"@, JsonView::Text(LOOP_RATIONALE@)),
        ],
    )
}

/// A note that `kind` is not proposed for the loop `id`.
pub open spec fn loop_note(kind: Seq<char>, id: int, reason: Seq<char>) -> JsonView {
    JsonView::Object(
        seq![
            ("kind"@, JsonView::Text(kind)),
            ("stmt_id"@, whole(id)),
            ("reason"@, JsonView::Text(reason)),
        ],
    )
}

/// The identifier of the statement of a loop.
pub open spec fn loop_id(effect: JsonView) -> Option<i64> {
    match effect.get("stmt_id"@) {
        Some(v) => v.as_i64(),
        None => None,
    }
}

/// Whether every effect of a loop says where it lands: each variable that the
/// body modifies is named, and so is everything that its callees assign.
pub open spec fn loop_stated(effect: JsonView) -> bool {
    &&& list_if_any(effect, "modified_vars"@)
    &&& list_if_any(effect, "unresolved"@)
    &&& callees_stated(effect)
    &&& forall|i: int|
        0 <= i < effect.items_at("modified_vars"@).len() ==> (
        #[trigger] effect.items_at("modified_vars"@)[i]).as_text() is Some
}

/// Why the frame of a loop is unknown: a callee lists nothing, an effect was
/// not enumerated, or one does not say where it lands. Nothing where it is
/// known.
pub open spec fn loop_unknown(effect: JsonView) -> Option<Seq<char>> {
    let callees = effect.items_at("callee_assigns"@);
    let unresolved = effect.items_at("unresolved"@);
    if unlisted_at(callees) < callees.len() {
        Some(unlisted_reason(callee_name(callees[unlisted_at(callees) as int])))
    } else if unresolved.len() > 0 {
        Some(unresolved_reason(LOOP_CONTAINS@, filter_map(unresolved, effect_kind())))
    } else if !loop_stated(effect) {
        Some(UNSTATED_REASON@)
    } else {
        None
    }
}

/// Whether a frame is proposed for a loop: it is known and not empty, and the
/// loop states none yet.
pub open spec fn loop_open(effect: JsonView, annotations: JsonView) -> bool {
    match loop_id(effect) {
        Some(id) => loop_unknown(effect) is None && loop_targets(effect).len() > 0 && !annotated(
            annotations,
            "assigns"@,
            Some(loop_marker(id as int)),
        ),
        None => false,
    }
}

/// What is proposed for one loop.
pub open spec fn loop_proposals(annotations: JsonView) -> spec_fn(JsonView) -> Seq<JsonView> {
    |effect: JsonView|
        if loop_open(effect, annotations) {
            seq![loop_proposal(loop_id(effect)->0 as int, loop_targets(effect))]
        } else {
            Seq::empty()
        }
}

/// What is noted as not proposed for one loop: its frame where that is
/// unknown, and an invariant where a frame is proposed and it states none.
pub open spec fn loop_notes(annotations: JsonView) -> spec_fn(JsonView) -> Seq<JsonView> {
    |effect: JsonView|
        match loop_id(effect) {
            Some(id) => match loop_unknown(effect) {
                Some(reason) => seq![loop_note("loop_assigns"@, id as int, reason)],
                None => if loop_open(effect, annotations) && !annotated(
                    annotations,
                    "loop_invariant"@,
                    Some(loop_marker(id as int)),
                ) {
                    seq![loop_note("loop_invariant"@, id as int, INVARIANT_REASON@)]
                } else {
                    Seq::empty()
                },
            },
            None => Seq::empty(),
        }
}

/// A note that `kind` is not proposed for the loop `id`.
fn make_loop_note(kind: &str, id: i64, reason: &str) -> (r: Json)
    ensures
        r@ == loop_note(kind@, id as int, reason@),
{
    broadcast use {lemma_array_view, lemma_object_view};
    let mut note = no_members();
    member(&mut note, "kind", Json::text(kind));
    member(&mut note, "stmt_id", Json::whole(id));
    member(&mut note, "reason", Json::text(reason));
    assert(member_models(note@) == loop_note(kind@, id as int, reason@)->Object_0);
    Json::Object(note)
}

/// The frame proposed for the loop `id`.
fn make_loop_proposal(id: i64, targets: &Vec<String>) -> (r: Json)
    ensures
        r@ == loop_proposal(id as int, views(targets@)),
{
    broadcast use {lemma_array_view, lemma_object_view};
    let list = joined(targets, ", ");
    let mut clause = no_members();
    member(&mut clause, "acsl", Json::text(list.as_str()));
    let mut assigns: Vec<Json> = Vec::new();
    assigns.push(Json::Object(clause));
    assert(models(assigns@) == seq![Json::Object(clause)@]);
    let invariants: Vec<Json> = Vec::new();
    assert(models(invariants@) == Seq::<JsonView>::empty());
    let mut proposal = no_members();
    member(&mut proposal, "kind", Json::text("loop"));
    member(&mut proposal, "stmt_id", Json::whole(id));
    member(&mut proposal, "assigns", Json::Array(assigns));
    member(&mut proposal, "invariants", Json::Array(invariants));
    member(&mut proposal, "confidence", Json::text("derived"));
    member(&mut proposal, "derived_from", Json::text(LOOP_SOURCE));
    member(&mut proposal, "rationale", Json::text(LOOP_RATIONALE));
    assert(member_models(proposal@) == loop_proposal(id as int, views(targets@))->Object_0);
    Json::Object(proposal)
}

/// The strings of a list.
pub fn strings_of(list: &Vec<&Json>) -> (r: Vec<String>)
    ensures
        views(r@) == filter_map(ref_models(list@), string_text()),
{
    let ghost all = ref_models(list@);
    let mut out: Vec<String> = Vec::new();
    let mut i: usize = 0;
    assert(views(out@) == filter_map(all.take(0), string_text()));
    while i < list.len()
        invariant
            i <= list@.len(),
            all == ref_models(list@),
            views(out@) == filter_map(all.take(i as int), string_text()),
        decreases list@.len() - i,
    {
        proof {
            lemma_filter_map_step(all, string_text(), i as int);
        }
        let ghost before = views(out@);
        if let Some(text) = list[i].as_str() {
            out.push(text.to_owned());
            assert(views(out@) == before.push(text@));
        }
        i = i + 1;
    }
    assert(all.take(i as int) == all);
    out
}

/// Whether every effect of a loop says where it lands.
fn is_loop_stated(effect: &Json) -> (r: bool)
    ensures
        r == loop_stated(effect@),
{
    if !is_list_if_any(effect, "modified_vars") || !is_list_if_any(effect, "unresolved")
        || !are_callees_stated(effect) {
        return false;
    }
    let vars = effect.items_at("modified_vars");
    let ghost all = ref_models(vars@);
    let mut i: usize = 0;
    while i < vars.len()
        invariant
            i <= vars@.len(),
            all == ref_models(vars@),
            all == effect@.items_at("modified_vars"@),
            forall|k: int| 0 <= k < i ==> (#[trigger] all[k]).as_text() is Some,
        decreases vars@.len() - i,
    {
        assert(vars@[i as int]@ == all[i as int]);
        if vars[i].as_str().is_none() {
            assert(effect@.items_at("modified_vars"@)[i as int].as_text() is None);
            return false;
        }
        i = i + 1;
    }
    true
}

/// Why the frame of a loop is unknown. `unlisted` is the reason that a callee
/// gives, where one lists nothing.
fn why_loop_unknown(effect: &Json, unlisted: Option<String>) -> (r: Option<String>)
    requires
        ({
            let callees = effect@.items_at("callee_assigns"@);
            let at = unlisted_at(callees) as int;
            match unlisted {
                Some(reason) => at < callees.len() && reason@ == unlisted_reason(
                    callee_name(callees[at]),
                ),
                None => at == callees.len(),
            }
        }),
    ensures
        opt_string(r) == loop_unknown(effect@),
{
    if let Some(reason) = unlisted {
        return Some(reason);
    }
    let unresolved = effect.items_at("unresolved");
    assert(unresolved@.len() == ref_models(unresolved@).len());
    if unresolved.len() > 0 {
        return Some(make_unresolved_reason(LOOP_CONTAINS, &unresolved));
    }
    if !is_loop_stated(effect) {
        return Some(UNSTATED_REASON.to_owned());
    }
    None
}

/// The frame and the notes of one loop.
fn loop_frame(
    effect: &Json,
    annotations: &Json,
    proposals: &mut Vec<Json>,
    not_proposed: &mut Vec<Json>,
)
    ensures
        models(final(proposals)@) == models(old(proposals)@) + loop_proposals(annotations@)(
            effect@,
        ),
        models(final(not_proposed)@) == models(old(not_proposed)@) + loop_notes(annotations@)(
            effect@,
        ),
{
    let ghost p0 = models(proposals@);
    let ghost n0 = models(not_proposed@);
    let id = match effect.get("stmt_id") {
        Some(v) => match v.as_i64() {
            Some(id) => id,
            None => {
                return;
            },
        },
        None => {
            return;
        },
    };
    let mut marker = "#k".to_owned();
    marker.append(signed_decimal_of(id).as_str());
    let vars = effect.items_at("modified_vars");
    let mut targets = strings_of(&vars);
    let ghost callees = effect@.items_at("callee_assigns"@);
    proof {
        lemma_unlisted_at(callees);
    }
    let unlisted = extend_with_callee_assigns(&mut targets, effect);
    if let Some(reason) = why_loop_unknown(effect, unlisted) {
        not_proposed.push(make_loop_note("loop_assigns", id, reason.as_str()));
        assert(models(not_proposed@) == n0 + loop_notes(annotations@)(effect@));
        return;
    }
    assert(callees.take(callees.len() as int) == callees);
    let sorted = sort_distinct(&targets);
    assert(views(sorted@) == loop_targets(effect@));
    if sorted.len() == 0 {
        return;
    }
    if already_annotated(annotations, "assigns", Some(marker.as_str())) {
        return;
    }
    assert(loop_open(effect@, annotations@));
    proposals.push(make_loop_proposal(id, &sorted));
    assert(models(proposals@) == p0 + loop_proposals(annotations@)(effect@));
    if !already_annotated(annotations, "loop_invariant", Some(marker.as_str())) {
        not_proposed.push(make_loop_note("loop_invariant", id, INVARIANT_REASON));
        assert(models(not_proposed@) == n0 + loop_notes(annotations@)(effect@));
    }
}

/// One frame for each loop that does not state one, and a note naming the
/// invariant that is not invented.
pub fn loop_frames(
    loops: &Json,
    annotations: &Json,
    proposals: &mut Vec<Json>,
    not_proposed: &mut Vec<Json>,
)
    ensures
        models(final(proposals)@) == models(old(proposals)@) + flat_map(
            loops@.items(),
            loop_proposals(annotations@),
        ),
        models(final(not_proposed)@) == models(old(not_proposed)@) + flat_map(
            loops@.items(),
            loop_notes(annotations@),
        ),
{
    let items = loops.items();
    let ghost all = ref_models(items@);
    let ghost p0 = models(proposals@);
    let ghost n0 = models(not_proposed@);
    let mut i: usize = 0;
    assert(p0 + flat_map(all.take(0), loop_proposals(annotations@)) == p0);
    assert(n0 + flat_map(all.take(0), loop_notes(annotations@)) == n0);
    while i < items.len()
        invariant
            i <= items@.len(),
            all == ref_models(items@),
            models(proposals@) == p0 + flat_map(all.take(i as int), loop_proposals(annotations@)),
            models(not_proposed@) == n0 + flat_map(all.take(i as int), loop_notes(annotations@)),
        decreases items@.len() - i,
    {
        proof {
            lemma_flat_map_step(all, loop_proposals(annotations@), i as int);
            lemma_flat_map_step(all, loop_notes(annotations@), i as int);
        }
        loop_frame(items[i], annotations, proposals, not_proposed);
        i = i + 1;
    }
    assert(all.take(i as int) == all);
}

/// A proposed loop frame belongs to a loop whose effects are all known, that
/// writes something, and that states no assigns of its own.
pub proof fn law_loop_proposals(loops: JsonView, annotations: JsonView, p: JsonView)
    requires
        flat_map(loops.items(), loop_proposals(annotations)).contains(p),
    ensures
        exists|i: int|
            0 <= i < loops.items().len() && loop_open(#[trigger] loops.items()[i], annotations)
                && p == loop_proposal(
                loop_id(loops.items()[i])->0 as int,
                loop_targets(loops.items()[i]),
            ),
{
    let f = loop_proposals(annotations);
    lemma_flat_map_contains(loops.items(), f, p);
    let i = choose|i: int|
        0 <= i < loops.items().len() && f(#[trigger] loops.items()[i]).contains(p);
    let effect = loops.items()[i];
    assert(f(effect).contains(p));
    assert(loop_open(effect, annotations));
}

/// The frame of a loop omits no location: where it is known, it lists every
/// variable that the body modifies and everything that a callee assigns, and
/// each of these is named. It is unknown where a callee states no finite list,
/// or an effect was not enumerated or does not say where it lands.
pub proof fn law_loop_frame_omits_nothing(effect: JsonView)
    ensures
        loop_unknown(effect) is None <==> {
            &&& forall|i: int|
                0 <= i < effect.items_at("callee_assigns"@).len() ==> callee_listed(
                    #[trigger] effect.items_at("callee_assigns"@)[i],
                )
            &&& effect.items_at("unresolved"@).len() == 0
            &&& loop_stated(effect)
        },
        loop_unknown(effect) is None ==> {
            &&& forall|i: int|
                0 <= i < effect.items_at("modified_vars"@).len() ==> {
                    let var = #[trigger] effect.items_at("modified_vars"@)[i];
                    var.as_text() is Some && loop_targets(effect).contains(var.as_text()->0)
                }
            &&& forall|i: int, j: int|
                0 <= i < effect.items_at("callee_assigns"@).len() && 0 <= j
                    < effect.items_at("callee_assigns"@)[i].get_or_null("assigns"@).items_at(
                    "assigns"@,
                ).len() ==> {
                    let write = #[trigger] effect.items_at("callee_assigns"@)[i].get_or_null(
                        "assigns"@,
                    ).items_at("assigns"@)[j];
                    target_stated(write) && loop_targets(effect).contains(
                        write.text_at("target"@)->0,
                    )
                }
        },
{
    let vars = effect.items_at("modified_vars"@);
    let callees = effect.items_at("callee_assigns"@);
    lemma_unlisted_at(callees);
    let a = filter_map(vars, string_text());
    let b = flat_map(callees, callee_targets());
    law_sorted_distinct(a + b);
    if loop_unknown(effect) is None {
        assert forall|i: int| 0 <= i < vars.len() implies {
            let var = #[trigger] vars[i];
            var.as_text() is Some && loop_targets(effect).contains(var.as_text()->0)
        } by {
            assert(effect.items_at("modified_vars"@)[i].as_text() is Some);
            let t = vars[i].as_text()->0;
            lemma_filter_map_contains(vars, string_text(), t);
            assert(string_text()(vars[i]) == Some(t));
            let k = choose|k: int| 0 <= k < a.len() && a[k] == t;
            assert((a + b)[k] == t);
        }
        assert forall|i: int, j: int|
            0 <= i < callees.len() && 0 <= j < callees[i].get_or_null("assigns"@).items_at(
                "assigns"@,
            ).len() implies {
            let write = #[trigger] callees[i].get_or_null("assigns"@).items_at("assigns"@)[j];
            target_stated(write) && loop_targets(effect).contains(write.text_at("target"@)->0)
        } by {
            lemma_callee_target(effect, i, j);
            let write = callees[i].get_or_null("assigns"@).items_at("assigns"@)[j];
            let t = write.text_at("target"@)->0;
            lemma_flat_map_contains(callees, callee_targets(), t);
            assert(callee_targets()(callees[i]).contains(t));
            let k = choose|k: int| 0 <= k < b.len() && b[k] == t;
            assert((a + b)[a.len() + k] == t);
        }
    }
}

// ---------------------------------------------------------------------------
// Writes that no postcondition mentions
// ---------------------------------------------------------------------------

/// The targets that an assigns clause of the contract names, as written.
pub open spec fn contract_targets() -> spec_fn(JsonView) -> Seq<Seq<char>> {
    |annotation: JsonView|
        if annotation.text_at("kind"@) == Some("assigns"@) && annotation.get(
            "kinstr_marker"@,
        ) is None {
            match annotation.text_at("predicate"@) {
                Some(predicate) => split(
                    drop_suffixes(drop_prefixes(predicate, "assigns"@), ';'),
                    ',',
                ),
                None => Seq::empty(),
            }
        } else {
            Seq::empty()
        }
}

/// The targets that the assigns clauses of the contract name, as written.
pub fn assigned_targets(annotations: &Json) -> (r: Vec<String>)
    ensures
        views(r@) == flat_map(annotations@.items(), contract_targets()),
{
    let items = annotations.items();
    let ghost all = ref_models(items@);
    let mut out: Vec<String> = Vec::new();
    let mut i: usize = 0;
    assert(views(out@) == flat_map(all.take(0), contract_targets()));
    while i < items.len()
        invariant
            i <= items@.len(),
            all == ref_models(items@),
            views(out@) == flat_map(all.take(i as int), contract_targets()),
        decreases items@.len() - i,
    {
        proof {
            lemma_flat_map_step(all, contract_targets(), i as int);
        }
        let annotation = items[i];
        assert(annotation@ == all[i as int]);
        let ghost before = views(out@);
        let of_assigns = match annotation.text_at("kind") {
            Some(kind) => same(kind, "assigns"),
            None => false,
        };
        if of_assigns && annotation.get("kinstr_marker").is_none() {
            if let Some(predicate) = annotation.text_at("predicate") {
                let body = strip_affixes(predicate, "assigns", ';');
                let mut pieces = split_at_char(body.as_str(), ',');
                let ghost added = views(pieces@);
                out.append(&mut pieces);
                assert(views(out@) == before + added);
            }
        }
        i = i + 1;
    }
    assert(all.take(i as int) == all);
    out
}

/// A note that nothing is said about what is written to `target`.
pub open spec fn gap_note(target: Seq<char>) -> JsonView {
    JsonView::Object(
        seq![
            ("kind"@, JsonView::Text("ensures"@)),
            ("about"@, JsonView::Text(target)),
            (
                "reason"@,
                JsonView::Text(
                    "The contract assigns "@ + target
                        + " and no postcondition mentions it, so proving this function says nothing about the value written there. What it should say is a property of the code, not of the AST."@,
                ),
            ),
        ],
    )
}

/// The note for a location that is assigned: none where it is `nothing` or
/// where a postcondition mentions it.
pub open spec fn gap(constrained: Seq<Seq<char>>) -> spec_fn(Option<Seq<char>>) -> Option<
    JsonView,
> {
    |leaf: Option<Seq<char>>|
        match leaf {
            Some(target) => if target == "nothing"@ || constrained.contains(target) {
                None
            } else {
                Some(gap_note(target))
            },
            None => None,
        }
}

/// The views of a list of strings that may be missing.
pub open spec fn leaf_views(leaves: Seq<Option<String>>) -> Seq<Option<Seq<char>>> {
    leaves.map_values(|leaf: Option<String>| opt_string(leaf))
}

/// Whether `list` holds `text`.
fn list_has(list: &Vec<String>, text: &str) -> (r: bool)
    ensures
        r == views(list@).contains(text@),
{
    let mut i: usize = 0;
    while i < list.len()
        invariant
            i <= list@.len(),
            forall|k: int| 0 <= k < i ==> views(list@)[k] != text@,
        decreases list@.len() - i,
    {
        if same(list[i].as_str(), text) {
            assert(views(list@)[i as int] == text@);
            return true;
        }
        i = i + 1;
    }
    false
}

/// A note that nothing is said about what is written to `target`.
fn make_gap_note(target: &str) -> (r: Json)
    ensures
        r@ == gap_note(target@),
{
    broadcast use {lemma_array_view, lemma_object_view};
    let mut reason = "The contract assigns ".to_owned();
    reason.append(target);
    reason.append(
        " and no postcondition mentions it, so proving this function says nothing about the value written there. What it should say is a property of the code, not of the AST.",
    );
    let mut note = no_members();
    member(&mut note, "kind", Json::text("ensures"));
    member(&mut note, "about", Json::text(target));
    member(&mut note, "reason", Json::text(reason.as_str()));
    assert(member_models(note@) == gap_note(target@)->Object_0);
    Json::Object(note)
}

/// Every location the contract says it writes that no postcondition mentions.
///
/// `leaves` are the locations that the targets of [`assigned_targets`] come
/// down to, in order, and `constrained` the identifiers of [`ensures_text`].
pub fn ensures_gaps(
    leaves: &Vec<Option<String>>,
    constrained: &Vec<String>,
    not_proposed: &mut Vec<Json>,
)
    ensures
        models(final(not_proposed)@) == models(old(not_proposed)@) + filter_map(
            leaf_views(leaves@),
            gap(views(constrained@)),
        ),
{
    let ghost all = leaf_views(leaves@);
    let ghost start = models(not_proposed@);
    let ghost f = gap(views(constrained@));
    let mut i: usize = 0;
    assert(start + filter_map(all.take(0), f) == start);
    while i < leaves.len()
        invariant
            i <= leaves@.len(),
            all == leaf_views(leaves@),
            f == gap(views(constrained@)),
            models(not_proposed@) == start + filter_map(all.take(i as int), f),
        decreases leaves@.len() - i,
    {
        proof {
            lemma_filter_map_step(all, f, i as int);
        }
        let ghost before = models(not_proposed@);
        assert(all[i as int] == opt_string(leaves@[i as int]));
        if let Some(target) = &leaves[i] {
            if !same(target.as_str(), "nothing") && !list_has(constrained, target.as_str()) {
                not_proposed.push(make_gap_note(target.as_str()));
                assert(models(not_proposed@) == before.push(gap_note(target@)));
            }
        }
        i = i + 1;
    }
    assert(all.take(i as int) == all);
}

// ---------------------------------------------------------------------------
// Pairing proposals with the verdicts of the dry run
// ---------------------------------------------------------------------------

/// `text` with its words parted by single spaces and nothing around them.
pub open spec fn normalized(text: Seq<char>) -> Seq<char> {
    join(words(text), seq![' '])
}

/// Whitespace-insensitive form, so that a clause that was reformatted still
/// matches the proposal it came from.
pub fn normalize_clause_text(text: &str) -> (r: String)
    ensures
        r@ == normalized(text@),
{
    proof {
        reveal_strlit(" ");
        assert(" "@ == seq![' ']);
    }
    joined(&words_of(text), " ")
}

/// Two texts have one normal form exactly when they have the same words, and a
/// normal form is its own.
pub proof fn law_normalized(a: Seq<char>, b: Seq<char>)
    ensures
        normalized(a) == normalized(b) <==> words(a) == words(b),
        normalized(normalized(a)) == normalized(a),
{
    lemma_words_are_words(a);
    lemma_words_are_words(b);
    lemma_words_of_joined(words(a));
    lemma_words_of_joined(words(b));
}

/// The clause that a proposal is expected to produce.
pub open spec fn expected_clause(proposal: JsonView) -> Option<Seq<char>> {
    match proposal.text_at("kind"@) {
        Some(kind) => if kind == "assigns"@ {
            match proposal.text_at("acsl"@) {
                Some(acsl) => Some(normalized(acsl)),
                None => None,
            }
        } else if kind == "loop"@ {
            let assigns = proposal.items_at("assigns"@);
            if assigns.len() > 0 {
                match assigns[0].text_at("acsl"@) {
                    Some(targets) => Some(normalized("loop assigns "@ + targets + ";"@)),
                    None => None,
                }
            } else {
                None
            }
        } else {
            None
        },
        None => None,
    }
}

/// The clause a proposal is expected to produce, which is what pairs it with
/// the verdict of the dry run.
pub fn expected_clause_text(proposal: &Json) -> (r: Option<String>)
    ensures
        opt_string(r) == expected_clause(proposal@),
{
    let kind = match proposal.text_at("kind") {
        Some(kind) => kind,
        None => {
            return None;
        },
    };
    if same(kind, "assigns") {
        return match proposal.text_at("acsl") {
            Some(acsl) => Some(normalize_clause_text(acsl)),
            None => None,
        };
    }
    if same(kind, "loop") {
        let assigns = proposal.items_at("assigns");
        if assigns.len() == 0 {
            return None;
        }
        assert(assigns@[0]@ == ref_models(assigns@)[0]);
        return match assigns[0].text_at("acsl") {
            Some(targets) => {
                let mut clause = "loop assigns ".to_owned();
                clause.append(targets);
                clause.append(";");
                Some(normalize_clause_text(clause.as_str()))
            },
            None => None,
        };
    }
    None
}

/// Whether a clause of the dry run has this normal form.
pub open spec fn clause_matches(clause: JsonView, wanted: Seq<char>) -> bool {
    match clause.text_at("acsl_text"@) {
        Some(text) => normalized(text) == wanted,
        None => false,
    }
}

/// The first clause at or after `from` of this form that is not taken yet.
pub open spec fn free_clause(
    clauses: Seq<JsonView>,
    wanted: Seq<char>,
    taken: Seq<Option<int>>,
    from: int,
) -> Option<int>
    decreases clauses.len() - from,
{
    if from >= clauses.len() {
        None
    } else if clause_matches(clauses[from], wanted) && !taken.contains(Some(from)) {
        Some(from)
    } else {
        free_clause(clauses, wanted, taken, from + 1)
    }
}

/// The clause that each proposal gets: the first of its form that no earlier
/// proposal took.
pub open spec fn claims(proposals: Seq<JsonView>, clauses: Seq<JsonView>) -> Seq<Option<int>>
    decreases proposals.len(),
{
    if proposals.len() == 0 {
        Seq::empty()
    } else {
        let taken = claims(proposals.drop_last(), clauses);
        taken.push(
            match expected_clause(proposals.last()) {
                Some(wanted) => free_clause(clauses, wanted, taken, 0),
                None => None,
            },
        )
    }
}

/// What the dry run said of the clause that a proposal got.
pub open spec fn verdict(clauses: Seq<JsonView>, claim: Option<int>) -> JsonView {
    match claim {
        Some(at) => JsonView::Object(
            seq![
                ("type_checks"@, clauses[at].get_or_null("valid"@)),
                ("as_written"@, clauses[at].get_or_null("acsl_text"@)),
                ("error"@, clauses[at].get_or_null("frama_c_error"@)),
            ],
        ),
        None => JsonView::Object(
            seq![
                ("type_checks"@, JsonView::Bool(false)),
                ("as_written"@, JsonView::Null),
                ("error"@, JsonView::Text("this proposal planned no clause at all"@)),
            ],
        ),
    }
}

/// The verdicts of the dry run, one for each proposal.
pub open spec fn verdicts(proposals: Seq<JsonView>, clauses: Seq<JsonView>) -> Seq<JsonView> {
    claims(proposals, clauses).map_values(|claim: Option<int>| verdict(clauses, claim))
}

/// The clauses that a dry run answered with.
pub open spec fn dry_run_clauses(payload: Option<JsonView>) -> Option<Seq<JsonView>> {
    match payload {
        Some(p) => match p.get("clauses"@) {
            Some(JsonView::Array(clauses)) => Some(clauses),
            _ => None,
        },
        None => None,
    }
}

/// One verdict for each proposal, or none where there was no dry run.
pub open spec fn dry_run(proposals: Seq<JsonView>, payload: Option<JsonView>) -> Option<
    Seq<JsonView>,
> {
    match dry_run_clauses(payload) {
        Some(clauses) => if proposals.len() > 0 {
            Some(verdicts(proposals, clauses))
        } else {
            None
        },
        None => None,
    }
}

proof fn lemma_free_clause(
    clauses: Seq<JsonView>,
    wanted: Seq<char>,
    taken: Seq<Option<int>>,
    from: int,
)
    requires
        0 <= from,
    ensures
        match free_clause(clauses, wanted, taken, from) {
            Some(at) => from <= at < clauses.len() && clause_matches(clauses[at], wanted)
                && !taken.contains(Some(at)),
            None => true,
        },
    decreases clauses.len() - from,
{
    if from >= clauses.len() {
    } else if clause_matches(clauses[from], wanted) && !taken.contains(Some(from)) {
    } else {
        lemma_free_clause(clauses, wanted, taken, from + 1);
    }
}

/// A proposal is paired with a clause of its own form, and no clause with two
/// proposals.
pub proof fn law_claims(proposals: Seq<JsonView>, clauses: Seq<JsonView>)
    ensures
        claims(proposals, clauses).len() == proposals.len(),
        forall|i: int|
            0 <= i < proposals.len() && #[trigger] claims(proposals, clauses)[i] is Some ==> {
                let at = claims(proposals, clauses)[i]->0;
                &&& 0 <= at < clauses.len()
                &&& expected_clause(proposals[i]) is Some
                &&& clause_matches(clauses[at], expected_clause(proposals[i])->0)
            },
        forall|i: int, j: int|
            0 <= i < j < proposals.len() && #[trigger] claims(proposals, clauses)[i] is Some
                ==> claims(proposals, clauses)[i] != #[trigger] claims(proposals, clauses)[j],
    decreases proposals.len(),
{
    if proposals.len() > 0 {
        let init = proposals.drop_last();
        law_claims(init, clauses);
        let taken = claims(init, clauses);
        let all = claims(proposals, clauses);
        let last = proposals.len() - 1;
        if expected_clause(proposals.last()) is Some {
            lemma_free_clause(clauses, expected_clause(proposals.last())->0, taken, 0);
        }
        assert forall|i: int| 0 <= i < proposals.len() && #[trigger] all[i] is Some implies {
            let at = all[i]->0;
            &&& 0 <= at < clauses.len()
            &&& expected_clause(proposals[i]) is Some
            &&& clause_matches(clauses[at], expected_clause(proposals[i])->0)
        } by {
            if i < last {
                assert(all[i] == taken[i]);
                assert(proposals[i] == init[i]);
            }
        }
        assert forall|i: int, j: int|
            0 <= i < j < proposals.len() && #[trigger] all[i] is Some implies all[i]
            != #[trigger] all[j] by {
            assert(all[i] == taken[i]);
            if j < last {
                assert(all[j] == taken[j]);
            } else if all[j] is Some {
                assert(taken.contains(taken[i]));
            }
        }
    }
}

/// What the dry run said of a clause.
fn clause_verdict(clause: &Json) -> (r: Json)
    ensures
        r@ == verdict(seq![clause@], Some(0int)),
{
    broadcast use {lemma_array_view, lemma_object_view};
    let mut out = no_members();
    member(&mut out, "type_checks", clause.get_or_null("valid"));
    member(&mut out, "as_written", clause.get_or_null("acsl_text"));
    member(&mut out, "error", clause.get_or_null("frama_c_error"));
    assert(member_models(out@) == verdict(seq![clause@], Some(0int))->Object_0);
    Json::Object(out)
}

/// What is said of a proposal that got no clause.
fn no_clause_verdict() -> (r: Json)
    ensures
        r@ == verdict(Seq::<JsonView>::empty(), None::<int>),
{
    broadcast use {lemma_array_view, lemma_object_view};
    let mut out = no_members();
    member(&mut out, "type_checks", Json::Bool(false));
    member(&mut out, "as_written", Json::Null);
    member(&mut out, "error", Json::text("this proposal planned no clause at all"));
    assert(member_models(out@) == verdict(Seq::<JsonView>::empty(), None::<int>)->Object_0);
    Json::Object(out)
}

/// The first clause of this form that is not claimed yet.
fn claim(clauses: &Vec<Json>, claimed: &Vec<bool>, wanted: &str, taken: Ghost<Seq<Option<int>>>) -> (r:
    Option<usize>)
    requires
        claimed@.len() == clauses@.len(),
        forall|k: int|
            0 <= k < claimed@.len() ==> (#[trigger] claimed@[k] <==> taken@.contains(Some(k))),
    ensures
        match r {
            Some(at) => at < clauses@.len() && free_clause(
                models(clauses@),
                wanted@,
                taken@,
                0,
            ) == Some(at as int),
            None => free_clause(models(clauses@), wanted@, taken@, 0) is None,
        },
{
    let ghost all = models(clauses@);
    let mut at: usize = 0;
    while at < clauses.len()
        invariant
            at <= clauses@.len() == claimed@.len(),
            all == models(clauses@),
            forall|k: int|
                0 <= k < claimed@.len() ==> (#[trigger] claimed@[k] <==> taken@.contains(Some(k))),
            free_clause(all, wanted@, taken@, 0) == free_clause(all, wanted@, taken@, at as int),
        decreases clauses@.len() - at,
    {
        let fits = match clauses[at].text_at("acsl_text") {
            Some(text) => same(normalize_clause_text(text).as_str(), wanted),
            None => false,
        };
        assert(fits == clause_matches(all[at as int], wanted@));
        if fits && !claimed[at] {
            return Some(at);
        }
        at = at + 1;
    }
    None
}

/// The verdicts of the dry run, one for each proposal, paired on the text of
/// the clause and not on its position. Each clause is consumed by the first
/// proposal that claims it.
fn pair_verdicts(proposals: &Vec<Json>, clauses: &Vec<Json>) -> (r: Vec<Json>)
    ensures
        models(r@) == verdicts(models(proposals@), models(clauses@)),
{
    let ghost all = models(proposals@);
    let ghost given = models(clauses@);
    let mut claimed: Vec<bool> = Vec::new();
    let mut n: usize = 0;
    while n < clauses.len()
        invariant
            n <= clauses@.len(),
            claimed@.len() == n,
            forall|k: int| 0 <= k < n ==> !(#[trigger] claimed@[k]),
        decreases clauses@.len() - n,
    {
        claimed.push(false);
        n = n + 1;
    }
    let mut out: Vec<Json> = Vec::new();
    let mut i: usize = 0;
    let ghost mut taken: Seq<Option<int>> = Seq::empty();
    assert(all.take(0) == Seq::<JsonView>::empty());
    assert(models(out@) == verdicts(all.take(0), given));
    while i < proposals.len()
        invariant
            i <= proposals@.len(),
            all == models(proposals@),
            given == models(clauses@),
            claimed@.len() == clauses@.len(),
            taken == claims(all.take(i as int), given),
            forall|k: int|
                0 <= k < claimed@.len() ==> (#[trigger] claimed@[k] <==> taken.contains(Some(k))),
            models(out@) == verdicts(all.take(i as int), given),
        decreases proposals@.len() - i,
    {
        let ghost before = models(out@);
        assert(all.take(i + 1).drop_last() == all.take(i as int));
        assert(all.take(i + 1).last() == proposals@[i as int]@);
        let found = match expected_clause_text(&proposals[i]) {
            Some(wanted) => claim(clauses, &claimed, wanted.as_str(), Ghost(taken)),
            None => None,
        };
        let ghost chosen: Option<int> = match found {
            Some(at) => Some(at as int),
            None => None,
        };
        let ghost next = taken.push(chosen);
        assert(next == claims(all.take(i + 1), given));
        let verdict_of = match found {
            Some(at) => {
                claimed.set(at, true);
                clause_verdict(&clauses[at])
            },
            None => no_clause_verdict(),
        };
        assert(verdict_of@ == verdict(given, chosen));
        proof {
            assert forall|k: int| 0 <= k < claimed@.len() implies (#[trigger] claimed@[k]
                <==> next.contains(Some(k))) by {
                if taken.contains(Some(k)) {
                    let m = choose|m: int| 0 <= m < taken.len() && taken[m] == Some(k);
                    assert(next[m] == Some(k));
                }
                if chosen == Some(k) {
                    assert(next[taken.len() as int] == Some(k));
                }
                if next.contains(Some(k)) {
                    let m = choose|m: int| 0 <= m < next.len() && next[m] == Some(k);
                    if m < taken.len() {
                        assert(taken[m] == Some(k));
                    }
                }
            }
            taken = next;
        }
        out.push(verdict_of);
        assert(models(out@) == before.push(verdict_of@));
        assert(models(out@) == verdicts(all.take(i + 1), given));
        i = i + 1;
    }
    assert(all.take(i as int) == all);
    out
}

/// What the dry run says of each proposal.
///
/// `payload` is what it answered, or nothing where it could not be made. None
/// when there was nothing to check or no clauses came back, which is different
/// from a proposal that failed: it says that nothing was checked.
pub fn dry_run_proposals(proposals: &Vec<Json>, payload: Option<&Json>) -> (r: Option<Vec<Json>>)
    ensures
        match r {
            Some(v) => dry_run(models(proposals@), opt_model(payload)) == Some(models(v@)),
            None => dry_run(models(proposals@), opt_model(payload)) is None,
        },
{
    broadcast use {lemma_array_view, lemma_object_view};
    if proposals.len() == 0 {
        return None;
    }
    match payload {
        Some(p) => match p.get("clauses") {
            Some(Json::Array(clauses)) => Some(pair_verdicts(proposals, clauses)),
            _ => None,
        },
        None => None,
    }
}

// ---------------------------------------------------------------------------
// Drafting
// ---------------------------------------------------------------------------

/// Where a function frame comes from.
pub const FRAME_SOURCE: &'static str = "getWriteEffects: globals, writes through parameters, and callee assigns";

/// Why a function frame is proposed.
pub const FRAME_RATIONALE: &'static str = "The locations this function writes that its callers can observe. A function with no assigns clause is taken to write anything, so every caller loses what it knew.";

/// The assigns clause that names these locations.
pub open spec fn assigns_clause(targets: Seq<Seq<char>>) -> Seq<char> {
    "assigns "@ + (if targets.len() == 0 {
        "\\nothing"@
    } else {
        join(targets, ", "@)
    }) + ";"@
}

/// The frame proposed for a function.
pub open spec fn assigns_proposal(targets: Seq<Seq<char>>) -> JsonView {
    JsonView::Object(
        seq![
            ("kind"@, JsonView::Text("assigns"@)),
            ("acsl"@, JsonView::Text(assigns_clause(targets))),
            ("confidence"@, JsonView::Text("derived"@)),
            ("derived_from"@, JsonView::Text(FRAME_SOURCE@)),
            ("rationale"@, JsonView::Text(FRAME_RATIONALE@)),
        ],
    )
}

/// A note that no function frame is proposed.
pub open spec fn frame_note(reason: Seq<char>) -> JsonView {
    JsonView::Object(
        seq![("kind"@, JsonView::Text("assigns"@)), ("reason"@, JsonView::Text(reason))],
    )
}

/// What is proposed for the contract of a function that states no assigns.
pub open spec fn frame_proposals(writes: JsonView, annotations: JsonView) -> Seq<JsonView> {
    if annotated(annotations, "assigns"@, None) {
        Seq::empty()
    } else {
        match frame(writes) {
            FrameView::Writes(targets) => seq![assigns_proposal(targets)],
            FrameView::Unknown(_) => Seq::empty(),
        }
    }
}

/// What is noted as not proposed for the contract of such a function.
pub open spec fn frame_notes(writes: JsonView, annotations: JsonView) -> Seq<JsonView> {
    if annotated(annotations, "assigns"@, None) {
        Seq::empty()
    } else {
        match frame(writes) {
            FrameView::Writes(_) => Seq::empty(),
            FrameView::Unknown(reason) => seq![frame_note(reason)],
        }
    }
}

/// What is proposed before anything is checked: the frames of the loops, then
/// that of the function.
pub open spec fn drafted(loops: JsonView, writes: JsonView, annotations: JsonView) -> Seq<
    JsonView,
> {
    flat_map(loops.items(), loop_proposals(annotations)) + frame_proposals(writes, annotations)
}

/// What is not proposed: the notes of the loops, that of the function, then
/// the locations that no postcondition mentions.
pub open spec fn noted(
    loops: JsonView,
    writes: JsonView,
    annotations: JsonView,
    leaves: Seq<Option<Seq<char>>>,
    constrained: Seq<Seq<char>>,
) -> Seq<JsonView> {
    flat_map(loops.items(), loop_notes(annotations)) + frame_notes(writes, annotations)
        + filter_map(leaves, gap(constrained))
}

/// Proposals that were not checked yet, and what is not proposed.
#[derive(Debug, PartialEq, Eq)]
pub struct Draft {
    pub proposals: Vec<Json>,
    pub not_proposed: Vec<Json>,
}

/// The frame proposed for a function.
fn make_assigns_proposal(targets: &Vec<String>) -> (r: Json)
    ensures
        r@ == assigns_proposal(views(targets@)),
{
    broadcast use {lemma_array_view, lemma_object_view};
    let mut acsl = "assigns ".to_owned();
    if targets.len() == 0 {
        acsl.append("\\nothing");
    } else {
        acsl.append(joined(targets, ", ").as_str());
    }
    acsl.append(";");
    assert(acsl@ == assigns_clause(views(targets@)));
    let mut proposal = no_members();
    member(&mut proposal, "kind", Json::text("assigns"));
    member(&mut proposal, "acsl", Json::text(acsl.as_str()));
    member(&mut proposal, "confidence", Json::text("derived"));
    member(&mut proposal, "derived_from", Json::text(FRAME_SOURCE));
    member(&mut proposal, "rationale", Json::text(FRAME_RATIONALE));
    assert(member_models(proposal@) == assigns_proposal(views(targets@))->Object_0);
    Json::Object(proposal)
}

/// A note that no function frame is proposed.
fn make_frame_note(reason: &str) -> (r: Json)
    ensures
        r@ == frame_note(reason@),
{
    broadcast use {lemma_array_view, lemma_object_view};
    let mut note = no_members();
    member(&mut note, "kind", Json::text("assigns"));
    member(&mut note, "reason", Json::text(reason));
    assert(member_models(note@) == frame_note(reason@)->Object_0);
    Json::Object(note)
}

/// The annotations that the code determines, and the ones that it does not.
///
/// `leaves` and `constrained` are those of [`ensures_gaps`].
pub fn draft_annotations(
    loops: &Json,
    writes: &Json,
    annotations: &Json,
    leaves: &Vec<Option<String>>,
    constrained: &Vec<String>,
) -> (r: Draft)
    ensures
        models(r.proposals@) == drafted(loops@, writes@, annotations@),
        models(r.not_proposed@) == noted(
            loops@,
            writes@,
            annotations@,
            leaf_views(leaves@),
            views(constrained@),
        ),
{
    let mut proposals: Vec<Json> = Vec::new();
    let mut not_proposed: Vec<Json> = Vec::new();
    assert(models(proposals@) == Seq::<JsonView>::empty());
    assert(models(not_proposed@) == Seq::<JsonView>::empty());
    loop_frames(loops, annotations, &mut proposals, &mut not_proposed);
    let ghost p1 = models(proposals@);
    let ghost n1 = models(not_proposed@);
    assert(p1 == flat_map(loops@.items(), loop_proposals(annotations@)));
    assert(n1 == flat_map(loops@.items(), loop_notes(annotations@)));
    if !already_annotated(annotations, "assigns", None) {
        match function_frame(writes) {
            Frame::Writes(targets) => {
                proposals.push(make_assigns_proposal(&targets));
            },
            Frame::Unknown(reason) => {
                not_proposed.push(make_frame_note(reason.as_str()));
            },
        }
    }
    assert(models(proposals@) == p1 + frame_proposals(writes@, annotations@));
    assert(models(not_proposed@) == n1 + frame_notes(writes@, annotations@));
    ensures_gaps(leaves, constrained, &mut not_proposed);
    Draft { proposals, not_proposed }
}

// ---------------------------------------------------------------------------
// Settling
// ---------------------------------------------------------------------------

/// Why a proposal that does not type-check is withdrawn.
pub open spec fn rejection_reason(error: JsonView) -> Seq<char> {
    "The locations are right and the clause does not type-check here: "@ + compact(error)
        + ". A frame naming something the contract cannot see, a loop index for instance, has to be restated as a range over what the caller can name."@
}

/// Why a proposal that nobody checked is withdrawn.
pub const UNCHECKED_REASON: &'static str = "The dry run could not be made, so nothing here is checked. The injector remaps loop ids by position and refuses a count that does not match, which is what a partly annotated set of loops produces.";

/// How to apply the proposals.
pub const APPLY_NOTE: &'static str = "Dry-run first. Every proposal here is derived from the AST rather than from the proof, so it is a starting frame, not a contract: the clauses that make a proof go through are the ones under not_proposed.";

/// A proposal with the verdict on it.
pub open spec fn with_verdict(proposal: JsonView, verdict: JsonView) -> JsonView {
    match proposal {
        JsonView::Object(members) => JsonView::Object(put(members, "validated"@, verdict)),
        other => other,
    }
}

/// The proposals, each with its verdict where there is one.
pub open spec fn judged(proposals: Seq<JsonView>, verdicts: Seq<JsonView>) -> Seq<JsonView> {
    Seq::new(
        proposals.len(),
        |i: int|
            if i < verdicts.len() {
                with_verdict(proposals[i], verdicts[i])
            } else {
                proposals[i]
            },
    )
}

/// Whether the verdict on a proposal says that it type-checks.
pub open spec fn passes(proposal: JsonView) -> bool {
    proposal.get_or_null("validated"@).get_or_null("type_checks"@) == JsonView::Bool(true)
}

/// What a proposal would have said.
pub open spec fn would_have_been(proposal: JsonView) -> JsonView {
    match proposal.get("acsl"@) {
        Some(acsl) => acsl,
        None => proposal.get_or_null("assigns"@),
    }
}

/// A note that a proposal was withdrawn.
pub open spec fn withdrawn(proposal: JsonView, reason: Seq<char>) -> JsonView {
    JsonView::Object(
        seq![
            ("kind"@, proposal.get_or_null("kind"@)),
            ("would_have_been"@, would_have_been(proposal)),
            ("reason"@, JsonView::Text(reason)),
        ],
    )
}

/// A proposal that type-checks.
pub open spec fn kept() -> spec_fn(JsonView) -> Option<JsonView> {
    |proposal: JsonView|
        if passes(proposal) {
            Some(proposal)
        } else {
            None
        }
}

/// The note for a proposal that does not type-check.
pub open spec fn rejected() -> spec_fn(JsonView) -> Option<JsonView> {
    |proposal: JsonView|
        if passes(proposal) {
            None
        } else {
            Some(
                withdrawn(
                    proposal,
                    rejection_reason(
                        proposal.get_or_null("validated"@).get_or_null("error"@),
                    ),
                ),
            )
        }
}

/// The proposals that are offered: those that the dry run found to type-check.
pub open spec fn offered(proposals: Seq<JsonView>, verdicts: Option<Seq<JsonView>>) -> Seq<
    JsonView,
> {
    match verdicts {
        Some(v) => filter_map(judged(proposals, v), kept()),
        None => Seq::empty(),
    }
}

/// The notes for the proposals that are withdrawn.
pub open spec fn withdrawals(proposals: Seq<JsonView>, verdicts: Option<Seq<JsonView>>) -> Seq<
    JsonView,
> {
    match verdicts {
        Some(v) => filter_map(judged(proposals, v), rejected()),
        None => proposals.map_values(|p: JsonView| withdrawn(p, UNCHECKED_REASON@)),
    }
}

/// The answer to a request for proposals.
pub open spec fn proposal_payload(
    function: Seq<char>,
    proposals: Seq<JsonView>,
    notes: Seq<JsonView>,
    verdicts: Option<Seq<JsonView>>,
) -> JsonView {
    JsonView::Object(
        seq![
            ("function"@, JsonView::Text(function)),
            ("proposals"@, JsonView::Array(offered(proposals, verdicts))),
            ("not_proposed"@, JsonView::Array(notes + withdrawals(proposals, verdicts))),
            (
                "how_to_apply"@,
                JsonView::Object(
                    seq![
                        ("tool"@, JsonView::Text("inject_all_annotations"@)),
                        (
                            "args"@,
                            JsonView::Object(
                                seq![
                                    ("function"@, JsonView::Text(function)),
                                    ("dry_run"@, JsonView::Bool(true)),
                                    ("annotations"@, JsonView::Text("the proposals array"@)),
                                ],
                            ),
                        ),
                        ("note"@, JsonView::Text(APPLY_NOTE@)),
                    ],
                ),
            ),
        ],
    )
}

/// A note that a proposal was withdrawn.
fn make_withdrawn(proposal: &Json, reason: &str) -> (r: Json)
    ensures
        r@ == withdrawn(proposal@, reason@),
{
    broadcast use {lemma_array_view, lemma_object_view};
    let text = match proposal.get("acsl") {
        Some(acsl) => acsl.clone(),
        None => proposal.get_or_null("assigns"),
    };
    let mut note = no_members();
    member(&mut note, "kind", proposal.get_or_null("kind"));
    member(&mut note, "would_have_been", text);
    member(&mut note, "reason", Json::text(reason));
    assert(member_models(note@) == withdrawn(proposal@, reason@)->Object_0);
    Json::Object(note)
}

/// Whether the verdict on a proposal says that it type-checks.
fn type_checks(proposal: &Json) -> (r: bool)
    ensures
        r == passes(proposal@),
{
    match proposal.get("validated") {
        Some(v) => match v.get("type_checks") {
            Some(Json::Bool(b)) => *b,
            _ => false,
        },
        None => false,
    }
}

/// The note for a proposal that does not type-check.
fn make_rejected(proposal: &Json) -> (r: Json)
    ensures
        r@ == withdrawn(
            proposal@,
            rejection_reason(proposal@.get_or_null("validated"@).get_or_null("error"@)),
        ),
{
    let error = proposal.get_or_null("validated").get_or_null("error");
    let mut reason =
        "The locations are right and the clause does not type-check here: ".to_owned();
    reason.append(error.to_compact().as_str());
    reason.append(
        ". A frame naming something the contract cannot see, a loop index for instance, has to be restated as a range over what the caller can name.",
    );
    make_withdrawn(proposal, reason.as_str())
}

/// How to apply the proposals for `function`.
fn make_how_to_apply(function: &str) -> (r: Json)
    ensures
        r@ == JsonView::Object(
            seq![
                ("tool"@, JsonView::Text("inject_all_annotations"@)),
                (
                    "args"@,
                    JsonView::Object(
                        seq![
                            ("function"@, JsonView::Text(function@)),
                            ("dry_run"@, JsonView::Bool(true)),
                            ("annotations"@, JsonView::Text("the proposals array"@)),
                        ],
                    ),
                ),
                ("note"@, JsonView::Text(APPLY_NOTE@)),
            ],
        ),
{
    broadcast use {lemma_array_view, lemma_object_view};
    let mut args = no_members();
    member(&mut args, "function", Json::text(function));
    member(&mut args, "dry_run", Json::Bool(true));
    member(&mut args, "annotations", Json::text("the proposals array"));
    assert(member_models(args@) == seq![
        ("function"@, JsonView::Text(function@)),
        ("dry_run"@, JsonView::Bool(true)),
        ("annotations"@, JsonView::Text("the proposals array"@)),
    ]);
    let mut how = no_members();
    member(&mut how, "tool", Json::text("inject_all_annotations"));
    member(&mut how, "args", Json::Object(args));
    member(&mut how, "note", Json::text(APPLY_NOTE));
    assert(member_models(how@) == seq![
        ("tool"@, JsonView::Text("inject_all_annotations"@)),
        ("args"@, Json::Object(args)@),
        ("note"@, JsonView::Text(APPLY_NOTE@)),
    ]);
    Json::Object(how)
}

/// The answer to a request for proposals: the drafted ones that the dry run
/// found to type-check, and the notes on all that is not offered.
///
/// `verdicts` are those of [`dry_run_proposals`]. Without them nothing was
/// checked, so nothing is offered.
pub fn propose_annotations_payload(
    function: &str,
    draft: Draft,
    verdicts: Option<Vec<Json>>,
) -> (r: Json)
    ensures
        r@ == proposal_payload(
            function@,
            models(draft.proposals@),
            models(draft.not_proposed@),
            opt_models(verdicts),
        ),
{
    broadcast use {lemma_array_view, lemma_object_view};
    let proposals = draft.proposals;
    let mut notes = draft.not_proposed;
    let ghost all = models(proposals@);
    let ghost n0 = models(notes@);
    let mut offers: Vec<Json> = Vec::new();
    assert(models(offers@) == Seq::<JsonView>::empty());
    let mut i: usize = 0;
    match &verdicts {
        Some(list) => {
            let ghost given = models(list@);
            let ghost each = judged(all, given);
            assert(models(offers@) == filter_map(each.take(0), kept()));
            assert(n0 + filter_map(each.take(0), rejected()) == n0);
            while i < proposals.len()
                invariant
                    i <= proposals@.len(),
                    all == models(proposals@),
                    given == models(list@),
                    each == judged(all, given),
                    models(offers@) == filter_map(each.take(i as int), kept()),
                    models(notes@) == n0 + filter_map(each.take(i as int), rejected()),
                decreases proposals@.len() - i,
            {
                let ghost o1 = models(offers@);
                let ghost n1 = models(notes@);
                proof {
                    lemma_filter_map_step(each, kept(), i as int);
                    lemma_filter_map_step(each, rejected(), i as int);
                }
                let mut proposal = proposals[i].clone();
                if i < list.len() {
                    proposal.insert("validated", list[i].clone());
                }
                assert(proposal@ == each[i as int]);
                if type_checks(&proposal) {
                    offers.push(proposal);
                    assert(models(offers@) == o1.push(proposal@));
                } else {
                    let note = make_rejected(&proposal);
                    notes.push(note);
                    assert(models(notes@) == n1.push(note@));
                }
                i = i + 1;
            }
            assert(each.take(i as int) == each);
        },
        None => {
            let ghost each = all.map_values(|p: JsonView| withdrawn(p, UNCHECKED_REASON@));
            while i < proposals.len()
                invariant
                    i <= proposals@.len(),
                    all == models(proposals@),
                    each == all.map_values(|p: JsonView| withdrawn(p, UNCHECKED_REASON@)),
                    models(notes@) == n0 + each.take(i as int),
                decreases proposals@.len() - i,
            {
                let ghost n1 = models(notes@);
                let note = make_withdrawn(&proposals[i], UNCHECKED_REASON);
                notes.push(note);
                assert(models(notes@) == n1.push(note@));
                assert(each.take(i + 1) == each.take(i as int).push(note@));
                i = i + 1;
            }
            assert(each.take(i as int) == each);
        },
    }
    assert(models(offers@) == offered(all, opt_models(verdicts)));
    assert(models(notes@) == n0 + withdrawals(all, opt_models(verdicts)));
    let mut out = no_members();
    member(&mut out, "function", Json::text(function));
    member(&mut out, "proposals", Json::Array(offers));
    member(&mut out, "not_proposed", Json::Array(notes));
    member(&mut out, "how_to_apply", make_how_to_apply(function));
    assert(member_models(out@) == proposal_payload(
        function@,
        all,
        n0,
        opt_models(verdicts),
    )->Object_0);
    Json::Object(out)
}

/// Every proposal that is offered was found to type-check, and nothing is
/// offered where nothing was checked.
pub proof fn law_only_checked_proposals_are_offered(
    proposals: Seq<JsonView>,
    verdicts: Option<Seq<JsonView>>,
)
    ensures
        forall|p: JsonView| #[trigger] offered(proposals, verdicts).contains(p) ==> passes(p),
        verdicts is None ==> offered(proposals, verdicts).len() == 0,
{
    if let Some(v) = verdicts {
        let each = judged(proposals, v);
        assert forall|p: JsonView| #[trigger] offered(proposals, verdicts).contains(p) implies passes(
            p,
        ) by {
            lemma_filter_map_contains(each, kept(), p);
            let i = choose|i: int| 0 <= i < each.len() && kept()(#[trigger] each[i]) == Some(p);
            assert(kept()(each[i]) == Some(p));
        }
    }
}

proof fn lemma_partition(each: Seq<JsonView>)
    ensures
        filter_map(each, kept()).len() + filter_map(each, rejected()).len() == each.len(),
    decreases each.len(),
{
    if each.len() > 0 {
        lemma_partition(each.drop_last());
    }
}

/// No proposal is lost: each is offered or noted as withdrawn.
pub proof fn law_every_proposal_is_accounted_for(
    proposals: Seq<JsonView>,
    verdicts: Option<Seq<JsonView>>,
)
    ensures
        offered(proposals, verdicts).len() + withdrawals(proposals, verdicts).len()
            == proposals.len(),
{
    if let Some(v) = verdicts {
        lemma_partition(judged(proposals, v));
    }
}

/// Whether `p` is the proposal number `i` with the verdict on the clause that
/// is written like the one it should produce, and that clause type-checks.
pub open spec fn backed(
    p: JsonView,
    proposals: Seq<JsonView>,
    clauses: Seq<JsonView>,
    i: int,
) -> bool {
    let at = claims(proposals, clauses)[i];
    &&& 0 <= i < proposals.len()
    &&& at is Some
    &&& 0 <= at->0 < clauses.len()
    &&& p == with_verdict(proposals[i], verdict(clauses, at))
    &&& expected_clause(proposals[i]) is Some
    &&& clause_matches(clauses[at->0], expected_clause(proposals[i])->0)
    &&& clauses[at->0].get_or_null("valid"@) == JsonView::Bool(true)
}

/// What is offered after a dry run is backed by it: every offered proposal is
/// one that was drafted, and a clause of its own, written as it should be, was
/// found to type-check.
pub proof fn law_offers_are_backed(proposals: Seq<JsonView>, clauses: Seq<JsonView>, p: JsonView)
    requires
        offered(proposals, Some(verdicts(proposals, clauses))).contains(p),
    ensures
        exists|i: int| #[trigger] backed(p, proposals, clauses, i),
{
    law_claims(proposals, clauses);
    let given = verdicts(proposals, clauses);
    let each = judged(proposals, given);
    lemma_filter_map_contains(each, kept(), p);
    let i = choose|i: int| 0 <= i < each.len() && kept()(#[trigger] each[i]) == Some(p);
    assert(kept()(each[i]) == Some(p));
    let at = claims(proposals, clauses)[i];
    assert(given[i] == verdict(clauses, at));
    assert(p == with_verdict(proposals[i], verdict(clauses, at)));
    if let JsonView::Object(members) = proposals[i] {
        law_lookup_after_put(members, "validated"@, verdict(clauses, at));
        assert(p.get_or_null("validated"@) == verdict(clauses, at));
        let said = verdict(clauses, at)->Object_0;
        assert(said[0].0 == "type_checks"@);
        lemma_key_position(said, "type_checks"@, 0);
        assert(said[0].1 == JsonView::Bool(true));
    } else {
        assert(p == proposals[i]);
        assert(p.get_or_null("validated"@) == JsonView::Null);
    }
    assert(backed(p, proposals, clauses, i));
}

} // verus!
