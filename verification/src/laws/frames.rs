//! Laws of frames: what a function or a loop is said to write.

use vstd::prelude::*;

use crate::digits::signed_decimal;
use crate::json::{JsonView, NumberView};
use crate::lists::{filter_map, flat_map, lemma_filter_map_contains, lemma_flat_map_contains};
use crate::mcp::propose::{
    annotated, assigns_clause, callee_listed, callee_targets, callees_stated, clause_of,
    contract_targets, effect_kind, frame, frame_notes, frame_proposals, gap, lemma_unlisted_at,
    list_if_any, locations_stated, loop_id, loop_marker, loop_notes, loop_proposals, loop_stated,
    loop_targets, loop_unknown, postcondition, string_text, target_stated, targets_stated,
    unlisted_at, visible_target, write_stated, write_target, Frame, FrameView,
};
use crate::order::{before, law_sorted_distinct};
use crate::text::{drop_prefixes, drop_suffixes, join, split, views};

verus! {

/// A callee lists what it assigns.
pub open spec fn lists_its_assigns(callee: JsonView) -> bool {
    callee.get_or_null("assigns"@).text_at("kind"@) == Some("list"@)
}

/// The member is a list, or there is none.
pub open spec fn a_list_or_none(v: JsonView, key: Seq<char>) -> bool {
    v.get(key) is None || v.get(key)->0 is Array
}

/// Every callee says with a text which location each of its writes has.
pub open spec fn callees_say_what_they_write(effects: JsonView) -> bool {
    &&& a_list_or_none(effects, "callee_assigns"@)
    &&& forall|i: int|
        #![trigger effects.items_at("callee_assigns"@)[i]]
        0 <= i < effects.items_at("callee_assigns"@).len() ==> {
            let list = effects.items_at("callee_assigns"@)[i].get_or_null("assigns"@).get(
                "assigns"@,
            );
            &&& list is Some
            &&& list->0 is Array
            &&& forall|j: int|
                0 <= j < list->0->Array_0.len() ==> (
                #[trigger] list->0->Array_0[j]).text_at("target"@) is Some
        }
}

proof fn lemma_callees_stated(effects: JsonView)
    ensures
        callees_stated(effects) <==> callees_say_what_they_write(effects),
        forall|i: int|
            0 <= i < effects.items_at("callee_assigns"@).len() ==> callee_listed(
                #[trigger] effects.items_at("callee_assigns"@)[i],
            ) == lists_its_assigns(effects.items_at("callee_assigns"@)[i]),
{
    let callees = effects.items_at("callee_assigns"@);
    if callees_stated(effects) {
        assert forall|i: int| #![trigger callees[i]] 0 <= i < callees.len() implies {
            let list = callees[i].get_or_null("assigns"@).get("assigns"@);
            &&& list is Some
            &&& list->0 is Array
            &&& forall|j: int|
                0 <= j < list->0->Array_0.len() ==> (
                #[trigger] list->0->Array_0[j]).text_at("target"@) is Some
        } by {
            assert(targets_stated(effects.items_at("callee_assigns"@)[i]));
            let list = callees[i].get_or_null("assigns"@).get("assigns"@);
            assert forall|j: int| 0 <= j < list->0->Array_0.len() implies (
            #[trigger] list->0->Array_0[j]).text_at("target"@) is Some by {
                assert(target_stated(list->0->Array_0[j]));
            }
        }
    }
    if callees_say_what_they_write(effects) {
        assert forall|i: int| 0 <= i < callees.len() implies targets_stated(
            #[trigger] callees[i],
        ) by {
            let list = effects.items_at("callee_assigns"@)[i].get_or_null("assigns"@).get(
                "assigns"@,
            );
            assert forall|j: int| 0 <= j < list->0->Array_0.len() implies target_stated(
                #[trigger] list->0->Array_0[j],
            ) by {
                assert(list->0->Array_0[j].text_at("target"@) is Some);
            }
        }
    }
}

/// A location comes from a callee where some callee lists a write of it.
proof fn lemma_from_a_callee(effects: JsonView, t: Seq<char>)
    ensures
        flat_map(effects.items_at("callee_assigns"@), callee_targets()).contains(t) <==> exists|
            i: int,
            j: int,
        |
            #![trigger effects.items_at("callee_assigns"@)[i].get_or_null("assigns"@).items_at("assigns"@)[j]]
            0 <= i < effects.items_at("callee_assigns"@).len() && 0 <= j
                < effects.items_at("callee_assigns"@)[i].get_or_null("assigns"@).items_at(
                "assigns"@,
            ).len() && effects.items_at("callee_assigns"@)[i].get_or_null("assigns"@).items_at(
                "assigns"@,
            )[j].text_at("target"@) == Some(t),
{
    let callees = effects.items_at("callee_assigns"@);
    lemma_flat_map_contains(callees, callee_targets(), t);
    if flat_map(callees, callee_targets()).contains(t) {
        let i = choose|i: int|
            0 <= i < callees.len() && callee_targets()(#[trigger] callees[i]).contains(t);
        let list = callees[i].get_or_null("assigns"@).items_at("assigns"@);
        lemma_filter_map_contains(list, write_target(), t);
        assert(callee_targets()(callees[i]).contains(t));
        assert(filter_map(list, write_target()).contains(t));
        let j = choose|j: int| 0 <= j < list.len() && write_target()(#[trigger] list[j]) == Some(t);
        assert(effects.items_at("callee_assigns"@)[i].get_or_null("assigns"@).items_at(
            "assigns"@,
        )[j].text_at("target"@) == Some(t));
    }
    if exists|i: int, j: int|
        #![trigger effects.items_at("callee_assigns"@)[i].get_or_null("assigns"@).items_at("assigns"@)[j]]
        0 <= i < callees.len() && 0 <= j < callees[i].get_or_null("assigns"@).items_at(
            "assigns"@,
        ).len() && effects.items_at("callee_assigns"@)[i].get_or_null("assigns"@).items_at(
            "assigns"@,
        )[j].text_at("target"@) == Some(t) {
        let (i, j) = choose|i: int, j: int|
            #![trigger effects.items_at("callee_assigns"@)[i].get_or_null("assigns"@).items_at("assigns"@)[j]]
            0 <= i < callees.len() && 0 <= j < callees[i].get_or_null("assigns"@).items_at(
                "assigns"@,
            ).len() && effects.items_at("callee_assigns"@)[i].get_or_null("assigns"@).items_at(
                "assigns"@,
            )[j].text_at("target"@) == Some(t);
        let list = callees[i].get_or_null("assigns"@).items_at("assigns"@);
        lemma_filter_map_contains(list, write_target(), t);
        assert(write_target()(list[j]) == Some(t));
        assert(callee_targets()(callees[i]).contains(t));
    }
}

/// A frame that is made lists nothing but the target of a write whose global
/// flag is true or whose base is empty, and the targets that callees list; and
/// it lists all of those, in the order of texts and each once. So a write with a
/// base that is not flagged global adds nothing, whatever its target looks like.
pub proof fn law_frames_list_what_callers_see(writes: JsonView)
    requires
        frame(writes) is Writes,
    ensures
        forall|t: Seq<char>| #[trigger]
            frame(writes)->Writes_0.contains(t) <==> {
                ||| exists|i: int|
                    0 <= i < writes.items_at("writes"@).len() && (
                    #[trigger] writes.items_at("writes"@)[i]).text_at("target"@) == Some(t) && (
                    writes.items_at("writes"@)[i].flag_at("global"@) == Some(true)
                        || writes.items_at("writes"@)[i].text_at("base"@) == Some(
                        Seq::<char>::empty(),
                    ))
                ||| exists|i: int, j: int|
                    #![trigger writes.items_at("callee_assigns"@)[i].get_or_null("assigns"@).items_at("assigns"@)[j]]
                    0 <= i < writes.items_at("callee_assigns"@).len() && 0 <= j
                        < writes.items_at("callee_assigns"@)[i].get_or_null("assigns"@).items_at(
                        "assigns"@,
                    ).len() && writes.items_at("callee_assigns"@)[i].get_or_null(
                        "assigns"@,
                    ).items_at("assigns"@)[j].text_at("target"@) == Some(t)
            },
        forall|i: int, j: int|
            0 <= i < j < frame(writes)->Writes_0.len() ==> before(
                #[trigger] frame(writes)->Writes_0[i],
                #[trigger] frame(writes)->Writes_0[j],
            ),
{
    let entries = writes.items_at("writes"@);
    let callees = writes.items_at("callee_assigns"@);
    lemma_unlisted_at(callees);
    let a = filter_map(entries, visible_target());
    let b = flat_map(callees, callee_targets());
    law_sorted_distinct(a + b);
    let listed = frame(writes)->Writes_0;
    assert forall|t: Seq<char>| #[trigger] listed.contains(t) <==> {
        ||| exists|i: int|
            0 <= i < entries.len() && (#[trigger] entries[i]).text_at("target"@) == Some(t) && (
            entries[i].flag_at("global"@) == Some(true) || entries[i].text_at("base"@) == Some(
                Seq::<char>::empty(),
            ))
        ||| exists|i: int, j: int|
            #![trigger callees[i].get_or_null("assigns"@).items_at("assigns"@)[j]]
            0 <= i < callees.len() && 0 <= j < callees[i].get_or_null("assigns"@).items_at(
                "assigns"@,
            ).len() && callees[i].get_or_null("assigns"@).items_at("assigns"@)[j].text_at(
                "target"@,
            ) == Some(t)
    } by {
        lemma_filter_map_contains(entries, visible_target(), t);
        lemma_from_a_callee(writes, t);
        lemma_either(a, b, t);
        assert(listed.contains(t) <==> a.contains(t) || b.contains(t));
        if a.contains(t) {
            let i = choose|i: int|
                0 <= i < entries.len() && visible_target()(#[trigger] entries[i]) == Some(t);
            let base = entries[i].text_at("base"@)->0;
            if base.len() == 0 {
                assert(base == Seq::<char>::empty());
            }
            assert(entries[i].text_at("target"@) == Some(t));
        }
        if exists|i: int|
            0 <= i < entries.len() && (#[trigger] entries[i]).text_at("target"@) == Some(t) && (
            entries[i].flag_at("global"@) == Some(true) || entries[i].text_at("base"@) == Some(
                Seq::<char>::empty(),
            )) {
            let i = choose|i: int|
                0 <= i < entries.len() && (#[trigger] entries[i]).text_at("target"@) == Some(t)
                    && (entries[i].flag_at("global"@) == Some(true) || entries[i].text_at(
                    "base"@,
                ) == Some(Seq::<char>::empty()));
            assert(write_stated(writes.items_at("writes"@)[i]));
            assert(visible_target()(entries[i]) == Some(t));
        }
    }
}

proof fn lemma_either(a: Seq<Seq<char>>, b: Seq<Seq<char>>, t: Seq<char>)
    ensures
        (a + b).contains(t) <==> a.contains(t) || b.contains(t),
{
    let c = a + b;
    if a.contains(t) {
        let k = choose|k: int| 0 <= k < a.len() && a[k] == t;
        assert(c[k] == t);
    }
    if b.contains(t) {
        let k = choose|k: int| 0 <= k < b.len() && b[k] == t;
        assert(c[a.len() + k] == t);
    }
    if c.contains(t) {
        let k = choose|k: int| 0 <= k < c.len() && c[k] == t;
        if k < a.len() {
            assert(a[k] == t);
        } else {
            assert(b[k - a.len()] == t);
        }
    }
}

/// A frame is made exactly when everything is known: each callee lists what it
/// assigns, no effect is left unresolved, and every effect says with a text
/// which location it writes.
pub proof fn law_frames_are_made_when_all_is_known(writes: JsonView)
    ensures
        frame(writes) is Writes <==> {
            &&& forall|i: int|
                0 <= i < writes.items_at("callee_assigns"@).len() ==> lists_its_assigns(
                    #[trigger] writes.items_at("callee_assigns"@)[i],
                )
            &&& writes.items_at("unresolved"@).len() == 0
            &&& a_list_or_none(writes, "writes"@)
            &&& a_list_or_none(writes, "unresolved"@)
            &&& callees_say_what_they_write(writes)
            &&& forall|i: int|
                #![trigger writes.items_at("writes"@)[i]]
                0 <= i < writes.items_at("writes"@).len() ==> writes.items_at(
                    "writes"@,
                )[i].text_at("target"@) is Some && writes.items_at("writes"@)[i].text_at(
                    "base"@,
                ) is Some
        },
{
    let entries = writes.items_at("writes"@);
    let callees = writes.items_at("callee_assigns"@);
    lemma_unlisted_at(callees);
    lemma_callees_stated(writes);
    assert(list_if_any(writes, "writes"@) == a_list_or_none(writes, "writes"@));
    assert(list_if_any(writes, "unresolved"@) == a_list_or_none(writes, "unresolved"@));
    if frame(writes) is Writes {
        assert forall|i: int| #![trigger entries[i]] 0 <= i < entries.len() implies entries[i].text_at(
            "target"@,
        ) is Some && entries[i].text_at("base"@) is Some by {
            assert(write_stated(writes.items_at("writes"@)[i]));
        }
        assert forall|i: int| 0 <= i < callees.len() implies lists_its_assigns(
            #[trigger] callees[i],
        ) by {
            assert(callee_listed(callees[i]));
        }
    } else if unlisted_at(callees) < callees.len() {
        assert(!lists_its_assigns(callees[unlisted_at(callees) as int]));
    } else if writes.items_at("unresolved"@).len() == 0 {
        assert(!locations_stated(writes));
        if forall|i: int|
            #![trigger writes.items_at("writes"@)[i]]
            0 <= i < writes.items_at("writes"@).len() ==> writes.items_at("writes"@)[i].text_at(
                "target"@,
            ) is Some && writes.items_at("writes"@)[i].text_at("base"@) is Some {
            assert forall|i: int| 0 <= i < entries.len() implies write_stated(
                #[trigger] entries[i],
            ) by {
                assert(writes.items_at("writes"@)[i].text_at("target"@) is Some);
            }
        }
    }
}

/// Why there is no frame: the first callee that lists nothing is named, as `a
/// callee` where it has no name; else the kinds of the unresolved effects are;
/// else some effect does not say what it writes.
pub proof fn law_why_there_is_no_frame(writes: JsonView, at: int)
    requires
        0 <= at <= writes.items_at("callee_assigns"@).len(),
        forall|i: int|
            0 <= i < at ==> lists_its_assigns(#[trigger] writes.items_at("callee_assigns"@)[i]),
        at < writes.items_at("callee_assigns"@).len() ==> !lists_its_assigns(
            writes.items_at("callee_assigns"@)[at],
        ),
        frame(writes) is Unknown,
    ensures
        at < writes.items_at("callee_assigns"@).len() ==> {
            let callee = writes.items_at("callee_assigns"@)[at];
            let name = if callee.text_at("function"@) is Some {
                callee.text_at("function"@)->0
            } else {
                "a callee"@
            };
            frame(writes)->Unknown_0 == name
                + " states no finite assigns, so what this writes through it is unknown.                  Give "@
                + name + " an assigns clause first, then ask again."@
        },
        at == writes.items_at("callee_assigns"@).len() && writes.items_at("unresolved"@).len() > 0
            ==> frame(writes)->Unknown_0 == "This function contains "@ + join(
            filter_map(writes.items_at("unresolved"@), |e: JsonView| e.text_at("kind"@)),
            " and "@,
        )
            + " that the effect analysis cannot enumerate, so what it writes is unknown. Name the frame by hand, or give the indirect target a contract the caller can see."@,
        at == writes.items_at("callee_assigns"@).len() && writes.items_at("unresolved"@).len() == 0
            ==> frame(writes)->Unknown_0
            == "Some effect here does not say which location it writes, so what this writes is unknown. Name the frame by hand."@,
{
    lemma_first_unlisted(writes.items_at("callee_assigns"@), at);
    assert(effect_kind() =~= |e: JsonView| e.text_at("kind"@));
}

/// The first callee that lists nothing stands where every one before it lists
/// what it assigns.
proof fn lemma_first_unlisted(callees: Seq<JsonView>, at: int)
    requires
        0 <= at <= callees.len(),
        forall|i: int| 0 <= i < at ==> lists_its_assigns(#[trigger] callees[i]),
        at < callees.len() ==> !lists_its_assigns(callees[at]),
    ensures
        unlisted_at(callees) == at,
{
    lemma_unlisted_at(callees);
    let n = unlisted_at(callees) as int;
    assert forall|i: int| 0 <= i < callees.len() implies callee_listed(#[trigger] callees[i])
        == lists_its_assigns(callees[i]) by {}
    if n < at {
        assert(lists_its_assigns(callees[n]));
    }
    if at < n {
        assert(callee_listed(callees[at]));
    }
}

/// Taking in what callees assign stops at the first that lists nothing, takes
/// every stated target of those before it, and nothing else.
pub proof fn law_callee_assigns_are_taken_in(callees: Seq<JsonView>, at: int, t: Seq<char>)
    requires
        0 <= at <= callees.len(),
        forall|i: int| 0 <= i < at ==> lists_its_assigns(#[trigger] callees[i]),
        at < callees.len() ==> !lists_its_assigns(callees[at]),
    ensures
        unlisted_at(callees) == at,
        flat_map(callees.take(at), callee_targets()).contains(t) <==> exists|i: int, j: int|
            #![trigger callees[i].get_or_null("assigns"@).items_at("assigns"@)[j]]
            0 <= i < at && 0 <= j < callees[i].get_or_null("assigns"@).items_at("assigns"@).len()
                && callees[i].get_or_null("assigns"@).items_at("assigns"@)[j].text_at("target"@)
                == Some(t),
{
    lemma_first_unlisted(callees, at);
    let taken = callees.take(at);
    lemma_flat_map_contains(taken, callee_targets(), t);
    if flat_map(taken, callee_targets()).contains(t) {
        let i = choose|i: int|
            0 <= i < taken.len() && callee_targets()(#[trigger] taken[i]).contains(t);
        assert(taken[i] == callees[i]);
        let list = callees[i].get_or_null("assigns"@).items_at("assigns"@);
        lemma_filter_map_contains(list, write_target(), t);
        assert(filter_map(list, write_target()).contains(t));
        let j = choose|j: int| 0 <= j < list.len() && write_target()(#[trigger] list[j]) == Some(t);
        assert(callees[i].get_or_null("assigns"@).items_at("assigns"@)[j].text_at("target"@)
            == Some(t));
    }
    if exists|i: int, j: int|
        #![trigger callees[i].get_or_null("assigns"@).items_at("assigns"@)[j]]
        0 <= i < at && 0 <= j < callees[i].get_or_null("assigns"@).items_at("assigns"@).len()
            && callees[i].get_or_null("assigns"@).items_at("assigns"@)[j].text_at("target"@)
            == Some(t) {
        let (i, j) = choose|i: int, j: int|
            #![trigger callees[i].get_or_null("assigns"@).items_at("assigns"@)[j]]
            0 <= i < at && 0 <= j < callees[i].get_or_null("assigns"@).items_at("assigns"@).len()
                && callees[i].get_or_null("assigns"@).items_at("assigns"@)[j].text_at("target"@)
                == Some(t);
        let list = callees[i].get_or_null("assigns"@).items_at("assigns"@);
        lemma_filter_map_contains(list, write_target(), t);
        assert(write_target()(list[j]) == Some(t));
        assert(taken[i] == callees[i]);
        assert(callee_targets()(taken[i]).contains(t));
    }
}

/// A clause of a kind is there already exactly when some annotation has that
/// kind and that very marker, or as little of one as is asked for.
pub proof fn law_annotations_are_found(
    annotations: JsonView,
    kind: Seq<char>,
    marker: Option<Seq<char>>,
)
    ensures
        annotated(annotations, kind, marker) <==> exists|i: int|
            0 <= i < annotations.items().len() && (#[trigger] annotations.items()[i]).text_at(
                "kind"@,
            ) == Some(kind) && annotations.items()[i].text_at("kinstr_marker"@) == marker,
{
    if annotated(annotations, kind, marker) {
        let i = choose|i: int|
            0 <= i < annotations.items().len() && clause_of(
                #[trigger] annotations.items()[i],
                kind,
                marker,
            );
        assert(annotations.items()[i].text_at("kind"@) == Some(kind));
    }
    if exists|i: int|
        0 <= i < annotations.items().len() && (#[trigger] annotations.items()[i]).text_at("kind"@)
            == Some(kind) && annotations.items()[i].text_at("kinstr_marker"@) == marker {
        let i = choose|i: int|
            0 <= i < annotations.items().len() && (#[trigger] annotations.items()[i]).text_at(
                "kind"@,
            ) == Some(kind) && annotations.items()[i].text_at("kinstr_marker"@) == marker;
        assert(clause_of(annotations.items()[i], kind, marker));
    }
}

/// A postcondition is the predicate of an annotation of kind `ensures`.
pub proof fn law_postconditions(annotation: JsonView)
    ensures
        annotation.text_at("kind"@) == Some("ensures"@) ==> postcondition()(annotation)
            == annotation.text_at("predicate"@),
        annotation.text_at("kind"@) != Some("ensures"@) ==> postcondition()(annotation) is None,
{
}

// ---------------------------------------------------------------------------
// Loops
// ---------------------------------------------------------------------------

/// What a loop is said to write: the variables that it modifies and the targets
/// that its callees list, nothing else, in the order of texts and each once.
pub proof fn law_loops_list_what_they_write(effect: JsonView)
    ensures
        forall|t: Seq<char>| #[trigger]
            loop_targets(effect).contains(t) <==> {
                ||| exists|i: int|
                    0 <= i < effect.items_at("modified_vars"@).len()
                        && #[trigger] effect.items_at("modified_vars"@)[i] == JsonView::Text(t)
                ||| exists|i: int, j: int|
                    #![trigger effect.items_at("callee_assigns"@)[i].get_or_null("assigns"@).items_at("assigns"@)[j]]
                    0 <= i < effect.items_at("callee_assigns"@).len() && 0 <= j
                        < effect.items_at("callee_assigns"@)[i].get_or_null("assigns"@).items_at(
                        "assigns"@,
                    ).len() && effect.items_at("callee_assigns"@)[i].get_or_null(
                        "assigns"@,
                    ).items_at("assigns"@)[j].text_at("target"@) == Some(t)
            },
        forall|i: int, j: int|
            0 <= i < j < loop_targets(effect).len() ==> before(
                #[trigger] loop_targets(effect)[i],
                #[trigger] loop_targets(effect)[j],
            ),
{
    let vars = effect.items_at("modified_vars"@);
    let callees = effect.items_at("callee_assigns"@);
    let a = filter_map(vars, string_text());
    let b = flat_map(callees, callee_targets());
    law_sorted_distinct(a + b);
    assert forall|t: Seq<char>| #[trigger] loop_targets(effect).contains(t) <==> {
        ||| exists|i: int| 0 <= i < vars.len() && #[trigger] vars[i] == JsonView::Text(t)
        ||| exists|i: int, j: int|
            #![trigger callees[i].get_or_null("assigns"@).items_at("assigns"@)[j]]
            0 <= i < callees.len() && 0 <= j < callees[i].get_or_null("assigns"@).items_at(
                "assigns"@,
            ).len() && callees[i].get_or_null("assigns"@).items_at("assigns"@)[j].text_at(
                "target"@,
            ) == Some(t)
    } by {
        lemma_filter_map_contains(vars, string_text(), t);
        lemma_from_a_callee(effect, t);
        lemma_either(a, b, t);
        if a.contains(t) {
            let i = choose|i: int|
                0 <= i < vars.len() && string_text()(#[trigger] vars[i]) == Some(t);
            assert(vars[i] == JsonView::Text(t));
        }
        if exists|i: int| 0 <= i < vars.len() && #[trigger] vars[i] == JsonView::Text(t) {
            let i = choose|i: int| 0 <= i < vars.len() && #[trigger] vars[i] == JsonView::Text(t);
            assert(string_text()(vars[i]) == Some(t));
        }
    }
}

/// What a loop writes is known exactly when each callee lists what it assigns,
/// no effect is left unresolved, and every effect says with a text which
/// location it writes.
pub proof fn law_loops_are_known_when_all_is_said(effect: JsonView)
    ensures
        loop_unknown(effect) is None <==> {
            &&& forall|i: int|
                0 <= i < effect.items_at("callee_assigns"@).len() ==> lists_its_assigns(
                    #[trigger] effect.items_at("callee_assigns"@)[i],
                )
            &&& effect.items_at("unresolved"@).len() == 0
            &&& a_list_or_none(effect, "modified_vars"@)
            &&& a_list_or_none(effect, "unresolved"@)
            &&& callees_say_what_they_write(effect)
            &&& forall|i: int|
                0 <= i < effect.items_at("modified_vars"@).len() ==> (
                #[trigger] effect.items_at("modified_vars"@)[i]) is Text
        },
{
    let vars = effect.items_at("modified_vars"@);
    let callees = effect.items_at("callee_assigns"@);
    lemma_unlisted_at(callees);
    lemma_callees_stated(effect);
    assert(list_if_any(effect, "modified_vars"@) == a_list_or_none(effect, "modified_vars"@));
    assert(list_if_any(effect, "unresolved"@) == a_list_or_none(effect, "unresolved"@));
    if loop_unknown(effect) is None {
        assert forall|i: int| 0 <= i < vars.len() implies (#[trigger] vars[i]) is Text by {
            assert(effect.items_at("modified_vars"@)[i].as_text() is Some);
        }
        assert forall|i: int| 0 <= i < callees.len() implies lists_its_assigns(
            #[trigger] callees[i],
        ) by {
            assert(callee_listed(callees[i]));
        }
    } else if unlisted_at(callees) < callees.len() {
        assert(!lists_its_assigns(callees[unlisted_at(callees) as int]));
    } else if effect.items_at("unresolved"@).len() == 0 {
        assert(!loop_stated(effect));
        if forall|i: int|
            0 <= i < effect.items_at("modified_vars"@).len() ==> (
            #[trigger] effect.items_at("modified_vars"@)[i]) is Text {
            assert forall|i: int| 0 <= i < vars.len() implies (#[trigger] vars[i]).as_text() is Some by {
                assert(effect.items_at("modified_vars"@)[i] is Text);
            }
        }
    }
}

/// Why it is not known what a loop writes, as for a function.
pub proof fn law_why_a_loop_is_unknown(effect: JsonView, at: int)
    requires
        0 <= at <= effect.items_at("callee_assigns"@).len(),
        forall|i: int|
            0 <= i < at ==> lists_its_assigns(#[trigger] effect.items_at("callee_assigns"@)[i]),
        at < effect.items_at("callee_assigns"@).len() ==> !lists_its_assigns(
            effect.items_at("callee_assigns"@)[at],
        ),
        loop_unknown(effect) is Some,
    ensures
        at < effect.items_at("callee_assigns"@).len() ==> {
            let callee = effect.items_at("callee_assigns"@)[at];
            let name = if callee.text_at("function"@) is Some {
                callee.text_at("function"@)->0
            } else {
                "a callee"@
            };
            loop_unknown(effect)->0 == name
                + " states no finite assigns, so what this writes through it is unknown.                  Give "@
                + name + " an assigns clause first, then ask again."@
        },
        at == effect.items_at("callee_assigns"@).len() && effect.items_at("unresolved"@).len() > 0
            ==> loop_unknown(effect)->0 == "This loop contains "@ + join(
            filter_map(effect.items_at("unresolved"@), |e: JsonView| e.text_at("kind"@)),
            " and "@,
        )
            + " that the effect analysis cannot enumerate, so what it writes is unknown. Name the frame by hand, or give the indirect target a contract the caller can see."@,
        at == effect.items_at("callee_assigns"@).len() && effect.items_at("unresolved"@).len() == 0
            ==> loop_unknown(effect)->0
            == "Some effect here does not say which location it writes, so what this writes is unknown. Name the frame by hand."@,
{
    lemma_first_unlisted(effect.items_at("callee_assigns"@), at);
    assert(effect_kind() =~= |e: JsonView| e.text_at("kind"@));
}

/// The number of a loop is its `stmt_id`, where that is a whole number of 64
/// bits, and its marker is that number behind `#k`.
pub proof fn law_loops_are_numbered(effect: JsonView, id: int)
    ensures
        forall|n: i64|
            loop_id(effect) == Some(n) <==> effect.get("stmt_id"@) == Some(
                JsonView::Number(NumberView::Whole(n as int)),
            ),
        loop_marker(id) == seq!['#', 'k'] + signed_decimal(id),
{
    reveal_strlit("#k");
    assert("#k"@ == seq!['#', 'k']);
}

/// A frame is proposed for a loop exactly when it has a number, it is known
/// what it writes, it writes something, and no such clause stands at its own
/// marker; then there is one proposal, for that loop and of those locations.
pub proof fn law_loops_without_a_frame_get_one(effect: JsonView, annotations: JsonView)
    ensures
        loop_proposals(annotations)(effect).len() <= 1,
        loop_proposals(annotations)(effect).len() == 1 <==> loop_id(effect) is Some
            && loop_unknown(effect) is None && loop_targets(effect).len() > 0 && !annotated(
            annotations,
            "assigns"@,
            Some(loop_marker(loop_id(effect)->0 as int)),
        ),
        loop_proposals(annotations)(effect).len() == 1 ==> {
            let p = loop_proposals(annotations)(effect)[0];
            let m = p->Object_0;
            &&& p is Object
            &&& m.len() == 7
            &&& m[0] == ("kind"@, JsonView::Text("loop"@))
            &&& m[1].0 == "stmt_id"@
            &&& Some(m[1].1) == effect.get("stmt_id"@)
            &&& m[2].0 == "assigns"@
            &&& m[2].1 is Array
            &&& m[2].1->Array_0.len() == 1
            &&& m[2].1->Array_0[0] is Object
            &&& m[2].1->Array_0[0]->Object_0.len() == 1
            &&& m[2].1->Array_0[0]->Object_0[0] == (
                "acsl"@,
                JsonView::Text(join(loop_targets(effect), seq![',', ' '])),
            )
            &&& m[3] == ("invariants"@, JsonView::Array(Seq::empty()))
            &&& m[4] == ("confidence"@, JsonView::Text("derived"@))
            &&& m[5] == (
                "derived_from"@,
                JsonView::Text("getLoopEffects.modified_vars and callee_assigns"@),
            )
            &&& m[6].0 == "rationale"@
            &&& m[6].1 == JsonView::Text(
                "Every location this loop body writes, and nothing else. WP loses each fact it holds about a location the loop writes without listing."@,
            )
        },
{
    reveal_strlit(", ");
    assert(", "@ == seq![',', ' ']);
}

/// What is noted of a loop: why there is no frame, where it is unknown what the
/// loop writes; that an invariant is missing, where a frame is proposed and no
/// invariant stands at its own marker; else nothing.
pub proof fn law_loops_are_noted(effect: JsonView, annotations: JsonView)
    ensures
        loop_notes(annotations)(effect).len() <= 1,
        loop_notes(annotations)(effect).len() == 1 <==> {
            ||| loop_id(effect) is Some && loop_unknown(effect) is Some
            ||| loop_proposals(annotations)(effect).len() == 1 && !annotated(
                annotations,
                "loop_invariant"@,
                Some(loop_marker(loop_id(effect)->0 as int)),
            )
        },
        loop_notes(annotations)(effect).len() == 1 ==> {
            let note = loop_notes(annotations)(effect)[0];
            let m = note->Object_0;
            &&& note is Object
            &&& m.len() == 3
            &&& m[0].0 == "kind"@
            &&& m[1].0 == "stmt_id"@
            &&& Some(m[1].1) == effect.get("stmt_id"@)
            &&& m[2].0 == "reason"@
            &&& loop_unknown(effect) is Some ==> m[0].1 == JsonView::Text("loop_assigns"@) && m[2].1
                == JsonView::Text(loop_unknown(effect)->0)
            &&& loop_unknown(effect) is None ==> m[0].1 == JsonView::Text("loop_invariant"@)
                && m[2].1 == JsonView::Text(
                "A loop invariant states what the body maintains, which the AST does not determine. Two are usually needed: the bound on the induction variable, readable off the loop guard, and the relation between the accumulator and what it accumulates."@,
            )
        },
{
}

// ---------------------------------------------------------------------------
// The assigns clause of a function
// ---------------------------------------------------------------------------

/// A clause for no location at all says that nothing is written; else it lists
/// the locations, each behind the one before.
pub proof fn law_assigns_clauses(targets: Seq<Seq<char>>)
    ensures
        targets.len() == 0 ==> assigns_clause(targets) == "assigns "@ + "\\nothing"@ + ";"@,
        targets.len() > 0 ==> assigns_clause(targets) == "assigns "@ + join(
            targets,
            seq![',', ' '],
        ) + ";"@,
{
    reveal_strlit(", ");
    assert(", "@ == seq![',', ' ']);
}

/// A function that has an assigns clause gets neither a frame nor a note; any
/// other gets the one or the other: a frame where one is made, with all of its
/// locations, and else a note with the reason.
pub proof fn law_functions_without_a_frame_get_one_or_a_reason(
    writes: JsonView,
    annotations: JsonView,
)
    ensures
        annotated(annotations, "assigns"@, None) ==> frame_proposals(writes, annotations).len() == 0
            && frame_notes(writes, annotations).len() == 0,
        !annotated(annotations, "assigns"@, None) && frame(writes) is Writes ==> {
            let p = frame_proposals(writes, annotations)[0];
            let m = p->Object_0;
            &&& frame_proposals(writes, annotations).len() == 1
            &&& frame_notes(writes, annotations).len() == 0
            &&& p is Object
            &&& m.len() == 5
            &&& m[0] == ("kind"@, JsonView::Text("assigns"@))
            &&& m[1] == ("acsl"@, JsonView::Text(assigns_clause(frame(writes)->Writes_0)))
            &&& m[2] == ("confidence"@, JsonView::Text("derived"@))
            &&& m[3].0 == "derived_from"@
            &&& m[3].1 == JsonView::Text(
                "getWriteEffects: globals, writes through parameters, and callee assigns"@,
            )
            &&& m[4].0 == "rationale"@
            &&& m[4].1 == JsonView::Text(
                "The locations this function writes that its callers can observe. A function with no assigns clause is taken to write anything, so every caller loses what it knew."@,
            )
        },
        !annotated(annotations, "assigns"@, None) && frame(writes) is Unknown ==> {
            let note = frame_notes(writes, annotations)[0];
            let m = note->Object_0;
            &&& frame_proposals(writes, annotations).len() == 0
            &&& frame_notes(writes, annotations).len() == 1
            &&& note is Object
            &&& m.len() == 2
            &&& m[0] == ("kind"@, JsonView::Text("assigns"@))
            &&& m[1] == ("reason"@, JsonView::Text(frame(writes)->Unknown_0))
        },
{
}

/// The locations of a contract's own assigns clause: what stands between the
/// word and the semicolon, parted at each comma. A clause inside the body, which
/// has a marker, is not the contract's.
pub proof fn law_assigned_locations(annotation: JsonView)
    ensures
        annotation.text_at("kind"@) != Some("assigns"@) || annotation.get("kinstr_marker"@) is Some
            || annotation.text_at("predicate"@) is None ==> contract_targets()(annotation).len()
            == 0,
        annotation.text_at("kind"@) == Some("assigns"@) && annotation.get("kinstr_marker"@) is None
            && annotation.text_at("predicate"@) is Some ==> contract_targets()(annotation)
            == split(
            drop_suffixes(drop_prefixes(annotation.text_at("predicate"@)->0, "assigns"@), ';'),
            ',',
        ),
{
}

/// An assigned location is a gap exactly when it is not the word for none and
/// no postcondition is about it, and the note names it.
pub proof fn law_unconstrained_locations_are_gaps(
    constrained: Seq<Seq<char>>,
    target: Seq<char>,
)
    ensures
        gap(constrained)(None) is None,
        target == "nothing"@ || constrained.contains(target) ==> gap(constrained)(
            Some(target),
        ) is None,
        target != "nothing"@ && !constrained.contains(target) ==> {
            let m = gap(constrained)(Some(target))->0->Object_0;
            &&& gap(constrained)(Some(target)) is Some
            &&& gap(constrained)(Some(target))->0 is Object
            &&& m.len() == 3
            &&& m[0] == ("kind"@, JsonView::Text("ensures"@))
            &&& m[1] == ("about"@, JsonView::Text(target))
            &&& m[2].0 == "reason"@
            &&& m[2].1 == JsonView::Text(
                "The contract assigns "@ + target
                    + " and no postcondition mentions it, so proving this function says nothing about the value written there. What it should say is a property of the code, not of the AST."@,
            )
        },
{
}

/// A frame stands for its locations or for its reason.
pub proof fn law_frames_stand_for_themselves(targets: Vec<String>, reason: String)
    ensures
        Frame::Writes(targets)@ == FrameView::Writes(views(targets@)),
        Frame::Unknown(reason)@ == FrameView::Unknown(reason@),
{
}

/// A write to a local, one that has a base and is not flagged global, changes
/// nothing: the frame, or the reason for having none, is the same with it and
/// without it.
pub proof fn law_local_writes_add_nothing(
    with: JsonView,
    without: JsonView,
    others: Seq<JsonView>,
    local: JsonView,
)
    requires
        without.get("writes"@) == Some(JsonView::Array(others)),
        with.get("writes"@) == Some(JsonView::Array(others.push(local))),
        with.get("callee_assigns"@) == without.get("callee_assigns"@),
        with.get("unresolved"@) == without.get("unresolved"@),
        local.text_at("target"@) is Some,
        local.text_at("base"@) is Some,
        local.text_at("base"@)->0.len() > 0,
        local.flag_at("global"@) != Some(true),
    ensures
        frame(with) == frame(without),
{
    let more = others.push(local);
    assert(more.drop_last() == others);
    assert(visible_target()(local) is None);
    assert(filter_map(more, visible_target()) == filter_map(others, visible_target()));
    assert(with.items_at("writes"@) == more);
    assert(without.items_at("writes"@) == others);
    assert(callees_stated(with) == callees_stated(without)) by {
        assert(with.items_at("callee_assigns"@) == without.items_at("callee_assigns"@));
        if callees_stated(with) {
            assert forall|i: int|
                0 <= i < without.items_at("callee_assigns"@).len() implies targets_stated(
                #[trigger] without.items_at("callee_assigns"@)[i],
            ) by {
                assert(targets_stated(with.items_at("callee_assigns"@)[i]));
            }
        }
        if callees_stated(without) {
            assert forall|i: int|
                0 <= i < with.items_at("callee_assigns"@).len() implies targets_stated(
                #[trigger] with.items_at("callee_assigns"@)[i],
            ) by {
                assert(targets_stated(without.items_at("callee_assigns"@)[i]));
            }
        }
    }
    if locations_stated(with) {
        assert forall|i: int| 0 <= i < without.items_at("writes"@).len() implies write_stated(
            #[trigger] without.items_at("writes"@)[i],
        ) by {
            assert(write_stated(with.items_at("writes"@)[i]));
            assert(more[i] == others[i]);
        }
    }
    if locations_stated(without) {
        assert forall|i: int| 0 <= i < with.items_at("writes"@).len() implies write_stated(
            #[trigger] with.items_at("writes"@)[i],
        ) by {
            if i < others.len() {
                assert(write_stated(without.items_at("writes"@)[i]));
                assert(more[i] == others[i]);
            }
        }
    }
    assert(locations_stated(with) == locations_stated(without));
}

} // verus!
