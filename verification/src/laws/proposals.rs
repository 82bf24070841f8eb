//! Laws of proposals: what is checked, what is offered and what is withdrawn.

use vstd::prelude::*;

use crate::json::{compact, law_lookup_after_put, law_put_keeps_others, put, JsonView};
use crate::lists::{filter_map, flat_map};
use crate::mcp::propose::{
    claims, clause_matches, drafted, dry_run, expected_clause, frame_notes, frame_proposals,
    free_clause, gap, judged, kept, leaf_views, loop_notes, loop_proposals, normalized, noted,
    offered, passes, proposal_payload, rejected, verdict, verdicts, with_verdict, withdrawals,
    would_have_been,
};
use crate::text::{join, words};

verus! {

/// A clause is compared by its words: one space stands between them, whatever
/// white space did.
pub proof fn law_clauses_are_compared_by_their_words(text: Seq<char>)
    ensures
        normalized(text) == join(words(text), seq![' ']),
{
}

/// The clause that a proposal stands for: its own text for a function, and for
/// a loop the text that an injection writes for the first of its frames. Any
/// other proposal stands for none.
pub proof fn law_proposals_stand_for_a_clause(proposal: JsonView)
    ensures
        proposal.text_at("kind"@) == Some("assigns"@) ==> match proposal.text_at("acsl"@) {
            Some(acsl) => expected_clause(proposal) == Some(normalized(acsl)),
            None => expected_clause(proposal) is None,
        },
        proposal.text_at("kind"@) == Some("loop"@) ==> {
            let frames = proposal.items_at("assigns"@);
            &&& frames.len() == 0 ==> expected_clause(proposal) is None
            &&& frames.len() > 0 && frames[0].text_at("acsl"@) is None ==> expected_clause(
                proposal,
            ) is None
            &&& frames.len() > 0 && frames[0].text_at("acsl"@) is Some ==> expected_clause(proposal)
                == Some(normalized("loop assigns "@ + frames[0].text_at("acsl"@)->0 + ";"@))
        },
        proposal.text_at("kind"@) != Some("assigns"@) && proposal.text_at("kind"@) != Some("loop"@)
            ==> expected_clause(proposal) is None,
{
    reveal_strlit("assigns");
    reveal_strlit("loop");
    assert("assigns"@.len() == 7 && "loop"@.len() == 4);
}

/// A dry-run clause reads as the text that is wanted.
pub open spec fn reads_as(clause: JsonView, wanted: Seq<char>) -> bool {
    clause.text_at("acsl_text"@) is Some && normalized(clause.text_at("acsl_text"@)->0) == wanted
}

proof fn lemma_first_free(
    clauses: Seq<JsonView>,
    wanted: Seq<char>,
    taken: Seq<Option<int>>,
    from: int,
)
    requires
        0 <= from,
    ensures
        match free_clause(clauses, wanted, taken, from) {
            Some(at) => {
                &&& from <= at < clauses.len()
                &&& reads_as(clauses[at], wanted)
                &&& !taken.contains(Some(at))
                &&& forall|k: int|
                    from <= k < at ==> !reads_as(#[trigger] clauses[k], wanted) || taken.contains(
                        Some(k),
                    )
            },
            None => forall|k: int|
                from <= k < clauses.len() ==> !reads_as(#[trigger] clauses[k], wanted)
                    || taken.contains(Some(k)),
        },
    decreases clauses.len() - from,
{
    if from < clauses.len() {
        assert(clause_matches(clauses[from], wanted) == reads_as(clauses[from], wanted));
        if !(clause_matches(clauses[from], wanted) && !taken.contains(Some(from))) {
            lemma_first_free(clauses, wanted, taken, from + 1);
        }
    }
}

/// Each proposal in its turn claims the first clause of the dry run that reads
/// as it does and that no earlier proposal has claimed; it goes without exactly
/// when there is none.
pub proof fn law_each_proposal_claims_the_first_free_clause(
    proposals: Seq<JsonView>,
    clauses: Seq<JsonView>,
    i: int,
)
    requires
        0 <= i < proposals.len(),
    ensures
        claims(proposals, clauses).len() == proposals.len(),
        expected_clause(proposals[i]) is None ==> claims(proposals, clauses)[i] is None,
        expected_clause(proposals[i]) matches Some(wanted) ==> match claims(
            proposals,
            clauses,
        )[i] {
            Some(at) => {
                &&& 0 <= at < clauses.len()
                &&& reads_as(clauses[at], wanted)
                &&& forall|j: int|
                    0 <= j < i ==> #[trigger] claims(proposals, clauses)[j] != Some(at)
                &&& forall|k: int|
                    0 <= k < at && reads_as(#[trigger] clauses[k], wanted) ==> exists|j: int|
                        0 <= j < i && #[trigger] claims(proposals, clauses)[j] == Some(k)
            },
            None => forall|k: int|
                0 <= k < clauses.len() && reads_as(#[trigger] clauses[k], wanted) ==> exists|
                    j: int,
                |
                    0 <= j < i && #[trigger] claims(proposals, clauses)[j] == Some(k),
        },
    decreases proposals.len(),
{
    let init = proposals.drop_last();
    let taken = claims(init, clauses);
    let all = claims(proposals, clauses);
    lemma_as_many(init, clauses);
    assert forall|j: int| 0 <= j < taken.len() implies #[trigger] all[j] == taken[j] by {}
    if i < init.len() {
        law_each_proposal_claims_the_first_free_clause(init, clauses, i);
        assert(init[i] == proposals[i]);
        assert(all[i] == taken[i]);
        if expected_clause(proposals[i]) is Some {
            let wanted = expected_clause(proposals[i])->0;
            assert forall|k: int|
                0 <= k < clauses.len() && reads_as(#[trigger] clauses[k], wanted) && (exists|
                    j: int,
                |
                    0 <= j < i && #[trigger] taken[j] == Some(k)) implies exists|j: int|
                0 <= j < i && #[trigger] all[j] == Some(k) by {
                let j = choose|j: int| 0 <= j < i && #[trigger] taken[j] == Some(k);
                assert(all[j] == Some(k));
            }
        }
    } else if expected_clause(proposals[i]) is Some {
        let wanted = expected_clause(proposals[i])->0;
        lemma_first_free(clauses, wanted, taken, 0);
        assert forall|k: int|
            0 <= k < clauses.len() && reads_as(#[trigger] clauses[k], wanted) && taken.contains(
                Some(k),
            ) implies exists|j: int| 0 <= j < i && #[trigger] all[j] == Some(k) by {
            let j = choose|j: int| 0 <= j < taken.len() && taken[j] == Some(k);
            assert(all[j] == Some(k));
        }
        if all[i] is Some {
            assert forall|j: int| 0 <= j < i implies #[trigger] all[j] != all[i] by {
                if all[j] == all[i] {
                    assert(taken[j] == all[i]);
                    assert(taken.contains(all[i]));
                }
            }
        }
    }
}

proof fn lemma_as_many(proposals: Seq<JsonView>, clauses: Seq<JsonView>)
    ensures
        claims(proposals, clauses).len() == proposals.len(),
    decreases proposals.len(),
{
    if proposals.len() > 0 {
        lemma_as_many(proposals.drop_last(), clauses);
    }
}

/// The verdict on a proposal repeats what the dry run says of the clause that
/// it claimed; one that claimed none does not type-check.
pub proof fn law_verdicts_repeat_the_dry_run(
    proposals: Seq<JsonView>,
    clauses: Seq<JsonView>,
    i: int,
)
    requires
        0 <= i < proposals.len(),
    ensures
        verdicts(proposals, clauses).len() == proposals.len(),
        ({
            let v = verdicts(proposals, clauses)[i];
            let m = v->Object_0;
            &&& v is Object
            &&& m.len() == 3
            &&& m[0].0 == "type_checks"@
            &&& m[1].0 == "as_written"@
            &&& m[2].0 == "error"@
            &&& claims(proposals, clauses)[i] is None ==> m[0].1 == JsonView::Bool(false) && m[1].1
                == JsonView::Null && m[2].1 == JsonView::Text(
                "this proposal planned no clause at all"@,
            )
            &&& claims(proposals, clauses)[i] matches Some(at) ==> m[0].1
                == clauses[at].get_or_null("valid"@) && m[1].1 == clauses[at].get_or_null(
                "acsl_text"@,
            ) && m[2].1 == clauses[at].get_or_null("frama_c_error"@)
        }),
{
    lemma_as_many(proposals, clauses);
    assert(verdicts(proposals, clauses)[i] == verdict(clauses, claims(proposals, clauses)[i]));
}

/// There are verdicts exactly when there is something to check and the dry run
/// lists its clauses.
pub proof fn law_dry_runs(proposals: Seq<JsonView>, payload: Option<JsonView>)
    ensures
        dry_run(proposals, payload) is Some <==> proposals.len() > 0 && payload is Some
            && payload->0.get("clauses"@) is Some && payload->0.get("clauses"@)->0 is Array,
        dry_run(proposals, payload) is Some ==> dry_run(proposals, payload) == Some(
            verdicts(proposals, payload->0.items_at("clauses"@)),
        ),
{
}

// ---------------------------------------------------------------------------
// The draft
// ---------------------------------------------------------------------------

proof fn lemma_flat_map_first<A, B>(first: A, rest: Seq<A>, f: spec_fn(A) -> Seq<B>)
    ensures
        flat_map(seq![first] + rest, f) == f(first) + flat_map(rest, f),
    decreases rest.len(),
{
    let all = seq![first] + rest;
    if rest.len() == 0 {
        assert(all == seq![first]);
        assert(all.drop_last() == Seq::<A>::empty());
        assert(flat_map(all.drop_last(), f) == Seq::<B>::empty());
        assert(Seq::<B>::empty() + f(first) == f(first) + Seq::<B>::empty());
    } else {
        lemma_flat_map_first(first, rest.drop_last(), f);
        assert(all.drop_last() == seq![first] + rest.drop_last());
        assert(all.last() == rest.last());
        assert(f(first) + flat_map(rest.drop_last(), f) + f(rest.last()) == f(first) + (flat_map(
            rest.drop_last(),
            f,
        ) + f(rest.last())));
    }
}

/// A draft holds what is proposed and what is noted for each loop, in order,
/// then for the function itself; the gaps in the contract come last. What is no
/// list of loops has none.
pub proof fn law_drafts_go_loop_by_loop(
    other: JsonView,
    first: JsonView,
    rest: Seq<JsonView>,
    writes: JsonView,
    annotations: JsonView,
    leaves: Seq<Option<Seq<char>>>,
    constrained: Seq<Seq<char>>,
)
    ensures
        drafted(JsonView::Array(seq![first] + rest), writes, annotations) == loop_proposals(
            annotations,
        )(first) + drafted(JsonView::Array(rest), writes, annotations),
        drafted(JsonView::Array(Seq::empty()), writes, annotations) == frame_proposals(
            writes,
            annotations,
        ),
        noted(JsonView::Array(seq![first] + rest), writes, annotations, leaves, constrained)
            == loop_notes(annotations)(first) + noted(
            JsonView::Array(rest),
            writes,
            annotations,
            leaves,
            constrained,
        ),
        noted(JsonView::Array(Seq::empty()), writes, annotations, leaves, constrained)
            == frame_notes(writes, annotations) + filter_map(leaves, gap(constrained)),
        !(other is Array) ==> drafted(other, writes, annotations) == frame_proposals(
            writes,
            annotations,
        ) && noted(other, writes, annotations, leaves, constrained) == frame_notes(
            writes,
            annotations,
        ) + filter_map(leaves, gap(constrained)),
{
    let a = loop_proposals(annotations);
    let b = loop_notes(annotations);
    lemma_flat_map_first(first, rest, a);
    lemma_flat_map_first(first, rest, b);
    let p = frame_proposals(writes, annotations);
    let n = frame_notes(writes, annotations);
    let g = filter_map(leaves, gap(constrained));
    assert(a(first) + flat_map(rest, a) + p == a(first) + (flat_map(rest, a) + p));
    assert(b(first) + flat_map(rest, b) + n + g == b(first) + (flat_map(rest, b) + n + g));
    assert(flat_map(Seq::<JsonView>::empty(), a) == Seq::<JsonView>::empty());
    assert(flat_map(Seq::<JsonView>::empty(), b) == Seq::<JsonView>::empty());
    assert(Seq::<JsonView>::empty() + p == p);
    assert(Seq::<JsonView>::empty() + n + g == n + g);
}

// ---------------------------------------------------------------------------
// What is offered
// ---------------------------------------------------------------------------

proof fn lemma_judged_push(
    proposals: Seq<JsonView>,
    verdicts: Seq<JsonView>,
    p: JsonView,
    v: JsonView,
)
    requires
        proposals.len() == verdicts.len(),
    ensures
        judged(proposals.push(p), verdicts.push(v)) == judged(proposals, verdicts).push(
            with_verdict(p, v),
        ),
{
    let more = judged(proposals.push(p), verdicts.push(v));
    let less = judged(proposals, verdicts).push(with_verdict(p, v));
    assert(more.len() == less.len());
    assert forall|i: int| 0 <= i < more.len() implies more[i] == less[i] by {
        if i < proposals.len() {
            assert(proposals.push(p)[i] == proposals[i]);
            assert(verdicts.push(v)[i] == verdicts[i]);
        }
    }
    assert(more == less);
}

/// One more proposal and the verdict on it: where the clause type-checks the
/// proposal is offered, as it was but for the verdict that it carries, and
/// nothing more is withdrawn; where it does not, nothing more is offered and the
/// withdrawal says what it would have been and what the error was.
pub proof fn law_checked_proposals_are_offered_and_others_withdrawn(
    proposals: Seq<JsonView>,
    verdicts: Seq<JsonView>,
    members: Seq<(Seq<char>, JsonView)>,
    v: JsonView,
)
    requires
        proposals.len() == verdicts.len(),
    ensures
        ({
            let p = JsonView::Object(members);
            let more_offered = offered(proposals.push(p), Some(verdicts.push(v)));
            let more_withdrawn = withdrawals(proposals.push(p), Some(verdicts.push(v)));
            let checked = v.get_or_null("type_checks"@) == JsonView::Bool(true);
            let what = if p.get("acsl"@) is Some {
                p.get("acsl"@)->0
            } else {
                p.get_or_null("assigns"@)
            };
            &&& checked ==> more_offered == offered(proposals, Some(verdicts)).push(
                JsonView::Object(put(members, "validated"@, v)),
            )
            &&& checked ==> more_withdrawn == withdrawals(proposals, Some(verdicts))
            &&& !checked ==> more_offered == offered(proposals, Some(verdicts))
            &&& !checked ==> {
                let last = more_withdrawn.last();
                let m = last->Object_0;
                &&& more_withdrawn.len() == withdrawals(proposals, Some(verdicts)).len() + 1
                &&& more_withdrawn.drop_last() == withdrawals(proposals, Some(verdicts))
                &&& last is Object
                &&& m.len() == 3
                &&& m[0] == ("kind"@, p.get_or_null("kind"@))
                &&& m[1] == ("would_have_been"@, what)
                &&& m[2].0 == "reason"@
                &&& m[2].1 == JsonView::Text(
                    "The locations are right and the clause does not type-check here: "@ + compact(
                        v.get_or_null("error"@),
                    )
                        + ". A frame naming something the contract cannot see, a loop index for instance, has to be restated as a range over what the caller can name."@,
                )
            }
        }),
        offered(Seq::empty(), Some(Seq::empty())).len() == 0,
        withdrawals(Seq::empty(), Some(Seq::empty())).len() == 0,
{
    let p = JsonView::Object(members);
    let q = with_verdict(p, v);
    let each = judged(proposals, verdicts);
    lemma_judged_push(proposals, verdicts, p, v);
    assert(each.push(q).drop_last() == each);
    law_lookup_after_put(members, "validated"@, v);
    reveal_strlit("validated");
    reveal_strlit("kind");
    reveal_strlit("acsl");
    reveal_strlit("assigns");
    assert("validated"@.len() == 9 && "kind"@.len() == 4 && "acsl"@.len() == 4 && "assigns"@.len()
        == 7);
    law_put_keeps_others(members, "validated"@, v, "kind"@);
    law_put_keeps_others(members, "validated"@, v, "acsl"@);
    law_put_keeps_others(members, "validated"@, v, "assigns"@);
    assert(q.get("validated"@) == Some(v));
    assert(passes(q) == (v.get_or_null("type_checks"@) == JsonView::Bool(true)));
    assert(q.get("kind"@) == p.get("kind"@));
    assert(q.get("acsl"@) == p.get("acsl"@));
    assert(q.get("assigns"@) == p.get("assigns"@));
    let kept_before = filter_map(each, kept());
    let rejected_before = filter_map(each, rejected());
    if passes(q) {
        assert(kept()(q) == Some(q));
        assert(rejected()(q) is None);
    } else {
        assert(kept()(q) is None);
        assert(rejected()(q) is Some);
        let w = rejected()(q)->0;
        assert(rejected_before.push(w).drop_last() == rejected_before);
        assert(rejected_before.push(w).last() == w);
    }
    assert(judged(Seq::<JsonView>::empty(), Seq::<JsonView>::empty()).len() == 0);
}

/// Where the dry run could not be made nothing is offered, and every proposal
/// is withdrawn, in order, for that reason.
pub proof fn law_unchecked_proposals_are_withdrawn(proposals: Seq<JsonView>, i: int)
    requires
        0 <= i < proposals.len(),
    ensures
        offered(proposals, None).len() == 0,
        withdrawals(proposals, None).len() == proposals.len(),
        ({
            let p = proposals[i];
            let w = withdrawals(proposals, None)[i];
            let m = w->Object_0;
            let what = if p.get("acsl"@) is Some {
                p.get("acsl"@)->0
            } else {
                p.get_or_null("assigns"@)
            };
            &&& w is Object
            &&& m.len() == 3
            &&& m[0] == ("kind"@, p.get_or_null("kind"@))
            &&& m[1] == ("would_have_been"@, what)
            &&& m[2].0 == "reason"@
            &&& m[2].1 == JsonView::Text(
                "The dry run could not be made, so nothing here is checked. The injector remaps loop ids by position and refuses a count that does not match, which is what a partly annotated set of loops produces."@,
            )
        }),
{
}

/// The answer names the function, holds what is offered, then all that is noted
/// and withdrawn, and says how to apply it: by a dry run of the same function
/// first.
pub proof fn law_answers_hold_offers_and_notes(
    function: Seq<char>,
    proposals: Seq<JsonView>,
    notes: Seq<JsonView>,
    verdicts: Option<Seq<JsonView>>,
)
    ensures
        ({
            let answer = proposal_payload(function, proposals, notes, verdicts);
            let m = answer->Object_0;
            let apply = m[3].1->Object_0;
            let args = apply[1].1->Object_0;
            &&& answer is Object
            &&& m.len() == 4
            &&& m[0] == ("function"@, JsonView::Text(function))
            &&& m[1] == ("proposals"@, JsonView::Array(offered(proposals, verdicts)))
            &&& m[2].0 == "not_proposed"@
            &&& m[2].1 == JsonView::Array(notes + withdrawals(proposals, verdicts))
            &&& m[3].0 == "how_to_apply"@
            &&& m[3].1 is Object
            &&& apply.len() == 3
            &&& apply[0] == ("tool"@, JsonView::Text("inject_all_annotations"@))
            &&& apply[1].0 == "args"@
            &&& apply[1].1 is Object
            &&& args.len() == 3
            &&& args[0] == ("function"@, JsonView::Text(function))
            &&& args[1] == ("dry_run"@, JsonView::Bool(true))
            &&& args[2] == ("annotations"@, JsonView::Text("the proposals array"@))
            &&& apply[2].0 == "note"@
            &&& apply[2].1 == JsonView::Text(
                "Dry-run first. Every proposal here is derived from the AST rather than from the proof, so it is a starting frame, not a contract: the clauses that make a proof go through are the ones under not_proposed."@,
            )
        }),
{
}

/// The leaves of a contract stand for their texts, each in its place.
pub proof fn law_leaves_stand_for_their_texts(leaves: Seq<Option<String>>, i: int)
    requires
        0 <= i < leaves.len(),
    ensures
        leaf_views(leaves).len() == leaves.len(),
        leaves[i] is None ==> leaf_views(leaves)[i] is None,
        leaves[i] is Some ==> leaf_views(leaves)[i] == Some(leaves[i]->0@),
{
}

/// A verdict is put into the proposal that it is on, as the member `validated`;
/// a proposal without one, or that can have no member, stays as it is.
pub proof fn law_verdicts_are_put_into_proposals(
    proposals: Seq<JsonView>,
    verdicts: Seq<JsonView>,
    i: int,
)
    requires
        0 <= i < proposals.len(),
    ensures
        judged(proposals, verdicts).len() == proposals.len(),
        i < verdicts.len() && proposals[i] is Object ==> judged(proposals, verdicts)[i]
            == JsonView::Object(put(proposals[i]->Object_0, "validated"@, verdicts[i])),
        i >= verdicts.len() || !(proposals[i] is Object) ==> judged(proposals, verdicts)[i]
            == proposals[i],
{
}

} // verus!
