use frama_c_mcp::json::{Json, Number};
use frama_c_mcp::mcp::propose::{
    already_annotated, assigned_targets, draft_annotations, dry_run_proposals, ensures_gaps,
    ensures_text, expected_clause_text, extend_with_callee_assigns, function_frame, loop_frames,
    normalize_clause_text, propose_annotations_payload, Draft, Frame,
};

fn tree(value: &serde_json::Value) -> Json {
    match value {
        serde_json::Value::Null => Json::Null,
        serde_json::Value::Bool(b) => Json::Bool(*b),
        serde_json::Value::Number(n) => match (n.as_u64(), n.as_i64()) {
            (Some(k), _) => Json::Number(Number::Unsigned(k)),
            (None, Some(k)) => Json::Number(Number::Negative(k)),
            (None, None) => Json::Number(Number::Fraction(n.to_string())),
        },
        serde_json::Value::String(s) => Json::Text(s.clone()),
        serde_json::Value::Array(items) => Json::Array(items.iter().map(tree).collect()),
        serde_json::Value::Object(members) => Json::Object(
            members.iter().map(|(key, item)| (key.clone(), tree(item))).collect(),
        ),
    }
}

fn json(text: &str) -> Json {
    tree(&serde_json::from_str::<serde_json::Value>(text).unwrap())
}

#[test]
fn function_frame_keeps_pointer_writes_and_callee_assigns() {
    let frame = function_frame(&json(
        "{\"writes\": [{\"target\": \"*p\", \"base\": \"\", \"global\": false}],
          \"callee_assigns\": [{
            \"function\": \"leaf\",
            \"assigns\": {\"kind\": \"list\", \"assigns\": [{\"target\": \"*q\"}]}
          }]}",
    ));

    assert!(matches!(frame, Frame::Writes(targets)
        if targets == vec!["*p".to_string(), "*q".to_string()]));
}

#[test]
fn function_frame_omits_local_scalar_writes() {
    let frame = function_frame(&json(
        "{\"writes\": [{\"target\": \"local\", \"base\": \"local\", \"global\": false}],
          \"callee_assigns\": []}",
    ));

    assert!(matches!(frame, Frame::Writes(targets) if targets.is_empty()));
}

#[test]
fn a_frame_lists_each_global_once_and_in_order() {
    let frame = function_frame(&json(
        "{\"writes\": [
            {\"target\": \"g\", \"base\": \"g\", \"global\": true},
            {\"target\": \"a\", \"base\": \"a\", \"global\": true},
            {\"target\": \"g\", \"base\": \"g\", \"global\": true},
            {\"target\": \"x\", \"base\": \"x\"}]}",
    ));
    assert_eq!(frame, Frame::Writes(vec!["a".to_string(), "g".to_string()]));
}

#[test]
fn a_callee_without_a_list_makes_the_frame_unknown() {
    let frame = function_frame(&json(
        "{\"writes\": [{\"target\": \"g\", \"base\": \"g\", \"global\": true}],
          \"callee_assigns\": [
            {\"function\": \"f\", \"assigns\": {\"kind\": \"list\", \"assigns\": [{\"target\": \"*q\"}]}},
            {\"function\": \"h\", \"assigns\": {\"kind\": \"any\"}}]}",
    ));
    assert_eq!(
        frame,
        Frame::Unknown(
            "h states no finite assigns, so what this writes through it is unknown.                  Give h an assigns clause first, then ask again."
                .to_string()
        )
    );
    let nameless = function_frame(&json("{\"callee_assigns\": [{}]}"));
    assert!(matches!(nameless, Frame::Unknown(reason) if reason.starts_with("a callee states")));
}

#[test]
fn an_effect_that_was_not_enumerated_makes_the_frame_unknown() {
    let frame = function_frame(&json(
        "{\"writes\": [], \"unresolved\": [{\"kind\": \"an indirect call\"}, {\"kind\": \"inline assembly\"}]}",
    ));
    assert_eq!(
        frame,
        Frame::Unknown(
            "This function contains an indirect call and inline assembly that the effect analysis cannot enumerate, so what it writes is unknown. Name the frame by hand, or give the indirect target a contract the caller can see."
                .to_string()
        )
    );
}

#[test]
fn an_effect_that_does_not_say_where_it_lands_makes_the_frame_unknown() {
    for effects in [
        "{\"writes\": [{\"target\": \"g\", \"global\": true}], \"callee_assigns\": []}",
        "{\"writes\": [{\"base\": \"g\", \"global\": true}]}",
        "{\"writes\": [{\"target\": 1, \"base\": \"\"}]}",
        "{\"writes\": [null]}",
        "{\"writes\": \"g\"}",
        "{\"unresolved\": \"an indirect call\"}",
        "{\"callee_assigns\": {}}",
        "{\"callee_assigns\": [{\"assigns\": {\"kind\": \"list\", \"assigns\": [{}]}}]}",
        "{\"callee_assigns\": [{\"assigns\": {\"kind\": \"list\"}}]}",
    ] {
        assert_eq!(
            function_frame(&json(effects)),
            Frame::Unknown(
                "Some effect here does not say which location it writes, so what this writes is unknown. Name the frame by hand."
                    .to_string()
            ),
            "{effects}"
        );
    }
}

#[test]
fn a_loop_whose_effects_are_not_known_gets_no_frame() {
    for (effect, reason) in [
        (
            "{\"stmt_id\": 4, \"modified_vars\": [\"i\", 1]}",
            "Some effect here does not say which location it writes, so what this writes is unknown. Name the frame by hand.",
        ),
        (
            "{\"stmt_id\": 4, \"modified_vars\": [\"i\"], \"callee_assigns\": [{\"assigns\": {\"kind\": \"list\", \"assigns\": [{\"target\": \"a\"}, {}]}}]}",
            "Some effect here does not say which location it writes, so what this writes is unknown. Name the frame by hand.",
        ),
        (
            "{\"stmt_id\": 4, \"modified_vars\": [\"i\"], \"unresolved\": [{\"kind\": \"inline assembly\"}]}",
            "This loop contains inline assembly that the effect analysis cannot enumerate, so what it writes is unknown. Name the frame by hand, or give the indirect target a contract the caller can see.",
        ),
    ] {
        let mut proposals = Vec::new();
        let mut notes = Vec::new();
        loop_frames(&Json::Array(vec![json(effect)]), &json("[]"), &mut proposals, &mut notes);
        assert!(proposals.is_empty(), "{effect}");
        assert_eq!(notes.len(), 1);
        assert_eq!(notes[0].text_at("kind"), Some("loop_assigns"));
        assert_eq!(notes[0].text_at("reason"), Some(reason));
    }
}

#[test]
fn callee_assigns_extend_up_to_the_first_callee_without_a_list() {
    let mut targets = vec!["own".to_string()];
    let reason = extend_with_callee_assigns(
        &mut targets,
        &json(
            "{\"callee_assigns\": [
                {\"function\": \"f\", \"assigns\": {\"kind\": \"list\", \"assigns\": [{\"target\": \"a\"}, {}]}},
                {\"function\": \"g\", \"assigns\": {\"kind\": \"none\", \"assigns\": [{\"target\": \"b\"}]}}]}",
        ),
    );
    assert!(reason.is_some());
    assert_eq!(targets, vec!["own".to_string(), "a".to_string()]);
    assert_eq!(extend_with_callee_assigns(&mut targets, &json("{}")), None);
}

#[test]
fn a_clause_at_one_loop_says_nothing_of_the_next() {
    let annotations = json(
        "[{\"kind\": \"assigns\", \"kinstr_marker\": \"#k1\"}, {\"kind\": \"ensures\"}]",
    );
    assert!(already_annotated(&annotations, "assigns", Some("#k1")));
    assert!(!already_annotated(&annotations, "assigns", Some("#k2")));
    assert!(!already_annotated(&annotations, "assigns", None));
    assert!(already_annotated(&annotations, "ensures", None));
    assert!(!already_annotated(&json("{}"), "ensures", None));
}

#[test]
fn the_postconditions_stand_one_behind_the_other() {
    let annotations = json(
        "[{\"kind\": \"ensures\", \"predicate\": \"x > 0\"},
          {\"kind\": \"requires\", \"predicate\": \"y > 0\"},
          {\"kind\": \"ensures\", \"predicate\": \"g == 1\"}]",
    );
    assert_eq!(ensures_text(&annotations), "x > 0 g == 1");
}

#[test]
fn a_loop_without_assigns_gets_a_frame_and_a_note() {
    let mut proposals = Vec::new();
    let mut notes = Vec::new();
    loop_frames(
        &json(
            "[{\"stmt_id\": 4, \"modified_vars\": [\"i\", \"s\", \"i\"]},
              {\"stmt_id\": 5, \"modified_vars\": []},
              {\"stmt_id\": 6, \"modified_vars\": [\"j\"], \"callee_assigns\": [{\"function\": \"f\"}]},
              {\"stmt_id\": 7, \"modified_vars\": [\"k\"]},
              {\"modified_vars\": [\"m\"]}]",
        ),
        &json("[{\"kind\": \"assigns\", \"kinstr_marker\": \"#k7\"}]"),
        &mut proposals,
        &mut notes,
    );
    assert_eq!(proposals.len(), 1);
    assert_eq!(
        proposals[0].to_compact(),
        "{\"kind\":\"loop\",\"stmt_id\":4,\"assigns\":[{\"acsl\":\"i, s\"}],\"invariants\":[],\"confidence\":\"derived\",\"derived_from\":\"getLoopEffects.modified_vars and callee_assigns\",\"rationale\":\"Every location this loop body writes, and nothing else. WP loses each fact it holds about a location the loop writes without listing.\"}"
    );
    assert_eq!(notes.len(), 2);
    assert_eq!(notes[0].text_at("kind"), Some("loop_invariant"));
    assert_eq!(notes[1].text_at("kind"), Some("loop_assigns"));
    assert_eq!(notes[1].get("stmt_id").and_then(|id| id.as_i64()), Some(6));
}

#[test]
fn the_targets_of_the_contract_are_split_at_commas() {
    let annotations = json(
        "[{\"kind\": \"assigns\", \"predicate\": \"assigns *p, g;\"},
          {\"kind\": \"assigns\", \"predicate\": \"assigns i;\", \"kinstr_marker\": \"#k1\"},
          {\"kind\": \"assigns\"}]",
    );
    assert_eq!(assigned_targets(&annotations), vec![" *p".to_string(), " g".to_string()]);
}

#[test]
fn a_location_that_no_postcondition_mentions_is_a_gap() {
    let mut notes = Vec::new();
    ensures_gaps(
        &vec![Some("g".to_string()), Some("gg".to_string()), Some("nothing".to_string()), None],
        &vec!["gg".to_string()],
        &mut notes,
    );
    assert_eq!(notes.len(), 1);
    assert_eq!(
        notes[0].to_compact(),
        "{\"kind\":\"ensures\",\"about\":\"g\",\"reason\":\"The contract assigns g and no postcondition mentions it, so proving this function says nothing about the value written there. What it should say is a property of the code, not of the AST.\"}"
    );
}

#[test]
fn normal_forms_part_words_by_single_spaces() {
    assert_eq!(normalize_clause_text("  assigns  *p,\n\t g ; "), "assigns *p, g ;");
    assert_eq!(normalize_clause_text(""), "");
    let once = normalize_clause_text(" a  b ");
    assert_eq!(normalize_clause_text(&once), once);
}

#[test]
fn the_expected_clause_depends_on_the_kind() {
    assert_eq!(
        expected_clause_text(&json("{\"kind\": \"assigns\", \"acsl\": \"assigns  g ;\"}")),
        Some("assigns g ;".to_string())
    );
    assert_eq!(
        expected_clause_text(&json("{\"kind\": \"loop\", \"assigns\": [{\"acsl\": \"i,  s\"}]}")),
        Some("loop assigns i, s;".to_string())
    );
    assert_eq!(expected_clause_text(&json("{\"kind\": \"loop\", \"assigns\": \"i\"}")), None);
    assert_eq!(expected_clause_text(&json("{\"kind\": \"loop\", \"assigns\": []}")), None);
    assert_eq!(expected_clause_text(&json("{\"kind\": \"ensures\"}")), None);
    assert_eq!(expected_clause_text(&json("{}")), None);
}

#[test]
fn verdicts_are_paired_by_text_and_each_clause_is_used_once() {
    let proposals = vec![
        json("{\"kind\": \"loop\", \"assigns\": [{\"acsl\": \"i\"}]}"),
        json("{\"kind\": \"loop\", \"assigns\": [{\"acsl\": \"i\"}]}"),
        json("{\"kind\": \"assigns\", \"acsl\": \"assigns g;\"}"),
        json("{\"kind\": \"loop\", \"assigns\": [{\"acsl\": \"i\"}]}"),
    ];
    let payload = json(
        "{\"clauses\": [
            {\"acsl_text\": \"assigns  g;\", \"valid\": true},
            {\"acsl_text\": \"loop assigns i;\", \"valid\": true},
            {\"acsl_text\": \"loop assigns\\n i;\", \"valid\": false, \"frama_c_error\": \"no\"}]}",
    );
    let verdicts = dry_run_proposals(&proposals, Some(&payload)).unwrap();
    let texts: Vec<String> = verdicts.iter().map(|verdict| verdict.to_compact()).collect();
    assert_eq!(
        texts,
        vec![
            "{\"type_checks\":true,\"as_written\":\"loop assigns i;\",\"error\":null}".to_string(),
            "{\"type_checks\":false,\"as_written\":\"loop assigns\\n i;\",\"error\":\"no\"}".to_string(),
            "{\"type_checks\":true,\"as_written\":\"assigns  g;\",\"error\":null}".to_string(),
            "{\"type_checks\":false,\"as_written\":null,\"error\":\"this proposal planned no clause at all\"}"
                .to_string(),
        ]
    );
    assert!(dry_run_proposals(&proposals, None).is_none());
    assert!(dry_run_proposals(&proposals, Some(&json("{}"))).is_none());
    assert!(dry_run_proposals(&Vec::new(), Some(&payload)).is_none());
}

fn draft() -> Draft {
    draft_annotations(
        &json("[{\"stmt_id\": 4, \"modified_vars\": [\"i\"]}]"),
        &json("{\"writes\": [{\"target\": \"g\", \"base\": \"g\", \"global\": true}]}"),
        &json("[]"),
        &vec![Some("h".to_string())],
        &Vec::new(),
    )
}

#[test]
fn a_draft_holds_the_loops_then_the_function_then_the_gaps() {
    let draft = draft();
    assert_eq!(draft.proposals.len(), 2);
    assert_eq!(draft.proposals[0].text_at("kind"), Some("loop"));
    assert_eq!(draft.proposals[1].text_at("acsl"), Some("assigns g;"));
    assert_eq!(draft.not_proposed.len(), 2);
    assert_eq!(draft.not_proposed[0].text_at("kind"), Some("loop_invariant"));
    assert_eq!(draft.not_proposed[1].text_at("about"), Some("h"));
}

#[test]
fn a_function_that_writes_nothing_is_proposed_an_empty_frame() {
    let draft = draft_annotations(&json("[]"), &json("{}"), &json("[]"), &Vec::new(), &Vec::new());
    assert_eq!(draft.proposals[0].text_at("acsl"), Some("assigns \\nothing;"));
    let stated = draft_annotations(
        &json("[]"),
        &json("{}"),
        &json("[{\"kind\": \"assigns\"}]"),
        &Vec::new(),
        &Vec::new(),
    );
    assert!(stated.proposals.is_empty() && stated.not_proposed.is_empty());
    let unknown = draft_annotations(
        &json("[]"),
        &json("{\"callee_assigns\": [{\"function\": \"f\"}]}"),
        &json("[]"),
        &Vec::new(),
        &Vec::new(),
    );
    assert!(unknown.proposals.is_empty());
    assert_eq!(unknown.not_proposed[0].text_at("kind"), Some("assigns"));
}

#[test]
fn only_what_type_checks_is_offered() {
    let payload = json(
        "{\"clauses\": [
            {\"acsl_text\": \"assigns g;\", \"valid\": true},
            {\"acsl_text\": \"loop assigns i;\", \"valid\": false, \"frama_c_error\": \"unbound i\"}]}",
    );
    let first = draft();
    let verdicts = dry_run_proposals(&first.proposals, Some(&payload));
    let answer = propose_annotations_payload("f", first, verdicts);
    assert_eq!(answer.text_at("function"), Some("f"));
    let offered = answer.items_at("proposals");
    assert_eq!(offered.len(), 1);
    assert_eq!(offered[0].text_at("acsl"), Some("assigns g;"));
    assert_eq!(
        offered[0].get("validated").and_then(|v| v.flag_at("type_checks")),
        Some(true)
    );
    let notes = answer.items_at("not_proposed");
    assert_eq!(notes.len(), 3);
    assert_eq!(
        notes[2].to_compact(),
        "{\"kind\":\"loop\",\"would_have_been\":[{\"acsl\":\"i\"}],\"reason\":\"The locations are right and the clause does not type-check here: \\\"unbound i\\\". A frame naming something the contract cannot see, a loop index for instance, has to be restated as a range over what the caller can name.\"}"
    );
    assert_eq!(
        answer.get("how_to_apply").map(|how| how.to_compact()),
        Some(
            "{\"tool\":\"inject_all_annotations\",\"args\":{\"function\":\"f\",\"dry_run\":true,\"annotations\":\"the proposals array\"},\"note\":\"Dry-run first. Every proposal here is derived from the AST rather than from the proof, so it is a starting frame, not a contract: the clauses that make a proof go through are the ones under not_proposed.\"}"
                .to_string()
        )
    );
}

#[test]
fn nothing_is_offered_where_nothing_was_checked() {
    let answer = propose_annotations_payload("f", draft(), None);
    assert!(answer.items_at("proposals").is_empty());
    let notes = answer.items_at("not_proposed");
    assert_eq!(notes.len(), 4);
    assert_eq!(notes[3].text_at("would_have_been"), Some("assigns g;"));
    assert_eq!(
        notes[3].text_at("reason"),
        Some("The dry run could not be made, so nothing here is checked. The injector remaps loop ids by position and refuses a count that does not match, which is what a partly annotated set of loops produces.")
    );
}
