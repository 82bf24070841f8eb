use frama_c_mcp::digest::{json_sha256, sha256_hex};
use frama_c_mcp::json::{Json, Number};
use frama_c_mcp::mcp::receipt::{
    attach_hash_label, contract_functions, proof_receipt, proof_receipt_body,
    proof_receipt_contracts, proof_receipt_goals, proof_receipt_source_files,
    proof_receipt_with_hash, receipt_environment, receipt_source_path, receipt_to_remember,
    strip_generated_label, ProofReceiptBody, ProofReceiptRequest, SourceRead, ToolProbes,
};

fn tree(value: &serde_json::Value) -> Json {
    match value {
        serde_json::Value::Null => Json::Null,
        serde_json::Value::Bool(b) => Json::Bool(*b),
        serde_json::Value::Number(n) => match (n.as_u64(), n.as_i64()) {
            (Some(k), _) => Json::Number(Number::Unsigned(k)),
            (None, Some(k)) => Json::Number(Number::Negative(k)),
            (None, None) => Json::Number(Number::Fraction(n.to_string())),
        },
        serde_json::Value::String(s) => Json::Text(s.clone()),
        serde_json::Value::Array(items) => Json::Array(items.iter().map(tree).collect()),
        serde_json::Value::Object(members) => Json::Object(
            members.iter().map(|(key, item)| (key.clone(), tree(item))).collect(),
        ),
    }
}

fn json(text: &str) -> Json {
    tree(&serde_json::from_str::<serde_json::Value>(text).unwrap())
}

const PREFIX: &str = "check-";

#[test]
fn a_source_keeps_its_path_and_a_scratch_copy_only_its_name() {
    for (file, name) in [
        ("/home/me/src/main.c", "/home/me/src/main.c"),
        ("main.c", "main.c"),
        ("/tmp/check-1234/main.c", "main.c"),
        ("check-1/main.c", "main.c"),
        ("./check-1/./main.c", "main.c"),
        ("/tmp//check-1//main.c/", "main.c"),
        ("/tmp/check-1/sub/main.c", "/tmp/check-1/sub/main.c"),
        ("/tmp/recheck-1/main.c", "/tmp/recheck-1/main.c"),
        ("check-1", "check-1"),
        ("/tmp/check-1/..", "/tmp/check-1/.."),
        ("/tmp/check-1/../main.c", "/tmp/check-1/../main.c"),
        ("/", "/"),
        ("", ""),
    ] {
        assert_eq!(receipt_source_path(file, PREFIX), name, "{file}");
    }
}

#[test]
fn the_scratch_directory_does_not_show() {
    assert_eq!(
        receipt_source_path("/tmp/check-aaaa/inline.c", PREFIX),
        receipt_source_path("/var/tmp/check-bbbb/inline.c", PREFIX)
    );
}

fn read(file: &str, content: Result<&[u8], &str>) -> SourceRead {
    SourceRead {
        file: file.to_string(),
        content: match content {
            Ok(bytes) => Ok(bytes.to_vec()),
            Err(error) => Err(error.to_string()),
        },
    }
}

#[test]
fn source_files_are_hashed_and_listed_by_path() {
    let entries = proof_receipt_source_files(
        &vec![read("b.c", Ok(b"abc")), read("/tmp/check-1/a.c", Ok(b"")), read("c.c", Err("gone"))],
        PREFIX,
    );
    let texts: Vec<String> = entries.iter().map(|entry| entry.to_compact()).collect();
    assert_eq!(
        texts,
        vec![
            format!("{{\"path\":\"a.c\",\"sha256\":\"{}\"}}", sha256_hex(b"")),
            format!("{{\"path\":\"b.c\",\"sha256\":\"{}\"}}", sha256_hex(b"abc")),
            "{\"path\":\"c.c\",\"sha256\":null,\"error\":\"gone\"}".to_string(),
        ]
    );
}

#[test]
fn the_order_of_the_files_does_not_matter() {
    let one = proof_receipt_source_files(
        &vec![read("b.c", Ok(b"1")), read("a.c", Ok(b"2"))],
        PREFIX,
    );
    let other = proof_receipt_source_files(
        &vec![read("a.c", Ok(b"2")), read("b.c", Ok(b"1"))],
        PREFIX,
    );
    assert_eq!(one, other);
    let twice = proof_receipt_source_files(
        &vec![read("b.c", Ok(b"1")), read("a.c", Ok(b"2")), read("b.c", Ok(b"1"))],
        PREFIX,
    );
    let again = proof_receipt_source_files(
        &vec![read("b.c", Ok(b"1")), read("b.c", Ok(b"1")), read("a.c", Ok(b"2"))],
        PREFIX,
    );
    assert_eq!(twice, again);
}

#[test]
fn goals_are_listed_by_identifier_and_verdict() {
    let goals = vec![
        json("{\"stable_goal_id\": \"b\", \"status\": \"VALID\", \"from_cache\": true}"),
        json("{\"stable_goal_id\": \"a\", \"normalized_status\": \"valid\", \"status\": \"VALID\"}"),
        json("{\"stable_goal_id\": \"a\", \"status\": \"TIMEOUT\"}"),
        json("{\"name\": \"nameless\"}"),
    ];
    let texts: Vec<String> =
        proof_receipt_goals(&goals).iter().map(|entry| entry.to_compact()).collect();
    assert_eq!(
        texts,
        vec![
            "{\"stable_goal_id\":null,\"status\":null,\"from_cache\":false}".to_string(),
            "{\"stable_goal_id\":\"a\",\"status\":\"TIMEOUT\",\"from_cache\":false}".to_string(),
            "{\"stable_goal_id\":\"a\",\"status\":\"valid\",\"from_cache\":false}".to_string(),
            "{\"stable_goal_id\":\"b\",\"status\":\"VALID\",\"from_cache\":true}".to_string(),
        ]
    );
    let mut backwards: Vec<Json> = Vec::new();
    for goal in goals.iter().rev() {
        backwards.push(goal.clone());
    }
    assert_eq!(proof_receipt_goals(&backwards), proof_receipt_goals(&goals));
}

#[test]
fn a_replayed_verdict_reads_differently() {
    let fresh = proof_receipt_goals(&vec![json("{\"stable_goal_id\": \"a\", \"status\": \"VALID\"}")]);
    let cached = proof_receipt_goals(&vec![json(
        "{\"stable_goal_id\": \"a\", \"status\": \"VALID\", \"from_cache\": true}",
    )]);
    assert_ne!(fresh, cached);
}

#[test]
fn a_label_is_attached_only_where_there_is_none() {
    let mut goal = json("{\"a\": 1}");
    attach_hash_label(&mut goal, Some("an_ffed752e"));
    assert_eq!(goal, json("{\"a\": 1, \"hash_label\": \"an_ffed752e\"}"));
    attach_hash_label(&mut goal, Some("an_00000000"));
    assert_eq!(goal.text_at("hash_label"), Some("an_ffed752e"));
    let mut plain = json("{}");
    attach_hash_label(&mut plain, None);
    assert_eq!(plain, json("{}"));
    let mut list = json("[]");
    attach_hash_label(&mut list, Some("x"));
    assert_eq!(list, json("[]"));
}

#[test]
fn a_generated_label_is_stripped() {
    for (text, clause) in [
        ("an_ffed752e_Req0: x >= 0", "x >= 0"),
        ("re_00000000: x >= 0", "x >= 0"),
        ("lv_DEADBEEF_a_b:   x: y ", "x: y"),
        ("an_ffed752e_a:b: x", "x"),
        ("zz_ffed752e: x", "zz_ffed752e: x"),
        ("an_ffed752: x", "an_ffed752: x"),
        ("an_ffed752ee: x", "an_ffed752ee: x"),
        ("an_ffed752g: x", "an_ffed752g: x"),
        ("an: x", "an: x"),
        ("bound: x > 0", "bound: x > 0"),
        ("an_ffed752e:x", "an_ffed752e:x"),
        ("  x > 0 ", "x > 0"),
        ("", ""),
    ] {
        assert_eq!(strip_generated_label(text), clause, "{text}");
    }
    for prefix in ["re", "en", "as", "li", "la", "lv", "at", "an"] {
        assert_eq!(strip_generated_label(&format!("{prefix}_0123abcd_X: p")), "p");
    }
}

fn scope(functions: &[&str]) -> Json {
    let names: Vec<Json> = functions.iter().map(|name| Json::text(name)).collect();
    Json::Object(vec![("functions".to_string(), Json::Array(names))])
}

fn context(contract: &str) -> Option<Json> {
    Some(json(&format!("{{\"function\": {{\"contract\": {contract}}}}}")))
}

#[test]
fn a_contract_is_recorded_by_kind() {
    let contracts = proof_receipt_contracts(
        &scope(&["f", "g", "h", "i", "j"]),
        "live",
        &vec![
            context(
                "{\"requires\": [{\"predicate\": {\"text\": \"an_ffed752e_Req0: x >= 0\"}},
                                 {\"predicate\": {\"text\": \"x >= 0\"}}, {\"predicate\": {}}],
                  \"ensures\": [{\"kind\": \"exits\", \"predicate\": {\"text\": \"\\\\false\"}},
                                {\"predicate\": {\"text\": \"b\"}},
                                {\"kind\": \"ensures\", \"predicate\": {\"text\": \"a\"}}],
                  \"complete\": [[\"n\", \"p\"], [], [1]],
                  \"disjoint\": [[\"p\"], [\"n\"]]}",
            ),
            None,
            context("{\"requires\": []}"),
            Some(json("{}")),
        ],
    );
    assert_eq!(
        contracts.to_compact(),
        "{\"f\":{\"complete\":[\"n, p\"],\"disjoint\":[\"n\",\"p\"],\"ensures\":[\"a\",\"b\"],\"exits\":[\"\\\\false\"],\"requires\":[\"x >= 0\"]}}"
    );
}

#[test]
fn groups_take_the_place_of_clauses_of_their_kind() {
    let both = proof_receipt_contracts(
        &scope(&["f"]),
        "live",
        &vec![context(
            "{\"ensures\": [{\"kind\": \"complete\", \"predicate\": {\"text\": \"odd\"}}],
              \"complete\": [[\"a\"]]}",
        )],
    );
    assert_eq!(both.to_compact(), "{\"f\":{\"complete\":[\"a\"]}}");
    let clause = proof_receipt_contracts(
        &scope(&["f"]),
        "live",
        &vec![context(
            "{\"ensures\": [{\"kind\": \"complete\", \"predicate\": {\"text\": \"odd\"}}]}",
        )],
    );
    assert_eq!(clause.to_compact(), "{\"f\":{\"complete\":[\"odd\"]}}");
}

#[test]
fn a_later_answer_about_a_function_takes_the_place_of_the_first() {
    let contracts = proof_receipt_contracts(
        &scope(&["f", "g", "f"]),
        "live",
        &vec![
            context("{\"requires\": [{\"predicate\": {\"text\": \"old\"}}]}"),
            context("{\"requires\": [{\"predicate\": {\"text\": \"mid\"}}]}"),
            context("{\"requires\": [{\"predicate\": {\"text\": \"new\"}}]}"),
            context("{\"requires\": [{\"predicate\": {\"text\": \"out of scope\"}}]}"),
        ],
    );
    assert_eq!(
        contracts.to_compact(),
        "{\"f\":{\"requires\":[\"new\"]},\"g\":{\"requires\":[\"mid\"]}}"
    );
}

#[test]
fn an_isolated_retry_records_no_contracts() {
    assert_eq!(
        proof_receipt_contracts(
            &scope(&["f"]),
            "unavailable_isolated_cli_retry",
            &vec![context("{\"requires\": [{\"predicate\": {\"text\": \"p\"}}]}")],
        ),
        Json::text("unavailable_isolated_cli_retry")
    );
}

#[test]
fn the_functions_in_scope_are_those_of_the_configuration() {
    assert_eq!(
        contract_functions(&json("{\"functions\": [\"f\", 1, \"g\"]}")),
        vec!["f".to_string(), "g".to_string()]
    );
    assert!(contract_functions(&json("{}")).is_empty());
}

fn body(tool: &str) -> ProofReceiptBody<'_> {
    ProofReceiptBody {
        tool,
        source_files: vec![json("{\"path\": \"a.c\", \"sha256\": \"00\"}")],
        ast_digest: Json::text("d1"),
        contracts: json("{}"),
        environment: json("{\"frama_c_version\": null}"),
        wp_config: json("{\"timeout\": 10}"),
        goals: vec![json("{\"stable_goal_id\": \"a\"}")],
        goals_status_source: "live",
        reported: json("{\"valid\": 1}"),
    }
}

#[test]
fn a_receipt_states_what_was_proved_and_under_what() {
    let files = "[{\"path\":\"a.c\",\"sha256\":\"00\"}]";
    let source_hash = sha256_hex(files.as_bytes());
    assert_eq!(
        proof_receipt_body(body("run_wp")).to_compact(),
        format!(
            "{{\"schema\":\"frama-c-mcp.proof-receipt.v4\",\"subject\":{{\"tool\":\"run_wp\",\"source_hash\":\"{source_hash}\",\"ast_digest\":\"d1\",\"files\":{files},\"contracts\":{{}}}},\"environment\":{{\"frama_c_version\":null}},\"wp\":{{\"timeout\":10}},\"goals_status_source\":\"live\",\"goals\":[{{\"stable_goal_id\":\"a\"}}],\"reported\":{{\"valid\":1}}}}"
        )
    );
}

#[test]
fn the_hash_is_that_of_everything_else() {
    let plain = proof_receipt_body(body("run_wp"));
    let digest = json_sha256(&plain);
    assert_eq!(digest, sha256_hex(plain.to_compact().as_bytes()));
    let receipt = proof_receipt_with_hash(proof_receipt_body(body("run_wp")));
    assert_eq!(receipt.text_at("sha256"), Some(digest.as_str()));
    let text = plain.to_compact();
    let open = &text[..text.len() - 1];
    assert_eq!(receipt.to_compact(), format!("{open},\"sha256\":\"{digest}\"}}"));
    assert_eq!(proof_receipt_with_hash(json("[1]")), json("[1]"));
}

#[test]
fn receipts_match_exactly_when_the_runs_agree() {
    let one = proof_receipt_with_hash(proof_receipt_body(body("run_wp")));
    let same = proof_receipt_with_hash(proof_receipt_body(body("run_wp")));
    let other = proof_receipt_with_hash(proof_receipt_body(body("check")));
    assert_eq!(one, same);
    assert_ne!(one, other);
    assert_ne!(one.text_at("sha256"), other.text_at("sha256"));
}

fn request<'a>(file: &str, requires: &str) -> ProofReceiptRequest<'a> {
    ProofReceiptRequest {
        tool: "run_wp",
        source_files: vec![read(file, Ok(b"int f(int x) { return x; }"))],
        ast_digest: Json::Null,
        answers: vec![context(&format!(
            "{{\"requires\": [{{\"predicate\": {{\"text\": \"{requires}\"}}}}]}}"
        ))],
        probes: ToolProbes {
            frama_c_version: json("{\"status\": \"ok\"}"),
            why3_provers: json("{\"status\": \"missing\"}"),
            opam_switch: Json::Null,
        },
        wp_config: json("{\"functions\": [\"f\"]}"),
        goals: vec![json("{\"stable_goal_id\": \"a\", \"status\": \"VALID\"}")],
        goals_status_source: "live",
        reported: Json::Null,
    }
}

#[test]
fn scratch_names_and_labels_do_not_move_a_receipt_and_contracts_do() {
    let one = proof_receipt(request("/tmp/check-1/in.c", "an_ffed752e_Req0: x >= 0"), PREFIX);
    let again = proof_receipt(request("/tmp/check-2/in.c", "an_0badcafe_Req0: x >= 0"), PREFIX);
    assert_eq!(one, again);
    let shrunk = proof_receipt(
        request("/tmp/check-1/in.c", "an_ffed752e_Req0: x >= 0 && x <= 1"),
        PREFIX,
    );
    assert_ne!(one.text_at("sha256"), shrunk.text_at("sha256"));
    let hash_of = |receipt: &Json| {
        receipt
            .get("subject")
            .and_then(|subject| subject.text_at("source_hash"))
            .map(|hash| hash.to_string())
    };
    assert_eq!(hash_of(&one), hash_of(&shrunk));
}

#[test]
fn the_environment_is_what_the_probes_answered() {
    let probes = ToolProbes {
        frama_c_version: json("1"),
        why3_provers: json("2"),
        opam_switch: json("3"),
    };
    assert_eq!(
        receipt_environment(probes).to_compact(),
        "{\"frama_c_version\":1,\"why3_provers\":2,\"opam_switch\":3}"
    );
}

#[test]
fn a_receipt_is_remembered_by_its_hash() {
    let receipt = proof_receipt_with_hash(proof_receipt_body(body("run_wp")));
    let (hash, goals) = receipt_to_remember(&receipt).unwrap();
    assert_eq!(Some(hash.as_str()), receipt.text_at("sha256"));
    assert_eq!(goals, vec![json("{\"stable_goal_id\": \"a\"}")]);
    assert!(receipt_to_remember(&json("{\"sha256\": \"x\"}")).is_none());
    assert!(receipt_to_remember(&json("{\"goals\": []}")).is_none());
    assert!(receipt_to_remember(&json("{\"sha256\": \"x\", \"goals\": 1}")).is_none());
}
