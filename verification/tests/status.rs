use frama_c_mcp::json::{Json, Number};
use frama_c_mcp::mcp::status::{is_proved, own_status, own_status_is_proved};

fn tree(value: &serde_json::Value) -> Json {
    match value {
        serde_json::Value::Null => Json::Null,
        serde_json::Value::Bool(b) => Json::Bool(*b),
        serde_json::Value::Number(n) => match (n.as_u64(), n.as_i64()) {
            (Some(k), _) => Json::Number(Number::Unsigned(k)),
            (None, Some(k)) => Json::Number(Number::Negative(k)),
            (None, None) => Json::Number(Number::Fraction(n.to_string())),
        },
        serde_json::Value::String(s) => Json::Text(s.clone()),
        serde_json::Value::Array(items) => Json::Array(items.iter().map(tree).collect()),
        serde_json::Value::Object(members) => Json::Object(
            members.iter().map(|(key, item)| (key.clone(), tree(item))).collect(),
        ),
    }
}

fn json(text: &str) -> Json {
    tree(&serde_json::from_str::<serde_json::Value>(text).unwrap())
}

#[test]
fn own_status_prefers_the_normalized_spelling() {
    let goal = json(
        "{\"status\": \"TIMEOUT\", \"raw_status\": \"TIMEOUT\", \"normalized_status\": \"timeout\"}",
    );
    assert_eq!(own_status(&goal), Some("timeout"));
}

#[test]
fn own_status_answers_a_raw_wire_goal() {
    let goal = json("{\"status\": \"VALID\"}");
    assert_eq!(own_status(&goal), Some("VALID"));
    assert!(own_status_is_proved(&goal));
}

#[test]
fn own_status_ignores_the_property_verdict() {
    let goal = json(
        "{\"normalized_status\": \"valid\", \"normalized_property_status\": \"unknown\"}",
    );
    assert_eq!(own_status(&goal), Some("valid"));
    assert!(own_status_is_proved(&goal));
}

#[test]
fn a_row_with_no_status_is_not_proved() {
    assert!(!own_status_is_proved(&json("{}")));
    assert_eq!(own_status(&json("{}")), None);
}

#[test]
fn is_proved_accepts_either_spelling_and_nothing_else() {
    assert!(is_proved("valid"));
    assert!(is_proved("VALID"));
    assert!(!is_proved("valid_under_hyp"));
    assert!(!is_proved("considered_valid"));
    assert!(!is_proved(""));
}

#[test]
fn a_property_verdict_alone_is_no_verdict_on_the_goal() {
    let goal = json("{\"normalized_property_status\": \"valid_but_dead\"}");
    assert_eq!(own_status(&goal), None);
    assert!(!own_status_is_proved(&goal));
}
