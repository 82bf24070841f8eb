use frama_c_mcp::digest::{json_sha256, sha256_hex};
use frama_c_mcp::json::{Json, Number};

fn tree(value: &serde_json::Value) -> Json {
    match value {
        serde_json::Value::Null => Json::Null,
        serde_json::Value::Bool(b) => Json::Bool(*b),
        serde_json::Value::Number(n) => match (n.as_u64(), n.as_i64()) {
            (Some(k), _) => Json::Number(Number::Unsigned(k)),
            (None, Some(k)) => Json::Number(Number::Negative(k)),
            (None, None) => Json::Number(Number::Fraction(n.to_string())),
        },
        serde_json::Value::String(s) => Json::Text(s.clone()),
        serde_json::Value::Array(items) => Json::Array(items.iter().map(tree).collect()),
        serde_json::Value::Object(members) => Json::Object(
            members.iter().map(|(key, item)| (key.clone(), tree(item))).collect(),
        ),
    }
}

fn json(text: &str) -> Json {
    tree(&serde_json::from_str::<serde_json::Value>(text).unwrap())
}

#[test]
fn compact_text_is_the_one_of_serde_json() {
    for text in [
        "null",
        "true",
        "false",
        "0",
        "18446744073709551615",
        "-1",
        "-9223372036854775808",
        "1.5",
        "-2.25",
        "\"\"",
        "\"plain\"",
        "\"quote \\\" backslash \\\\ slash / tab \\t newline \\n return \\r\"",
        "\"\\u0000 \\u001f \\u007f \\u00e9 \\u2028 \\ud83d\\ude00\"",
        "[]",
        "[1]",
        "[1,2,[3,[]],{}]",
        "{}",
        "{\"b\":1,\"a\":[null,{\"c\":\"d\"}]}",
        "{\"a \\\" key\":\"x\",\"z\":{\"y\":false}}",
    ] {
        let value: serde_json::Value = serde_json::from_str(text).unwrap();
        assert_eq!(tree(&value).to_compact(), value.to_string(), "{text}");
    }
}

#[test]
fn a_quoted_text_is_not_the_text() {
    assert_eq!(Json::text("a\"b").to_compact(), "\"a\\\"b\"");
}

#[test]
fn members_are_read_by_name() {
    let value = json("{\"a\":1,\"b\":\"two\",\"c\":true,\"d\":[1,2]}");
    assert_eq!(value.get("a").and_then(|v| v.as_i64()), Some(1));
    assert_eq!(value.get("a").and_then(|v| v.as_u64()), Some(1));
    assert_eq!(value.text_at("b"), Some("two"));
    assert_eq!(value.text_at("a"), None);
    assert_eq!(value.flag_at("c"), Some(true));
    assert_eq!(value.flag_at("b"), None);
    assert_eq!(value.items_at("d").len(), 2);
    assert!(value.items_at("b").is_empty());
    assert!(value.get("missing").is_none());
    assert_eq!(value.get_or_null("missing"), Json::Null);
    assert!(Json::Null.get("a").is_none());
    assert!(Json::text("a").items().is_empty());
}

#[test]
fn numbers_are_read_where_they_fit() {
    assert_eq!(json("-3").as_i64(), Some(-3));
    assert_eq!(json("-3").as_u64(), None);
    assert_eq!(json("9223372036854775808").as_i64(), None);
    assert_eq!(json("9223372036854775808").as_u64(), Some(9223372036854775808));
    assert_eq!(json("1.5").as_i64(), None);
    assert_eq!(json("1.5").as_u64(), None);
    assert_eq!(Json::whole(-5), json("-5"));
    assert_eq!(Json::whole(5), json("5"));
    assert_eq!(Json::count(5), json("5"));
}

#[test]
fn a_bound_member_is_read_back_and_the_others_stay() {
    let mut value = json("{\"a\":1,\"b\":2}");
    value.insert("a", Json::text("new"));
    value.insert("c", Json::Bool(true));
    assert_eq!(value, json("{\"a\":\"new\",\"b\":2,\"c\":true}"));
    let mut list = json("[1]");
    list.insert("a", Json::Null);
    assert_eq!(list, json("[1]"));
}

#[test]
fn a_clone_is_equal() {
    let value = json("{\"a\":[1,-2,1.5,\"x\",null,{\"b\":[false]}]}");
    assert_eq!(value.clone(), value);
}

#[test]
fn digests_are_those_of_sha256() {
    assert_eq!(
        sha256_hex(b""),
        "e3b0c44298fc1c149afbf4c8996fb92427ae41e4649b934ca495991b7852b855"
    );
    assert_eq!(
        sha256_hex(b"abc"),
        "ba7816bf8f01cfea414140de5dae2223b00361a396177a9cb410ff61f20015ad"
    );
    assert_eq!(json_sha256(&Json::Null), sha256_hex(b"null"));
    assert_eq!(json_sha256(&json("[1, 2]")), sha256_hex(b"[1,2]"));
    assert_ne!(json_sha256(&json("[1,2]")), json_sha256(&json("[2,1]")));
}

#[test]
fn different_values_have_different_texts() {
    let values = [
        "null", "\"null\"", "0", "\"0\"", "1.5", "15", "-1", "[]", "[[]]", "{}", "[\"a,b\"]",
        "[\"a\",\"b\"]", "[\"a\\\",\\\"b\"]", "{\"a\":1}", "[\"a\",1]", "{\"a\":{\"b\":1}}",
        "{\"a\":{},\"b\":1}", "\"\\n\"", "\"\\\\n\"", "\"\\u0001\"", "\"\\\\u0001\"",
    ];
    for a in values {
        for b in values {
            assert_eq!(json(a).to_compact() == json(b).to_compact(), a == b, "{a} {b}");
        }
    }
}
