use frama_c_mcp::error::FramaCError;
use frama_c_mcp::frama_c::codec::{
    decode_length, decode_response, encode_command, encode_header, header_digits, FramaCCommand,
    FramaCResponse,
};
use frama_c_mcp::json::{Json, Number};

fn tree(value: &serde_json::Value) -> Json {
    match value {
        serde_json::Value::Null => Json::Null,
        serde_json::Value::Bool(b) => Json::Bool(*b),
        serde_json::Value::Number(n) => match (n.as_u64(), n.as_i64()) {
            (Some(k), _) => Json::Number(Number::Unsigned(k)),
            (None, Some(k)) => Json::Number(Number::Negative(k)),
            (None, None) => Json::Number(Number::Fraction(n.to_string())),
        },
        serde_json::Value::String(s) => Json::Text(s.clone()),
        serde_json::Value::Array(items) => Json::Array(items.iter().map(tree).collect()),
        serde_json::Value::Object(members) => Json::Object(
            members.iter().map(|(key, item)| (key.clone(), tree(item))).collect(),
        ),
    }
}

fn json(text: &str) -> Json {
    tree(&serde_json::from_str::<serde_json::Value>(text).unwrap())
}

#[test]
fn commands_are_written_as_the_protocol_has_them() {
    let id = "RQ.0".to_string();
    let request = "kernel.ast.getFiles".to_string();
    for (command, text) in [
        (
            FramaCCommand::Get { id: id.clone(), request: request.clone(), data: Json::Null },
            "{\"cmd\":\"GET\",\"id\":\"RQ.0\",\"request\":\"kernel.ast.getFiles\",\"data\":null}",
        ),
        (
            FramaCCommand::SetState { id: id.clone(), request: request.clone(), data: json("10") },
            "{\"cmd\":\"SET\",\"id\":\"RQ.0\",\"request\":\"kernel.ast.getFiles\",\"data\":10}",
        ),
        (
            FramaCCommand::Exec { id: id.clone(), request: request.clone(), data: json("[1]") },
            "{\"cmd\":\"EXEC\",\"id\":\"RQ.0\",\"request\":\"kernel.ast.getFiles\",\"data\":[1]}",
        ),
        (FramaCCommand::Poll, "\"POLL\""),
        (FramaCCommand::Kill { id: id.clone() }, "{\"cmd\":\"KILL\",\"id\":\"RQ.0\"}"),
        (FramaCCommand::Shutdown, "\"SHUTDOWN\""),
    ] {
        assert_eq!(encode_command(&command), text);
    }
}

#[test]
fn responses_are_read_as_the_protocol_has_them() {
    let read = |text: &str| decode_response(&json(text));
    assert!(matches!(
        read("{\"res\":\"DATA\",\"id\":\"RQ.0\",\"data\":[1]}"),
        Ok(FramaCResponse::Data { id, data }) if id == "RQ.0" && data == json("[1]")
    ));
    assert!(matches!(
        read("{\"res\":\"DATA\",\"id\":\"RQ.0\"}"),
        Ok(FramaCResponse::Data { data, .. }) if data == Json::Null
    ));
    assert!(matches!(
        read("{\"res\":\"ERROR\",\"id\":\"RQ.1\",\"msg\":\"no\"}"),
        Ok(FramaCResponse::Error { id, msg }) if id == "RQ.1" && msg == "no"
    ));
    assert!(matches!(
        read("{\"res\":\"REJECTED\",\"id\":\"RQ.2\"}"),
        Ok(FramaCResponse::Rejected { id }) if id == "RQ.2"
    ));
    assert!(matches!(
        read("{\"res\":\"SIGNAL\",\"id\":\"RQ.2\"}"),
        Ok(FramaCResponse::Signal { id }) if id == "RQ.2"
    ));
    assert!(matches!(
        read("{\"res\":\"KILLED\",\"id\":\"RQ.2\"}"),
        Ok(FramaCResponse::Killed { id }) if id == "RQ.2"
    ));
    assert!(matches!(read("\"CMDLINEON\""), Ok(FramaCResponse::CmdLineOn)));
    assert!(matches!(read("\"CMDLINEOFF\""), Ok(FramaCResponse::CmdLineOff)));
}

#[test]
fn what_is_no_response_is_shown() {
    for text in [
        "null",
        "\"POLL\"",
        "{\"res\":\"DATA\"}",
        "{\"res\":\"ERROR\",\"id\":\"RQ.1\"}",
        "{\"res\":\"OTHER\",\"id\":\"RQ.1\"}",
    ] {
        assert!(matches!(
            decode_response(&json(text)),
            Err(FramaCError::Malformed { text: shown }) if shown == text
        ));
    }
}

#[test]
fn headers_state_the_length_and_are_read_back() {
    for (length, header) in [
        (0u64, "S000"),
        (26, "S01a"),
        (4095, "Sfff"),
        (4096, "L0001000"),
        (268_435_455, "Lfffffff"),
        (268_435_456, "W000000010000000"),
    ] {
        assert_eq!(encode_header(length), header);
        let tag = header.chars().next().unwrap();
        assert_eq!(header_digits(tag), Some(header.len() - 1));
        assert_eq!(decode_length(&header[1..]), Some(length));
    }
    assert_eq!(header_digits('X'), None);
    assert_eq!(decode_length("0FF"), Some(255));
    assert_eq!(decode_length("0g0"), None);
    assert_eq!(decode_length("0000000000000000"), None);
}
