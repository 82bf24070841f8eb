use frama_c_mcp::error::{FramaCError, FramaCRequestDiagnostics};
use frama_c_mcp::frama_c::client::{
    absorb_page, elapsed_millis, handshake_budget, handshake_step, protocol_trace_line,
    terminal_outcome, trace_setting_enables, wait_budget, wait_for_id, HandshakeStep, PollAction,
    PollEvent, PollLoop, PollPhase, Reception, RequestKind, Requests, WaitStep,
};
use frama_c_mcp::frama_c::codec::{FramaCCommand, FramaCResponse};
use frama_c_mcp::json::{Json, Number};
use frama_c_mcp::span::Span;

fn tree(value: &serde_json::Value) -> Json {
    match value {
        serde_json::Value::Null => Json::Null,
        serde_json::Value::Bool(b) => Json::Bool(*b),
        serde_json::Value::Number(n) => match (n.as_u64(), n.as_i64()) {
            (Some(k), _) => Json::Number(Number::Unsigned(k)),
            (None, Some(k)) => Json::Number(Number::Negative(k)),
            (None, None) => Json::Number(Number::Fraction(n.to_string())),
        },
        serde_json::Value::String(s) => Json::Text(s.clone()),
        serde_json::Value::Array(items) => Json::Array(items.iter().map(tree).collect()),
        serde_json::Value::Object(members) => Json::Object(
            members.iter().map(|(key, item)| (key.clone(), tree(item))).collect(),
        ),
    }
}

fn json(text: &str) -> Json {
    tree(&serde_json::from_str::<serde_json::Value>(text).unwrap())
}

fn ms(n: u64) -> Span {
    Span::from_millis(n)
}

/// Whether to trace and what is traced are asked separately.
#[test]
fn protocol_trace_line_is_env_gated_and_metadata_only() {
    assert!(!trace_setting_enables(None));
    for off in ["", "0", "false", "FALSE"] {
        assert!(!trace_setting_enables(Some(off)), "{off} should not enable");
    }
    assert!(trace_setting_enables(Some("1")));

    let line = protocol_trace_line(
        "GET",
        Some("kernel.ast.getFiles"),
        Some("RQ.1"),
        Some(ms(12)),
        Some(42),
        Some("DATA"),
    );

    let value: serde_json::Value = serde_json::from_str(&line).unwrap();
    assert_eq!(value["event"], "frama_c_protocol");
    assert_eq!(value["command"], "GET");
    assert_eq!(value["request"], "kernel.ast.getFiles");
    assert_eq!(value["id"], "RQ.1");
    assert_eq!(value["elapsed_ms"], 12);
    assert_eq!(value["payload_bytes"], 42);
    assert_eq!(value["result_kind"], "DATA");
    assert!(value.get("data").is_none());
}

#[test]
fn what_is_missing_is_null_in_the_trace() {
    assert_eq!(
        protocol_trace_line("POLL", None, None, None, None, None),
        "{\"event\":\"frama_c_protocol\",\"command\":\"POLL\",\"request\":null,\"id\":null,\"elapsed_ms\":null,\"payload_bytes\":null,\"result_kind\":null}"
    );
}

#[test]
fn other_spellings_turn_the_trace_on() {
    for on in ["true", "False", "no", " ", "00"] {
        assert!(trace_setting_enables(Some(on)), "{on:?} should enable");
    }
}

#[test]
fn milliseconds_are_capped() {
    assert_eq!(elapsed_millis(ms(42)), 42);
    assert_eq!(elapsed_millis(Span::new(u64::MAX, 0).unwrap()), u64::MAX);
    assert_eq!(elapsed_millis(Span::new(0, 999_999).unwrap()), 0);
}

fn diagnostics() -> FramaCRequestDiagnostics {
    FramaCRequestDiagnostics {
        request_id: "RQ.7".to_string(),
        request: "plugins.wp.startProofs".to_string(),
        queued_task_id: None,
        signal_count: 0,
        elapsed_ms: None,
        final_result: None,
        cancellation_result: None,
        rejected_command_id: None,
    }
}

#[test]
fn data_with_the_own_identifier_settles() {
    let mut noted = diagnostics();
    let handled = terminal_outcome(
        FramaCResponse::Data { id: "RQ.7".to_string(), data: json("{\"a\":\"\u{e9}\"}") },
        "EXEC",
        "plugins.wp.startProofs",
        "RQ.7",
        ms(5),
        &mut noted,
    );
    let result = handled.outcome.unwrap().unwrap();
    assert_eq!(result.data, json("{\"a\":\"\u{e9}\"}"));
    assert_eq!(result.diagnostics.final_result.as_deref(), Some("DATA"));
    assert_eq!(result.diagnostics.elapsed_ms, Some(5));
    assert_eq!(noted.final_result.as_deref(), Some("DATA"));
    let trace = handled.trace.unwrap();
    assert_eq!(
        trace.line(),
        "{\"event\":\"frama_c_protocol\",\"command\":\"EXEC\",\"request\":\"plugins.wp.startProofs\",\"id\":\"RQ.7\",\"elapsed_ms\":5,\"payload_bytes\":10,\"result_kind\":\"DATA\"}"
    );
    assert!(handled.stray.is_none());
}

#[test]
fn failures_with_the_own_identifier_settle() {
    let own = "RQ.7".to_string();
    for (response, kind, text, cancelled, rejected, size) in [
        (
            FramaCResponse::Error { id: own.clone(), msg: "bad \u{e9}".to_string() },
            "ERROR",
            "bad \u{e9}",
            None,
            None,
            Some(6usize),
        ),
        (FramaCResponse::Killed { id: own.clone() }, "KILLED", "killed: RQ.7", Some("killed"), None, None),
        (
            FramaCResponse::Rejected { id: own.clone() },
            "REJECTED",
            "rejected: RQ.7",
            None,
            Some("RQ.7"),
            None,
        ),
    ] {
        let mut noted = diagnostics();
        let handled = terminal_outcome(response, "SET", "r", "RQ.7", ms(9), &mut noted);
        match handled.outcome {
            Some(Err(FramaCError::CommandFailed { kind: k, id, msg, diagnostics })) => {
                assert_eq!(k, kind);
                assert_eq!(id, "RQ.7");
                assert_eq!(msg, text);
                assert_eq!(diagnostics.final_result.as_deref(), Some(kind));
                assert_eq!(diagnostics.elapsed_ms, Some(9));
                assert_eq!(diagnostics.cancellation_result.as_deref(), cancelled);
                assert_eq!(diagnostics.rejected_command_id.as_deref(), rejected);
            }
            other => panic!("unexpected outcome {other:?}"),
        }
        let trace = handled.trace.unwrap();
        assert_eq!(trace.payload_bytes, size);
        assert_eq!(trace.result_kind.as_deref(), Some(kind));
    }
}

#[test]
fn signals_are_counted_and_the_first_names_the_task() {
    let mut noted = diagnostics();
    for task in ["TASK.1", "TASK.2"] {
        let handled = terminal_outcome(
            FramaCResponse::Signal { id: task.to_string() },
            "POLL",
            "r",
            "RQ.7",
            ms(1),
            &mut noted,
        );
        assert!(handled.outcome.is_none());
        assert!(handled.stray.is_none());
        assert_eq!(handled.trace.unwrap().result_kind.as_deref(), Some("SIGNAL"));
    }
    assert_eq!(noted.signal_count, 2);
    assert_eq!(noted.queued_task_id.as_deref(), Some("TASK.1"));
    assert_eq!(noted.final_result, None);
}

#[test]
fn responses_to_other_requests_change_nothing() {
    for response in [
        FramaCResponse::Data { id: "RQ.6".to_string(), data: Json::Null },
        FramaCResponse::Error { id: "RQ.6".to_string(), msg: "m".to_string() },
        FramaCResponse::Killed { id: "RQ.6".to_string() },
        FramaCResponse::Rejected { id: "RQ.6".to_string() },
    ] {
        let mut noted = diagnostics();
        let handled = terminal_outcome(response, "POLL", "r", "RQ.7", ms(1), &mut noted);
        assert!(handled.outcome.is_none());
        assert!(handled.trace.is_none());
        assert!(handled.stray.is_some());
        assert_eq!(noted.signal_count, 0);
        assert_eq!(noted.final_result, None);
        assert_eq!(noted.elapsed_ms, None);
    }
    for response in [FramaCResponse::CmdLineOn, FramaCResponse::CmdLineOff] {
        let handled = terminal_outcome(response, "POLL", "r", "RQ.7", ms(1), &mut diagnostics());
        assert!(handled.outcome.is_none() && handled.trace.is_none() && handled.stray.is_none());
    }
}

#[test]
fn a_query_waits_for_its_own_identifier() {
    let wait = |reception: Reception| wait_for_id(reception, "r", "RQ.3", ms(10_000), ms(4));
    assert!(matches!(
        wait(Reception::Response(FramaCResponse::Data { id: "RQ.3".to_string(), data: json("[1]") })),
        WaitStep::Done { answer: Ok(data), trace: Some(trace) }
            if data == json("[1]") && trace.payload_bytes == Some(3) && trace.command == "GET"
    ));
    assert!(matches!(
        wait(Reception::Response(FramaCResponse::Error { id: "RQ.3".to_string(), msg: "no".to_string() })),
        WaitStep::Done { answer: Err(FramaCError::ServerError { id, msg }), trace: Some(_) }
            if id == "RQ.3" && msg == "no"
    ));
    assert!(matches!(
        wait(Reception::Response(FramaCResponse::Rejected { id: "RQ.3".to_string() })),
        WaitStep::Done { answer: Err(FramaCError::Rejected { id }), trace: Some(trace) }
            if id == "RQ.3" && trace.result_kind.as_deref() == Some("REJECTED")
    ));
    assert!(matches!(
        wait(Reception::Response(FramaCResponse::Data { id: "RQ.2".to_string(), data: Json::Null })),
        WaitStep::Again(Some(FramaCResponse::Data { .. }))
    ));
    assert!(matches!(
        wait(Reception::Response(FramaCResponse::Killed { id: "RQ.3".to_string() })),
        WaitStep::Done { answer: Err(FramaCError::Killed { id }), trace: Some(trace) }
            if id == "RQ.3" && trace.result_kind.as_deref() == Some("KILLED")
                && trace.payload_bytes.is_none()
    ));
    assert!(matches!(
        wait(Reception::Response(FramaCResponse::Killed { id: "RQ.2".to_string() })),
        WaitStep::Again(Some(FramaCResponse::Killed { .. }))
    ));
    assert!(matches!(
        wait(Reception::Response(FramaCResponse::Signal { id: "RQ.3".to_string() })),
        WaitStep::Again(None)
    ));
    assert!(matches!(wait(Reception::Response(FramaCResponse::CmdLineOff)), WaitStep::Again(None)));
    assert!(matches!(
        wait(Reception::Silence),
        WaitStep::Done { answer: Err(FramaCError::Timeout(span)), trace: None } if span == ms(10_000)
    ));
    assert!(matches!(
        wait(Reception::Failed(FramaCError::ConnectTimeout)),
        WaitStep::Done { answer: Err(FramaCError::ConnectTimeout), trace: None }
    ));
}

#[test]
fn a_query_gives_up_at_its_deadline() {
    assert_eq!(wait_budget("r", "RQ.3", ms(10_000), ms(4_000)).ok(), Some(ms(6_000)));
    match wait_budget("r", "RQ.3", ms(10_000), ms(10_000)) {
        Err((FramaCError::Timeout(span), trace)) => {
            assert_eq!(span, ms(10_000));
            assert_eq!(trace.result_kind.as_deref(), Some("TIMEOUT"));
        }
        other => panic!("unexpected {other:?}"),
    }
}

#[test]
fn the_handshake_waits_for_the_command_line() {
    assert_eq!(handshake_budget(ms(29_999)).ok(), Some(ms(1)));
    assert!(matches!(handshake_budget(ms(30_000)), Err(FramaCError::ConnectTimeout)));
    assert!(matches!(
        handshake_step(Reception::Response(FramaCResponse::CmdLineOff)),
        HandshakeStep::Ready { announced: true }
    ));
    assert!(matches!(
        handshake_step(Reception::Silence),
        HandshakeStep::Ready { announced: false }
    ));
    assert!(matches!(
        handshake_step(Reception::Response(FramaCResponse::CmdLineOn)),
        HandshakeStep::Again(None)
    ));
    assert!(matches!(
        handshake_step(Reception::Response(FramaCResponse::Data {
            id: "RQ.0".to_string(),
            data: Json::Null
        })),
        HandshakeStep::Again(None)
    ));
    assert!(matches!(
        handshake_step(Reception::Response(FramaCResponse::Signal { id: "x".to_string() })),
        HandshakeStep::Again(Some(FramaCResponse::Signal { .. }))
    ));
    assert!(matches!(
        handshake_step(Reception::Failed(FramaCError::ConnectTimeout)),
        HandshakeStep::Failed(FramaCError::ConnectTimeout)
    ));
}

fn nothing() -> PollEvent {
    PollEvent::Received { response: None, shown: String::new() }
}

fn received(response: FramaCResponse) -> PollEvent {
    let shown = format!("{response:?}");
    PollEvent::Received { response: Some(response), shown }
}

#[test]
fn a_queued_request_is_polled_until_it_is_settled() {
    let mut state = PollLoop::new("EXEC", "RQ.1", "r", ms(1_000));
    assert!(matches!(state.action(), PollAction::Receive(span) if span == ms(500)));
    assert!(state.step(nothing(), ms(500)).outcome.is_none());
    assert!(matches!(state.action(), PollAction::Rest(span) if span == ms(100)));
    assert!(state.step(PollEvent::Rested, ms(600)).outcome.is_none());
    assert!(matches!(state.action(), PollAction::Send(FramaCCommand::Poll)));
    let sent = state.step(PollEvent::Sent, ms(600));
    assert_eq!(
        sent.trace.unwrap().line(),
        "{\"event\":\"frama_c_protocol\",\"command\":\"POLL\",\"request\":\"r\",\"id\":\"RQ.1\",\"elapsed_ms\":600,\"payload_bytes\":null,\"result_kind\":null}"
    );
    let signal = state.step(received(FramaCResponse::Signal { id: "T".to_string() }), ms(700));
    assert!(signal.outcome.is_none());
    state.step(PollEvent::Rested, ms(800));
    state.step(PollEvent::Sent, ms(800));
    let last = state.step(
        received(FramaCResponse::Data { id: "RQ.1".to_string(), data: json("true") }),
        ms(900),
    );
    let result = last.outcome.unwrap().unwrap();
    assert_eq!(result.data, json("true"));
    assert_eq!(result.diagnostics.signal_count, 1);
    assert_eq!(result.diagnostics.queued_task_id.as_deref(), Some("T"));
    assert_eq!(last.trace.unwrap().command, "POLL");
    assert_eq!(state.phase, PollPhase::Done);
    assert!(matches!(state.action(), PollAction::Stop));
    assert!(state.step(nothing(), ms(900)).outcome.is_none());
}

#[test]
fn a_fast_answer_is_traced_under_its_own_command() {
    let mut state = PollLoop::new("SET", "RQ.1", "r", ms(1_000));
    let handled = state.step(
        received(FramaCResponse::Data { id: "RQ.1".to_string(), data: Json::Null }),
        ms(3),
    );
    assert!(handled.outcome.is_some());
    assert_eq!(handled.trace.unwrap().command, "SET");
}

fn timed_out_loop() -> PollLoop {
    let mut state = PollLoop::new("EXEC", "RQ.1", "r", ms(400));
    state.step(nothing(), ms(500));
    assert!(matches!(state.action(), PollAction::Send(FramaCCommand::Kill { id }) if id == "RQ.1"));
    state
}

#[test]
fn a_request_whose_time_is_up_is_cancelled() {
    let own = || FramaCResponse::Killed { id: "RQ.1".to_string() };
    let other = || FramaCResponse::Killed { id: "RQ.0".to_string() };
    let broken = || PollEvent::ReceiveFailed {
        error: FramaCError::ConnectTimeout,
        shown: "gone".to_string(),
    };
    for (event, cancellation) in [
        (received(own()), "killed".to_string()),
        (received(other()), format!("kill_sent_then_{:?}", other())),
        (nothing(), "kill_sent".to_string()),
        (broken(), "kill_sent_then_error:gone".to_string()),
    ] {
        let mut state = timed_out_loop();
        assert!(state.step(PollEvent::Sent, ms(510)).outcome.is_none());
        assert!(matches!(state.action(), PollAction::Receive(span) if span == ms(500)));
        let handled = state.step(event, ms(520));
        match handled.outcome {
            Some(Err(FramaCError::CommandFailed { kind, id, msg, diagnostics })) => {
                assert_eq!(kind, "TIMEOUT");
                assert_eq!(id, "RQ.1");
                assert_eq!(msg, "timeout after 400ms");
                assert_eq!(diagnostics.final_result.as_deref(), Some("TIMEOUT"));
                assert_eq!(diagnostics.elapsed_ms, Some(510));
                assert_eq!(diagnostics.cancellation_result, Some(cancellation));
            }
            other => panic!("unexpected outcome {other:?}"),
        }
        let trace = handled.trace.unwrap();
        assert_eq!(trace.command, "EXEC");
        assert_eq!(trace.result_kind.as_deref(), Some("TIMEOUT"));
        assert_eq!(state.phase, PollPhase::Done);
    }
}

#[test]
fn a_cancellation_that_cannot_be_sent_is_noted() {
    let mut state = timed_out_loop();
    let handled = state.step(
        PollEvent::SendFailed { error: FramaCError::ConnectTimeout, shown: "gone".to_string() },
        ms(510),
    );
    assert!(matches!(
        handled.outcome,
        Some(Err(FramaCError::CommandFailed { diagnostics, .. }))
            if diagnostics.cancellation_result.as_deref() == Some("kill_send_error:gone")
                && diagnostics.elapsed_ms == Some(510)
    ));
}

#[test]
fn a_broken_socket_ends_the_loop_with_its_own_error() {
    let mut first = PollLoop::new("EXEC", "RQ.1", "r", ms(1_000));
    let handled = first.step(
        PollEvent::ReceiveFailed { error: FramaCError::ConnectTimeout, shown: "gone".to_string() },
        ms(1),
    );
    assert!(matches!(handled.outcome, Some(Err(FramaCError::ConnectTimeout))));
    let mut later = PollLoop::new("EXEC", "RQ.1", "r", ms(1_000));
    later.step(nothing(), ms(1));
    later.step(PollEvent::Rested, ms(2));
    let handled = later.step(
        PollEvent::SendFailed { error: FramaCError::ConnectTimeout, shown: "gone".to_string() },
        ms(3),
    );
    assert!(matches!(handled.outcome, Some(Err(FramaCError::ConnectTimeout))));
    assert_eq!(later.phase, PollPhase::Done);
}

#[test]
fn an_event_that_was_not_asked_for_changes_nothing() {
    let mut state = PollLoop::new("EXEC", "RQ.1", "r", ms(1_000));
    let handled = state.step(PollEvent::Rested, ms(1));
    assert!(handled.outcome.is_none() && handled.trace.is_none());
    assert_eq!(state.phase, PollPhase::First);
    let handled = state.step(PollEvent::Sent, ms(1));
    assert!(handled.outcome.is_none());
    assert_eq!(state.phase, PollPhase::First);
}

#[test]
fn requests_are_numbered_from_zero() {
    let mut requests = Requests::new();
    assert_eq!(requests.next_id(), "RQ.0");
    let begun = requests.begin(RequestKind::Get, "kernel.ast.getFiles", Json::Null);
    assert_eq!(begun.id, "RQ.1");
    assert!(matches!(
        begun.command,
        FramaCCommand::Get { id, request, data }
            if id == "RQ.1" && request == "kernel.ast.getFiles" && data == Json::Null
    ));
    assert_eq!(
        begun.trace.line(),
        "{\"event\":\"frama_c_protocol\",\"command\":\"GET\",\"request\":\"kernel.ast.getFiles\",\"id\":\"RQ.1\",\"elapsed_ms\":null,\"payload_bytes\":4,\"result_kind\":null}"
    );
    let begun = requests.begin(RequestKind::SetState, "r", json("10"));
    assert!(matches!(begun.command, FramaCCommand::SetState { .. }));
    assert_eq!(begun.trace.command, "SET");
    let begun = requests.begin(RequestKind::Exec, "r", json("10"));
    assert!(matches!(begun.command, FramaCCommand::Exec { .. }));
    assert_eq!(begun.trace.command, "EXEC");
    assert_eq!(requests.counter, 4);
}

#[test]
fn pages_add_up_from_the_last_reload() {
    let mut entries = Vec::new();
    assert!(absorb_page(&mut entries, &json("{\"updated\":[1,2],\"pending\":5}")));
    assert!(absorb_page(&mut entries, &json("{\"reload\":false,\"updated\":[3],\"pending\":1}")));
    assert_eq!(entries, vec![json("1"), json("2"), json("3")]);
    assert!(absorb_page(&mut entries, &json("{\"reload\":true,\"updated\":[4],\"pending\":1}")));
    assert!(!absorb_page(&mut entries, &json("{\"updated\":[5],\"pending\":0}")));
    assert_eq!(entries, vec![json("4"), json("5")]);
    assert!(!absorb_page(&mut entries, &json("{}")));
    assert!(!absorb_page(&mut entries, &json("{\"pending\":-1}")));
    assert_eq!(entries.len(), 2);
}
