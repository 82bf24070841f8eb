use frama_c_mcp::error::{FramaCError, IoErrorKind};
use frama_c_mcp::mcp::proc::{
    connect_when_listening, kill_answer_notice, kill_frama_c_group, kill_orphaned_sandbox,
    kill_sandbox, never_listened, plugin_load_messages, process_is_alive, run_command_json,
    sandbox_kill_target,
    socket_not_listening_yet, socket_path_error, socket_refused, startup_failure_tail, tail_file,
    wait_socket_file, CommandRun, ConnectEvent, ConnectStep, Connecting, NoticeLevel, OrphanStep,
    SignalAnswer, SocketWait, RECOVERED_RACE,
};
use frama_c_mcp::span::Span;

#[test]
fn a_tail_is_the_last_lines() {
    assert_eq!(tail_file(Some("a\nb\nc\n"), 2), "b\nc");
    assert_eq!(tail_file(Some("a\r\nb"), 5), "a\nb");
    assert_eq!(tail_file(Some("a\nb"), 0), "");
    assert_eq!(tail_file(Some(""), 3), "");
    assert_eq!(tail_file(None, 3), "");
}

#[test]
fn a_failed_start_shows_both_logs() {
    assert_eq!(
        startup_failure_tail(Some("x\nunbound logic predicate \\bogus\n"), Some("late\n"), 1),
        "unbound logic predicate \\bogus\nlate"
    );
    assert_eq!(startup_failure_tail(Some("out\n"), Some("  \n"), 5), "out");
    assert_eq!(startup_failure_tail(None, Some("err"), 5), "err");
    assert_eq!(startup_failure_tail(Some(" \n\t"), None, 5), "(no output on stdout or stderr)");
    assert_eq!(startup_failure_tail(Some("out"), Some("err"), 0), "(no output on stdout or stderr)");
}

#[test]
fn plugin_messages_are_found_in_any_case() {
    assert_eq!(
        plugin_load_messages("[kernel] Plugin wp\nnothing\nAST_UTILS loaded\r\nplug in\n"),
        vec!["[kernel] Plugin wp".to_string(), "AST_UTILS loaded".to_string()]
    );
    assert!(plugin_load_messages("").is_empty());
}

#[test]
fn a_report_says_how_a_command_ended() {
    assert_eq!(
        run_command_json(CommandRun::NotStarted { error: "no such file".to_string() }).to_compact(),
        "{\"status\":\"missing\",\"error\":\"no such file\"}"
    );
    assert_eq!(
        run_command_json(CommandRun::Exited {
            success: true,
            code: Some(0),
            output: Ok((b" 33.0 (Arsenic)\n".to_vec(), b"\n".to_vec())),
        })
        .to_compact(),
        "{\"status\":\"ok\",\"code\":0,\"stdout\":\"33.0 (Arsenic)\",\"stderr\":\"\"}"
    );
    assert_eq!(
        run_command_json(CommandRun::Exited {
            success: false,
            code: None,
            output: Ok((vec![0x61, 0xff, 0x62], b"bad".to_vec())),
        })
        .to_compact(),
        "{\"status\":\"error\",\"code\":null,\"stdout\":\"a\u{fffd}b\",\"stderr\":\"bad\"}"
    );
    assert_eq!(
        run_command_json(CommandRun::Exited {
            success: false,
            code: Some(-9),
            output: Err("broken pipe ".to_string()),
        })
        .to_compact(),
        "{\"status\":\"error\",\"code\":-9,\"stdout\":\"\",\"stderr\":\"broken pipe \"}"
    );
    assert_eq!(
        run_command_json(CommandRun::WaitFailed { error: "no child".to_string() }).to_compact(),
        "{\"status\":\"error\",\"error\":\"no child\"}"
    );
    assert_eq!(
        run_command_json(CommandRun::TimedOut { timeout: Span::from_millis(2500) }).to_compact(),
        "{\"status\":\"timeout\",\"timeout_ms\":2500}"
    );
}

#[test]
fn only_a_leader_is_killed_by_its_group() {
    assert_eq!(sandbox_kill_target(0, None), None);
    assert_eq!(sandbox_kill_target(0, Some(0)), None);
    assert_eq!(sandbox_kill_target(u32::MAX, Some(u32::MAX)), None);
    assert_eq!(sandbox_kill_target(2_147_483_648, None), None);
    assert_eq!(sandbox_kill_target(2_147_483_647, Some(2_147_483_647)), Some(-2_147_483_647));
    assert_eq!(sandbox_kill_target(42, Some(42)), Some(-42));
    assert_eq!(sandbox_kill_target(42, Some(7)), Some(42));
    assert_eq!(sandbox_kill_target(42, None), Some(42));
}

#[test]
fn a_kill_order_names_what_it_is_for() {
    let order = kill_sandbox("exp", 42, Some(42));
    assert_eq!(order.what, "cleanup_sandbox exp");
    assert_eq!(order.target, Some(-42));
    assert!(order.notice.is_none());
    let alone = kill_frama_c_group("main", 42, None);
    assert_eq!(alone.target, Some(42));
    let notice = alone.notice.unwrap();
    assert_eq!(notice.level, NoticeLevel::Warn);
    assert_eq!(notice.text, "main: not a process group leader, so its why3server may survive");
    let unusable = kill_frama_c_group("main", 0, None);
    assert_eq!(unusable.target, None);
    let notice = unusable.notice.unwrap();
    assert_eq!(notice.level, NoticeLevel::Error);
    assert_eq!(notice.text, "main: refusing to signal an unusable pid");
}

#[test]
fn the_answer_to_a_kill_is_told_apart() {
    assert!(kill_answer_notice("main", SignalAnswer::Delivered).is_none());
    for (answer, level, text) in [
        (SignalAnswer::NoSuchProcess, NoticeLevel::Debug, "main: no group left to signal"),
        (
            SignalAnswer::NotPermitted,
            NoticeLevel::Error,
            "main: group partly signalled, or it is not ours after pid reuse",
        ),
        (SignalAnswer::Failed, NoticeLevel::Error, "main: could not kill the group"),
    ] {
        let notice = kill_answer_notice("main", answer).unwrap();
        assert_eq!(notice.level, level);
        assert_eq!(notice.text, text);
    }
}

#[test]
fn a_process_that_may_not_be_signalled_is_alive() {
    assert!(process_is_alive(42, SignalAnswer::Delivered));
    assert!(process_is_alive(42, SignalAnswer::NotPermitted));
    assert!(!process_is_alive(42, SignalAnswer::NoSuchProcess));
    assert!(!process_is_alive(42, SignalAnswer::Failed));
    assert!(!process_is_alive(0, SignalAnswer::Delivered));
}

#[test]
fn an_orphan_is_killed_only_where_its_arguments_name_the_socket() {
    let listing = b"   42 frama-c -server-socket /tmp/s.sock\n".to_vec();
    let step = kill_orphaned_sandbox("exp", 42, true, Some("/tmp/s.sock"), Some(listing.clone()));
    assert!(matches!(step, OrphanStep::Kill(order)
        if order.target == Some(-42) && order.what == "cleanup_sandbox exp"));
    let other_group = b"7 frama-c /tmp/s.sock".to_vec();
    let step = kill_orphaned_sandbox("exp", 42, true, Some("/tmp/s.sock"), Some(other_group));
    assert!(matches!(step, OrphanStep::Kill(order) if order.target == Some(42)));
    let no_group = b"? frama-c /tmp/s.sock".to_vec();
    let step = kill_orphaned_sandbox("exp", 42, true, Some("/tmp/s.sock"), Some(no_group));
    assert!(matches!(step, OrphanStep::Kill(order) if order.target == Some(42)));
    let step = kill_orphaned_sandbox("exp", 42, true, Some("/tmp/t.sock"), Some(listing.clone()));
    assert!(matches!(step, OrphanStep::Foreign));
    let step = kill_orphaned_sandbox("exp", 42, true, Some("/tmp/s.sock"), None);
    assert!(matches!(step, OrphanStep::Foreign));
    let step = kill_orphaned_sandbox("exp", 42, false, Some("/tmp/s.sock"), Some(listing.clone()));
    assert!(matches!(step, OrphanStep::Nothing));
    let step = kill_orphaned_sandbox("exp", 42, true, None, Some(listing));
    assert!(matches!(step, OrphanStep::Nothing));
}

#[test]
fn the_wait_for_a_socket_ends_early_when_the_process_is_gone() {
    let timeout = Span::from_millis(1000);
    let early = Span::from_millis(10);
    let late = Span::from_millis(1000);
    assert!(matches!(wait_socket_file(true, true, timeout, late), SocketWait::Done(true)));
    assert!(matches!(wait_socket_file(false, true, timeout, early), SocketWait::LookOnceMore));
    assert!(matches!(wait_socket_file(false, false, timeout, late), SocketWait::Done(false)));
    assert!(matches!(wait_socket_file(false, false, timeout, early), SocketWait::Rest(span)
        if span == Span::from_millis(50)));
}

fn io(kind: IoErrorKind) -> FramaCError {
    FramaCError::Io { kind, text: "text".to_string() }
}

#[test]
fn a_refused_or_missing_socket_is_not_listening_yet() {
    assert!(socket_not_listening_yet(&io(IoErrorKind::ConnectionRefused)));
    assert!(socket_not_listening_yet(&io(IoErrorKind::NotFound)));
    assert!(!socket_not_listening_yet(&io(IoErrorKind::Other)));
    assert!(!socket_not_listening_yet(&FramaCError::ConnectTimeout));
    assert!(socket_refused(&io(IoErrorKind::ConnectionRefused)));
    assert!(!socket_refused(&io(IoErrorKind::NotFound)));
    assert!(!socket_refused(&FramaCError::Rejected { id: "RQ.0".to_string() }));
}

#[test]
fn the_wording_of_a_failed_start_is_fixed() {
    assert_eq!(
        never_listened("/tmp/s.sock", Span::from_millis(10_000), "Connection refused"),
        "frama-c never listened on /tmp/s.sock within 10s: Connection refused"
    );
    assert_eq!(
        RECOVERED_RACE,
        "connected only after the socket refused: frama-c bound before it listened"
    );
    assert_eq!(socket_path_error("/tmp/\u{fffd}"), "socket path is not UTF-8: /tmp/\u{fffd}");
}

#[test]
fn refusals_are_retried_until_the_time_is_up() {
    let mut connecting = Connecting::new("/tmp/s.sock", Span::from_millis(100));
    let failed = |kind: IoErrorKind| ConnectEvent::Failed {
        error: io(kind),
        shown: "Connection refused".to_string(),
    };
    let early = Span::from_millis(1);
    let step = connect_when_listening(&mut connecting, failed(IoErrorKind::NotFound), early);
    assert!(matches!(step, ConnectStep::Retry(span) if span == Span::from_millis(25)));
    assert_eq!(connecting.refusals, 0);
    let step = connect_when_listening(&mut connecting, failed(IoErrorKind::ConnectionRefused), early);
    assert!(matches!(step, ConnectStep::Retry(_)));
    assert_eq!(connecting.refusals, 1);
    let step = connect_when_listening(&mut connecting, ConnectEvent::Connected, early);
    assert!(matches!(step, ConnectStep::Connected { recovered: true }));
    let late = Span::from_millis(100);
    let step = connect_when_listening(&mut connecting, failed(IoErrorKind::ConnectionRefused), late);
    assert!(matches!(step, ConnectStep::Failed(text)
        if text == "frama-c never listened on /tmp/s.sock within 100ms: Connection refused"));
    assert_eq!(connecting.refusals, 1);
}

#[test]
fn what_a_retry_cannot_fix_is_not_retried() {
    let mut connecting = Connecting::new("/tmp/s.sock", Span::from_millis(100));
    let early = Span::from_millis(1);
    let step = connect_when_listening(
        &mut connecting,
        ConnectEvent::Failed { error: FramaCError::ConnectTimeout, shown: "too slow".to_string() },
        early,
    );
    assert!(matches!(step, ConnectStep::Failed(text) if text == "too slow"));
    let step = connect_when_listening(
        &mut connecting,
        ConnectEvent::Exited { status: "exit status: 1".to_string() },
        early,
    );
    assert!(matches!(step, ConnectStep::Failed(text)
        if text == "frama-c exited during startup: exit status: 1"));
    let step = connect_when_listening(&mut connecting, ConnectEvent::Connected, early);
    assert!(matches!(step, ConnectStep::Connected { recovered: false }));
}
