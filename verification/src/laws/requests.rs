//! Laws of requests to the server: what settles one, how long it is polled, and
//! what a fetch brings together.

use vstd::prelude::*;
use vstd::utf8::encode_utf8;

use crate::digits::decimal;
use crate::error::{DiagnosticsView, ErrorView, FramaCError, FramaCRequestDiagnostics, IoErrorKind};
use crate::frama_c::client::{
    answer_view, capped_millis, fetched, is_stray, kind_name, more_to_come, noted, opt_millis,
    opt_outcome, opt_response, opt_size, opt_trace, outcome_view, poll_action, poll_next,
    poll_outcome, poll_stray, poll_trace, query_answer, query_trace, request_command, request_id,
    response_trace, settlement, trace_value, with_page, AnswerView, FramaCExecResult, OutcomeView,
    PollActionView, PollEvent, PollEventView, PollLoop, PollPhase, PollView, Reception,
    ReceptionView, RequestKind, Trace, TraceView, FETCH_BATCH, FUNCTIONS_REQUEST, GET_TIMEOUT_MS,
    HANDSHAKE_TIMEOUT_MS, PROBE_REQUEST, SET_TIMEOUT_MS,
};
use crate::frama_c::codec::{CommandView, FramaCCommand, FramaCResponse, ResponseView};
use crate::json::{compact, opt_string, Json, JsonView, NumberView};
use crate::span::{millis, span_text, Span};

verus! {

/// The request that a response is the last word on.
pub open spec fn last_word_on(response: ResponseView) -> Option<Seq<char>> {
    match response {
        ResponseView::Data { id, .. } => Some(id),
        ResponseView::Error { id, .. } => Some(id),
        ResponseView::Killed { id } => Some(id),
        ResponseView::Rejected { id } => Some(id),
        ResponseView::Signal { .. } => None,
        ResponseView::CmdLineOn => None,
        ResponseView::CmdLineOff => None,
    }
}

// ---------------------------------------------------------------------------
// Traces
// ---------------------------------------------------------------------------

/// A line of the trace has seven members, in this order, and each says what it
/// was given or null.
pub proof fn law_trace_lines(
    command: Seq<char>,
    request: Option<Seq<char>>,
    id: Option<Seq<char>>,
    elapsed_ms: Option<nat>,
    payload_bytes: Option<nat>,
    result_kind: Option<Seq<char>>,
)
    ensures
        ({
            let line = trace_value(command, request, id, elapsed_ms, payload_bytes, result_kind);
            let m = line->Object_0;
            &&& line is Object
            &&& m.len() == 7
            &&& m[0] == ("event"@, JsonView::Text("frama_c_protocol"@))
            &&& m[1] == ("command"@, JsonView::Text(command))
            &&& m[2].0 == "request"@
            &&& request is Some ==> m[2].1 == JsonView::Text(request->0)
            &&& request is None ==> m[2].1 == JsonView::Null
            &&& m[3].0 == "id"@
            &&& id is Some ==> m[3].1 == JsonView::Text(id->0)
            &&& id is None ==> m[3].1 == JsonView::Null
            &&& m[4].0 == "elapsed_ms"@
            &&& elapsed_ms is Some ==> m[4].1 == JsonView::Number(
                NumberView::Whole(elapsed_ms->0 as int),
            )
            &&& elapsed_ms is None ==> m[4].1 == JsonView::Null
            &&& m[5].0 == "payload_bytes"@
            &&& payload_bytes is Some ==> m[5].1 == JsonView::Number(
                NumberView::Whole(payload_bytes->0 as int),
            )
            &&& payload_bytes is None ==> m[5].1 == JsonView::Null
            &&& m[6].0 == "result_kind"@
            &&& result_kind is Some ==> m[6].1 == JsonView::Text(result_kind->0)
            &&& result_kind is None ==> m[6].1 == JsonView::Null
        }),
{
}

/// What a line of the trace is given stands for itself: a time in whole
/// milliseconds, a size in bytes, and nothing for what is missing.
pub proof fn law_what_a_trace_is_given(
    nanos: nat,
    span: Option<Span>,
    size: Option<usize>,
    trace: Option<Trace>,
)
    ensures
        millis(nanos) * 1_000_000 <= nanos < (millis(nanos) + 1) * 1_000_000,
        span is None ==> opt_millis(span) is None,
        span is Some ==> opt_millis(span) == Some(span->0@ / 1_000_000),
        size is None ==> opt_size(size) is None,
        size is Some ==> opt_size(size) == Some(size->0 as nat),
        trace is None ==> opt_trace(trace) is None,
        trace is Some ==> opt_trace(trace) == Some(trace->0@),
{
}

/// How long is waited for a handshake, a query and a change of state, how much
/// is fetched at once, and what is asked for.
pub proof fn law_what_is_waited_for()
    ensures
        HANDSHAKE_TIMEOUT_MS == 30_000,
        GET_TIMEOUT_MS == 10_000,
        SET_TIMEOUT_MS == 30_000,
        FETCH_BATCH == 20_000,
        PROBE_REQUEST@ == "kernel.ast.getFiles"@,
        FUNCTIONS_REQUEST@ == "kernel.ast.fetchFunctions"@,
{
}

/// Milliseconds are whole and capped: the largest number that is no more than
/// the time and fits.
pub proof fn law_elapsed_milliseconds(nanos: nat)
    ensures
        capped_millis(nanos) * 1_000_000 <= nanos,
        capped_millis(nanos) < u64::MAX ==> nanos < (capped_millis(nanos) + 1) * 1_000_000,
{
}

// ---------------------------------------------------------------------------
// What settles a request
// ---------------------------------------------------------------------------

/// The four responses that settle a request, each by its own: the data comes
/// back as they came, a failure is named and carries what the server said, and
/// the diagnostics say how and when, and keep the rest.
pub proof fn law_own_responses_settle(
    diagnostics: DiagnosticsView,
    id: Seq<char>,
    data: JsonView,
    msg: Seq<char>,
    elapsed: nat,
    command: Seq<char>,
    request: Seq<char>,
)
    ensures
        ({
            let response = ResponseView::Data { id, data };
            let after = noted(diagnostics, response, id, elapsed);
            &&& after == (DiagnosticsView {
                elapsed_ms: Some(capped_millis(elapsed)),
                final_result: Some("DATA"@),
                ..diagnostics
            })
            &&& settlement(after, response, id) == Some(
                OutcomeView::Done { data, diagnostics: after },
            )
            &&& response_trace(response, command, request, id, elapsed) == Some(
                TraceView {
                    command,
                    request,
                    id,
                    elapsed: Some(elapsed),
                    payload_bytes: Some(encode_utf8(compact(data)).len()),
                    result_kind: Some("DATA"@),
                },
            )
            &&& !is_stray(response, id)
        }),
        ({
            let response = ResponseView::Error { id, msg };
            let after = noted(diagnostics, response, id, elapsed);
            &&& after == (DiagnosticsView {
                elapsed_ms: Some(capped_millis(elapsed)),
                final_result: Some("ERROR"@),
                ..diagnostics
            })
            &&& settlement(after, response, id) == Some(
                OutcomeView::Failed(
                    ErrorView::CommandFailed { kind: "ERROR"@, id, msg, diagnostics: after },
                ),
            )
            &&& response_trace(response, command, request, id, elapsed) == Some(
                TraceView {
                    command,
                    request,
                    id,
                    elapsed: Some(elapsed),
                    payload_bytes: Some(encode_utf8(msg).len()),
                    result_kind: Some("ERROR"@),
                },
            )
            &&& !is_stray(response, id)
        }),
        ({
            let response = ResponseView::Killed { id };
            let after = noted(diagnostics, response, id, elapsed);
            &&& after == (DiagnosticsView {
                elapsed_ms: Some(capped_millis(elapsed)),
                final_result: Some("KILLED"@),
                cancellation_result: Some("killed"@),
                ..diagnostics
            })
            &&& settlement(after, response, id) == Some(
                OutcomeView::Failed(
                    ErrorView::CommandFailed {
                        kind: "KILLED"@,
                        id,
                        msg: "killed: "@ + id,
                        diagnostics: after,
                    },
                ),
            )
            &&& response_trace(response, command, request, id, elapsed) == Some(
                TraceView {
                    command,
                    request,
                    id,
                    elapsed: Some(elapsed),
                    payload_bytes: None,
                    result_kind: Some("KILLED"@),
                },
            )
            &&& !is_stray(response, id)
        }),
        ({
            let response = ResponseView::Rejected { id };
            let after = noted(diagnostics, response, id, elapsed);
            &&& after == (DiagnosticsView {
                elapsed_ms: Some(capped_millis(elapsed)),
                final_result: Some("REJECTED"@),
                rejected_command_id: Some(id),
                ..diagnostics
            })
            &&& settlement(after, response, id) == Some(
                OutcomeView::Failed(
                    ErrorView::CommandFailed {
                        kind: "REJECTED"@,
                        id,
                        msg: "rejected: "@ + id,
                        diagnostics: after,
                    },
                ),
            )
            &&& response_trace(response, command, request, id, elapsed) == Some(
                TraceView {
                    command,
                    request,
                    id,
                    elapsed: Some(elapsed),
                    payload_bytes: None,
                    result_kind: Some("REJECTED"@),
                },
            )
            &&& !is_stray(response, id)
        }),
{
}

/// Any other response settles nothing. The last word on another request is
/// handed back and leaves no mark; a signal, whatever task it names, is counted
/// and traced, and the first one names the queued task; the two about the
/// command line say nothing.
pub proof fn law_other_responses_settle_nothing(
    diagnostics: DiagnosticsView,
    response: ResponseView,
    id: Seq<char>,
    elapsed: nat,
    command: Seq<char>,
    request: Seq<char>,
)
    requires
        last_word_on(response) != Some(id),
        diagnostics.signal_count < u64::MAX,
    ensures
        ({
            let after = noted(diagnostics, response, id, elapsed);
            &&& settlement(after, response, id) is None
            &&& is_stray(response, id) <==> last_word_on(response) is Some
            &&& !(response is Signal) ==> after == diagnostics && response_trace(
                response,
                command,
                request,
                id,
                elapsed,
            ) is None
            &&& response matches ResponseView::Signal { id: task } ==> {
                &&& after.signal_count == diagnostics.signal_count + 1
                &&& diagnostics.queued_task_id is Some ==> after.queued_task_id
                    == diagnostics.queued_task_id
                &&& diagnostics.queued_task_id is None ==> after.queued_task_id == Some(task)
                &&& after.request_id == diagnostics.request_id
                &&& after.request == diagnostics.request
                &&& after.elapsed_ms == diagnostics.elapsed_ms
                &&& after.final_result == diagnostics.final_result
                &&& after.cancellation_result == diagnostics.cancellation_result
                &&& after.rejected_command_id == diagnostics.rejected_command_id
                &&& response_trace(response, command, request, id, elapsed) == Some(
                    TraceView {
                        command,
                        request,
                        id,
                        elapsed: Some(elapsed),
                        payload_bytes: None,
                        result_kind: Some("SIGNAL"@),
                    },
                )
            }
        }),
{
}

/// A query is answered by the last word on it and by nothing else that the
/// server sends; silence is a timeout, and a failure to receive is reported as
/// it is.
pub proof fn law_queries_are_answered(
    response: ResponseView,
    id: Seq<char>,
    data: JsonView,
    msg: Seq<char>,
    error: ErrorView,
    timeout: nat,
)
    ensures
        query_answer(ReceptionView::Response(ResponseView::Data { id, data }), id, timeout) == Some(
            AnswerView::Data(data),
        ),
        query_answer(ReceptionView::Response(ResponseView::Error { id, msg }), id, timeout) == Some(
            AnswerView::Failed(ErrorView::ServerError { id, msg }),
        ),
        query_answer(ReceptionView::Response(ResponseView::Killed { id }), id, timeout) == Some(
            AnswerView::Failed(ErrorView::Killed { id }),
        ),
        query_answer(ReceptionView::Response(ResponseView::Rejected { id }), id, timeout) == Some(
            AnswerView::Failed(ErrorView::Rejected { id }),
        ),
        last_word_on(response) != Some(id) ==> query_answer(
            ReceptionView::Response(response),
            id,
            timeout,
        ) is None,
        query_answer(ReceptionView::Silence, id, timeout) == Some(
            AnswerView::Failed(ErrorView::Timeout(timeout)),
        ),
        query_answer(ReceptionView::Failed(error), id, timeout) == Some(AnswerView::Failed(error)),
{
}

/// An answered query is traced under `GET` with the size of what came, and
/// nothing else of a query is.
pub proof fn law_answered_queries_are_traced(
    reception: ReceptionView,
    request: Seq<char>,
    id: Seq<char>,
    elapsed: nat,
)
    ensures
        match reception {
            ReceptionView::Response(response) => {
                &&& last_word_on(response) != Some(id) ==> query_trace(
                    reception,
                    request,
                    id,
                    elapsed,
                ) is None
                &&& last_word_on(response) == Some(id) ==> {
                    let line = query_trace(reception, request, id, elapsed)->0;
                    &&& query_trace(reception, request, id, elapsed) is Some
                    &&& line.command == "GET"@
                    &&& line.request == request
                    &&& line.id == id
                    &&& line.elapsed == Some(elapsed)
                    &&& match response {
                        ResponseView::Data { data, .. } => line.payload_bytes == Some(
                            encode_utf8(compact(data)).len(),
                        ) && line.result_kind == Some("DATA"@),
                        ResponseView::Error { msg, .. } => line.payload_bytes == Some(
                            encode_utf8(msg).len(),
                        ) && line.result_kind == Some("ERROR"@),
                        ResponseView::Killed { .. } => line.payload_bytes is None
                            && line.result_kind == Some("KILLED"@),
                        _ => line.payload_bytes is None && line.result_kind == Some("REJECTED"@),
                    }
                }
            },
            _ => query_trace(reception, request, id, elapsed) is None,
        },
{
}

// ---------------------------------------------------------------------------
// The poll loop
// ---------------------------------------------------------------------------

/// Receiving, before a poll or after one, always moves on. A reception that
/// does not settle the request, whether a response came or none did, ends in
/// the cancellation once the deadline is reached, and in a rest and another
/// poll before it.
pub proof fn law_unsettled_receptions_move_on(
    state: PollView,
    response: Option<ResponseView>,
    shown: Seq<char>,
    elapsed: nat,
)
    requires
        state.phase is First || state.phase is Answer,
        response is Some ==> last_word_on(response->0) != Some(state.request_id),
    ensures
        ({
            let event = PollEventView::Received { response, shown };
            let next = poll_next(state, event, elapsed);
            &&& elapsed >= state.timeout ==> next.phase is Killing
            &&& elapsed < state.timeout ==> next.phase is Resting
            &&& poll_outcome(state, event, elapsed) is None
            &&& next.diagnostics == (match response {
                Some(r) => noted(state.diagnostics, r, state.request_id, elapsed),
                None => state.diagnostics,
            })
            &&& next.command == state.command
            &&& next.request == state.request
            &&& next.request_id == state.request_id
            &&& next.timeout == state.timeout
            &&& match response {
                Some(r) => {
                    &&& poll_trace(state, event, elapsed) == response_trace(
                        r,
                        if state.phase is First {
                            state.command
                        } else {
                            "POLL"@
                        },
                        state.request,
                        state.request_id,
                        elapsed,
                    )
                    &&& last_word_on(r) is Some ==> poll_stray(state, event) == Some(r)
                    &&& last_word_on(r) is None ==> poll_stray(state, event) is None
                },
                None => poll_trace(state, event, elapsed) is None && poll_stray(
                    state,
                    event,
                ) is None,
            }
        }),
{
}

/// Receiving the last word on the request ends the loop, with what that
/// response says; failing to receive ends it with the error.
pub proof fn law_settled_receptions_end_the_loop(
    state: PollView,
    response: ResponseView,
    error: ErrorView,
    shown: Seq<char>,
    elapsed: nat,
)
    requires
        state.phase is First || state.phase is Answer,
    ensures
        last_word_on(response) == Some(state.request_id) ==> {
            let event = PollEventView::Received { response: Some(response), shown };
            let next = poll_next(state, event, elapsed);
            let after = noted(state.diagnostics, response, state.request_id, elapsed);
            &&& next == (PollView { diagnostics: after, phase: PollPhase::Done, ..state })
            &&& poll_outcome(state, event, elapsed) is Some
            &&& poll_outcome(state, event, elapsed) == settlement(
                after,
                response,
                state.request_id,
            )
            &&& poll_trace(state, event, elapsed) == response_trace(
                response,
                if state.phase is First {
                    state.command
                } else {
                    "POLL"@
                },
                state.request,
                state.request_id,
                elapsed,
            )
            &&& poll_stray(state, event) is None
        },
        ({
            let event = PollEventView::ReceiveFailed { error, shown };
            &&& poll_next(state, event, elapsed) == (PollView { phase: PollPhase::Done, ..state })
            &&& poll_outcome(state, event, elapsed) == Some(OutcomeView::Failed(error))
            &&& poll_trace(state, event, elapsed) is None
            &&& poll_stray(state, event) is None
        }),
{
}

/// After a rest comes a poll and after a poll a reception; a poll that could not
/// be sent ends the loop with the error.
pub proof fn law_polls_follow_rests(
    state: PollView,
    error: ErrorView,
    shown: Seq<char>,
    elapsed: nat,
)
    ensures
        state.phase is Resting ==> {
            &&& poll_next(state, PollEventView::Rested, elapsed) == (PollView {
                phase: PollPhase::Polling,
                ..state
            })
            &&& poll_outcome(state, PollEventView::Rested, elapsed) is None
            &&& poll_trace(state, PollEventView::Rested, elapsed) is None
        },
        state.phase is Polling ==> {
            &&& poll_next(state, PollEventView::Sent, elapsed) == (PollView {
                phase: PollPhase::Answer,
                ..state
            })
            &&& poll_outcome(state, PollEventView::Sent, elapsed) is None
            &&& poll_trace(state, PollEventView::Sent, elapsed) == Some(
                TraceView {
                    command: "POLL"@,
                    request: state.request,
                    id: state.request_id,
                    elapsed: Some(elapsed),
                    payload_bytes: None,
                    result_kind: None,
                },
            )
        },
        state.phase is Polling ==> {
            let event = PollEventView::SendFailed { error, shown };
            &&& poll_next(state, event, elapsed) == (PollView { phase: PollPhase::Done, ..state })
            &&& poll_outcome(state, event, elapsed) == Some(OutcomeView::Failed(error))
            &&& poll_trace(state, event, elapsed) is None
        },
{
}

/// What the request that ran out of time ends in: a failure that names it, with
/// how long it may take and what came of the cancellation, and a line of the
/// trace.
pub open spec fn ends_in_a_timeout(
    state: PollView,
    event: PollEventView,
    elapsed: nat,
    cancellation: Seq<char>,
) -> bool {
    let next = poll_next(state, event, elapsed);
    &&& next.phase is Done
    &&& next.diagnostics.cancellation_result == Some(cancellation)
    &&& next.diagnostics.final_result == (if state.phase is Killing {
        Some("TIMEOUT"@)
    } else {
        state.diagnostics.final_result
    })
    &&& next.diagnostics.elapsed_ms == (if state.phase is Killing {
        Some(capped_millis(elapsed))
    } else {
        state.diagnostics.elapsed_ms
    })
    &&& next.diagnostics.request_id == state.diagnostics.request_id
    &&& next.diagnostics.request == state.diagnostics.request
    &&& next.diagnostics.queued_task_id == state.diagnostics.queued_task_id
    &&& next.diagnostics.signal_count == state.diagnostics.signal_count
    &&& next.diagnostics.rejected_command_id == state.diagnostics.rejected_command_id
    &&& poll_outcome(state, event, elapsed) == Some(
        OutcomeView::Failed(
            ErrorView::CommandFailed {
                kind: "TIMEOUT"@,
                id: state.request_id,
                msg: "timeout after "@ + span_text(state.timeout),
                diagnostics: next.diagnostics,
            },
        ),
    )
    &&& poll_trace(state, event, elapsed) == Some(
        TraceView {
            command: state.command,
            request: state.request,
            id: state.request_id,
            elapsed: Some(elapsed),
            payload_bytes: None,
            result_kind: Some("TIMEOUT"@),
        },
    )
    &&& poll_stray(state, event) is None
}

/// The cancellation: once it is sent the request counts as timed out, and
/// whatever answers it, or fails to, ends the loop as a timeout that says what
/// came of the cancellation.
pub proof fn law_cancellations_end_in_a_timeout(
    state: PollView,
    response: ResponseView,
    error: ErrorView,
    shown: Seq<char>,
    elapsed: nat,
)
    ensures
        state.phase is Killing ==> {
            let next = poll_next(state, PollEventView::Sent, elapsed);
            &&& next.phase is KillAnswer
            &&& next.diagnostics == (DiagnosticsView {
                final_result: Some("TIMEOUT"@),
                elapsed_ms: Some(capped_millis(elapsed)),
                ..state.diagnostics
            })
            &&& next.request_id == state.request_id
            &&& next.timeout == state.timeout
            &&& poll_outcome(state, PollEventView::Sent, elapsed) is None
            &&& poll_trace(state, PollEventView::Sent, elapsed) is None
        },
        state.phase is Killing ==> ends_in_a_timeout(
            state,
            PollEventView::SendFailed { error, shown },
            elapsed,
            "kill_send_error:"@ + shown,
        ),
        state.phase is KillAnswer ==> ends_in_a_timeout(
            state,
            PollEventView::Received { response: None, shown },
            elapsed,
            "kill_sent"@,
        ),
        state.phase is KillAnswer ==> ends_in_a_timeout(
            state,
            PollEventView::Received {
                response: Some(ResponseView::Killed { id: state.request_id }),
                shown,
            },
            elapsed,
            "killed"@,
        ),
        state.phase is KillAnswer && response != (ResponseView::Killed { id: state.request_id })
            ==> ends_in_a_timeout(
            state,
            PollEventView::Received { response: Some(response), shown },
            elapsed,
            "kill_sent_then_"@ + shown,
        ),
        state.phase is KillAnswer ==> ends_in_a_timeout(
            state,
            PollEventView::ReceiveFailed { error, shown },
            elapsed,
            "kill_sent_then_error:"@ + shown,
        ),
{
}

/// What the loop asks for in each phase, with its times in nanoseconds.
pub proof fn law_actions(state: PollView)
    ensures
        state.phase is First || state.phase is Answer || state.phase is KillAnswer ==> poll_action(
            state,
        ) == PollActionView::Receive(500_000_000),
        state.phase is Resting ==> poll_action(state) == PollActionView::Rest(100_000_000),
        state.phase is Polling ==> poll_action(state) == PollActionView::Send(CommandView::Poll),
        state.phase is Killing ==> poll_action(state) == PollActionView::Send(
            CommandView::Kill { id: state.request_id },
        ),
        state.phase is Done ==> poll_action(state) is Stop,
{
}

/// How many events end the loop at most, once the deadline is over.
pub open spec fn events_left(phase: PollPhase) -> nat {
    match phase {
        PollPhase::Resting => 5,
        PollPhase::Polling => 4,
        PollPhase::First => 3,
        PollPhase::Answer => 3,
        PollPhase::Killing => 2,
        PollPhase::KillAnswer => 1,
        PollPhase::Done => 0,
    }
}

/// Whether an event is what came of what the loop asked for.
pub open spec fn answers(action: PollActionView, event: PollEventView) -> bool {
    match action {
        PollActionView::Receive(_) => event is Received || event is ReceiveFailed,
        PollActionView::Rest(_) => event is Rested,
        PollActionView::Send(_) => event is Sent || event is SendFailed,
        PollActionView::Stop => false,
    }
}

/// After the deadline every event that was asked for brings the loop nearer to
/// its end, and before it no such event leaves it where it was; an event that
/// was not asked for changes nothing and says nothing.
pub proof fn law_the_loop_makes_progress(state: PollView, event: PollEventView, elapsed: nat)
    ensures
        answers(poll_action(state), event) && elapsed >= state.timeout ==> events_left(
            poll_next(state, event, elapsed).phase,
        ) < events_left(state.phase),
        answers(poll_action(state), event) ==> poll_next(state, event, elapsed).phase
            != state.phase,
        !answers(poll_action(state), event) ==> poll_next(state, event, elapsed) == state
            && poll_outcome(state, event, elapsed) is None && poll_trace(
            state,
            event,
            elapsed,
        ) is None,
        poll_stray(state, event) is Some ==> answers(poll_action(state), event),
{
}

// ---------------------------------------------------------------------------
// Beginning a request, and fetching
// ---------------------------------------------------------------------------

/// What is sent for a request is what was asked: the kind, the name and the
/// data go out as they are, under an id that counts up.
pub proof fn law_requests_go_out_as_asked(
    n: nat,
    id: Seq<char>,
    request: Seq<char>,
    data: JsonView,
)
    ensures
        request_id(n) == seq!['R', 'Q', '.'] + decimal(n),
        request_command(RequestKind::Get, id, request, data) == (CommandView::Get {
            id,
            request,
            data,
        }),
        request_command(RequestKind::SetState, id, request, data) == (CommandView::SetState {
            id,
            request,
            data,
        }),
        request_command(RequestKind::Exec, id, request, data) == (CommandView::Exec {
            id,
            request,
            data,
        }),
        kind_name(RequestKind::Get) == seq!['G', 'E', 'T'],
        kind_name(RequestKind::SetState) == seq!['S', 'E', 'T'],
        kind_name(RequestKind::Exec) == seq!['E', 'X', 'E', 'C'],
{
    reveal_strlit("RQ.");
    reveal_strlit("GET");
    reveal_strlit("SET");
    reveal_strlit("EXEC");
    assert("RQ."@ == seq!['R', 'Q', '.']);
    assert("GET"@ == seq!['G', 'E', 'T']);
    assert("SET"@ == seq!['S', 'E', 'T']);
    assert("EXEC"@ == seq!['E', 'X', 'E', 'C']);
}

/// A page whose reload flag is not true keeps every entry fetched before it,
/// in order, and adds its own behind them, whatever else it holds; one whose
/// flag is true leaves its own alone.
pub proof fn law_pages_keep_what_came_before(entries: Seq<JsonView>, page: JsonView)
    ensures
        page.flag_at("reload"@) != Some(true) ==> {
            &&& with_page(entries, page).len() == entries.len() + page.items_at("updated"@).len()
            &&& with_page(entries, page).take(entries.len() as int) == entries
            &&& with_page(entries, page).skip(entries.len() as int) == page.items_at("updated"@)
        },
        page.flag_at("reload"@) == Some(true) ==> with_page(entries, page) == page.items_at(
            "updated"@,
        ),
{
    if page.flag_at("reload"@) != Some(true) {
        assert(with_page(entries, page).take(entries.len() as int) == entries);
        assert(with_page(entries, page).skip(entries.len() as int) == page.items_at("updated"@));
    }
}

/// There is more to fetch exactly when the page says that some entries are
/// pending: a whole number above zero, of 64 bits.
pub proof fn law_pending_entries_are_fetched(page: JsonView)
    ensures
        more_to_come(page) <==> match page.get("pending"@) {
            Some(JsonView::Number(NumberView::Whole(n))) => 0 < n <= u64::MAX,
            _ => false,
        },
{
}

/// A fetch begins with nothing, and brings together what its pages leave, one
/// after the other.
pub proof fn law_a_fetch_is_its_pages(pages: Seq<JsonView>, page: JsonView)
    ensures
        fetched(Seq::<JsonView>::empty()) == Seq::<JsonView>::empty(),
        page.flag_at("reload"@) != Some(true) ==> fetched(pages.push(page)) == fetched(pages)
            + page.items_at("updated"@),
        page.flag_at("reload"@) == Some(true) ==> fetched(pages.push(page)) == page.items_at(
            "updated"@,
        ),
{
    assert(pages.push(page).drop_last() == pages);
}

// ---------------------------------------------------------------------------
// What the values stand for
// ---------------------------------------------------------------------------

/// Diagnostics, traces and loops stand for all of their fields.
pub proof fn law_records_stand_for_their_fields(
    d: FramaCRequestDiagnostics,
    t: Trace,
    p: PollLoop,
)
    ensures
        d@.request_id == d.request_id@,
        d@.request == d.request@,
        d@.queued_task_id == opt_string(d.queued_task_id),
        d@.signal_count == d.signal_count,
        d@.elapsed_ms == d.elapsed_ms,
        d@.final_result == opt_string(d.final_result),
        d@.cancellation_result == opt_string(d.cancellation_result),
        d@.rejected_command_id == opt_string(d.rejected_command_id),
        t@.command == t.command@,
        t@.request == t.request@,
        t@.id == t.id@,
        t.elapsed is None ==> t@.elapsed is None,
        t.elapsed is Some ==> t@.elapsed == Some(t.elapsed->0@),
        t.payload_bytes is None ==> t@.payload_bytes is None,
        t.payload_bytes is Some ==> t@.payload_bytes == Some(t.payload_bytes->0 as nat),
        t@.result_kind == opt_string(t.result_kind),
        p@.command == p.command@,
        p@.request_id == p.request_id@,
        p@.request == p.request@,
        p@.timeout == p.timeout@,
        p@.diagnostics == p.diagnostics@,
        p@.phase == p.phase,
{
}

/// A result, an answer and a response stand for what they hold, and a missing
/// one for nothing.
pub proof fn law_results_stand_for_what_they_hold(
    result: FramaCExecResult,
    error: FramaCError,
    data: Json,
    response: FramaCResponse,
    shown: String,
)
    ensures
        outcome_view(Ok(result)) == (OutcomeView::Done {
            data: result.data@,
            diagnostics: result.diagnostics@,
        }),
        outcome_view(Err(error)) == OutcomeView::Failed(error@),
        opt_outcome(Some(Err(error))) == Some(OutcomeView::Failed(error@)),
        opt_outcome(None) is None,
        answer_view(Ok(data)) == AnswerView::Data(data@),
        answer_view(Err(error)) == AnswerView::Failed(error@),
        opt_response(Some(response)) == Some(response@),
        opt_response(None) is None,
        Reception::Response(response)@ == ReceptionView::Response(response@),
        Reception::Silence@ == ReceptionView::Silence,
        Reception::Failed(error)@ == ReceptionView::Failed(error@),
        (PollEvent::Received { response: Some(response), shown })@ == (PollEventView::Received {
            response: Some(response@),
            shown: shown@,
        }),
        (PollEvent::Received { response: None, shown })@ == (PollEventView::Received {
            response: None,
            shown: shown@,
        }),
        (PollEvent::ReceiveFailed { error, shown })@ == (PollEventView::ReceiveFailed {
            error: error@,
            shown: shown@,
        }),
        (PollEvent::SendFailed { error, shown })@ == (PollEventView::SendFailed {
            error: error@,
            shown: shown@,
        }),
        PollEvent::Sent@ == PollEventView::Sent,
        PollEvent::Rested@ == PollEventView::Rested,
{
}

/// Commands, responses and errors stand for their fields.
pub proof fn law_messages_stand_for_their_fields(
    id: String,
    request: String,
    msg: String,
    data: Json,
    span: Span,
    kind: IoErrorKind,
    diagnostics: Box<FramaCRequestDiagnostics>,
)
    ensures
        (FramaCError::Io { kind, text: msg })@ == (ErrorView::Io { kind, text: msg@ }),
        (FramaCCommand::Get { id, request, data })@ == (CommandView::Get {
            id: id@,
            request: request@,
            data: data@,
        }),
        (FramaCCommand::SetState { id, request, data })@ == (CommandView::SetState {
            id: id@,
            request: request@,
            data: data@,
        }),
        (FramaCCommand::Exec { id, request, data })@ == (CommandView::Exec {
            id: id@,
            request: request@,
            data: data@,
        }),
        FramaCCommand::Poll@ == CommandView::Poll,
        (FramaCCommand::Kill { id })@ == (CommandView::Kill { id: id@ }),
        FramaCCommand::Shutdown@ == CommandView::Shutdown,
        (FramaCResponse::Data { id, data })@ == (ResponseView::Data { id: id@, data: data@ }),
        (FramaCResponse::Error { id, msg })@ == (ResponseView::Error { id: id@, msg: msg@ }),
        (FramaCResponse::Killed { id })@ == (ResponseView::Killed { id: id@ }),
        (FramaCResponse::Rejected { id })@ == (ResponseView::Rejected { id: id@ }),
        (FramaCResponse::Signal { id })@ == (ResponseView::Signal { id: id@ }),
        FramaCResponse::CmdLineOn@ == ResponseView::CmdLineOn,
        FramaCResponse::CmdLineOff@ == ResponseView::CmdLineOff,
        (FramaCError::Malformed { text: msg })@ == (ErrorView::Malformed { text: msg@ }),
        (FramaCError::ServerError { id, msg })@ == (ErrorView::ServerError {
            id: id@,
            msg: msg@,
        }),
        (FramaCError::Rejected { id })@ == (ErrorView::Rejected { id: id@ }),
        (FramaCError::Killed { id })@ == (ErrorView::Killed { id: id@ }),
        FramaCError::Timeout(span)@ == ErrorView::Timeout(span@),
        FramaCError::ConnectTimeout@ == ErrorView::ConnectTimeout,
        (FramaCError::CommandFailed { kind: request, id, msg, diagnostics })@ == (
        ErrorView::CommandFailed {
            kind: request@,
            id: id@,
            msg: msg@,
            diagnostics: diagnostics@,
        }),
{
}

} // verus!
