//! What the client of a Frama-C server decides: how requests are named, which
//! response settles one, when to poll, when to give up, and what is traced.
//!
//! The client itself only performs what is decided here: it sends, receives
//! and sleeps, and reports what came of it.

use vstd::prelude::*;
use vstd::string::StringExecFns;
use vstd::utf8::encode_utf8;

use crate::digits::{decimal, decimal_of, law_decimal_reads_back};
use crate::error::{DiagnosticsView, ErrorView, FramaCError, FramaCRequestDiagnostics};
use crate::frama_c::codec::{CommandView, FramaCCommand, FramaCResponse, ResponseView};
use crate::json::{
    compact, lemma_object_view, member, member_models, models, no_members, opt_string, opt_text,
    ref_models, text_or_null, whole, Json, JsonView,
};
use crate::lists::flat_map;
use crate::span::{millis, span_text, time_left, Span};
use crate::text::same;

verus! {

// ---------------------------------------------------------------------------
// Tracing
// ---------------------------------------------------------------------------

/// Whether a setting of the protocol trace turns it on: it is there, and none
/// of the values that turn it off.
pub fn trace_setting_enables(value: Option<&str>) -> (r: bool)
    ensures
        r == match opt_text(value) {
            Some(v) => v != ""@ && v != "0"@ && v != "false"@ && v != "FALSE"@,
            None => false,
        },
{
    match value {
        Some(v) => !(same(v, "") || same(v, "0") || same(v, "false") || same(v, "FALSE")),
        None => false,
    }
}

/// The number, or null.
pub open spec fn count_or_null(n: Option<nat>) -> JsonView {
    match n {
        Some(n) => whole(n as int),
        None => JsonView::Null,
    }
}

/// A line of the protocol trace as a value. It holds sizes and names, and
/// nothing of what was sent or received.
pub open spec fn trace_value(
    command: Seq<char>,
    request: Option<Seq<char>>,
    id: Option<Seq<char>>,
    elapsed_ms: Option<nat>,
    payload_bytes: Option<nat>,
    result_kind: Option<Seq<char>>,
) -> JsonView {
    JsonView::Object(
        seq![
            ("event"@, JsonView::Text("frama_c_protocol"@)),
            ("command"@, JsonView::Text(command)),
            ("request"@, text_or_null(request)),
            ("id"@, text_or_null(id)),
            ("elapsed_ms"@, count_or_null(elapsed_ms)),
            ("payload_bytes"@, count_or_null(payload_bytes)),
            ("result_kind"@, text_or_null(result_kind)),
        ],
    )
}

/// The milliseconds of a span that may be missing.
pub open spec fn opt_millis(span: Option<Span>) -> Option<nat> {
    match span {
        Some(s) => Some(millis(s@)),
        None => None,
    }
}

/// The view of a size that may be missing.
pub open spec fn opt_size(n: Option<usize>) -> Option<nat> {
    match n {
        Some(n) => Some(n as nat),
        None => None,
    }
}

/// A line of the protocol trace. Whether to emit one is for the caller to
/// decide, by [`trace_setting_enables`].
pub fn protocol_trace_line(
    command: &str,
    request: Option<&str>,
    id: Option<&str>,
    elapsed: Option<Span>,
    payload_bytes: Option<usize>,
    result_kind: Option<&str>,
) -> (r: String)
    requires
        opt_millis(elapsed) matches Some(ms) ==> ms <= u64::MAX,
    ensures
        r@ == compact(
            trace_value(
                command@,
                opt_text(request),
                opt_text(id),
                opt_millis(elapsed),
                opt_size(payload_bytes),
                opt_text(result_kind),
            ),
        ),
{
    broadcast use lemma_object_view;
    let elapsed_ms = match elapsed {
        Some(span) => Json::count(span.as_millis() as u64),
        None => Json::Null,
    };
    let size = match payload_bytes {
        Some(n) => Json::count(n as u64),
        None => Json::Null,
    };
    let mut line = no_members();
    member(&mut line, "event", Json::text("frama_c_protocol"));
    member(&mut line, "command", Json::text(command));
    member(&mut line, "request", Json::opt_text(request));
    member(&mut line, "id", Json::opt_text(id));
    member(&mut line, "elapsed_ms", elapsed_ms);
    member(&mut line, "payload_bytes", size);
    member(&mut line, "result_kind", Json::opt_text(result_kind));
    assert(member_models(line@) == trace_value(
        command@,
        opt_text(request),
        opt_text(id),
        opt_millis(elapsed),
        opt_size(payload_bytes),
        opt_text(result_kind),
    )->Object_0);
    Json::Object(line).to_compact()
}

/// The milliseconds of a span, as far as 64 bits hold them.
pub open spec fn capped_millis(nanos: nat) -> u64 {
    if millis(nanos) <= u64::MAX {
        millis(nanos) as u64
    } else {
        u64::MAX
    }
}

/// The milliseconds of a span, as far as 64 bits hold them.
pub fn elapsed_millis(elapsed: Span) -> (r: u64)
    ensures
        r == capped_millis(elapsed@),
{
    let ms: u128 = elapsed.as_millis();
    if ms <= 0xffff_ffff_ffff_ffffu128 {
        ms as u64
    } else {
        0xffff_ffff_ffff_ffffu64
    }
}

/// A step of the protocol that is worth a line of the trace.
#[derive(Debug)]
pub struct Trace {
    pub command: String,
    pub request: String,
    pub id: String,
    pub elapsed: Option<Span>,
    pub payload_bytes: Option<usize>,
    pub result_kind: Option<String>,
}

/// What a [`Trace`] stands for.
pub struct TraceView {
    pub command: Seq<char>,
    pub request: Seq<char>,
    pub id: Seq<char>,
    pub elapsed: Option<nat>,
    pub payload_bytes: Option<nat>,
    pub result_kind: Option<Seq<char>>,
}

impl View for Trace {
    type V = TraceView;

    open spec fn view(&self) -> TraceView {
        TraceView {
            command: self.command@,
            request: self.request@,
            id: self.id@,
            elapsed: match self.elapsed {
                Some(span) => Some(span@),
                None => None,
            },
            payload_bytes: opt_size(self.payload_bytes),
            result_kind: opt_string(self.result_kind),
        }
    }
}

/// The view of a trace that may be missing.
pub open spec fn opt_trace(trace: Option<Trace>) -> Option<TraceView> {
    match trace {
        Some(t) => Some(t@),
        None => None,
    }
}

impl Trace {
    /// The line of the trace.
    pub fn line(&self) -> (r: String)
        requires
            self@.elapsed matches Some(nanos) ==> millis(nanos) <= u64::MAX,
        ensures
            r@ == compact(
                trace_value(
                    self@.command,
                    Some(self@.request),
                    Some(self@.id),
                    match self@.elapsed {
                        Some(nanos) => Some(millis(nanos)),
                        None => None,
                    },
                    self@.payload_bytes,
                    self@.result_kind,
                ),
            ),
    {
        protocol_trace_line(
            self.command.as_str(),
            Some(self.request.as_str()),
            Some(self.id.as_str()),
            self.elapsed,
            self.payload_bytes,
            match &self.result_kind {
                Some(kind) => Some(kind.as_str()),
                None => None,
            },
        )
    }
}

/// A trace of what came of a request.
fn trace_of(
    command: &str,
    request: &str,
    id: &str,
    elapsed: Span,
    payload_bytes: Option<usize>,
    result_kind: Option<&str>,
) -> (r: Trace)
    ensures
        r@ == (TraceView {
            command: command@,
            request: request@,
            id: id@,
            elapsed: Some(elapsed@),
            payload_bytes: opt_size(payload_bytes),
            result_kind: opt_text(result_kind),
        }),
{
    Trace {
        command: command.to_owned(),
        request: request.to_owned(),
        id: id.to_owned(),
        elapsed: Some(elapsed),
        payload_bytes,
        result_kind: match result_kind {
            Some(kind) => Some(kind.to_owned()),
            None => None,
        },
    }
}

// ---------------------------------------------------------------------------
// What settles a queued request
// ---------------------------------------------------------------------------

/// What a queued request that succeeded gives back.
#[derive(Debug)]
pub struct FramaCExecResult {
    pub data: Json,
    pub diagnostics: FramaCRequestDiagnostics,
}

/// What came of a queued request.
pub enum OutcomeView {
    Done { data: JsonView, diagnostics: DiagnosticsView },
    Failed(ErrorView),
}

/// The view of what came of a queued request.
pub open spec fn outcome_view(outcome: Result<FramaCExecResult, FramaCError>) -> OutcomeView {
    match outcome {
        Ok(result) => OutcomeView::Done {
            data: result.data@,
            diagnostics: result.diagnostics@,
        },
        Err(error) => OutcomeView::Failed(error@),
    }
}

/// The view of what came of a queued request, where anything did.
pub open spec fn opt_outcome(
    outcome: Option<Result<FramaCExecResult, FramaCError>>,
) -> Option<OutcomeView> {
    match outcome {
        Some(o) => Some(outcome_view(o)),
        None => None,
    }
}

/// The view of a response that may be missing.
pub open spec fn opt_response(response: Option<FramaCResponse>) -> Option<ResponseView> {
    match response {
        Some(r) => Some(r@),
        None => None,
    }
}

/// How many bytes a text takes.
pub open spec fn text_size(text: Seq<char>) -> nat {
    encode_utf8(text).len()
}

/// How many bytes `text` takes.
fn size_of_text(text: &str) -> (r: usize)
    ensures
        r == text_size(text@),
{
    text.as_bytes().len()
}

/// The kind of result with which a response settles the request `id`: data, an
/// error, a cancellation or a rejection that carries this identifier.
pub open spec fn settled_kind(response: ResponseView, id: Seq<char>) -> Option<Seq<char>> {
    match response {
        ResponseView::Data { id: of, .. } => if of == id {
            Some("DATA"@)
        } else {
            None
        },
        ResponseView::Error { id: of, .. } => if of == id {
            Some("ERROR"@)
        } else {
            None
        },
        ResponseView::Killed { id: of } => if of == id {
            Some("KILLED"@)
        } else {
            None
        },
        ResponseView::Rejected { id: of } => if of == id {
            Some("REJECTED"@)
        } else {
            None
        },
        _ => None,
    }
}

/// The size of what a response carries.
pub open spec fn payload_size(response: ResponseView) -> Option<nat> {
    match response {
        ResponseView::Data { data, .. } => Some(text_size(compact(data))),
        ResponseView::Error { msg, .. } => Some(text_size(msg)),
        _ => None,
    }
}

/// What is noted of a response to the request `id`: how it was settled, or
/// that a signal came and which task the first one named.
pub open spec fn noted(
    diagnostics: DiagnosticsView,
    response: ResponseView,
    id: Seq<char>,
    elapsed: nat,
) -> DiagnosticsView {
    match settled_kind(response, id) {
        Some(kind) => DiagnosticsView {
            elapsed_ms: Some(capped_millis(elapsed)),
            final_result: Some(kind),
            cancellation_result: if response is Killed {
                Some("killed"@)
            } else {
                diagnostics.cancellation_result
            },
            rejected_command_id: if response is Rejected {
                Some(id)
            } else {
                diagnostics.rejected_command_id
            },
            ..diagnostics
        },
        None => match response {
            ResponseView::Signal { id: task } => DiagnosticsView {
                signal_count: (diagnostics.signal_count + 1) as u64,
                queued_task_id: match diagnostics.queued_task_id {
                    Some(first) => Some(first),
                    None => Some(task),
                },
                ..diagnostics
            },
            _ => diagnostics,
        },
    }
}

/// What comes of the request `id` by a response: nothing unless the response
/// settles it. `diagnostics` are those with the response noted.
pub open spec fn settlement(
    diagnostics: DiagnosticsView,
    response: ResponseView,
    id: Seq<char>,
) -> Option<OutcomeView> {
    match settled_kind(response, id) {
        Some(kind) => Some(
            match response {
                ResponseView::Data { data, .. } => OutcomeView::Done { data, diagnostics },
                ResponseView::Error { msg, .. } => OutcomeView::Failed(
                    ErrorView::CommandFailed { kind, id, msg, diagnostics },
                ),
                ResponseView::Killed { .. } => OutcomeView::Failed(
                    ErrorView::CommandFailed { kind, id, msg: "killed: "@ + id, diagnostics },
                ),
                _ => OutcomeView::Failed(
                    ErrorView::CommandFailed { kind, id, msg: "rejected: "@ + id, diagnostics },
                ),
            },
        ),
        None => None,
    }
}

/// The trace of a response to a queued request: one where it settles the
/// request, and one for a signal.
pub open spec fn response_trace(
    response: ResponseView,
    command: Seq<char>,
    request: Seq<char>,
    id: Seq<char>,
    elapsed: nat,
) -> Option<TraceView> {
    match settled_kind(response, id) {
        Some(kind) => Some(
            TraceView {
                command,
                request,
                id,
                elapsed: Some(elapsed),
                payload_bytes: payload_size(response),
                result_kind: Some(kind),
            },
        ),
        None => if response is Signal {
            Some(
                TraceView {
                    command,
                    request,
                    id,
                    elapsed: Some(elapsed),
                    payload_bytes: None,
                    result_kind: Some("SIGNAL"@),
                },
            )
        } else {
            None
        },
    }
}

/// Whether a response belongs to some other request.
pub open spec fn is_stray(response: ResponseView, id: Seq<char>) -> bool {
    settled_kind(response, id) is None && !(response is Signal || response is CmdLineOn
        || response is CmdLineOff)
}

/// What came of handling one response to a queued request.
#[derive(Debug)]
pub struct Handled {
    /// The result, where the response settled the request.
    pub outcome: Option<Result<FramaCExecResult, FramaCError>>,
    /// What is worth a line of the trace.
    pub trace: Option<Trace>,
    /// The response, where it was unexpected.
    pub stray: Option<FramaCResponse>,
}

/// Notes how the request was settled.
fn note_settled(diagnostics: &mut FramaCRequestDiagnostics, kind: &str, elapsed: Span)
    ensures
        final(diagnostics)@ == (DiagnosticsView {
            elapsed_ms: Some(capped_millis(elapsed@)),
            final_result: Some(kind@),
            ..old(diagnostics)@
        }),
{
    diagnostics.final_result = Some(kind.to_owned());
    diagnostics.elapsed_ms = Some(elapsed_millis(elapsed));
}

/// The error of a queued request that failed.
fn failed(
    kind: &str,
    id: String,
    msg: String,
    diagnostics: &FramaCRequestDiagnostics,
) -> (r: Option<Result<FramaCExecResult, FramaCError>>)
    ensures
        opt_outcome(r) == Some(
            OutcomeView::Failed(
                ErrorView::CommandFailed {
                    kind: kind@,
                    id: id@,
                    msg: msg@,
                    diagnostics: diagnostics@,
                },
            ),
        ),
{
    Some(
        Err(
            FramaCError::CommandFailed {
                kind: kind.to_owned(),
                id,
                msg,
                diagnostics: Box::new(diagnostics.clone()),
            },
        ),
    )
}

/// `head` with `tail` behind it.
fn with_tail(head: &str, tail: &str) -> (r: String)
    ensures
        r@ == head@ + tail@,
{
    let mut out = head.to_owned();
    out.append(tail);
    out
}

/// Classifies one response to a queued request.
///
/// The outcome is there when the response settles `request_id`, and missing
/// when it was progress or noise and the caller should keep polling.
/// `command` only labels the trace, and `elapsed` is how long the request has
/// been running.
pub fn terminal_outcome(
    response: FramaCResponse,
    command: &str,
    request: &str,
    request_id: &str,
    elapsed: Span,
    diagnostics: &mut FramaCRequestDiagnostics,
) -> (r: Handled)
    requires
        response is Signal ==> old(diagnostics).signal_count < u64::MAX,
    ensures
        final(diagnostics)@ == noted(old(diagnostics)@, response@, request_id@, elapsed@),
        opt_outcome(r.outcome) == settlement(final(diagnostics)@, response@, request_id@),
        opt_trace(r.trace) == response_trace(
            response@,
            command@,
            request@,
            request_id@,
            elapsed@,
        ),
        opt_response(r.stray) == (if is_stray(response@, request_id@) {
            Some(response@)
        } else {
            None
        }),
{
    match response {
        FramaCResponse::Data { id, data } => {
            if !same(id.as_str(), request_id) {
                return Handled {
                    outcome: None,
                    trace: None,
                    stray: Some(FramaCResponse::Data { id, data }),
                };
            }
            let size: usize = size_of_text(data.to_compact().as_str());
            note_settled(diagnostics, "DATA", elapsed);
            Handled {
                outcome: Some(Ok(FramaCExecResult { data, diagnostics: diagnostics.clone() })),
                trace: Some(
                    trace_of(command, request, request_id, elapsed, Some(size), Some("DATA")),
                ),
                stray: None,
            }
        },
        FramaCResponse::Error { id, msg } => {
            if !same(id.as_str(), request_id) {
                return Handled {
                    outcome: None,
                    trace: None,
                    stray: Some(FramaCResponse::Error { id, msg }),
                };
            }
            let size: usize = size_of_text(msg.as_str());
            note_settled(diagnostics, "ERROR", elapsed);
            Handled {
                outcome: failed("ERROR", id, msg, diagnostics),
                trace: Some(
                    trace_of(command, request, request_id, elapsed, Some(size), Some("ERROR")),
                ),
                stray: None,
            }
        },
        FramaCResponse::Killed { id } => {
            if !same(id.as_str(), request_id) {
                return Handled {
                    outcome: None,
                    trace: None,
                    stray: Some(FramaCResponse::Killed { id }),
                };
            }
            diagnostics.cancellation_result = Some("killed".to_owned());
            note_settled(diagnostics, "KILLED", elapsed);
            let msg = with_tail("killed: ", id.as_str());
            Handled {
                outcome: failed("KILLED", id, msg, diagnostics),
                trace: Some(
                    trace_of(command, request, request_id, elapsed, None, Some("KILLED")),
                ),
                stray: None,
            }
        },
        FramaCResponse::Rejected { id } => {
            if !same(id.as_str(), request_id) {
                return Handled {
                    outcome: None,
                    trace: None,
                    stray: Some(FramaCResponse::Rejected { id }),
                };
            }
            diagnostics.rejected_command_id = Some(id.clone());
            note_settled(diagnostics, "REJECTED", elapsed);
            let msg = with_tail("rejected: ", id.as_str());
            Handled {
                outcome: failed("REJECTED", id, msg, diagnostics),
                trace: Some(
                    trace_of(command, request, request_id, elapsed, None, Some("REJECTED")),
                ),
                stray: None,
            }
        },
        FramaCResponse::Signal { id } => {
            diagnostics.signal_count = diagnostics.signal_count + 1;
            if diagnostics.queued_task_id.is_none() {
                diagnostics.queued_task_id = Some(id);
            }
            Handled {
                outcome: None,
                trace: Some(
                    trace_of(command, request, request_id, elapsed, None, Some("SIGNAL")),
                ),
                stray: None,
            }
        },
        FramaCResponse::CmdLineOn | FramaCResponse::CmdLineOff => Handled {
            outcome: None,
            trace: None,
            stray: None,
        },
    }
}

/// A response settles a request only when it carries the identifier of that
/// request: one that is left over from another request changes nothing that
/// was noted and gives no result.
pub proof fn law_stray_responses_change_nothing(
    diagnostics: DiagnosticsView,
    response: ResponseView,
    id: Seq<char>,
    elapsed: nat,
)
    requires
        is_stray(response, id),
    ensures
        noted(diagnostics, response, id, elapsed) == diagnostics,
        settlement(noted(diagnostics, response, id, elapsed), response, id) is None,
{
}

/// A settled request says how it was settled, under its own identifier: the
/// diagnostics carry the kind of the result, and so does the error.
pub proof fn law_settled_requests_say_how(
    diagnostics: DiagnosticsView,
    response: ResponseView,
    id: Seq<char>,
    elapsed: nat,
)
    requires
        settled_kind(response, id) is Some,
    ensures
        ({
            let kind = settled_kind(response, id)->0;
            let after = noted(diagnostics, response, id, elapsed);
            &&& after.final_result == Some(kind)
            &&& after.elapsed_ms == Some(capped_millis(elapsed))
            &&& match settlement(after, response, id) {
                Some(OutcomeView::Done { data, diagnostics: d }) => response
                    == (ResponseView::Data { id, data }) && d == after,
                Some(OutcomeView::Failed(ErrorView::CommandFailed {
                    kind: k,
                    id: of,
                    diagnostics: d,
                    ..
                })) => !(response is Data) && k == kind && of == id && d == after,
                _ => false,
            }
        }),
{
}

// ---------------------------------------------------------------------------
// Waiting for the answer to a query
// ---------------------------------------------------------------------------

/// How long a query may take, in milliseconds.
pub const GET_TIMEOUT_MS: u64 = 10_000;

/// What came of receiving.
#[derive(Debug)]
pub enum Reception {
    /// A response came.
    Response(FramaCResponse),
    /// Nothing came in time.
    Silence,
    /// Receiving failed.
    Failed(FramaCError),
}

/// What a [`Reception`] stands for.
pub enum ReceptionView {
    Response(ResponseView),
    Silence,
    Failed(ErrorView),
}

impl View for Reception {
    type V = ReceptionView;

    open spec fn view(&self) -> ReceptionView {
        match *self {
            Reception::Response(response) => ReceptionView::Response(response@),
            Reception::Silence => ReceptionView::Silence,
            Reception::Failed(error) => ReceptionView::Failed(error@),
        }
    }
}

/// What comes of a query.
pub enum AnswerView {
    Data(JsonView),
    Failed(ErrorView),
}

/// The view of what comes of a query.
pub open spec fn answer_view(answer: Result<Json, FramaCError>) -> AnswerView {
    match answer {
        Ok(data) => AnswerView::Data(data@),
        Err(error) => AnswerView::Failed(error@),
    }
}

/// The answer to the query `id` that a reception gives: data, an error, a
/// rejection or a cancellation that carries this identifier, and the end of the
/// wait where nothing came or receiving failed. Anything else is passed over.
pub open spec fn query_answer(reception: ReceptionView, id: Seq<char>, timeout: nat) -> Option<
    AnswerView,
> {
    match reception {
        ReceptionView::Response(response) => match response {
            ResponseView::Data { id: of, data } => if of == id {
                Some(AnswerView::Data(data))
            } else {
                None
            },
            ResponseView::Error { id: of, msg } => if of == id {
                Some(AnswerView::Failed(ErrorView::ServerError { id, msg }))
            } else {
                None
            },
            ResponseView::Rejected { id: of } => if of == id {
                Some(AnswerView::Failed(ErrorView::Rejected { id }))
            } else {
                None
            },
            ResponseView::Killed { id: of } => if of == id {
                Some(AnswerView::Failed(ErrorView::Killed { id }))
            } else {
                None
            },
            _ => None,
        },
        ReceptionView::Silence => Some(AnswerView::Failed(ErrorView::Timeout(timeout))),
        ReceptionView::Failed(error) => Some(AnswerView::Failed(error)),
    }
}

/// The trace of the answer to a query: one where a response answers it.
pub open spec fn query_trace(
    reception: ReceptionView,
    request: Seq<char>,
    id: Seq<char>,
    elapsed: nat,
) -> Option<TraceView> {
    match reception {
        ReceptionView::Response(response) => if query_answer(reception, id, 0) is Some {
            Some(
                TraceView {
                    command: "GET"@,
                    request,
                    id,
                    elapsed: Some(elapsed),
                    payload_bytes: payload_size(response),
                    result_kind: settled_kind(response, id),
                },
            )
        } else {
            None
        },
        _ => None,
    }
}

/// What to do next about a query.
#[derive(Debug)]
pub enum WaitStep {
    /// Receive again. A response left over from another request is handed
    /// back.
    Again(Option<FramaCResponse>),
    /// The query is answered or given up.
    Done { answer: Result<Json, FramaCError>, trace: Option<Trace> },
}

/// How long to receive for the answer to a query, or the end of the wait where
/// the deadline has passed.
pub fn wait_budget(request: &str, request_id: &str, timeout: Span, elapsed: Span) -> (r: Result<
    Span,
    (FramaCError, Trace),
>)
    ensures
        match r {
            Ok(left) => elapsed@ < timeout@ && left@ == timeout@ - elapsed@,
            Err((error, trace)) => {
                &&& elapsed@ >= timeout@
                &&& error@ == ErrorView::Timeout(timeout@)
                &&& trace@ == (TraceView {
                    command: "GET"@,
                    request: request@,
                    id: request_id@,
                    elapsed: Some(elapsed@),
                    payload_bytes: None,
                    result_kind: Some("TIMEOUT"@),
                })
            },
        },
{
    match time_left(timeout, elapsed) {
        Some(left) => Ok(left),
        None => Err(
            (
                FramaCError::Timeout(timeout),
                trace_of("GET", request, request_id, elapsed, None, Some("TIMEOUT")),
            ),
        ),
    }
}

/// One reception while waiting for the answer to a query.
///
/// The wait ends at the response that carries the identifier of the query. Only
/// signals, notices about the command line, and responses to other requests,
/// which are left over from operations that timed out, are passed over.
pub fn wait_for_id(
    reception: Reception,
    request: &str,
    request_id: &str,
    timeout: Span,
    elapsed: Span,
) -> (r: WaitStep)
    ensures
        match r {
            WaitStep::Again(stale) => {
                &&& query_answer(reception@, request_id@, timeout@) is None
                &&& match reception@ {
                    ReceptionView::Response(response) => opt_response(stale) == (if is_stray(
                        response,
                        request_id@,
                    ) {
                        Some(response)
                    } else {
                        None
                    }),
                    _ => false,
                }
            },
            WaitStep::Done { answer, trace } => {
                &&& query_answer(reception@, request_id@, timeout@) == Some(answer_view(answer))
                &&& opt_trace(trace) == query_trace(
                    reception@,
                    request@,
                    request_id@,
                    elapsed@,
                )
            },
        },
{
    match reception {
        Reception::Failed(error) => WaitStep::Done { answer: Err(error), trace: None },
        Reception::Silence => WaitStep::Done {
            answer: Err(FramaCError::Timeout(timeout)),
            trace: None,
        },
        Reception::Response(response) => match response {
            FramaCResponse::Data { id, data } => if same(id.as_str(), request_id) {
                let size: usize = size_of_text(data.to_compact().as_str());
                WaitStep::Done {
                    answer: Ok(data),
                    trace: Some(
                        trace_of("GET", request, request_id, elapsed, Some(size), Some("DATA")),
                    ),
                }
            } else {
                WaitStep::Again(Some(FramaCResponse::Data { id, data }))
            },
            FramaCResponse::Error { id, msg } => if same(id.as_str(), request_id) {
                let size: usize = size_of_text(msg.as_str());
                WaitStep::Done {
                    answer: Err(FramaCError::ServerError { id, msg }),
                    trace: Some(
                        trace_of("GET", request, request_id, elapsed, Some(size), Some("ERROR")),
                    ),
                }
            } else {
                WaitStep::Again(Some(FramaCResponse::Error { id, msg }))
            },
            FramaCResponse::Rejected { id } => if same(id.as_str(), request_id) {
                WaitStep::Done {
                    answer: Err(FramaCError::Rejected { id }),
                    trace: Some(
                        trace_of("GET", request, request_id, elapsed, None, Some("REJECTED")),
                    ),
                }
            } else {
                WaitStep::Again(Some(FramaCResponse::Rejected { id }))
            },
            FramaCResponse::Killed { id } => if same(id.as_str(), request_id) {
                WaitStep::Done {
                    answer: Err(FramaCError::Killed { id }),
                    trace: Some(
                        trace_of("GET", request, request_id, elapsed, None, Some("KILLED")),
                    ),
                }
            } else {
                WaitStep::Again(Some(FramaCResponse::Killed { id }))
            },
            FramaCResponse::Signal { .. } | FramaCResponse::CmdLineOn | FramaCResponse::CmdLineOff => {
                WaitStep::Again(None)
            },
        },
    }
}

/// A wait ends at a response exactly when the response carries the identifier
/// of the query, and what it gives back is what that response says: the data,
/// or the failure. Signals, notices about the command line and responses to
/// other requests are passed over.
pub proof fn law_only_own_responses_answer(response: ResponseView, id: Seq<char>, timeout: nat)
    ensures
        query_answer(ReceptionView::Response(response), id, timeout) is Some <==> settled_kind(
            response,
            id,
        ) is Some,
        query_answer(ReceptionView::Response(response), id, timeout) is None <==> is_stray(
            response,
            id,
        ) || response is Signal || response is CmdLineOn || response is CmdLineOff,
        forall|data: JsonView|
            query_answer(ReceptionView::Response(response), id, timeout) == Some(
                AnswerView::Data(data),
            ) <==> response == (ResponseView::Data { id, data }),
{
}

// ---------------------------------------------------------------------------
// The handshake
// ---------------------------------------------------------------------------

/// How long the handshake may take, in milliseconds.
pub const HANDSHAKE_TIMEOUT_MS: u64 = 30_000;

/// The query that makes the server speak. It pushes nothing by itself, and
/// sends its notices about the command line along with the answer.
pub const PROBE_REQUEST: &'static str = "kernel.ast.getFiles";

/// The query whose entries are loaded once the handshake is through.
pub const FUNCTIONS_REQUEST: &'static str = "kernel.ast.fetchFunctions";

/// Where a handshake stands after a reception.
#[derive(Debug)]
pub enum HandshakeStep {
    /// Receive again. An unexpected response is handed back.
    Again(Option<FramaCResponse>),
    /// The server is ready, announced or not.
    Ready { announced: bool },
    /// The handshake failed.
    Failed(FramaCError),
}

/// How long to receive for the rest of the handshake, or that it took too long.
pub fn handshake_budget(elapsed: Span) -> (r: Result<Span, FramaCError>)
    ensures
        match r {
            Ok(left) => elapsed@ < HANDSHAKE_TIMEOUT_MS * 1_000_000 && left@
                == HANDSHAKE_TIMEOUT_MS * 1_000_000 - elapsed@,
            Err(error) => elapsed@ >= HANDSHAKE_TIMEOUT_MS * 1_000_000 && error@
                == ErrorView::ConnectTimeout,
        },
{
    match time_left(Span::from_millis(HANDSHAKE_TIMEOUT_MS), elapsed) {
        Some(left) => Ok(left),
        None => Err(FramaCError::ConnectTimeout),
    }
}

/// One reception of the handshake.
///
/// The notice that the command line is done means that the server is ready. It
/// may come along with the answer to the probe, which is consumed. Silence
/// means that the command line was done before the connection, which is as
/// good.
pub fn handshake_step(reception: Reception) -> (r: HandshakeStep)
    ensures
        match r {
            HandshakeStep::Ready { announced } => {
                ||| announced && reception@ == ReceptionView::Response(ResponseView::CmdLineOff)
                ||| !announced && reception@ == ReceptionView::Silence
            },
            HandshakeStep::Failed(error) => reception@ == ReceptionView::Failed(error@),
            HandshakeStep::Again(stray) => match reception@ {
                ReceptionView::Response(response) => !(response is CmdLineOff) && opt_response(
                    stray,
                ) == (if response is CmdLineOn || response is Data {
                    None
                } else {
                    Some(response)
                }),
                _ => false,
            },
        },
{
    match reception {
        Reception::Failed(error) => HandshakeStep::Failed(error),
        Reception::Silence => HandshakeStep::Ready { announced: false },
        Reception::Response(response) => match response {
            FramaCResponse::CmdLineOff => HandshakeStep::Ready { announced: true },
            FramaCResponse::CmdLineOn | FramaCResponse::Data { .. } => HandshakeStep::Again(None),
            FramaCResponse::Error { id, msg } => HandshakeStep::Again(
                Some(FramaCResponse::Error { id, msg }),
            ),
            FramaCResponse::Killed { id } => HandshakeStep::Again(
                Some(FramaCResponse::Killed { id }),
            ),
            FramaCResponse::Rejected { id } => HandshakeStep::Again(
                Some(FramaCResponse::Rejected { id }),
            ),
            FramaCResponse::Signal { id } => HandshakeStep::Again(
                Some(FramaCResponse::Signal { id }),
            ),
        },
    }
}

// ---------------------------------------------------------------------------
// Driving a queued request
// ---------------------------------------------------------------------------

/// How long a change of state may take, in milliseconds.
pub const SET_TIMEOUT_MS: u64 = 30_000;

/// How long to receive between two polls, in milliseconds.
pub const POLL_RECEIVE_MS: u64 = 500;

/// How long to rest before a poll, in milliseconds.
pub const POLL_REST_MS: u64 = 100;

/// Where the loop that drives a queued request stands.
#[derive(Debug, Clone, Copy, PartialEq, Eq, Structural)]
pub enum PollPhase {
    /// Receiving before the first poll: a fast request may have answered.
    First,
    /// Resting before a poll.
    Resting,
    /// Sending a poll.
    Polling,
    /// Receiving what the poll brought.
    Answer,
    /// Sending the cancellation, after the deadline.
    Killing,
    /// Receiving what the cancellation brought.
    KillAnswer,
    /// The request is settled or given up.
    Done,
}

/// The loop that drives a queued request until a response settles it or its
/// time is up.
#[derive(Debug)]
pub struct PollLoop {
    pub command: String,
    pub request_id: String,
    pub request: String,
    pub timeout: Span,
    pub diagnostics: FramaCRequestDiagnostics,
    pub phase: PollPhase,
}

/// What a [`PollLoop`] stands for.
pub struct PollView {
    pub command: Seq<char>,
    pub request_id: Seq<char>,
    pub request: Seq<char>,
    pub timeout: nat,
    pub diagnostics: DiagnosticsView,
    pub phase: PollPhase,
}

impl View for PollLoop {
    type V = PollView;

    open spec fn view(&self) -> PollView {
        PollView {
            command: self.command@,
            request_id: self.request_id@,
            request: self.request@,
            timeout: self.timeout@,
            diagnostics: self.diagnostics@,
            phase: self.phase,
        }
    }
}

/// What the loop asks for.
#[derive(Debug)]
pub enum PollAction {
    /// Receive a response, for at most this long.
    Receive(Span),
    /// Do nothing for this long.
    Rest(Span),
    /// Send a command.
    Send(FramaCCommand),
    /// There is nothing left to do.
    Stop,
}

/// What a [`PollAction`] stands for.
pub enum PollActionView {
    Receive(nat),
    Rest(nat),
    Send(CommandView),
    Stop,
}

impl View for PollAction {
    type V = PollActionView;

    open spec fn view(&self) -> PollActionView {
        match *self {
            PollAction::Receive(span) => PollActionView::Receive(span@),
            PollAction::Rest(span) => PollActionView::Rest(span@),
            PollAction::Send(command) => PollActionView::Send(command@),
            PollAction::Stop => PollActionView::Stop,
        }
    }
}

/// What came of what the loop asked for. `shown` is how the response or the
/// error reads in a message.
#[derive(Debug)]
pub enum PollEvent {
    /// A response came, or none in time.
    Received { response: Option<FramaCResponse>, shown: String },
    /// Receiving failed.
    ReceiveFailed { error: FramaCError, shown: String },
    /// The command was sent.
    Sent,
    /// Sending failed.
    SendFailed { error: FramaCError, shown: String },
    /// The rest is over.
    Rested,
}

/// What a [`PollEvent`] stands for.
pub enum PollEventView {
    Received { response: Option<ResponseView>, shown: Seq<char> },
    ReceiveFailed { error: ErrorView, shown: Seq<char> },
    Sent,
    SendFailed { error: ErrorView, shown: Seq<char> },
    Rested,
}

impl View for PollEvent {
    type V = PollEventView;

    open spec fn view(&self) -> PollEventView {
        match *self {
            PollEvent::Received { response, shown } => PollEventView::Received {
                response: opt_response(response),
                shown: shown@,
            },
            PollEvent::ReceiveFailed { error, shown } => PollEventView::ReceiveFailed {
                error: error@,
                shown: shown@,
            },
            PollEvent::Sent => PollEventView::Sent,
            PollEvent::SendFailed { error, shown } => PollEventView::SendFailed {
                error: error@,
                shown: shown@,
            },
            PollEvent::Rested => PollEventView::Rested,
        }
    }
}

/// What the loop asks for where it stands.
pub open spec fn poll_action(state: PollView) -> PollActionView {
    match state.phase {
        PollPhase::First | PollPhase::Answer | PollPhase::KillAnswer => PollActionView::Receive(
            POLL_RECEIVE_MS as nat * 1_000_000,
        ),
        PollPhase::Resting => PollActionView::Rest(POLL_REST_MS as nat * 1_000_000),
        PollPhase::Polling => PollActionView::Send(CommandView::Poll),
        PollPhase::Killing => PollActionView::Send(CommandView::Kill { id: state.request_id }),
        PollPhase::Done => PollActionView::Stop,
    }
}

/// Where the loop goes when nothing is settled yet: to the next poll, or to
/// the cancellation where the time is up.
pub open spec fn poll_or_kill(state: PollView, elapsed: nat) -> PollPhase {
    if elapsed >= state.timeout {
        PollPhase::Killing
    } else {
        PollPhase::Resting
    }
}

/// What is noted about the cancellation by what came of it.
pub open spec fn cancellation(state: PollView, event: PollEventView) -> Seq<char> {
    match event {
        PollEventView::Received { response: Some(response), shown } => if response == (
        ResponseView::Killed { id: state.request_id }) {
            "killed"@
        } else {
            "kill_sent_then_"@ + shown
        },
        PollEventView::Received { response: None, .. } => "kill_sent"@,
        PollEventView::ReceiveFailed { shown, .. } => "kill_sent_then_error:"@ + shown,
        PollEventView::SendFailed { shown, .. } => "kill_send_error:"@ + shown,
        _ => Seq::empty(),
    }
}

/// The loop with its time noted as up.
pub open spec fn timed_out(state: PollView, elapsed: nat) -> DiagnosticsView {
    DiagnosticsView {
        final_result: Some("TIMEOUT"@),
        elapsed_ms: Some(capped_millis(elapsed)),
        ..state.diagnostics
    }
}

/// Whether the event is what came of what the loop asked for.
pub open spec fn expected_event(phase: PollPhase, event: PollEventView) -> bool {
    match phase {
        PollPhase::First | PollPhase::Answer | PollPhase::KillAnswer => event is Received
            || event is ReceiveFailed,
        PollPhase::Resting => event is Rested,
        PollPhase::Polling | PollPhase::Killing => event is Sent || event is SendFailed,
        PollPhase::Done => false,
    }
}

/// Where the loop stands after an event. One that it did not ask for changes
/// nothing.
pub open spec fn poll_next(state: PollView, event: PollEventView, elapsed: nat) -> PollView {
    if !expected_event(state.phase, event) {
        state
    } else {
        match state.phase {
            PollPhase::First | PollPhase::Answer => match event {
                PollEventView::Received { response: Some(response), .. } => PollView {
                    diagnostics: noted(
                        state.diagnostics,
                        response,
                        state.request_id,
                        elapsed,
                    ),
                    phase: if settled_kind(response, state.request_id) is Some {
                        PollPhase::Done
                    } else {
                        poll_or_kill(state, elapsed)
                    },
                    ..state
                },
                PollEventView::Received { response: None, .. } => PollView {
                    phase: poll_or_kill(state, elapsed),
                    ..state
                },
                _ => PollView { phase: PollPhase::Done, ..state },
            },
            PollPhase::Resting => PollView { phase: PollPhase::Polling, ..state },
            PollPhase::Polling => PollView {
                phase: if event is Sent {
                    PollPhase::Answer
                } else {
                    PollPhase::Done
                },
                ..state
            },
            PollPhase::Killing => if event is Sent {
                PollView {
                    diagnostics: timed_out(state, elapsed),
                    phase: PollPhase::KillAnswer,
                    ..state
                }
            } else {
                PollView {
                    diagnostics: DiagnosticsView {
                        cancellation_result: Some(cancellation(state, event)),
                        ..timed_out(state, elapsed)
                    },
                    phase: PollPhase::Done,
                    ..state
                }
            },
            PollPhase::KillAnswer => PollView {
                diagnostics: DiagnosticsView {
                    cancellation_result: Some(cancellation(state, event)),
                    ..state.diagnostics
                },
                phase: PollPhase::Done,
                ..state
            },
            PollPhase::Done => state,
        }
    }
}

/// What comes of the request by an event: the settlement, an error of the
/// socket as it is, or that its time was up once the cancellation is through.
pub open spec fn poll_outcome(state: PollView, event: PollEventView, elapsed: nat) -> Option<
    OutcomeView,
> {
    if !expected_event(state.phase, event) {
        None
    } else {
        match state.phase {
            PollPhase::First | PollPhase::Answer => match event {
                PollEventView::Received { response: Some(response), .. } => settlement(
                    poll_next(state, event, elapsed).diagnostics,
                    response,
                    state.request_id,
                ),
                PollEventView::ReceiveFailed { error, .. } => Some(OutcomeView::Failed(error)),
                _ => None,
            },
            PollPhase::Polling => match event {
                PollEventView::SendFailed { error, .. } => Some(OutcomeView::Failed(error)),
                _ => None,
            },
            PollPhase::Killing | PollPhase::KillAnswer => if event is Sent {
                None
            } else {
                Some(
                    OutcomeView::Failed(
                        ErrorView::CommandFailed {
                            kind: "TIMEOUT"@,
                            id: state.request_id,
                            msg: "timeout after "@ + span_text(state.timeout),
                            diagnostics: poll_next(state, event, elapsed).diagnostics,
                        },
                    ),
                )
            },
            _ => None,
        }
    }
}

/// What is traced of an event: what the response says, that a poll was sent,
/// and that the time was up.
pub open spec fn poll_trace(state: PollView, event: PollEventView, elapsed: nat) -> Option<
    TraceView,
> {
    let line = TraceView {
        command: state.command,
        request: state.request,
        id: state.request_id,
        elapsed: Some(elapsed),
        payload_bytes: None,
        result_kind: None,
    };
    if !expected_event(state.phase, event) {
        None
    } else {
        match state.phase {
            PollPhase::First | PollPhase::Answer => match event {
                PollEventView::Received { response: Some(response), .. } => response_trace(
                    response,
                    if state.phase is First {
                        state.command
                    } else {
                        "POLL"@
                    },
                    state.request,
                    state.request_id,
                    elapsed,
                ),
                _ => None,
            },
            PollPhase::Polling => if event is Sent {
                Some(TraceView { command: "POLL"@, ..line })
            } else {
                None
            },
            PollPhase::Killing | PollPhase::KillAnswer => if event is Sent {
                None
            } else {
                Some(TraceView { result_kind: Some("TIMEOUT"@), ..line })
            },
            _ => None,
        }
    }
}

/// The response that an event brought, where it belongs to some other request.
pub open spec fn poll_stray(state: PollView, event: PollEventView) -> Option<ResponseView> {
    match event {
        PollEventView::Received { response: Some(response), .. } => if (state.phase is First
            || state.phase is Answer) && is_stray(response, state.request_id) {
            Some(response)
        } else {
            None
        },
        _ => None,
    }
}

/// Whether a response is the cancellation of the request `id`.
fn cancels(response: &FramaCResponse, id: &str) -> (r: bool)
    ensures
        r == (response@ == (ResponseView::Killed { id: id@ })),
{
    match response {
        FramaCResponse::Killed { id: of } => same(of.as_str(), id),
        _ => false,
    }
}

/// Nothing to report.
fn nothing_handled() -> (r: Handled)
    ensures
        r.outcome is None,
        r.trace is None,
        r.stray is None,
{
    Handled { outcome: None, trace: None, stray: None }
}

/// A failure of the socket, as it is.
fn socket_failed(error: FramaCError) -> (r: Handled)
    ensures
        opt_outcome(r.outcome) == Some(OutcomeView::Failed(error@)),
        r.trace is None,
        r.stray is None,
{
    Handled { outcome: Some(Err(error)), trace: None, stray: None }
}

impl PollLoop {
    /// The loop for a queued request that was just sent.
    pub fn new(command: &str, request_id: &str, request: &str, timeout: Span) -> (r: PollLoop)
        ensures
            r@ == (PollView {
                command: command@,
                request_id: request_id@,
                request: request@,
                timeout: timeout@,
                diagnostics: DiagnosticsView {
                    request_id: request_id@,
                    request: request@,
                    queued_task_id: None,
                    signal_count: 0,
                    elapsed_ms: None,
                    final_result: None,
                    cancellation_result: None,
                    rejected_command_id: None,
                },
                phase: PollPhase::First,
            }),
    {
        PollLoop {
            command: command.to_owned(),
            request_id: request_id.to_owned(),
            request: request.to_owned(),
            timeout,
            diagnostics: FramaCRequestDiagnostics {
                request_id: request_id.to_owned(),
                request: request.to_owned(),
                queued_task_id: None,
                signal_count: 0,
                elapsed_ms: None,
                final_result: None,
                cancellation_result: None,
                rejected_command_id: None,
            },
            phase: PollPhase::First,
        }
    }

    /// What the loop asks for where it stands.
    pub fn action(&self) -> (r: PollAction)
        ensures
            r@ == poll_action(self@),
    {
        match self.phase {
            PollPhase::First | PollPhase::Answer | PollPhase::KillAnswer => PollAction::Receive(
                Span::from_millis(POLL_RECEIVE_MS),
            ),
            PollPhase::Resting => PollAction::Rest(Span::from_millis(POLL_REST_MS)),
            PollPhase::Polling => PollAction::Send(FramaCCommand::Poll),
            PollPhase::Killing => PollAction::Send(
                FramaCCommand::Kill { id: self.request_id.clone() },
            ),
            PollPhase::Done => PollAction::Stop,
        }
    }

    /// Goes on to the next poll, or to the cancellation where the time is up.
    fn go_on(&mut self, elapsed: Span)
        ensures
            final(self)@ == (PollView {
                phase: poll_or_kill(old(self)@, elapsed@),
                ..old(self)@
            }),
    {
        self.phase = if elapsed.reaches(self.timeout) {
            PollPhase::Killing
        } else {
            PollPhase::Resting
        };
    }

    /// Ends the loop because its time was up, with what came of the
    /// cancellation.
    fn give_up(&mut self, cancellation_result: String, elapsed: Span) -> (r: Handled)
        ensures
            final(self)@ == (PollView {
                diagnostics: DiagnosticsView {
                    cancellation_result: Some(cancellation_result@),
                    ..old(self)@.diagnostics
                },
                phase: PollPhase::Done,
                ..old(self)@
            }),
            opt_outcome(r.outcome) == Some(
                OutcomeView::Failed(
                    ErrorView::CommandFailed {
                        kind: "TIMEOUT"@,
                        id: old(self)@.request_id,
                        msg: "timeout after "@ + span_text(old(self)@.timeout),
                        diagnostics: final(self)@.diagnostics,
                    },
                ),
            ),
            opt_trace(r.trace) == Some(
                TraceView {
                    command: old(self)@.command,
                    request: old(self)@.request,
                    id: old(self)@.request_id,
                    elapsed: Some(elapsed@),
                    payload_bytes: None,
                    result_kind: Some("TIMEOUT"@),
                },
            ),
            r.stray is None,
    {
        self.diagnostics.cancellation_result = Some(cancellation_result);
        self.phase = PollPhase::Done;
        let msg = with_tail("timeout after ", self.timeout.text().as_str());
        Handled {
            outcome: failed("TIMEOUT", self.request_id.clone(), msg, &self.diagnostics),
            trace: Some(
                trace_of(
                    self.command.as_str(),
                    self.request.as_str(),
                    self.request_id.as_str(),
                    elapsed,
                    None,
                    Some("TIMEOUT"),
                ),
            ),
            stray: None,
        }
    }

    /// Takes in what came of what the loop asked for, `elapsed` after the
    /// request was sent.
    ///
    /// A response that settles the request ends the loop with its outcome, and
    /// so does an error of the socket. Once the time is up the request is
    /// cancelled, and the loop ends with what came of that. Otherwise the loop
    /// polls again after a rest.
    pub fn step(&mut self, event: PollEvent, elapsed: Span) -> (r: Handled)
        requires
            event matches PollEvent::Received { response: Some(FramaCResponse::Signal { .. }), .. }
                ==> old(self).diagnostics.signal_count < u64::MAX,
        ensures
            final(self)@ == poll_next(old(self)@, event@, elapsed@),
            opt_outcome(r.outcome) == poll_outcome(old(self)@, event@, elapsed@),
            opt_trace(r.trace) == poll_trace(old(self)@, event@, elapsed@),
            opt_response(r.stray) == poll_stray(old(self)@, event@),
    {
        match self.phase {
            PollPhase::First | PollPhase::Answer => match event {
                PollEvent::Received { response: Some(response), .. } => {
                    let poll = "POLL";
                    let first = match self.phase {
                        PollPhase::First => true,
                        _ => false,
                    };
                    let handled = terminal_outcome(
                        response,
                        if first {
                            self.command.as_str()
                        } else {
                            poll
                        },
                        self.request.as_str(),
                        self.request_id.as_str(),
                        elapsed,
                        &mut self.diagnostics,
                    );
                    if handled.outcome.is_some() {
                        self.phase = PollPhase::Done;
                    } else {
                        self.go_on(elapsed);
                    }
                    handled
                },
                PollEvent::Received { response: None, .. } => {
                    self.go_on(elapsed);
                    nothing_handled()
                },
                PollEvent::ReceiveFailed { error, .. } => {
                    self.phase = PollPhase::Done;
                    socket_failed(error)
                },
                _ => nothing_handled(),
            },
            PollPhase::Resting => {
                if let PollEvent::Rested = event {
                    self.phase = PollPhase::Polling;
                }
                nothing_handled()
            },
            PollPhase::Polling => match event {
                PollEvent::Sent => {
                    self.phase = PollPhase::Answer;
                    Handled {
                        outcome: None,
                        trace: Some(
                            trace_of(
                                "POLL",
                                self.request.as_str(),
                                self.request_id.as_str(),
                                elapsed,
                                None,
                                None,
                            ),
                        ),
                        stray: None,
                    }
                },
                PollEvent::SendFailed { error, .. } => {
                    self.phase = PollPhase::Done;
                    socket_failed(error)
                },
                _ => nothing_handled(),
            },
            PollPhase::Killing => match event {
                PollEvent::Sent => {
                    note_settled(&mut self.diagnostics, "TIMEOUT", elapsed);
                    self.phase = PollPhase::KillAnswer;
                    nothing_handled()
                },
                PollEvent::SendFailed { shown, .. } => {
                    note_settled(&mut self.diagnostics, "TIMEOUT", elapsed);
                    self.give_up(with_tail("kill_send_error:", shown.as_str()), elapsed)
                },
                _ => nothing_handled(),
            },
            PollPhase::KillAnswer => match event {
                PollEvent::Received { response: Some(response), shown } => {
                    let result = if cancels(&response, self.request_id.as_str()) {
                        "killed".to_owned()
                    } else {
                        with_tail("kill_sent_then_", shown.as_str())
                    };
                    self.give_up(result, elapsed)
                },
                PollEvent::Received { response: None, .. } => self.give_up(
                    "kill_sent".to_owned(),
                    elapsed,
                ),
                PollEvent::ReceiveFailed { shown, .. } => self.give_up(
                    with_tail("kill_sent_then_error:", shown.as_str()),
                    elapsed,
                ),
                _ => nothing_handled(),
            },
            PollPhase::Done => nothing_handled(),
        }
    }
}

/// Where the loop stands after a run of events, each with the time at which it
/// came.
pub open spec fn poll_run(state: PollView, log: Seq<(PollEventView, nat)>) -> PollView
    decreases log.len(),
{
    if log.len() == 0 {
        state
    } else {
        poll_next(poll_run(state, log.drop_last()), log.last().0, log.last().1)
    }
}

/// The loop ends exactly when there is an outcome, and an ended loop takes in
/// nothing more: a request has one outcome.
pub proof fn law_one_outcome(state: PollView, event: PollEventView, elapsed: nat)
    ensures
        poll_outcome(state, event, elapsed) is Some <==> !(state.phase is Done) && poll_next(
            state,
            event,
            elapsed,
        ).phase is Done,
        state.phase is Done ==> poll_next(state, event, elapsed) == state,
        poll_action(poll_next(state, event, elapsed)) is Stop <==> poll_next(
            state,
            event,
            elapsed,
        ).phase is Done,
{
}

/// A request is cancelled only once its time is up, and polled again only
/// while it is not.
pub proof fn law_the_deadline_decides(state: PollView, event: PollEventView, elapsed: nat)
    ensures
        ({
            let next = poll_next(state, event, elapsed);
            &&& next.phase is Killing && !(state.phase is Killing) ==> elapsed >= state.timeout
            &&& next.phase is Resting && !(state.phase is Resting) ==> elapsed < state.timeout
            &&& next.phase is Polling && !(state.phase is Polling) ==> state.phase is Resting
            &&& next.phase is KillAnswer && !(state.phase is KillAnswer)
                ==> state.phase is Killing && event is Sent
        }),
{
}

/// The outcome of a request has one of three reasons: a response that carries
/// its identifier settled it; the socket failed, and the outcome is that
/// failure; or its time was up, and the outcome says so, with what came of
/// cancelling it.
pub proof fn law_outcomes_have_a_reason(state: PollView, event: PollEventView, elapsed: nat)
    requires
        poll_outcome(state, event, elapsed) is Some,
    ensures
        ({
            let outcome = poll_outcome(state, event, elapsed)->0;
            let after = poll_next(state, event, elapsed).diagnostics;
            ||| event matches PollEventView::Received { response: Some(response), .. }
                && settled_kind(response, state.request_id) is Some && Some(outcome) == settlement(
                after,
                response,
                state.request_id,
            )
            ||| event matches PollEventView::ReceiveFailed { error, .. } && outcome
                == OutcomeView::Failed(error)
            ||| event matches PollEventView::SendFailed { error, .. } && outcome
                == OutcomeView::Failed(error)
            ||| (state.phase is Killing || state.phase is KillAnswer) && outcome
                == OutcomeView::Failed(
                ErrorView::CommandFailed {
                    kind: "TIMEOUT"@,
                    id: state.request_id,
                    msg: "timeout after "@ + span_text(state.timeout),
                    diagnostics: after,
                },
            ) && after.cancellation_result == Some(cancellation(state, event))
        }),
{
}

/// Data is given back only from a response that carries the identifier of the
/// request: no answer to another request is ever taken for it.
pub proof fn law_no_foreign_data(state: PollView, event: PollEventView, elapsed: nat)
    ensures
        forall|data: JsonView, diagnostics: DiagnosticsView|
            poll_outcome(state, event, elapsed) == Some(
                OutcomeView::Done { data, diagnostics },
            ) ==> (event matches PollEventView::Received { response: Some(response), .. }
                && response == (ResponseView::Data { id: state.request_id, data })),
{
}

/// However a request goes, it stays the same request: what it is called, what
/// it asks for and how long it may take do not change, and the diagnostics
/// name it.
pub proof fn law_the_request_stays_the_same(state: PollView, log: Seq<(PollEventView, nat)>)
    ensures
        ({
            let end = poll_run(state, log);
            &&& end.command == state.command
            &&& end.request_id == state.request_id
            &&& end.request == state.request
            &&& end.timeout == state.timeout
            &&& end.diagnostics.request_id == state.diagnostics.request_id
            &&& end.diagnostics.request == state.diagnostics.request
        }),
    decreases log.len(),
{
    if log.len() > 0 {
        law_the_request_stays_the_same(state, log.drop_last());
    }
}

/// How many of the events of a run are signals that came while the loop was
/// receiving for its request.
pub open spec fn signals_in(state: PollView, log: Seq<(PollEventView, nat)>) -> nat
    decreases log.len(),
{
    if log.len() == 0 {
        0
    } else {
        let before = poll_run(state, log.drop_last());
        let earlier = signals_in(state, log.drop_last());
        match log.last().0 {
            PollEventView::Received { response: Some(ResponseView::Signal { .. }), .. } => if (
            before.phase is First || before.phase is Answer) {
                earlier + 1
            } else {
                earlier
            },
            _ => earlier,
        }
    }
}

/// The diagnostics count the signals that came, each once, and from the first
/// of them on they name a task.
pub proof fn law_signals_are_counted(state: PollView, log: Seq<(PollEventView, nat)>)
    requires
        state.diagnostics.signal_count + log.len() <= u64::MAX,
    ensures
        poll_run(state, log).diagnostics.signal_count == state.diagnostics.signal_count
            + signals_in(state, log),
        signals_in(state, log) <= log.len(),
        signals_in(state, log) > 0 ==> poll_run(state, log).diagnostics.queued_task_id is Some,
        state.diagnostics.queued_task_id is Some ==> poll_run(
            state,
            log,
        ).diagnostics.queued_task_id == state.diagnostics.queued_task_id,
    decreases log.len(),
{
    if log.len() > 0 {
        law_signals_are_counted(state, log.drop_last());
    }
}

// ---------------------------------------------------------------------------
// Naming requests
// ---------------------------------------------------------------------------

/// The ways in which a request is sent.
#[derive(Debug, Clone, Copy, PartialEq, Eq, Structural)]
pub enum RequestKind {
    /// Answered at once.
    Get,
    /// Queued: a change of state.
    SetState,
    /// Queued: a long operation.
    Exec,
}

/// What a kind of request is called in the trace.
pub open spec fn kind_name(kind: RequestKind) -> Seq<char> {
    match kind {
        RequestKind::Get => "GET"@,
        RequestKind::SetState => "SET"@,
        RequestKind::Exec => "EXEC"@,
    }
}

impl RequestKind {
    /// What the kind of request is called in the trace.
    pub fn name(&self) -> (r: &'static str)
        ensures
            r@ == kind_name(*self),
    {
        match self {
            RequestKind::Get => "GET",
            RequestKind::SetState => "SET",
            RequestKind::Exec => "EXEC",
        }
    }
}

/// The command that sends a request.
pub open spec fn request_command(
    kind: RequestKind,
    id: Seq<char>,
    request: Seq<char>,
    data: JsonView,
) -> CommandView {
    match kind {
        RequestKind::Get => CommandView::Get { id, request, data },
        RequestKind::SetState => CommandView::SetState { id, request, data },
        RequestKind::Exec => CommandView::Exec { id, request, data },
    }
}

/// The identifier of the request number `n`.
pub open spec fn request_id(n: nat) -> Seq<char> {
    "RQ."@ + decimal(n)
}

/// No two requests have one identifier.
pub proof fn law_request_ids_are_distinct(a: nat, b: nat)
    requires
        request_id(a) == request_id(b),
    ensures
        a == b,
{
    let head = "RQ."@;
    assert(request_id(a).skip(head.len() as int) == decimal(a));
    assert(request_id(b).skip(head.len() as int) == decimal(b));
    law_decimal_reads_back(a);
    law_decimal_reads_back(b);
}

/// The requests of a client so far.
#[derive(Debug)]
pub struct Requests {
    /// How many there were.
    pub counter: u64,
}

/// A request that is about to be sent.
#[derive(Debug)]
pub struct Begun {
    pub id: String,
    pub command: FramaCCommand,
    pub trace: Trace,
}

impl Requests {
    /// No requests yet.
    pub fn new() -> (r: Requests)
        ensures
            r.counter == 0,
    {
        Requests { counter: 0 }
    }

    /// The identifier of the next request.
    pub fn next_id(&mut self) -> (r: String)
        requires
            old(self).counter < u64::MAX,
        ensures
            r@ == request_id(old(self).counter as nat),
            final(self).counter == old(self).counter + 1,
    {
        let id = with_tail("RQ.", decimal_of(self.counter).as_str());
        self.counter = self.counter + 1;
        id
    }

    /// Names a request, and makes its command and the trace of sending it.
    pub fn begin(&mut self, kind: RequestKind, request: &str, data: Json) -> (r: Begun)
        requires
            old(self).counter < u64::MAX,
        ensures
            r.id@ == request_id(old(self).counter as nat),
            final(self).counter == old(self).counter + 1,
            r.command@ == request_command(kind, r.id@, request@, data@),
            r.trace@ == (TraceView {
                command: kind_name(kind),
                request: request@,
                id: r.id@,
                elapsed: None,
                payload_bytes: Some(text_size(compact(data@))),
                result_kind: None,
            }),
    {
        let id = self.next_id();
        let size: usize = size_of_text(data.to_compact().as_str());
        let trace = Trace {
            command: kind.name().to_owned(),
            request: request.to_owned(),
            id: id.clone(),
            elapsed: None,
            payload_bytes: Some(size),
            result_kind: None,
        };
        let of = id.clone();
        let request = request.to_owned();
        let command = match kind {
            RequestKind::Get => FramaCCommand::Get { id: of, request, data },
            RequestKind::SetState => FramaCCommand::SetState { id: of, request, data },
            RequestKind::Exec => FramaCCommand::Exec { id: of, request, data },
        };
        Begun { id, command, trace }
    }
}

// ---------------------------------------------------------------------------
// Fetching a list page by page
// ---------------------------------------------------------------------------

/// How many entries a page may hold.
pub const FETCH_BATCH: u64 = 20_000;

/// Whether a page says that the list starts over.
pub open spec fn starts_over(page: JsonView) -> bool {
    page.flag_at("reload"@) == Some(true)
}

/// The entries of a page.
pub open spec fn page_entries() -> spec_fn(JsonView) -> Seq<JsonView> {
    |page: JsonView| page.items_at("updated"@)
}

/// Whether a page says that more entries are to come.
pub open spec fn more_to_come(page: JsonView) -> bool {
    match page.get("pending"@) {
        Some(pending) => match pending.as_u64() {
            Some(n) => n > 0,
            None => false,
        },
        None => false,
    }
}

/// The entries after a page.
pub open spec fn with_page(entries: Seq<JsonView>, page: JsonView) -> Seq<JsonView> {
    if starts_over(page) {
        page_entries()(page)
    } else {
        entries + page_entries()(page)
    }
}

/// The entries after a run of pages.
pub open spec fn fetched(pages: Seq<JsonView>) -> Seq<JsonView>
    decreases pages.len(),
{
    if pages.len() == 0 {
        Seq::empty()
    } else {
        with_page(fetched(pages.drop_last()), pages.last())
    }
}

/// Appends copies of trees to a list.
fn push_copies(out: &mut Vec<Json>, items: &Vec<&Json>)
    ensures
        models(final(out)@) == models(old(out)@) + ref_models(items@),
{
    let ghost all = ref_models(items@);
    let ghost start = models(out@);
    let mut i: usize = 0;
    assert(start + all.take(0) == start);
    while i < items.len()
        invariant
            i <= items@.len(),
            all == ref_models(items@),
            models(out@) == start + all.take(i as int),
        decreases items@.len() - i,
    {
        let ghost before = models(out@);
        let copy = items[i].clone();
        out.push(copy);
        assert(models(out@) == before.push(copy@));
        assert(all.take(i + 1) == all.take(i as int).push(copy@));
        i = i + 1;
    }
    assert(all.take(i as int) == all);
}

/// Takes in one page of a list, and says whether more are to come.
///
/// A page that says that the list starts over makes the entries before it
/// stale, so they are dropped.
pub fn absorb_page(entries: &mut Vec<Json>, page: &Json) -> (r: bool)
    ensures
        models(final(entries)@) == with_page(models(old(entries)@), page@),
        r == more_to_come(page@),
{
    let reload = match page.flag_at("reload") {
        Some(flag) => flag,
        None => false,
    };
    if reload {
        entries.clear();
        assert(models(entries@) == Seq::<JsonView>::empty());
    }
    let updated = page.items_at("updated");
    push_copies(entries, &updated);
    assert(models(entries@) == with_page(models(old(entries)@), page@));
    match page.get("pending") {
        Some(pending) => match pending.as_u64() {
            Some(n) => n > 0,
            None => false,
        },
        None => false,
    }
}

/// The position of the last page that says that the list starts over, or 0.
pub open spec fn last_start(pages: Seq<JsonView>) -> nat
    decreases pages.len(),
{
    if pages.len() == 0 {
        0
    } else if starts_over(pages.last()) {
        (pages.len() - 1) as nat
    } else {
        last_start(pages.drop_last())
    }
}

/// What is fetched is what the pages hold since the list last started over,
/// in order and nothing else.
pub proof fn law_fetched_since_the_last_start(pages: Seq<JsonView>)
    ensures
        last_start(pages) <= pages.len(),
        fetched(pages) == flat_map(pages.skip(last_start(pages) as int), page_entries()),
    decreases pages.len(),
{
    let f = page_entries();
    if pages.len() == 0 {
        assert(pages.skip(0) == pages);
    } else {
        let init = pages.drop_last();
        law_fetched_since_the_last_start(init);
        let at = last_start(pages) as int;
        let tail = pages.skip(at);
        assert(tail.last() == pages.last());
        if starts_over(pages.last()) {
            assert(tail.drop_last() == Seq::<JsonView>::empty());
            assert(flat_map(tail.drop_last(), f) == Seq::<JsonView>::empty());
            assert(flat_map(tail, f) == f(pages.last()));
        } else {
            assert(tail.drop_last() == init.skip(at));
        }
    }
}

} // verus!
