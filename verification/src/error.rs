//! What can go wrong with a Frama-C server.

use vstd::prelude::*;

use crate::json::opt_string;
use crate::span::Span;

verus! {

/// The kinds of input and output errors that are told apart.
#[derive(Debug, Clone, Copy, PartialEq, Eq, Structural)]
pub enum IoErrorKind {
    ConnectionRefused,
    NotFound,
    Other,
}

/// What was seen of a request while it ran.
#[derive(Debug)]
pub struct FramaCRequestDiagnostics {
    pub request_id: String,
    pub request: String,
    /// The task that the first signal named.
    pub queued_task_id: Option<String>,
    pub signal_count: u64,
    pub elapsed_ms: Option<u64>,
    pub final_result: Option<String>,
    pub cancellation_result: Option<String>,
    pub rejected_command_id: Option<String>,
}

/// What [`FramaCRequestDiagnostics`] stand for.
pub struct DiagnosticsView {
    pub request_id: Seq<char>,
    pub request: Seq<char>,
    pub queued_task_id: Option<Seq<char>>,
    pub signal_count: u64,
    pub elapsed_ms: Option<u64>,
    pub final_result: Option<Seq<char>>,
    pub cancellation_result: Option<Seq<char>>,
    pub rejected_command_id: Option<Seq<char>>,
}

impl View for FramaCRequestDiagnostics {
    type V = DiagnosticsView;

    open spec fn view(&self) -> DiagnosticsView {
        DiagnosticsView {
            request_id: self.request_id@,
            request: self.request@,
            queued_task_id: opt_string(self.queued_task_id),
            signal_count: self.signal_count,
            elapsed_ms: self.elapsed_ms,
            final_result: opt_string(self.final_result),
            cancellation_result: opt_string(self.cancellation_result),
            rejected_command_id: opt_string(self.rejected_command_id),
        }
    }
}

/// A copy of a string that may be missing.
fn copy_of(text: &Option<String>) -> (r: Option<String>)
    ensures
        opt_string(r) == opt_string(*text),
{
    match text {
        Some(t) => Some(t.clone()),
        None => None,
    }
}

impl Clone for FramaCRequestDiagnostics {
    fn clone(&self) -> (r: FramaCRequestDiagnostics)
        ensures
            r@ == self@,
    {
        FramaCRequestDiagnostics {
            request_id: self.request_id.clone(),
            request: self.request.clone(),
            queued_task_id: copy_of(&self.queued_task_id),
            signal_count: self.signal_count,
            elapsed_ms: self.elapsed_ms,
            final_result: copy_of(&self.final_result),
            cancellation_result: copy_of(&self.cancellation_result),
            rejected_command_id: copy_of(&self.rejected_command_id),
        }
    }
}

/// Why something that involves a Frama-C server failed.
#[derive(Debug)]
pub enum FramaCError {
    /// The socket or the file failed.
    Io { kind: IoErrorKind, text: String },
    /// What came in is no message of the protocol.
    Malformed { text: String },
    /// The server answered a request with an error.
    ServerError { id: String, msg: String },
    /// The server does not know the request.
    Rejected { id: String },
    /// The request was cancelled.
    Killed { id: String },
    /// No answer came within the span.
    Timeout(Span),
    /// The server did not become ready.
    ConnectTimeout,
    /// A queued command failed.
    CommandFailed {
        kind: String,
        id: String,
        msg: String,
        diagnostics: Box<FramaCRequestDiagnostics>,
    },
}

/// What a [`FramaCError`] stands for.
pub enum ErrorView {
    Io { kind: IoErrorKind, text: Seq<char> },
    Malformed { text: Seq<char> },
    ServerError { id: Seq<char>, msg: Seq<char> },
    Rejected { id: Seq<char> },
    Killed { id: Seq<char> },
    Timeout(nat),
    ConnectTimeout,
    CommandFailed {
        kind: Seq<char>,
        id: Seq<char>,
        msg: Seq<char>,
        diagnostics: DiagnosticsView,
    },
}

impl View for FramaCError {
    type V = ErrorView;

    open spec fn view(&self) -> ErrorView {
        match *self {
            FramaCError::Io { kind, text } => ErrorView::Io { kind, text: text@ },
            FramaCError::Malformed { text } => ErrorView::Malformed { text: text@ },
            FramaCError::ServerError { id, msg } => ErrorView::ServerError { id: id@, msg: msg@ },
            FramaCError::Rejected { id } => ErrorView::Rejected { id: id@ },
            FramaCError::Killed { id } => ErrorView::Killed { id: id@ },
            FramaCError::Timeout(span) => ErrorView::Timeout(span@),
            FramaCError::ConnectTimeout => ErrorView::ConnectTimeout,
            FramaCError::CommandFailed { kind, id, msg, diagnostics } => ErrorView::CommandFailed {
                kind: kind@,
                id: id@,
                msg: msg@,
                diagnostics: diagnostics@,
            },
        }
    }
}

} // verus!
