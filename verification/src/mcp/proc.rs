//! Starting, reaching and killing the Frama-C processes: what is decided about
//! them. The operating system is asked elsewhere, and what it answers comes in
//! as plain values.

use vstd::prelude::*;
use vstd::string::StringExecFns;
use vstd::utf8::{decode_utf8, valid_utf8};

use crate::digits::{parse_u32, u32_value};
use crate::error::{ErrorView, FramaCError, IoErrorKind};
use crate::json::{
    lemma_object_view, member, member_models, no_members, opt_text, whole, Json, JsonView,
};
use crate::lists::{filter_map, lemma_filter_map_step};
use crate::span::{millis, span_text, Span};
use crate::text::{
    blank, contains, has_part, join, joined, lines, lines_of, lower, lowered, trim, trimmed, views,
    words, words_of,
};

verus! {

// ---------------------------------------------------------------------------
// What a process wrote
// ---------------------------------------------------------------------------

/// The text that `String::from_utf8_lossy` reads from a run of bytes.
pub uninterp spec fn lossy(bytes: Seq<u8>) -> Seq<char>;

/// The text of `bytes`: `String::from_utf8_lossy`.
///
/// The text depends on the bytes alone and is called [`lossy`] of them. Bytes
/// that are valid UTF-8 are read as what they encode; what stands for those
/// that are not is left unsaid.
#[verifier::external_body]
fn lossy_text(bytes: &[u8]) -> (r: String)
    ensures
        r@ == lossy(bytes@),
        valid_utf8(bytes@) ==> r@ == decode_utf8(bytes@),
{
    String::from_utf8_lossy(bytes).into_owned()
}

/// The last `n` lines of a text.
pub open spec fn last_lines(text: Seq<char>, n: nat) -> Seq<Seq<char>> {
    let all = lines(text);
    if all.len() > n {
        all.skip(all.len() - n)
    } else {
        all
    }
}

/// The last `n` lines of a log; nothing where it could not be read.
pub open spec fn tail(log: Option<Seq<char>>, n: nat) -> Seq<char> {
    match log {
        Some(text) => join(last_lines(text, n), "\n"@),
        None => Seq::empty(),
    }
}

/// The last lines of a log, which is missing where it could not be read.
pub fn tail_file(log: Option<&str>, count: usize) -> (r: String)
    ensures
        r@ == tail(opt_text(log), count as nat),
{
    let text = match log {
        Some(text) => text,
        None => {
            return String::new();
        },
    };
    let all = lines_of(text);
    let ghost wanted = last_lines(text@, count as nat);
    let n: usize = all.len();
    assert(n == lines(text@).len());
    let start: usize = if n > count {
        n - count
    } else {
        0
    };
    let mut kept: Vec<String> = Vec::new();
    let mut i: usize = start;
    while i < n
        invariant
            start <= i <= n == all@.len(),
            views(all@) == lines(text@),
            views(kept@) == lines(text@).subrange(start as int, i as int),
        decreases n - i,
    {
        let ghost before = views(kept@);
        kept.push(all[i].clone());
        assert(views(kept@) == before.push(lines(text@)[i as int]));
        i = i + 1;
    }
    assert(views(kept@) == wanted);
    joined(&kept, "\n")
}

/// The tails of the logs that say anything.
pub open spec fn telling_tails(
    stdout: Option<Seq<char>>,
    stderr: Option<Seq<char>>,
    n: nat,
) -> Seq<Seq<char>> {
    let out = if trim(tail(stdout, n)).len() > 0 {
        seq![tail(stdout, n)]
    } else {
        Seq::empty()
    };
    if trim(tail(stderr, n)).len() > 0 {
        out.push(tail(stderr, n))
    } else {
        out
    }
}

/// Why a Frama-C that never opened its socket died: the ends of both logs, the
/// standard output first, because its diagnostics stand there.
pub fn startup_failure_tail(
    stdout_log: Option<&str>,
    stderr_log: Option<&str>,
    count: usize,
) -> (r: String)
    ensures
        ({
            let tails = telling_tails(opt_text(stdout_log), opt_text(stderr_log), count as nat);
            r@ == if tails.len() > 0 {
                join(tails, "\n"@)
            } else {
                "(no output on stdout or stderr)"@
            }
        }),
{
    let mut tails: Vec<String> = Vec::new();
    let out = tail_file(stdout_log, count);
    let err = tail_file(stderr_log, count);
    if !blank(out.as_str()) {
        tails.push(out);
    }
    let ghost first = views(tails@);
    if !blank(err.as_str()) {
        tails.push(err);
        assert(views(tails@) == first.push(err@));
    }
    assert(views(tails@) == telling_tails(
        opt_text(stdout_log),
        opt_text(stderr_log),
        count as nat,
    ));
    assert(tails@.len() == views(tails@).len());
    if tails.len() == 0 {
        return "(no output on stdout or stderr)".to_owned();
    }
    joined(&tails, "\n")
}

/// A line that speaks of plug-ins, in whatever case.
pub open spec fn plugin_line() -> spec_fn(Seq<char>) -> Option<Seq<char>> {
    |line: Seq<char>|
        if has_part(lower(line), "plugin"@) || has_part(lower(line), "ast_utils"@) {
            Some(line)
        } else {
            None
        }
}

/// The lines of a log that speak of plug-ins.
pub fn plugin_load_messages(stderr_tail: &str) -> (r: Vec<String>)
    ensures
        views(r@) == filter_map(lines(stderr_tail@), plugin_line()),
{
    let all = lines_of(stderr_tail);
    let ghost given = views(all@);
    let mut out: Vec<String> = Vec::new();
    let mut i: usize = 0;
    assert(views(out@) == filter_map(given.take(0), plugin_line()));
    while i < all.len()
        invariant
            i <= all@.len(),
            given == views(all@),
            views(out@) == filter_map(given.take(i as int), plugin_line()),
        decreases all@.len() - i,
    {
        proof {
            lemma_filter_map_step(given, plugin_line(), i as int);
        }
        let ghost before = views(out@);
        let low = lowered(all[i].as_str());
        if contains(low.as_str(), "plugin") || contains(low.as_str(), "ast_utils") {
            out.push(all[i].clone());
            assert(views(out@) == before.push(given[i as int]));
        }
        i = i + 1;
    }
    assert(given.take(i as int) == given);
    out
}

// ---------------------------------------------------------------------------
// What a tool answered
// ---------------------------------------------------------------------------

/// How a command ended.
#[derive(Debug)]
pub enum CommandRun {
    /// It could not be started.
    NotStarted { error: String },
    /// It exited. The output is its standard output and its standard error, or
    /// why they could not be read.
    Exited { success: bool, code: Option<i32>, output: Result<(Vec<u8>, Vec<u8>), String> },
    /// Waiting for it failed.
    WaitFailed { error: String },
    /// It was killed after this long.
    TimedOut { timeout: Span },
}

/// What is reported of a command.
pub open spec fn command_report(run: CommandRun) -> JsonView {
    match run {
        CommandRun::NotStarted { error } => JsonView::Object(
            seq![("status"@, JsonView::Text("missing"@)), ("error"@, JsonView::Text(error@))],
        ),
        CommandRun::Exited { success, code, output } => JsonView::Object(
            seq![
                (
                    "status"@,
                    JsonView::Text(
                        if success {
                            "ok"@
                        } else {
                            "error"@
                        },
                    ),
                ),
                (
                    "code"@,
                    match code {
                        Some(n) => whole(n as int),
                        None => JsonView::Null,
                    },
                ),
                (
                    "stdout"@,
                    JsonView::Text(
                        match output {
                            Ok(pair) => trim(lossy(pair.0@)),
                            Err(_) => Seq::empty(),
                        },
                    ),
                ),
                (
                    "stderr"@,
                    JsonView::Text(
                        match output {
                            Ok(pair) => trim(lossy(pair.1@)),
                            Err(error) => error@,
                        },
                    ),
                ),
            ],
        ),
        CommandRun::WaitFailed { error } => JsonView::Object(
            seq![("status"@, JsonView::Text("error"@)), ("error"@, JsonView::Text(error@))],
        ),
        CommandRun::TimedOut { timeout } => JsonView::Object(
            seq![
                ("status"@, JsonView::Text("timeout"@)),
                ("timeout_ms"@, whole(millis(timeout@) as int)),
            ],
        ),
    }
}

/// A report of a status with one more member.
fn short_report(status: &str, name: &str, value: Json) -> (r: Json)
    ensures
        r@ == JsonView::Object(seq![("status"@, JsonView::Text(status@)), (name@, value@)]),
{
    broadcast use lemma_object_view;
    let ghost wanted = seq![("status"@, JsonView::Text(status@)), (name@, value@)];
    let mut out = no_members();
    member(&mut out, "status", Json::text(status));
    member(&mut out, name, value);
    assert(member_models(out@) == wanted);
    Json::Object(out)
}

/// What is reported of a command that was run for its output: whether it is
/// missing, ended well, failed or took too long, and what it wrote.
pub fn run_command_json(run: CommandRun) -> (r: Json)
    requires
        run matches CommandRun::TimedOut { timeout } ==> millis(timeout@) <= u64::MAX,
    ensures
        r@ == command_report(run),
{
    broadcast use lemma_object_view;
    match run {
        CommandRun::NotStarted { error } => short_report("missing", "error", Json::Text(error)),
        CommandRun::WaitFailed { error } => short_report("error", "error", Json::Text(error)),
        CommandRun::TimedOut { timeout } => short_report(
            "timeout",
            "timeout_ms",
            Json::count(timeout.as_millis() as u64),
        ),
        CommandRun::Exited { success, code, output } => {
            let ghost wanted = command_report(CommandRun::Exited { success, code, output });
            let (stdout, stderr) = match output {
                Ok((out, err)) => (
                    trimmed(lossy_text(out.as_slice()).as_str()),
                    trimmed(lossy_text(err.as_slice()).as_str()),
                ),
                Err(error) => (String::new(), error),
            };
            let mut report = no_members();
            member(
                &mut report,
                "status",
                Json::text(
                    if success {
                        "ok"
                    } else {
                        "error"
                    },
                ),
            );
            member(
                &mut report,
                "code",
                match code {
                    Some(n) => Json::whole(n as i64),
                    None => Json::Null,
                },
            );
            member(&mut report, "stdout", Json::Text(stdout));
            member(&mut report, "stderr", Json::Text(stderr));
            assert(member_models(report@) == wanted->Object_0);
            Json::Object(report)
        },
    }
}

// ---------------------------------------------------------------------------
// Killing
// ---------------------------------------------------------------------------

/// What to signal for a process: nothing where the pid cannot be signalled at
/// all, its group where it leads the group named after it, else the process
/// alone.
pub open spec fn kill_target(pid: u32, pgid: Option<u32>) -> Option<int> {
    if pid == 0 || pid > i32::MAX {
        None
    } else if pgid == Some(pid) {
        Some(-(pid as int))
    } else {
        Some(pid as int)
    }
}

/// What to signal for a sandbox, or nothing when the pid cannot be signalled
/// at all.
///
/// A negative target is a process group, which takes the helpers of Frama-C
/// along with it. Only a process that leads the group named after it may be
/// addressed that way: any other is in a group that belongs to someone else.
/// Signalling zero would signal the group of the caller, so a zero pid has no
/// target, and neither has one that a signed pid cannot hold.
pub fn sandbox_kill_target(pid: u32, pgid: Option<u32>) -> (r: Option<libc::pid_t>)
    ensures
        match r {
            Some(target) => kill_target(pid, pgid) == Some(target as int),
            None => kill_target(pid, pgid) is None,
        },
{
    if pid == 0 || pid > 0x7fff_ffffu32 {
        return None;
    }
    let leads_its_group = match pgid {
        Some(group) => group == pid,
        None => false,
    };
    let own: i32 = pid as i32;
    Some(
        if leads_its_group {
            -own
        } else {
            own
        },
    )
}

/// Nothing but the process itself or the group that it leads is ever a target:
/// never the group of the caller, and a group only where the process is known
/// to lead it.
pub proof fn law_kill_targets(pid: u32, pgid: Option<u32>)
    requires
        kill_target(pid, pgid) is Some,
    ensures
        ({
            let target = kill_target(pid, pgid)->0;
            &&& target != 0
            &&& target == pid || target == -(pid as int)
            &&& target < 0 <==> pgid == Some(pid)
            &&& i32::MIN < target <= i32::MAX
        }),
{
}

/// How much a notice matters.
#[derive(Debug, Clone, Copy, PartialEq, Eq, Structural)]
pub enum NoticeLevel {
    Debug,
    Warn,
    Error,
}

/// Something to be logged.
#[derive(Debug)]
pub struct Notice {
    pub level: NoticeLevel,
    pub text: String,
}

/// The view of a notice that may be missing.
pub open spec fn opt_notice(notice: Option<Notice>) -> Option<(NoticeLevel, Seq<char>)> {
    match notice {
        Some(n) => Some((n.level, n.text@)),
        None => None,
    }
}

/// A notice about `what`.
fn notice(level: NoticeLevel, what: &str, text: &str) -> (r: Notice)
    ensures
        r.level == level,
        r.text@ == what@ + text@,
{
    let mut full = what.to_owned();
    full.append(text);
    Notice { level, text: full }
}

/// What is to be killed.
#[derive(Debug)]
pub struct KillOrder {
    /// What is being done, for the log.
    pub what: String,
    /// What to send the kill signal to; nothing where the pid is unusable.
    pub target: Option<libc::pid_t>,
    /// What is logged before.
    pub notice: Option<Notice>,
}

/// What is logged before a kill: that the pid is unusable, or that the process
/// leads no group, so that its helpers may survive it.
pub open spec fn kill_notice(what: Seq<char>, target: Option<int>) -> Option<
    (NoticeLevel, Seq<char>),
> {
    match target {
        None => Some((NoticeLevel::Error, what + ": refusing to signal an unusable pid"@)),
        Some(t) => if t > 0 {
            Some(
                (
                    NoticeLevel::Warn,
                    what + ": not a process group leader, so its why3server may survive"@,
                ),
            )
        } else {
            None
        },
    }
}

/// Whether an order is to kill the process `pid` in the course of `what`.
pub open spec fn orders_kill(order: KillOrder, what: Seq<char>, pid: u32, pgid: Option<u32>) -> bool {
    &&& order.what@ == what
    &&& match order.target {
        Some(target) => kill_target(pid, pgid) == Some(target as int),
        None => kill_target(pid, pgid) is None,
    }
    &&& opt_notice(order.notice) == kill_notice(what, kill_target(pid, pgid))
}

/// The order to kill one Frama-C and its process group. `what` names the
/// target in the log.
pub fn kill_frama_c_group(what: &str, pid: u32, pgid: Option<u32>) -> (r: KillOrder)
    ensures
        orders_kill(r, what@, pid, pgid),
{
    let target = sandbox_kill_target(pid, pgid);
    let before = match target {
        None => Some(notice(NoticeLevel::Error, what, ": refusing to signal an unusable pid")),
        Some(t) => if t > 0 {
            Some(
                notice(
                    NoticeLevel::Warn,
                    what,
                    ": not a process group leader, so its why3server may survive",
                ),
            )
        } else {
            None
        },
    };
    KillOrder { what: what.to_owned(), target, notice: before }
}

/// The order to kill the Frama-C of a sandbox.
pub fn kill_sandbox(experiment_id: &str, pid: u32, pgid: Option<u32>) -> (r: KillOrder)
    ensures
        orders_kill(r, "cleanup_sandbox "@ + experiment_id@, pid, pgid),
{
    let mut what = "cleanup_sandbox ".to_owned();
    what.append(experiment_id);
    kill_frama_c_group(what.as_str(), pid, pgid)
}

/// What the kernel answered to a signal.
#[derive(Debug, Clone, Copy, PartialEq, Eq, Structural)]
pub enum SignalAnswer {
    /// The signal was delivered.
    Delivered,
    /// There is no such process.
    NoSuchProcess,
    /// Some process may not be signalled.
    NotPermitted,
    /// Anything else.
    Failed,
}

/// What is logged after a kill.
pub open spec fn answer_notice(what: Seq<char>, answer: SignalAnswer) -> Option<
    (NoticeLevel, Seq<char>),
> {
    match answer {
        SignalAnswer::Delivered => None,
        SignalAnswer::NoSuchProcess => Some(
            (NoticeLevel::Debug, what + ": no group left to signal"@),
        ),
        SignalAnswer::NotPermitted => Some(
            (
                NoticeLevel::Error,
                what + ": group partly signalled, or it is not ours after pid reuse"@,
            ),
        ),
        SignalAnswer::Failed => Some((NoticeLevel::Error, what + ": could not kill the group"@)),
    }
}

/// What is logged after a kill.
///
/// That there was nothing left to signal is what an ordinary teardown comes to,
/// and no error. That a process may not be signalled has two meanings which
/// cannot be told apart, a group that was partly gone and a group that is not
/// ours, so it stays visible.
pub fn kill_answer_notice(what: &str, answer: SignalAnswer) -> (r: Option<Notice>)
    ensures
        opt_notice(r) == answer_notice(what@, answer),
{
    match answer {
        SignalAnswer::Delivered => None,
        SignalAnswer::NoSuchProcess => Some(
            notice(NoticeLevel::Debug, what, ": no group left to signal"),
        ),
        SignalAnswer::NotPermitted => Some(
            notice(
                NoticeLevel::Error,
                what,
                ": group partly signalled, or it is not ours after pid reuse",
            ),
        ),
        SignalAnswer::Failed => Some(
            notice(NoticeLevel::Error, what, ": could not kill the group"),
        ),
    }
}

/// Whether a process that was not spawned here is still running, by what the
/// kernel answered to a signal that delivers nothing.
///
/// Wrong in the safe direction: a pid that was reused reads as alive. One that
/// may not be signalled is alive as well, it just is not ours. A pid that
/// cannot be signalled at all is not.
pub fn process_is_alive(pid: u32, answer: SignalAnswer) -> (r: bool)
    ensures
        r == (kill_target(pid, None) is Some && (answer == SignalAnswer::Delivered || answer
            == SignalAnswer::NotPermitted)),
{
    if sandbox_kill_target(pid, None).is_none() {
        return false;
    }
    match answer {
        SignalAnswer::Delivered | SignalAnswer::NotPermitted => true,
        SignalAnswer::NoSuchProcess | SignalAnswer::Failed => false,
    }
}

/// What to do about a sandbox that an earlier server may have left behind.
#[derive(Debug)]
pub enum OrphanStep {
    /// There is nothing to kill, or no way to tell.
    Nothing,
    /// The pid is alive but is not this sandbox.
    Foreign,
    /// The sandbox is still running and is to be killed.
    Kill(KillOrder),
}

/// The process group that a listing of a process starts with.
pub open spec fn listed_group(listing: Seq<char>) -> Option<nat> {
    if words(listing).len() > 0 {
        u32_value(words(listing)[0])
    } else {
        None
    }
}

/// The text of a listing; empty where there is none.
pub open spec fn listing_text(listing: Option<Vec<u8>>) -> Seq<char> {
    match listing {
        Some(bytes) => lossy(bytes@),
        None => Seq::empty(),
    }
}

/// What to do about a sandbox that an earlier server may have left behind.
///
/// `alive` says whether its process runs, `socket` is the path of its socket
/// where that is text, and `listing` holds the process group and the arguments
/// of the process where they could be listed. The process is killed only where
/// its arguments name the socket: a pid alone may have been reused.
pub fn kill_orphaned_sandbox(
    experiment_id: &str,
    pid: u32,
    alive: bool,
    socket: Option<&str>,
    listing: Option<Vec<u8>>,
) -> (r: OrphanStep)
    ensures
        match r {
            OrphanStep::Nothing => !alive || socket is None,
            OrphanStep::Foreign => alive && socket is Some && !has_part(
                listing_text(listing),
                socket->0@,
            ),
            OrphanStep::Kill(order) => {
                &&& alive
                &&& socket is Some
                &&& has_part(listing_text(listing), socket->0@)
                &&& orders_kill(
                    order,
                    "cleanup_sandbox "@ + experiment_id@,
                    pid,
                    match listed_group(listing_text(listing)) {
                        Some(group) => Some(group as u32),
                        None => None,
                    },
                )
            },
        },
{
    if !alive {
        return OrphanStep::Nothing;
    }
    let socket = match socket {
        Some(path) => path,
        None => {
            return OrphanStep::Nothing;
        },
    };
    let text = match &listing {
        Some(bytes) => lossy_text(bytes.as_slice()),
        None => String::new(),
    };
    assert(text@ == listing_text(listing));
    if !contains(text.as_str(), socket) {
        return OrphanStep::Foreign;
    }
    let fields = words_of(text.as_str());
    assert(fields@.len() == words(text@).len());
    let pgid = if fields.len() > 0 {
        assert(fields@[0]@ == words(text@)[0]);
        parse_u32(fields[0].as_str())
    } else {
        None
    };
    OrphanStep::Kill(kill_sandbox(experiment_id, pid, pgid))
}

// ---------------------------------------------------------------------------
// Reaching a server that is starting
// ---------------------------------------------------------------------------

/// How long to rest between two looks for the socket, in milliseconds.
pub const SOCKET_LOOK_MS: u64 = 50;

/// How long to rest between two attempts to connect, in milliseconds.
pub const CONNECT_RETRY_MS: u64 = 25;

/// What to do next while waiting for a socket to appear.
#[derive(Debug)]
pub enum SocketWait {
    /// The wait is over: whether the socket is there.
    Done(bool),
    /// The process is gone: the socket is there or not, once and for all.
    LookOnceMore,
    /// Rest this long, and look again.
    Rest(Span),
}

/// One look for the socket of a process that is starting.
///
/// A process that is gone ends the wait early, but only behind the look for
/// the socket: one that made its socket and then exited still leaves something
/// to connect to.
pub fn wait_socket_file(exists: bool, exited: bool, timeout: Span, elapsed: Span) -> (r: SocketWait)
    ensures
        match r {
            SocketWait::Done(found) => {
                &&& found == exists
                &&& found || (!exited && elapsed@ >= timeout@)
            },
            SocketWait::LookOnceMore => !exists && exited,
            SocketWait::Rest(span) => !exists && !exited && elapsed@ < timeout@ && span@
                == SOCKET_LOOK_MS as nat * 1_000_000,
        },
{
    if exists {
        SocketWait::Done(true)
    } else if exited {
        SocketWait::LookOnceMore
    } else if elapsed.reaches(timeout) {
        SocketWait::Done(false)
    } else {
        SocketWait::Rest(Span::from_millis(SOCKET_LOOK_MS))
    }
}

/// Whether a failure to connect means that the server is not listening yet:
/// the connection was refused, or the socket is not there.
pub open spec fn not_listening_yet(error: ErrorView) -> bool {
    match error {
        ErrorView::Io { kind, .. } => kind == IoErrorKind::ConnectionRefused || kind
            == IoErrorKind::NotFound,
        _ => false,
    }
}

/// Whether a connection was refused.
pub open spec fn refused(error: ErrorView) -> bool {
    match error {
        ErrorView::Io { kind, .. } => kind == IoErrorKind::ConnectionRefused,
        _ => false,
    }
}

/// Whether a failure to connect means that the server is not listening yet,
/// rather than something that a retry cannot fix.
pub fn socket_not_listening_yet(e: &FramaCError) -> (r: bool)
    ensures
        r == not_listening_yet(e@),
{
    match e {
        FramaCError::Io { kind, .. } => match kind {
            IoErrorKind::ConnectionRefused | IoErrorKind::NotFound => true,
            IoErrorKind::Other => false,
        },
        _ => false,
    }
}

/// Whether the connection was refused, which is the half of
/// [`socket_not_listening_yet`] that means that the path exists and nothing is
/// accepting on it.
pub fn socket_refused(e: &FramaCError) -> (r: bool)
    ensures
        r == refused(e@),
{
    match e {
        FramaCError::Io { kind, .. } => match kind {
            IoErrorKind::ConnectionRefused => true,
            IoErrorKind::NotFound | IoErrorKind::Other => false,
        },
        _ => false,
    }
}

/// A refused connection is one to be retried.
pub proof fn law_refusals_are_retried(error: ErrorView)
    requires
        refused(error),
    ensures
        not_listening_yet(error),
{
}

/// What is said of a connection that came about only after refusals.
pub const RECOVERED_RACE: &'static str = "connected only after the socket refused: frama-c bound before it listened";

/// The message of an attempt that never reached a listening server.
pub open spec fn never_listened_text(
    socket: Seq<char>,
    timeout: nat,
    error: Seq<char>,
) -> Seq<char> {
    "frama-c never listened on "@ + socket + " within "@ + span_text(timeout) + ": "@ + error
}

/// The message of an attempt that never reached a listening server.
///
/// Logs are searched for this wording, so nothing else may spell it.
pub fn never_listened(socket: &str, timeout: Span, e: &str) -> (r: String)
    ensures
        r@ == never_listened_text(socket@, timeout@, e@),
{
    let mut out = "frama-c never listened on ".to_owned();
    out.append(socket);
    out.append(" within ");
    out.append(timeout.text().as_str());
    out.append(": ");
    out.append(e);
    out
}

/// The message about a socket whose path is not text. `shown` is how the path
/// reads.
pub fn socket_path_error(shown: &str) -> (r: String)
    ensures
        r@ == "socket path is not UTF-8: "@ + shown@,
{
    let mut out = "socket path is not UTF-8: ".to_owned();
    out.append(shown);
    out
}

/// What came of an attempt to connect.
#[derive(Debug)]
pub enum ConnectEvent {
    /// The process had exited, with a status that reads like this.
    Exited { status: String },
    /// The connection is there.
    Connected,
    /// The attempt failed. `shown` is how the error reads.
    Failed { error: FramaCError, shown: String },
}

/// What to do after an attempt to connect.
#[derive(Debug)]
pub enum ConnectStep {
    /// Rest this long, and try again.
    Retry(Span),
    /// Done, and whether the socket refused before.
    Connected { recovered: bool },
    /// Given up, with this message.
    Failed(String),
}

/// The attempts to connect to a server that is starting.
#[derive(Debug)]
pub struct Connecting {
    pub socket: String,
    pub timeout: Span,
    /// How often the socket refused.
    pub refusals: u32,
}

impl Connecting {
    /// No attempt yet.
    pub fn new(socket: &str, timeout: Span) -> (r: Connecting)
        ensures
            r.socket@ == socket@,
            r.timeout == timeout,
            r.refusals == 0,
    {
        Connecting { socket: socket.to_owned(), timeout, refusals: 0 }
    }
}

/// Takes in what came of an attempt to connect, `elapsed` after the first.
///
/// The socket appears before the server listens on it, and in between it
/// refuses. So only a refused or missing socket is retried, and only until
/// the time is up. A connection that was accepted and then failed has taken
/// the one place that the server has for a client, so trying again would
/// hang. A process that has exited will never listen.
pub fn connect_when_listening(
    attempts: &mut Connecting,
    event: ConnectEvent,
    elapsed: Span,
) -> (r: ConnectStep)
    requires
        event matches ConnectEvent::Failed { error, .. } && refused(error@) && elapsed@ < old(
            attempts,
        ).timeout@ ==> old(attempts).refusals < u32::MAX,
    ensures
        final(attempts).socket == old(attempts).socket,
        final(attempts).timeout == old(attempts).timeout,
        match event {
            ConnectEvent::Exited { status } => {
                &&& final(attempts).refusals == old(attempts).refusals
                &&& r matches ConnectStep::Failed(text) && text@
                    == "frama-c exited during startup: "@ + status@
            },
            ConnectEvent::Connected => {
                &&& final(attempts).refusals == old(attempts).refusals
                &&& r == (ConnectStep::Connected { recovered: old(attempts).refusals > 0 })
            },
            ConnectEvent::Failed { error, shown } => if !not_listening_yet(error@) {
                &&& final(attempts).refusals == old(attempts).refusals
                &&& r matches ConnectStep::Failed(text) && text@ == shown@
            } else if elapsed@ >= old(attempts).timeout@ {
                &&& final(attempts).refusals == old(attempts).refusals
                &&& r matches ConnectStep::Failed(text) && text@ == never_listened_text(
                    old(attempts).socket@,
                    old(attempts).timeout@,
                    shown@,
                )
            } else {
                &&& final(attempts).refusals == old(attempts).refusals + if refused(error@) {
                    1int
                } else {
                    0
                }
                &&& r matches ConnectStep::Retry(span) && span@ == CONNECT_RETRY_MS as nat
                    * 1_000_000
            },
        },
{
    match event {
        ConnectEvent::Exited { status } => {
            let mut text = "frama-c exited during startup: ".to_owned();
            text.append(status.as_str());
            ConnectStep::Failed(text)
        },
        ConnectEvent::Connected => ConnectStep::Connected { recovered: attempts.refusals > 0 },
        ConnectEvent::Failed { error, shown } => {
            if !socket_not_listening_yet(&error) {
                return ConnectStep::Failed(shown);
            }
            if elapsed.reaches(attempts.timeout) {
                return ConnectStep::Failed(
                    never_listened(attempts.socket.as_str(), attempts.timeout, shown.as_str()),
                );
            }
            if socket_refused(&error) {
                attempts.refusals = attempts.refusals + 1;
            }
            ConnectStep::Retry(Span::from_millis(CONNECT_RETRY_MS))
        },
    }
}

} // verus!
