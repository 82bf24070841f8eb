//! Laws of the processes that are run, watched and killed.

use vstd::prelude::*;

use crate::digits::u32_value;
use crate::error::{ErrorView, IoErrorKind};
use crate::json::{JsonView, NumberView};
use crate::mcp::proc::{
    answer_notice, command_report, kill_notice, kill_target, listed_group, listing_text, lossy,
    never_listened_text, not_listening_yet, opt_notice, orders_kill, plugin_line, refused, tail,
    telling_tails, CommandRun, KillOrder, Notice, NoticeLevel, SignalAnswer,
};
use crate::span::{span_text, Span};
use crate::text::{has_part, is_white, join, lines, lower, trim, words};

use super::texts::law_trim;

verus! {

/// The tail of a log is its last lines, as many as asked for or all there are,
/// with line feeds between them; a log that cannot be read has none.
pub proof fn law_tails_are_last_lines(text: Seq<char>, n: nat)
    ensures
        exists|skipped: int|
            0 <= skipped <= lines(text).len() && (lines(text).len() <= n ==> skipped == 0) && (
            lines(text).len() > n ==> lines(text).len() - skipped == n) && tail(Some(text), n)
                == join(#[trigger] lines(text).skip(skipped), seq!['\n']),
        tail(None, n) == Seq::<char>::empty(),
{
    reveal_strlit("\n");
    assert("\n"@ == seq!['\n']);
    let all = lines(text);
    if all.len() > n {
        assert(tail(Some(text), n) == join(all.skip(all.len() - n), seq!['\n']));
    } else {
        assert(all.skip(0) == all);
        assert(tail(Some(text), n) == join(all.skip(0), seq!['\n']));
    }
}

/// A text says something exactly when trimming leaves some of it.
proof fn lemma_says_something(s: Seq<char>)
    ensures
        trim(s).len() > 0 <==> exists|i: int| 0 <= i < s.len() && !is_white(#[trigger] s[i]),
{
    law_trim(s);
    let (i, j) = choose|i: int, j: int|
        0 <= i <= j <= s.len() && trim(s) == #[trigger] s.subrange(i, j) && (forall|k: int|
            (0 <= k < i || j <= k < s.len()) ==> is_white(#[trigger] s[k])) && (i < j
            ==> !is_white(s[i]) && !is_white(s[j - 1]));
    if trim(s).len() > 0 {
        assert(!is_white(s[i]));
    }
}

/// What is reported of a failed start is the tail of each stream that holds
/// anything but white space: standard output first, then standard error.
pub proof fn law_startup_tails(out: Option<Seq<char>>, err: Option<Seq<char>>, n: nat)
    ensures
        ({
            let x = tail(out, n);
            let y = tail(err, n);
            let says_x = exists|i: int| 0 <= i < x.len() && !is_white(#[trigger] x[i]);
            let says_y = exists|i: int| 0 <= i < y.len() && !is_white(#[trigger] y[i]);
            &&& says_x && says_y ==> telling_tails(out, err, n) == seq![x, y]
            &&& says_x && !says_y ==> telling_tails(out, err, n) == seq![x]
            &&& !says_x && says_y ==> telling_tails(out, err, n) == seq![y]
            &&& !says_x && !says_y ==> telling_tails(out, err, n).len() == 0
        }),
{
    lemma_says_something(tail(out, n));
    lemma_says_something(tail(err, n));
    assert(seq![tail(out, n)].push(tail(err, n)) == seq![tail(out, n), tail(err, n)]);
    assert(Seq::<Seq<char>>::empty().push(tail(err, n)) == seq![tail(err, n)]);
}

/// A line is about loading plugins where it names a plugin or the module
/// `ast_utils`, in any case, and it is kept as it is.
pub proof fn law_plugin_lines(line: Seq<char>)
    ensures
        has_part(lower(line), "plugin"@) || has_part(lower(line), "ast_utils"@)
            ==> plugin_line()(line) == Some(line),
        !has_part(lower(line), "plugin"@) && !has_part(lower(line), "ast_utils"@)
            ==> plugin_line()(line) is None,
{
}

/// What is reported of a command: whether it ran, and all that is known of how
/// it ended.
pub proof fn law_command_reports(
    error: String,
    success: bool,
    code: Option<i32>,
    out: Vec<u8>,
    err: Vec<u8>,
    timeout: Span,
)
    ensures
        ({
            let report = command_report(CommandRun::NotStarted { error });
            let m = report->Object_0;
            &&& report is Object
            &&& m.len() == 2
            &&& m[0] == ("status"@, JsonView::Text("missing"@))
            &&& m[1] == ("error"@, JsonView::Text(error@))
        }),
        ({
            let report = command_report(CommandRun::WaitFailed { error });
            let m = report->Object_0;
            &&& report is Object
            &&& m.len() == 2
            &&& m[0] == ("status"@, JsonView::Text("error"@))
            &&& m[1] == ("error"@, JsonView::Text(error@))
        }),
        ({
            let report = command_report(CommandRun::TimedOut { timeout });
            let m = report->Object_0;
            &&& report is Object
            &&& m.len() == 2
            &&& m[0] == ("status"@, JsonView::Text("timeout"@))
            &&& m[1].0 == "timeout_ms"@
            &&& m[1].1 == JsonView::Number(NumberView::Whole((timeout@ / 1_000_000) as int))
        }),
        ({
            let report = command_report(
                CommandRun::Exited { success, code, output: Ok((out, err)) },
            );
            let m = report->Object_0;
            &&& report is Object
            &&& m.len() == 4
            &&& m[0].0 == "status"@
            &&& success ==> m[0].1 == JsonView::Text("ok"@)
            &&& !success ==> m[0].1 == JsonView::Text("error"@)
            &&& m[1].0 == "code"@
            &&& code is None ==> m[1].1 == JsonView::Null
            &&& code is Some ==> m[1].1 == JsonView::Number(NumberView::Whole(code->0 as int))
            &&& m[2] == ("stdout"@, JsonView::Text(trim(lossy(out@))))
            &&& m[3] == ("stderr"@, JsonView::Text(trim(lossy(err@))))
        }),
        ({
            let report = command_report(CommandRun::Exited { success, code, output: Err(error) });
            let m = report->Object_0;
            &&& report is Object
            &&& m.len() == 4
            &&& m[0].0 == "status"@
            &&& success ==> m[0].1 == JsonView::Text("ok"@)
            &&& !success ==> m[0].1 == JsonView::Text("error"@)
            &&& m[1].0 == "code"@
            &&& code is None ==> m[1].1 == JsonView::Null
            &&& code is Some ==> m[1].1 == JsonView::Number(NumberView::Whole(code->0 as int))
            &&& m[2] == ("stdout"@, JsonView::Text(Seq::empty()))
            &&& m[3] == ("stderr"@, JsonView::Text(error@))
        }),
{
}

/// The signal goes to the whole group exactly when the process leads its own,
/// to the process alone in any other group or none, and nowhere when the pid
/// is zero or no positive number of 31 bits: it never goes to the caller's own
/// group, nor to every process.
pub proof fn law_signals_reach_the_process_or_its_group(pid: u32, pgid: Option<u32>)
    ensures
        kill_target(pid, pgid) is Some <==> 1 <= pid <= 0x7fff_ffff,
        1 <= pid <= 0x7fff_ffff && pgid == Some(pid) ==> kill_target(pid, pgid) == Some(0 - pid),
        1 <= pid <= 0x7fff_ffff && pgid != Some(pid) ==> kill_target(pid, pgid) == Some(
            pid as int,
        ),
{
}

/// An order to kill names what it is for and the one target that the pid and
/// its group allow, and warns when the group or the pid is not to be had.
pub proof fn law_kill_orders(order: KillOrder, what: Seq<char>, pid: u32, pgid: Option<u32>)
    requires
        orders_kill(order, what, pid, pgid),
    ensures
        order.what@ == what,
        order.target is Some <==> 1 <= pid <= 0x7fff_ffff,
        order.target is Some && pgid == Some(pid) ==> order.target->0 as int == 0 - pid
            && order.notice is None,
        order.target is Some && pgid != Some(pid) ==> {
            &&& order.target->0 as int == pid
            &&& order.notice is Some
            &&& order.notice->0.level == NoticeLevel::Warn
            &&& order.notice->0.text@ == what
                + ": not a process group leader, so its why3server may survive"@
        },
        order.target is None ==> {
            &&& order.notice is Some
            &&& order.notice->0.level == NoticeLevel::Error
            &&& order.notice->0.text@ == what + ": refusing to signal an unusable pid"@
        },
{
}

/// What is logged before and after a signal.
pub proof fn law_kill_notices(what: Seq<char>, target: int)
    ensures
        kill_notice(what, None) == Some(
            (NoticeLevel::Error, what + ": refusing to signal an unusable pid"@),
        ),
        target > 0 ==> kill_notice(what, Some(target)) == Some(
            (
                NoticeLevel::Warn,
                what + ": not a process group leader, so its why3server may survive"@,
            ),
        ),
        target < 0 ==> kill_notice(what, Some(target)) is None,
        answer_notice(what, SignalAnswer::Delivered) is None,
        answer_notice(what, SignalAnswer::NoSuchProcess) == Some(
            (NoticeLevel::Debug, what + ": no group left to signal"@),
        ),
        answer_notice(what, SignalAnswer::NotPermitted) == Some(
            (
                NoticeLevel::Error,
                what + ": group partly signalled, or it is not ours after pid reuse"@,
            ),
        ),
        answer_notice(what, SignalAnswer::Failed) == Some(
            (NoticeLevel::Error, what + ": could not kill the group"@),
        ),
{
}

/// A notice stands for its level and its text, and a missing one for nothing.
pub proof fn law_notices_stand_for_themselves(notice: Notice)
    ensures
        opt_notice(Some(notice)) == Some((notice.level, notice.text@)),
        opt_notice(None) is None,
{
}

/// The group of a listed process is the first word of the listing, where that
/// is a number; a process that could not be listed has none.
pub proof fn law_listings_name_the_group(listing: Seq<char>, bytes: Vec<u8>)
    ensures
        words(listing).len() == 0 ==> listed_group(listing) is None,
        words(listing).len() > 0 ==> listed_group(listing) == u32_value(words(listing)[0]),
        listing_text(Some(bytes)) == lossy(bytes@),
        listing_text(None).len() == 0,
{
}

/// A failure to connect is worth another try where there is no socket yet or it
/// refuses, and only a refusal counts as one.
pub proof fn law_failures_worth_another_try(error: ErrorView)
    ensures
        not_listening_yet(error) <==> error is Io && (error->Io_kind
            == IoErrorKind::ConnectionRefused || error->Io_kind == IoErrorKind::NotFound),
        refused(error) <==> error is Io && error->Io_kind == IoErrorKind::ConnectionRefused,
{
}

/// The message for a server that never listened names the socket, how long it
/// was waited for, and the last error.
pub proof fn law_never_listened(socket: Seq<char>, timeout: nat, error: Seq<char>)
    ensures
        never_listened_text(socket, timeout, error) == "frama-c never listened on "@ + socket
            + " within "@ + span_text(timeout) + ": "@ + error,
{
}

} // verus!
