//! Laws of the messages of the protocol and of their frames.

use vstd::prelude::*;

use crate::digits::{hex_char, is_hex};
use crate::frama_c::codec::{
    all_hex, command_json, digits_after, frame_header, frame_shape, hex_value, padded_hex,
    response_of, CommandView, ResponseView,
};
use crate::json::JsonView;
use crate::mcp::status::{goal_status, proved};

verus! {

/// A message is a response exactly when it says which one, in `res`, and of
/// which request, in `id`, and an error also says why; the two about the command
/// line are plain texts. The data are the member of that name, or null.
pub proof fn law_messages_are_read_by_what_they_say(m: JsonView)
    ensures
        response_of(m) == Some(ResponseView::CmdLineOn) <==> m == JsonView::Text("CMDLINEON"@),
        response_of(m) == Some(ResponseView::CmdLineOff) <==> m == JsonView::Text("CMDLINEOFF"@),
        forall|id: Seq<char>, data: JsonView|
            response_of(m) == Some(ResponseView::Data { id, data }) <==> m.text_at("res"@) == Some(
                "DATA"@,
            ) && m.text_at("id"@) == Some(id) && data == m.get_or_null("data"@),
        forall|id: Seq<char>, msg: Seq<char>|
            response_of(m) == Some(ResponseView::Error { id, msg }) <==> m.text_at("res"@) == Some(
                "ERROR"@,
            ) && m.text_at("id"@) == Some(id) && m.text_at("msg"@) == Some(msg),
        forall|id: Seq<char>|
            response_of(m) == Some(ResponseView::Killed { id }) <==> m.text_at("res"@) == Some(
                "KILLED"@,
            ) && m.text_at("id"@) == Some(id),
        forall|id: Seq<char>|
            response_of(m) == Some(ResponseView::Rejected { id }) <==> m.text_at("res"@) == Some(
                "REJECTED"@,
            ) && m.text_at("id"@) == Some(id),
        forall|id: Seq<char>|
            response_of(m) == Some(ResponseView::Signal { id }) <==> m.text_at("res"@) == Some(
                "SIGNAL"@,
            ) && m.text_at("id"@) == Some(id),
{
    reveal_strlit("CMDLINEON");
    reveal_strlit("CMDLINEOFF");
    reveal_strlit("DATA");
    reveal_strlit("ERROR");
    reveal_strlit("KILLED");
    reveal_strlit("REJECTED");
    reveal_strlit("SIGNAL");
    assert("CMDLINEON"@.len() == 9 && "CMDLINEOFF"@.len() == 10);
    assert("DATA"@.len() == 4 && "ERROR"@.len() == 5 && "REJECTED"@.len() == 8);
    assert("KILLED"@[0] == 'K' && "KILLED"@.len() == 6);
    assert("SIGNAL"@[0] == 'S' && "SIGNAL"@.len() == 6);
}

/// A command that carries a request is an object of four members, in this
/// order; a cancellation has two, and the others are plain texts.
pub proof fn law_commands_are_written_in_full(
    id: Seq<char>,
    request: Seq<char>,
    data: JsonView,
    k: int,
)
    requires
        0 <= k < 3,
    ensures
        ({
            let written = command_json(
                if k == 0 {
                    CommandView::Get { id, request, data }
                } else if k == 1 {
                    CommandView::SetState { id, request, data }
                } else {
                    CommandView::Exec { id, request, data }
                },
            );
            let m = written->Object_0;
            &&& written is Object
            &&& m.len() == 4
            &&& m[0].0 == "cmd"@
            &&& m[0].1 == JsonView::Text(
                if k == 0 {
                    seq!['G', 'E', 'T']
                } else if k == 1 {
                    seq!['S', 'E', 'T']
                } else {
                    seq!['E', 'X', 'E', 'C']
                },
            )
            &&& m[1] == ("id"@, JsonView::Text(id))
            &&& m[2] == ("request"@, JsonView::Text(request))
            &&& m[3] == ("data"@, data)
        }),
        command_json(CommandView::Poll) == JsonView::Text(seq!['P', 'O', 'L', 'L']),
        command_json(CommandView::Shutdown) == JsonView::Text(
            seq!['S', 'H', 'U', 'T', 'D', 'O', 'W', 'N'],
        ),
        ({
            let written = command_json(CommandView::Kill { id });
            let m = written->Object_0;
            &&& written is Object
            &&& m.len() == 2
            &&& m[0] == ("cmd"@, JsonView::Text(seq!['K', 'I', 'L', 'L']))
            &&& m[1] == ("id"@, JsonView::Text(id))
        }),
{
    reveal_strlit("GET");
    reveal_strlit("SET");
    reveal_strlit("EXEC");
    reveal_strlit("POLL");
    reveal_strlit("SHUTDOWN");
    reveal_strlit("KILL");
    assert("GET"@ == seq!['G', 'E', 'T']);
    assert("SET"@ == seq!['S', 'E', 'T']);
    assert("EXEC"@ == seq!['E', 'X', 'E', 'C']);
    assert("POLL"@ == seq!['P', 'O', 'L', 'L']);
    assert("SHUTDOWN"@ == seq!['S', 'H', 'U', 'T', 'D', 'O', 'W', 'N']);
    assert("KILL"@ == seq!['K', 'I', 'L', 'L']);
}

/// Two commands that are written alike are the same command.
pub proof fn law_commands_are_told_apart(a: CommandView, b: CommandView)
    requires
        command_json(a) == command_json(b),
    ensures
        a == b,
{
    reveal_strlit("GET");
    reveal_strlit("SET");
    reveal_strlit("EXEC");
    reveal_strlit("POLL");
    reveal_strlit("SHUTDOWN");
    assert("GET"@[0] == 'G' && "SET"@[0] == 'S' && "EXEC"@[0] == 'E');
    assert("POLL"@[0] == 'P' && "SHUTDOWN"@[0] == 'S');
    if command_json(a) is Object {
        let m = command_json(a)->Object_0;
        let n = command_json(b)->Object_0;
        assert(m[0] == n[0]);
        assert(m[1] == n[1]);
        if m.len() == 4 {
            assert(m[2] == n[2]);
            assert(m[3] == n[3]);
        }
    }
}

/// The header of a frame: the tag says how many hexadecimal digits follow, the
/// fewest of three, seven and fifteen that hold the length.
pub proof fn law_headers_have_a_shape(length: nat)
    ensures
        length < 0x1000 ==> frame_header(length)[0] == 'S' && frame_header(length).len() == 4,
        0x1000 <= length < 0x1000_0000 ==> frame_header(length)[0] == 'L' && frame_header(
            length,
        ).len() == 8,
        0x1000_0000 <= length ==> frame_header(length)[0] == 'W' && frame_header(length).len()
            == 16,
        digits_after(frame_header(length)[0]) == Some((frame_header(length).len() - 1) as nat),
        forall|i: int|
            1 <= i < frame_header(length).len() ==> '0' <= #[trigger] frame_header(length)[i]
                <= '9' || 'a' <= frame_header(length)[i] <= 'f',
{
    lemma_padded(length, frame_shape(length).1);
    let digits = padded_hex(length, frame_shape(length).1);
    assert forall|i: int| 1 <= i < frame_header(length).len() implies '0'
        <= #[trigger] frame_header(length)[i] <= '9' || 'a' <= frame_header(length)[i] <= 'f' by {
        assert(frame_header(length)[i] == digits[i - 1]);
    }
}

proof fn lemma_padded(n: nat, width: nat)
    ensures
        padded_hex(n, width).len() == width,
        forall|i: int|
            0 <= i < width ==> '0' <= #[trigger] padded_hex(n, width)[i] <= '9' || 'a'
                <= padded_hex(n, width)[i] <= 'f',
    decreases width,
{
    if width > 0 {
        lemma_padded(n / 16, (width - 1) as nat);
        let c = hex_char((n % 16) as int);
        assert('0' <= c <= '9' || 'a' <= c <= 'f');
    }
}

/// Hexadecimal digits, one by one: the next one counts its value, and what came
/// before counts sixteen times.
pub proof fn law_hexadecimal(s: Seq<char>, c: char)
    ensures
        is_hex(c) <==> 48 <= c as u32 <= 57 || 65 <= c as u32 <= 70 || 97 <= c as u32 <= 102,
        hex_value(Seq::<char>::empty()) == 0,
        48 <= c as u32 <= 57 ==> hex_value(s.push(c)) == 16 * hex_value(s) + (c as u32 - 48),
        97 <= c as u32 <= 102 ==> hex_value(s.push(c)) == 16 * hex_value(s) + (c as u32 - 87),
        65 <= c as u32 <= 70 ==> hex_value(s.push(c)) == 16 * hex_value(s) + (c as u32 - 55),
        all_hex(s.push(c)) <==> all_hex(s) && is_hex(c),
        all_hex(Seq::<char>::empty()),
{
    assert(s.push(c).drop_last() == s);
    if all_hex(s.push(c)) {
        assert(s.push(c)[s.len() as int] == c);
        assert forall|i: int| 0 <= i < s.len() implies is_hex(#[trigger] s[i]) by {
            assert(s.push(c)[i] == s[i]);
        }
    }
}

/// Only the three tags of a header say how many digits follow.
pub proof fn law_tags(tag: char)
    ensures
        tag != 'S' && tag != 'L' && tag != 'W' ==> digits_after(tag) is None,
{
}

/// The status of a goal is its normalized one where that is a text, else its
/// plain one where that is; and one spelling of `valid`, in small or in capital
/// letters, means proved.
pub proof fn law_goal_status(goal: JsonView, status: Seq<char>)
    ensures
        goal.text_at("normalized_status"@) is Some ==> goal_status(goal) == goal.text_at(
            "normalized_status"@,
        ),
        goal.text_at("normalized_status"@) is None ==> goal_status(goal) == goal.text_at(
            "status"@,
        ),
        proved(status) <==> status == seq!['v', 'a', 'l', 'i', 'd'] || status == seq![
            'V',
            'A',
            'L',
            'I',
            'D',
        ],
{
    reveal_strlit("valid");
    reveal_strlit("VALID");
    assert("valid"@ == seq!['v', 'a', 'l', 'i', 'd']);
    assert("VALID"@ == seq!['V', 'A', 'L', 'I', 'D']);
}

} // verus!
