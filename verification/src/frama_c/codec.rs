//! The messages of the Frama-C server protocol.

use vstd::prelude::*;
use vstd::string::StringExecFns;

use crate::digits::{hex_char, hex_char_of, hex_digit, is_hex};
use crate::error::{ErrorView, FramaCError};
use crate::json::{
    compact, lemma_object_view, member, member_models, no_members, Json, JsonView,
};
use crate::text::{chars_of, same};

verus! {

/// A message to the server.
#[derive(Debug)]
pub enum FramaCCommand {
    /// A query that is answered at once.
    Get { id: String, request: String, data: Json },
    /// A change of state, which is queued.
    SetState { id: String, request: String, data: Json },
    /// A long operation, which is queued.
    Exec { id: String, request: String, data: Json },
    /// Work through the queue and answer what is there.
    Poll,
    /// Cancel a queued operation.
    Kill { id: String },
    /// End the server process.
    Shutdown,
}

/// What a [`FramaCCommand`] stands for.
pub enum CommandView {
    Get { id: Seq<char>, request: Seq<char>, data: JsonView },
    SetState { id: Seq<char>, request: Seq<char>, data: JsonView },
    Exec { id: Seq<char>, request: Seq<char>, data: JsonView },
    Poll,
    Kill { id: Seq<char> },
    Shutdown,
}

impl View for FramaCCommand {
    type V = CommandView;

    open spec fn view(&self) -> CommandView {
        match *self {
            FramaCCommand::Get { id, request, data } => CommandView::Get {
                id: id@,
                request: request@,
                data: data@,
            },
            FramaCCommand::SetState { id, request, data } => CommandView::SetState {
                id: id@,
                request: request@,
                data: data@,
            },
            FramaCCommand::Exec { id, request, data } => CommandView::Exec {
                id: id@,
                request: request@,
                data: data@,
            },
            FramaCCommand::Poll => CommandView::Poll,
            FramaCCommand::Kill { id } => CommandView::Kill { id: id@ },
            FramaCCommand::Shutdown => CommandView::Shutdown,
        }
    }
}

/// A message from the server.
#[derive(Debug)]
pub enum FramaCResponse {
    /// The request succeeded.
    Data { id: String, data: Json },
    /// The request failed.
    Error { id: String, msg: String },
    /// The operation was cancelled.
    Killed { id: String },
    /// The request is not known.
    Rejected { id: String },
    /// The operation is still running.
    Signal { id: String },
    /// The server is working through its command line.
    CmdLineOn,
    /// The server is ready.
    CmdLineOff,
}

/// What a [`FramaCResponse`] stands for.
pub enum ResponseView {
    Data { id: Seq<char>, data: JsonView },
    Error { id: Seq<char>, msg: Seq<char> },
    Killed { id: Seq<char> },
    Rejected { id: Seq<char> },
    Signal { id: Seq<char> },
    CmdLineOn,
    CmdLineOff,
}

impl View for FramaCResponse {
    type V = ResponseView;

    open spec fn view(&self) -> ResponseView {
        match *self {
            FramaCResponse::Data { id, data } => ResponseView::Data { id: id@, data: data@ },
            FramaCResponse::Error { id, msg } => ResponseView::Error { id: id@, msg: msg@ },
            FramaCResponse::Killed { id } => ResponseView::Killed { id: id@ },
            FramaCResponse::Rejected { id } => ResponseView::Rejected { id: id@ },
            FramaCResponse::Signal { id } => ResponseView::Signal { id: id@ },
            FramaCResponse::CmdLineOn => ResponseView::CmdLineOn,
            FramaCResponse::CmdLineOff => ResponseView::CmdLineOff,
        }
    }
}

// ---------------------------------------------------------------------------
// Messages as JSON
// ---------------------------------------------------------------------------

/// The JSON of a request.
pub open spec fn request_json(
    kind: Seq<char>,
    id: Seq<char>,
    request: Seq<char>,
    data: JsonView,
) -> JsonView {
    JsonView::Object(
        seq![
            ("cmd"@, JsonView::Text(kind)),
            ("id"@, JsonView::Text(id)),
            ("request"@, JsonView::Text(request)),
            ("data"@, data),
        ],
    )
}

/// The JSON of a command.
pub open spec fn command_json(command: CommandView) -> JsonView {
    match command {
        CommandView::Get { id, request, data } => request_json("GET"@, id, request, data),
        CommandView::SetState { id, request, data } => request_json("SET"@, id, request, data),
        CommandView::Exec { id, request, data } => request_json("EXEC"@, id, request, data),
        CommandView::Poll => JsonView::Text("POLL"@),
        CommandView::Kill { id } => JsonView::Object(
            seq![("cmd"@, JsonView::Text("KILL"@)), ("id"@, JsonView::Text(id))],
        ),
        CommandView::Shutdown => JsonView::Text("SHUTDOWN"@),
    }
}

/// The JSON of a request.
fn make_request(kind: &str, id: &str, request: &str, data: &Json) -> (r: Json)
    ensures
        r@ == request_json(kind@, id@, request@, data@),
{
    broadcast use lemma_object_view;
    let mut out = no_members();
    member(&mut out, "cmd", Json::text(kind));
    member(&mut out, "id", Json::text(id));
    member(&mut out, "request", Json::text(request));
    member(&mut out, "data", data.clone());
    assert(member_models(out@) == request_json(kind@, id@, request@, data@)->Object_0);
    Json::Object(out)
}

/// The JSON of the command that cancels a request.
fn make_kill(id: &str) -> (r: Json)
    ensures
        r@ == command_json(CommandView::Kill { id: id@ }),
{
    broadcast use lemma_object_view;
    let mut out = no_members();
    member(&mut out, "cmd", Json::text("KILL"));
    member(&mut out, "id", Json::text(id));
    assert(member_models(out@) == command_json(CommandView::Kill { id: id@ })->Object_0);
    Json::Object(out)
}

/// The text that sends a command.
pub fn encode_command(command: &FramaCCommand) -> (r: String)
    ensures
        r@ == compact(command_json(command@)),
{
    let json = match command {
        FramaCCommand::Get { id, request, data } => make_request(
            "GET",
            id.as_str(),
            request.as_str(),
            data,
        ),
        FramaCCommand::SetState { id, request, data } => make_request(
            "SET",
            id.as_str(),
            request.as_str(),
            data,
        ),
        FramaCCommand::Exec { id, request, data } => make_request(
            "EXEC",
            id.as_str(),
            request.as_str(),
            data,
        ),
        FramaCCommand::Poll => Json::text("POLL"),
        FramaCCommand::Kill { id } => make_kill(id.as_str()),
        FramaCCommand::Shutdown => Json::text("SHUTDOWN"),
    };
    json.to_compact()
}

/// The response that a message is: one of the two notices about the command
/// line, or an object that says what it is and which request it belongs to.
pub open spec fn response_of(message: JsonView) -> Option<ResponseView> {
    if message == JsonView::Text("CMDLINEON"@) {
        Some(ResponseView::CmdLineOn)
    } else if message == JsonView::Text("CMDLINEOFF"@) {
        Some(ResponseView::CmdLineOff)
    } else {
        match (message.text_at("res"@), message.text_at("id"@)) {
            (Some(res), Some(id)) => if res == "DATA"@ {
                Some(ResponseView::Data { id, data: message.get_or_null("data"@) })
            } else if res == "ERROR"@ {
                match message.text_at("msg"@) {
                    Some(msg) => Some(ResponseView::Error { id, msg }),
                    None => None,
                }
            } else if res == "KILLED"@ {
                Some(ResponseView::Killed { id })
            } else if res == "REJECTED"@ {
                Some(ResponseView::Rejected { id })
            } else if res == "SIGNAL"@ {
                Some(ResponseView::Signal { id })
            } else {
                None
            },
            _ => None,
        }
    }
}

/// The response that a message is. One that is none gives an error that shows
/// it.
pub fn decode_response(message: &Json) -> (r: Result<FramaCResponse, FramaCError>)
    ensures
        match r {
            Ok(response) => response_of(message@) == Some(response@),
            Err(error) => response_of(message@) is None && error@ == (ErrorView::Malformed {
                text: compact(message@),
            }),
        },
{
    if let Some(notice) = message.as_str() {
        if same(notice, "CMDLINEON") {
            return Ok(FramaCResponse::CmdLineOn);
        }
        if same(notice, "CMDLINEOFF") {
            return Ok(FramaCResponse::CmdLineOff);
        }
    }
    if let (Some(res), Some(id)) = (message.text_at("res"), message.text_at("id")) {
        let id = id.to_owned();
        if same(res, "DATA") {
            return Ok(FramaCResponse::Data { id, data: message.get_or_null("data") });
        }
        if same(res, "ERROR") {
            if let Some(msg) = message.text_at("msg") {
                return Ok(FramaCResponse::Error { id, msg: msg.to_owned() });
            }
        } else if same(res, "KILLED") {
            return Ok(FramaCResponse::Killed { id });
        } else if same(res, "REJECTED") {
            return Ok(FramaCResponse::Rejected { id });
        } else if same(res, "SIGNAL") {
            return Ok(FramaCResponse::Signal { id });
        }
    }
    Err(FramaCError::Malformed { text: message.to_compact() })
}

// ---------------------------------------------------------------------------
// Frames
// ---------------------------------------------------------------------------

/// The tag of a frame of this length, and the number of digits behind it.
pub open spec fn frame_shape(length: nat) -> (char, nat) {
    if length <= 0xfff {
        ('S', 3)
    } else if length <= 0xfff_ffff {
        ('L', 7)
    } else {
        ('W', 15)
    }
}

/// `n` in lower-case hexadecimal, in so many digits.
pub open spec fn padded_hex(n: nat, width: nat) -> Seq<char>
    decreases width,
{
    if width == 0 {
        Seq::empty()
    } else {
        padded_hex(n / 16, (width - 1) as nat).push(hex_char((n % 16) as int))
    }
}

/// What stands in front of a message of this length.
pub open spec fn frame_header(length: nat) -> Seq<char> {
    let (tag, width) = frame_shape(length);
    seq![tag] + padded_hex(length, width)
}

/// The value of a hexadecimal digit.
pub open spec fn hex_digit_value(c: char) -> nat {
    if '0' <= c <= '9' {
        (c as int - '0' as int) as nat
    } else if 'a' <= c <= 'f' {
        (c as int - 'a' as int + 10) as nat
    } else {
        (c as int - 'A' as int + 10) as nat
    }
}

/// The number that a run of hexadecimal digits stands for.
pub open spec fn hex_value(s: Seq<char>) -> nat
    decreases s.len(),
{
    if s.len() == 0 {
        0
    } else {
        hex_value(s.drop_last()) * 16 + hex_digit_value(s.last())
    }
}

/// Whether every character of `s` is a hexadecimal digit.
pub open spec fn all_hex(s: Seq<char>) -> bool {
    forall|i: int| 0 <= i < s.len() ==> is_hex(#[trigger] s[i])
}

/// How many digits follow the tag of a frame.
pub open spec fn digits_after(tag: char) -> Option<nat> {
    if tag == 'S' {
        Some(3)
    } else if tag == 'L' {
        Some(7)
    } else if tag == 'W' {
        Some(15)
    } else {
        None
    }
}

/// How many digits follow the tag of a frame.
pub fn header_digits(tag: char) -> (r: Option<usize>)
    ensures
        match r {
            Some(n) => digits_after(tag) == Some(n as nat),
            None => digits_after(tag) is None,
        },
{
    match tag {
        'S' => Some(3),
        'L' => Some(7),
        'W' => Some(15),
        _ => None,
    }
}

/// `n` in lower-case hexadecimal, in so many digits.
fn padded_hex_of(n: u64, width: usize) -> (r: String)
    ensures
        r@ == padded_hex(n as nat, width as nat),
    decreases width,
{
    if width == 0 {
        return String::new();
    }
    let mut out = padded_hex_of(n / 16, width - 1);
    out.push(hex_char_of((n % 16) as u8));
    out
}

/// What stands in front of a message of this many bytes.
pub fn encode_header(length: u64) -> (r: String)
    requires
        length < 0x1000_0000_0000_0000,
    ensures
        r@ == frame_header(length as nat),
{
    let mut out = String::new();
    let width: usize = if length <= 0xfff {
        out.push('S');
        3
    } else if length <= 0xfff_ffff {
        out.push('L');
        7
    } else {
        out.push('W');
        15
    };
    out.append(padded_hex_of(length, width).as_str());
    assert(out@ == frame_header(length as nat));
    out
}

/// The value of a hexadecimal digit.
fn digit_value(c: char) -> (r: u64)
    requires
        is_hex(c),
    ensures
        r == hex_digit_value(c),
        r < 16,
{
    let code: u8 = c as u8;
    if '0' <= c && c <= '9' {
        (code - 48u8) as u64
    } else if 'a' <= c && c <= 'f' {
        (code - 87u8) as u64
    } else {
        (code - 55u8) as u64
    }
}

/// The length that the digits of a header state; nothing where one is no
/// hexadecimal digit, or where there are more than any header has.
pub fn decode_length(digits: &str) -> (r: Option<u64>)
    ensures
        match r {
            Some(n) => digits@.len() <= 15 && all_hex(digits@) && n == hex_value(digits@),
            None => digits@.len() > 15 || !all_hex(digits@),
        },
{
    let chars = chars_of(digits);
    if chars.len() > 15 {
        return None;
    }
    let mut total: u64 = 0;
    let mut i: usize = 0;
    assert(chars@.take(0) == Seq::<char>::empty());
    while i < chars.len()
        invariant
            i <= chars@.len() <= 15,
            chars@ == digits@,
            total == hex_value(chars@.take(i as int)),
            total < power16(i as nat),
            forall|k: int| 0 <= k < i ==> is_hex(#[trigger] chars@[k]),
        decreases chars@.len() - i,
    {
        let c = chars[i];
        if !hex_digit(c) {
            assert(!is_hex(digits@[i as int]));
            return None;
        }
        proof {
            lemma_power16_bound(i as nat);
            assert(power16((i + 1) as nat) == 16 * power16(i as nat));
            assert(chars@.take(i + 1).drop_last() == chars@.take(i as int));
        }
        total = total * 16 + digit_value(c);
        i = i + 1;
    }
    assert(chars@.take(i as int) == chars@);
    Some(total)
}

/// Sixteen to the power of `n`.
pub open spec fn power16(n: nat) -> nat
    decreases n,
{
    if n == 0 {
        1
    } else {
        16 * power16((n - 1) as nat)
    }
}

proof fn lemma_power16_bound(n: nat)
    requires
        n < 15,
    ensures
        16 * power16(n) <= 0x1000_0000_0000_0000,
    decreases n,
{
    reveal_with_fuel(power16, 16);
}

proof fn lemma_padded_hex(n: nat, width: nat)
    requires
        n < power16(width),
    ensures
        padded_hex(n, width).len() == width,
        all_hex(padded_hex(n, width)),
        hex_value(padded_hex(n, width)) == n,
    decreases width,
{
    if width > 0 {
        lemma_padded_hex(n / 16, (width - 1) as nat);
        let s = padded_hex(n, width);
        assert(s.drop_last() == padded_hex(n / 16, (width - 1) as nat));
        assert forall|i: int| 0 <= i < s.len() implies is_hex(#[trigger] s[i]) by {
            if i < s.len() - 1 {
                assert(s[i] == s.drop_last()[i]);
            }
        }
    }
}

/// Reading a header gives back the length that it was written for: its tag
/// says how many digits follow, and they state the length.
pub proof fn law_header_reads_back(length: nat)
    requires
        length < 0x1000_0000_0000_0000,
    ensures
        ({
            let header = frame_header(length);
            &&& header.len() > 0
            &&& digits_after(header[0]) == Some((header.len() - 1) as nat)
            &&& all_hex(header.skip(1))
            &&& hex_value(header.skip(1)) == length
        }),
{
    let (tag, width) = frame_shape(length);
    assert(length < power16(width)) by {
        reveal_with_fuel(power16, 16);
    }
    lemma_padded_hex(length, width);
    assert(frame_header(length).skip(1) == padded_hex(length, width));
}

} // verus!
