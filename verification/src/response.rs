//! What the server answers, and how an answer travels and is logged.

use vstd::prelude::*;
use vstd::utf8::{encode_utf8, is_char_boundary};
use crate::clock::unix_time_nanos;
use crate::status::{Status, StatusView};
use crate::text::{append_decimal, decimal};
use crate::wire::{le_bytes, put_u64_le};

verus! {

/// The longest message, in bytes, that an error frame can carry.
pub const MAX_ERROR_BYTES: usize = 255;

/// An answer to one request.
#[derive(Debug)]
pub enum Response {
    Reserve { id: u64 },
    Calc,
    Poll { status: Status },
    Error { error: String },
}

/// A `Response` with its bytes and its message as sequences.
pub enum ResponseView {
    Reserve { id: u64 },
    Calc,
    Poll { status: StatusView },
    Error { error: Seq<char> },
}

/// The greatest number of bytes up to `limit` at which the text `bytes` can
/// be cut without parting a character.
pub open spec fn error_cut(bytes: Seq<u8>, limit: int) -> int
    decreases limit,
{
    if limit <= 0 {
        0
    } else if is_char_boundary(bytes, limit) {
        limit
    } else {
        error_cut(bytes, limit - 1)
    }
}

/// The bytes of a message that an error frame carries: all of them where
/// they are 255 at most, else as many whole characters as fit in 255 bytes.
pub open spec fn error_bytes(message: Seq<char>) -> Seq<u8> {
    let bytes = encode_utf8(message);
    let limit = if bytes.len() <= MAX_ERROR_BYTES {
        bytes.len() as int
    } else {
        MAX_ERROR_BYTES as int
    };
    bytes.subrange(0, error_cut(bytes, limit))
}

impl ResponseView {
    /// The first byte of the frame.
    pub open spec fn wire_code(self) -> u8 {
        match self {
            ResponseView::Reserve { .. } => 0,
            ResponseView::Calc => 1,
            ResponseView::Poll { .. } => 2,
            ResponseView::Error { .. } => 3,
        }
    }

    /// The word for this kind of answer in log lines.
    pub open spec fn name(self) -> Seq<char> {
        match self {
            ResponseView::Reserve { .. } => "reserve"@,
            ResponseView::Calc => "calc"@,
            ResponseView::Poll { .. } => "poll"@,
            ResponseView::Error { .. } => "error"@,
        }
    }

    /// What follows the first byte of the frame.
    pub open spec fn body(self) -> Seq<u8> {
        match self {
            ResponseView::Reserve { id } => le_bytes(id as nat, 8),
            ResponseView::Calc => Seq::empty(),
            ResponseView::Poll { status } => match status {
                StatusView::Completed { matrix_bytes } => seq![status.wire_code()] + matrix_bytes,
                _ => seq![status.wire_code()],
            },
            ResponseView::Error { error } => seq![error_bytes(error).len() as u8] + error_bytes(
                error,
            ),
        }
    }

    /// The answer as it travels.
    pub open spec fn frame(self) -> Seq<u8> {
        seq![self.wire_code()] + self.body()
    }

    /// The fields of the log line that depend on the kind of answer.
    pub open spec fn json_fields(self) -> Seq<char> {
        "\"type\":\""@ + self.name() + "\""@ + (match self {
            ResponseView::Reserve { id } => ",\"id\":\""@ + decimal(id as nat) + "\""@,
            ResponseView::Calc => Seq::empty(),
            ResponseView::Poll { status } => ",\"status\":\""@ + status.name() + "\""@,
            ResponseView::Error { error } => ",\"message\":\""@ + error + "\""@,
        })
    }

    /// The log line of this answer to the client `client_id` at `time`.
    pub open spec fn json(self, client_id: u16, time: u128) -> Seq<char> {
        "{\"client\":\""@ + decimal(client_id as nat) + "\",\"time\":\""@ + decimal(time as nat)
            + "\",\"kind\":\"response\","@ + self.json_fields() + "}"@
    }
}

impl View for Response {
    type V = ResponseView;

    open spec fn view(&self) -> ResponseView {
        match self {
            Response::Reserve { id } => ResponseView::Reserve { id: *id },
            Response::Calc => ResponseView::Calc,
            Response::Poll { status } => ResponseView::Poll { status: status@ },
            Response::Error { error } => ResponseView::Error { error: error@ },
        }
    }
}

/// An error frame never says more than 255, and says how many bytes follow.
pub proof fn lemma_error_bytes_len(message: Seq<char>)
    ensures
        error_bytes(message).len() <= MAX_ERROR_BYTES,
        encode_utf8(message).len() <= MAX_ERROR_BYTES ==> error_bytes(message) == encode_utf8(
            message,
        ),
{
    let bytes = encode_utf8(message);
    vstd::utf8::encode_utf8_valid_utf8(message);
    vstd::utf8::is_char_boundary_start_end_of_seq(bytes);
    if bytes.len() <= MAX_ERROR_BYTES {
        lemma_error_cut(bytes, bytes.len() as int);
        assert(error_bytes(message) =~= bytes);
    } else {
        lemma_error_cut(bytes, MAX_ERROR_BYTES as int);
    }
}

proof fn lemma_error_cut(bytes: Seq<u8>, limit: int)
    requires
        0 <= limit <= bytes.len(),
    ensures
        0 <= error_cut(bytes, limit) <= limit,
        is_char_boundary(bytes, limit) ==> error_cut(bytes, limit) == limit,
    decreases limit,
{
    if limit > 0 && !is_char_boundary(bytes, limit) {
        lemma_error_cut(bytes, limit - 1);
    }
}

/// Appends the first `count` bytes of `bytes`.
fn append_prefix(out: &mut Vec<u8>, bytes: &[u8], count: usize)
    requires
        count <= bytes@.len(),
    ensures
        final(out)@ == old(out)@ + bytes@.subrange(0, count as int),
{
    let mut k: usize = 0;
    while k < count
        invariant
            k <= count <= bytes@.len(),
            out@ == old(out)@ + bytes@.subrange(0, k as int),
        decreases count - k,
    {
        out.push(bytes[k]);
        k = k + 1;
        assert(out@ =~= old(out)@ + bytes@.subrange(0, k as int));
    }
}

impl Response {
    /// The first byte of the frame.
    pub fn code(&self) -> (code: u8)
        ensures
            code == self@.wire_code(),
    {
        match self {
            Response::Reserve { .. } => 0,
            Response::Calc => 1,
            Response::Poll { .. } => 2,
            Response::Error { .. } => 3,
        }
    }

    /// The word for this kind of answer in log lines.
    pub fn name(&self) -> (name: String)
        ensures
            name@ == self@.name(),
    {
        match self {
            Response::Reserve { .. } => String::from_str("reserve"),
            Response::Calc => String::from_str("calc"),
            Response::Poll { .. } => String::from_str("poll"),
            Response::Error { .. } => String::from_str("error"),
        }
    }

    /// Puts the frame of this answer at the end of the outgoing bytes.
    pub fn send(self, stream: &mut Vec<u8>)
        ensures
            final(stream)@ == old(stream)@ + self@.frame(),
    {
        let ghost frame = self@.frame();
        stream.push(self.code());
        match self {
            Response::Reserve { id } => {
                put_u64_le(stream, id);
            },
            Response::Calc => {},
            Response::Poll { status } => {
                stream.push(status.code());
                match status {
                    Status::Completed { matrix_bytes } => {
                        let mut bytes = matrix_bytes;
                        stream.append(&mut bytes);
                    },
                    _ => {},
                }
            },
            Response::Error { error } => {
                let text = error.as_str();
                let bytes = text.as_bytes();
                let mut cut: usize = if bytes.len() <= MAX_ERROR_BYTES {
                    bytes.len()
                } else {
                    MAX_ERROR_BYTES
                };
                let ghost limit = cut as int;
                while cut > 0 && !text.is_char_boundary(cut)
                    invariant
                        bytes@ == encode_utf8(error@),
                        text@ == error@,
                        0 <= cut <= limit <= bytes@.len(),
                        error_cut(bytes@, cut as int) == error_cut(bytes@, limit),
                    decreases cut,
                {
                    cut = cut - 1;
                }
                proof {
                    lemma_error_cut(bytes@, cut as int);
                    lemma_error_bytes_len(error@);
                }
                stream.push(cut as u8);
                append_prefix(stream, bytes, cut);
            },
        }
        assert(stream@ =~= old(stream)@ + frame);
    }

    /// The log line of this answer to the client `client_id` at `time`,
    /// nanoseconds since the start of 1970.
    pub fn to_json_string_at(&self, client_id: u16, time: u128) -> (line: String)
        ensures
            line@ == self@.json(client_id, time),
    {
        let mut line = String::from_str("{\"client\":\"");
        append_decimal(&mut line, client_id as u128);
        line.append("\",\"time\":\"");
        append_decimal(&mut line, time);
        line.append("\",\"kind\":\"response\",");
        line.append("\"type\":\"");
        line.append(self.name().as_str());
        line.append("\"");
        match self {
            Response::Reserve { id } => {
                line.append(",\"id\":\"");
                append_decimal(&mut line, *id as u128);
                line.append("\"");
            },
            Response::Calc => {},
            Response::Poll { status } => {
                line.append(",\"status\":\"");
                line.append(status.name().as_str());
                line.append("\"");
            },
            Response::Error { error } => {
                line.append(",\"message\":\"");
                line.append(error.as_str());
                line.append("\"");
            },
        }
        line.append("}");
        assert(line@ =~= self@.json(client_id, time));
        line
    }

    /// The log line of this answer to the client `client_id`, with the time
    /// that the system clock shows.
    pub fn to_json_string(&self, client_id: u16) -> (line: String)
        ensures
            exists|time: u128| line@ == self@.json(client_id, time),
    {
        let time = unix_time_nanos();
        self.to_json_string_at(client_id, time)
    }
}

impl<'a> From<&'a Response> for u8 {
    fn from(value: &'a Response) -> (code: u8) {
        value.code()
    }
}

impl<'a> vstd::std_specs::convert::FromSpecImpl<&'a Response> for u8 {
    open spec fn obeys_from_spec() -> bool {
        true
    }

    open spec fn from_spec(value: &'a Response) -> u8 {
        value@.wire_code()
    }
}

impl<'a> From<&'a Response> for String {
    fn from(value: &'a Response) -> (name: String)
        ensures
            name@ == value@.name(),
    {
        value.name()
    }
}

impl<'a> vstd::std_specs::convert::FromSpecImpl<&'a Response> for String {
    open spec fn obeys_from_spec() -> bool {
        false
    }

    open spec fn from_spec(value: &'a Response) -> String {
        arbitrary()
    }
}

} // verus!
