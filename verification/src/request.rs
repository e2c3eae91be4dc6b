//! What a client asks for, how a request is read from the bytes of a
//! connection, carried out on the jobs of that connection, and logged.

use vstd::prelude::*;
use crate::clock::unix_time_nanos;
use crate::job::{id_not_reserved, JobManager, ManagerView};
use crate::matrix_type::MatrixType;
use crate::memory::{admitted, available_memory, matrix_len, not_enough_memory};
use crate::response::{Response, ResponseView};
use crate::task::{client_disconnected, MatrixData, MatrixView, TaskView};
use crate::text::{append_decimal, decimal};
use crate::wire::{
    get_u32_le, get_u64_le, le_bytes, le_value, lemma_fits_machine_words, lemma_le_bytes_len,
    lemma_le_value_of_bytes, put_u64_le,
};

verus! {

/// One request of a client.
#[derive(Clone, Copy, Debug, PartialEq, Eq, Structural)]
pub enum Request {
    Reserve { matrix_type: MatrixType, matrix_dimension: u32 },
    Calc { id: u64 },
    Poll { id: u64 },
}

/// Why the bytes of a connection do not give a request.
#[derive(Clone, Copy, Debug, PartialEq, Eq, Structural)]
pub enum DecodeError {
    /// The bytes end before the frame does.
    UnexpectedEof,
    /// The first byte of the frame names no kind of request.
    UnknownRequestCode { code: u8 },
    /// The byte after the first names no matrix type.
    InvalidMatrixType { code: u8 },
}

impl DecodeError {
    /// The words that describe this error.
    pub open spec fn spec_message(self) -> Seq<char> {
        match self {
            DecodeError::UnexpectedEof => "early eof"@,
            DecodeError::UnknownRequestCode { code } => "unknown request code: "@ + decimal(
                code as nat,
            ),
            DecodeError::InvalidMatrixType { code } => "Invalid matrix type code: "@ + decimal(
                code as nat,
            ),
        }
    }

    /// The words that describe this error, as a string.
    pub fn message(&self) -> (message: String)
        ensures
            message@ == self.spec_message(),
    {
        match self {
            DecodeError::UnexpectedEof => String::from_str("early eof"),
            DecodeError::UnknownRequestCode { code } => {
                let mut message = String::from_str("unknown request code: ");
                append_decimal(&mut message, *code as u128);
                message
            },
            DecodeError::InvalidMatrixType { code } => {
                let mut message = String::from_str("Invalid matrix type code: ");
                append_decimal(&mut message, *code as u128);
                message
            },
        }
    }

    /// What the server sends before it gives a connection up over this
    /// error: nothing where the bytes just ended, else the words for it.
    pub open spec fn spec_refusal(self) -> Option<ResponseView> {
        match self {
            DecodeError::UnexpectedEof => None,
            _ => Some(ResponseView::Error { error: self.spec_message() }),
        }
    }

    /// The answer to send before the connection is given up over this error,
    /// if any.
    pub fn refusal(&self) -> (response: Option<Response>)
        ensures
            match response {
                Some(r) => self.spec_refusal() == Some(r@),
                None => self.spec_refusal() is None,
            },
    {
        match self {
            DecodeError::UnexpectedEof => None,
            _ => Some(Response::Error { error: self.message() }),
        }
    }
}

impl Request {
    /// The first byte of the frame.
    pub open spec fn wire_code(self) -> u8 {
        match self {
            Request::Reserve { .. } => 0,
            Request::Calc { .. } => 1,
            Request::Poll { .. } => 2,
        }
    }

    /// The word for this kind of request in log lines.
    pub open spec fn spec_name(self) -> Seq<char> {
        match self {
            Request::Reserve { .. } => "reserve"@,
            Request::Calc { .. } => "calc"@,
            Request::Poll { .. } => "poll"@,
        }
    }

    /// The request as it travels, without the bytes of a matrix.
    pub open spec fn frame(self) -> Seq<u8> {
        match self {
            Request::Reserve { matrix_type, matrix_dimension } => seq![
                0u8,
                matrix_type.wire_code(),
            ] + le_bytes(matrix_dimension as nat, 4),
            Request::Calc { id } => seq![1u8] + le_bytes(id as nat, 8),
            Request::Poll { id } => seq![2u8] + le_bytes(id as nat, 8),
        }
    }

    /// The request at the front of `stream` and the number of bytes it takes
    /// there. The bytes are looked at in their order: an unknown first byte
    /// is refused whatever follows, and so is an unknown matrix type.
    pub open spec fn decoded(stream: Seq<u8>) -> Result<(Request, nat), DecodeError> {
        if stream.len() < 1 {
            Err(DecodeError::UnexpectedEof)
        } else if stream[0] == 0 {
            if stream.len() < 2 {
                Err(DecodeError::UnexpectedEof)
            } else {
                match MatrixType::of_wire_code(stream[1]) {
                    None => Err(DecodeError::InvalidMatrixType { code: stream[1] }),
                    Some(matrix_type) => if stream.len() < 6 {
                        Err(DecodeError::UnexpectedEof)
                    } else {
                        Ok(
                            (
                                Request::Reserve {
                                    matrix_type,
                                    matrix_dimension: le_value(stream.subrange(2, 6)) as u32,
                                },
                                6,
                            ),
                        )
                    },
                }
            }
        } else if stream[0] == 1 {
            if stream.len() < 9 {
                Err(DecodeError::UnexpectedEof)
            } else {
                Ok((Request::Calc { id: le_value(stream.subrange(1, 9)) as u64 }, 9))
            }
        } else if stream[0] == 2 {
            if stream.len() < 9 {
                Err(DecodeError::UnexpectedEof)
            } else {
                Ok((Request::Poll { id: le_value(stream.subrange(1, 9)) as u64 }, 9))
            }
        } else {
            Err(DecodeError::UnknownRequestCode { code: stream[0] })
        }
    }

    /// How many bytes have to follow the bytes `prefix` of a frame before
    /// more can be said of it: none once the frame is whole.
    pub open spec fn missing_after(prefix: Seq<u8>) -> Result<nat, DecodeError> {
        if prefix.len() < 1 {
            Ok(1)
        } else if prefix[0] == 0 {
            if prefix.len() < 2 {
                Ok(1)
            } else if MatrixType::of_wire_code(prefix[1]) is None {
                Err(DecodeError::InvalidMatrixType { code: prefix[1] })
            } else if prefix.len() < 6 {
                Ok((6 - prefix.len()) as nat)
            } else {
                Ok(0)
            }
        } else if prefix[0] == 1 || prefix[0] == 2 {
            if prefix.len() < 9 {
                Ok((9 - prefix.len()) as nat)
            } else {
                Ok(0)
            }
        } else {
            Err(DecodeError::UnknownRequestCode { code: prefix[0] })
        }
    }

    /// The fields of the log line that depend on the kind of request.
    pub open spec fn json_fields(self) -> Seq<char> {
        "\"type\":\""@ + self.spec_name() + "\""@ + (match self {
            Request::Reserve { matrix_type, matrix_dimension } => ",\"matrixType\":\""@
                + matrix_type.spec_name() + "\",\"matrixDimension\":\""@ + decimal(
                matrix_dimension as nat,
            ) + "\""@,
            Request::Calc { id } => ",\"id\":\""@ + decimal(id as nat) + "\""@,
            Request::Poll { id } => ",\"id\":\""@ + decimal(id as nat) + "\""@,
        })
    }

    /// The log line of this request of the client `client_id` at `time`.
    pub open spec fn json(self, client_id: u16, time: u128) -> Seq<char> {
        "{\"client\":\""@ + decimal(client_id as nat) + "\",\"time\":\""@ + decimal(time as nat)
            + "\",\"kind\":\"request\","@ + self.json_fields() + "}"@
    }

    /// The word for this kind of request in log lines.
    pub fn name(&self) -> (name: String)
        ensures
            name@ == self.spec_name(),
    {
        match self {
            Request::Reserve { .. } => String::from_str("reserve"),
            Request::Calc { .. } => String::from_str("calc"),
            Request::Poll { .. } => String::from_str("poll"),
        }
    }

    /// Puts the frame of this request at the end of `stream`.
    pub fn write(&self, stream: &mut Vec<u8>)
        ensures
            final(stream)@ == old(stream)@ + self.frame(),
    {
        match self {
            Request::Reserve { matrix_type, matrix_dimension } => {
                let d: u32 = *matrix_dimension;
                stream.push(0);
                stream.push(matrix_type.code());
                stream.push((d % 256) as u8);
                stream.push((d / 256 % 256) as u8);
                stream.push((d / 256 / 256 % 256) as u8);
                stream.push((d / 256 / 256 / 256 % 256) as u8);
                proof {
                    reveal_with_fuel(le_bytes, 5);
                }
            },
            Request::Calc { id } => {
                stream.push(1);
                put_u64_le(stream, *id);
            },
            Request::Poll { id } => {
                stream.push(2);
                put_u64_le(stream, *id);
            },
        }
        assert(stream@ =~= old(stream)@ + self.frame());
    }

    /// How many bytes have to be read after the bytes `prefix` of a frame
    /// before more can be said of it. Zero says that the frame is whole.
    pub fn missing(prefix: &[u8]) -> (count: Result<usize, DecodeError>)
        ensures
            match count {
                Ok(n) => Request::missing_after(prefix@) == Ok::<nat, DecodeError>(n as nat),
                Err(e) => Request::missing_after(prefix@) == Err::<nat, DecodeError>(e),
            },
    {
        let len = prefix.len();
        if len < 1 {
            return Ok(1);
        }
        let code = prefix[0];
        if code == 0 {
            if len < 2 {
                Ok(1)
            } else if MatrixType::from_code(prefix[1]).is_none() {
                Err(DecodeError::InvalidMatrixType { code: prefix[1] })
            } else if len < 6 {
                Ok(6 - len)
            } else {
                Ok(0)
            }
        } else if code == 1 || code == 2 {
            if len < 9 {
                Ok(9 - len)
            } else {
                Ok(0)
            }
        } else {
            Err(DecodeError::UnknownRequestCode { code })
        }
    }

    /// Reads the request at the front of `stream`: gives the request and the
    /// number of bytes that it takes there.
    pub fn from_stream(stream: &[u8]) -> (request: Result<(Request, usize), DecodeError>)
        ensures
            match request {
                Ok((r, used)) => Request::decoded(stream@) == Ok::<(Request, nat), DecodeError>(
                    (r, used as nat),
                ),
                Err(e) => Request::decoded(stream@) == Err::<(Request, nat), DecodeError>(e),
            },
    {
        let len = stream.len();
        if len < 1 {
            return Err(DecodeError::UnexpectedEof);
        }
        let code = stream[0];
        if code == 0 {
            if len < 2 {
                return Err(DecodeError::UnexpectedEof);
            }
            let matrix_type = match MatrixType::from_code(stream[1]) {
                Some(matrix_type) => matrix_type,
                None => {
                    return Err(DecodeError::InvalidMatrixType { code: stream[1] });
                },
            };
            if len < 6 {
                return Err(DecodeError::UnexpectedEof);
            }
            let matrix_dimension = get_u32_le(stream, 2);
            Ok((Request::Reserve { matrix_type, matrix_dimension }, 6))
        } else if code == 1 {
            if len < 9 {
                return Err(DecodeError::UnexpectedEof);
            }
            Ok((Request::Calc { id: get_u64_le(stream, 1) }, 9))
        } else if code == 2 {
            if len < 9 {
                return Err(DecodeError::UnexpectedEof);
            }
            Ok((Request::Poll { id: get_u64_le(stream, 1) }, 9))
        } else {
            Err(DecodeError::UnknownRequestCode { code })
        }
    }

    /// The log line of this request of the client `client_id` at `time`,
    /// nanoseconds since the start of 1970.
    pub fn to_json_string_at(&self, client_id: u16, time: u128) -> (line: String)
        ensures
            line@ == self.json(client_id, time),
    {
        let mut line = String::from_str("{\"client\":\"");
        append_decimal(&mut line, client_id as u128);
        line.append("\",\"time\":\"");
        append_decimal(&mut line, time);
        line.append("\",\"kind\":\"request\",");
        line.append("\"type\":\"");
        line.append(self.name().as_str());
        line.append("\"");
        match self {
            Request::Reserve { matrix_type, matrix_dimension } => {
                line.append(",\"matrixType\":\"");
                line.append(matrix_type.name().as_str());
                line.append("\",\"matrixDimension\":\"");
                append_decimal(&mut line, *matrix_dimension as u128);
                line.append("\"");
            },
            Request::Calc { id } => {
                line.append(",\"id\":\"");
                append_decimal(&mut line, *id as u128);
                line.append("\"");
            },
            Request::Poll { id } => {
                line.append(",\"id\":\"");
                append_decimal(&mut line, *id as u128);
                line.append("\"");
            },
        }
        line.append("}");
        assert(line@ =~= self.json(client_id, time));
        line
    }

    /// The log line of this request of the client `client_id`, with the time
    /// that the system clock shows.
    pub fn to_json_string(&self, client_id: u16) -> (line: String)
        ensures
            exists|time: u128| line@ == self.json(client_id, time),
    {
        let time = unix_time_nanos();
        self.to_json_string_at(client_id, time)
    }
}

impl<'a> From<&'a Request> for String {
    fn from(value: &'a Request) -> (name: String)
        ensures
            name@ == value.spec_name(),
    {
        value.name()
    }
}

impl<'a> vstd::std_specs::convert::FromSpecImpl<&'a Request> for String {
    open spec fn obeys_from_spec() -> bool {
        false
    }

    open spec fn from_spec(value: &'a Request) -> String {
        arbitrary()
    }
}

/// A frame that was written is read back as the request it was written for,
/// whatever follows it, and is whole as soon as its last byte is there.
pub proof fn lemma_request_round_trip(request: Request, rest: Seq<u8>)
    ensures
        Request::decoded(request.frame() + rest) == Ok::<(Request, nat), DecodeError>(
            (request, request.frame().len()),
        ),
        Request::missing_after(request.frame()) == Ok::<nat, DecodeError>(0),
{
    let stream = request.frame() + rest;
    match request {
        Request::Reserve { matrix_type, matrix_dimension } => {
            crate::matrix_type::lemma_wire_code_round_trip(matrix_type, 0);
            lemma_le_bytes_len(matrix_dimension as nat, 4);
            lemma_fits_machine_words(0, matrix_dimension);
            lemma_le_value_of_bytes(matrix_dimension as nat, 4);
            assert(stream.subrange(2, 6) =~= le_bytes(matrix_dimension as nat, 4));
            assert(stream[0] == 0 && stream[1] == matrix_type.wire_code());
        },
        Request::Calc { id } => {
            lemma_le_bytes_len(id as nat, 8);
            lemma_fits_machine_words(id, 0);
            lemma_le_value_of_bytes(id as nat, 8);
            assert(stream.subrange(1, 9) =~= le_bytes(id as nat, 8));
            assert(stream[0] == 1);
        },
        Request::Poll { id } => {
            lemma_le_bytes_len(id as nat, 8);
            lemma_fits_machine_words(id, 0);
            lemma_le_value_of_bytes(id as nat, 8);
            assert(stream.subrange(1, 9) =~= le_bytes(id as nat, 8));
            assert(stream[0] == 2);
        },
    }
}

/// Reading on as long as bytes are missing ends in a whole frame: nothing is
/// missing from a prefix exactly when it reads as a request that takes all
/// of it, and a prefix is refused exactly when reading it is refused for
/// another reason than its end.
pub proof fn lemma_missing_and_decoded(prefix: Seq<u8>)
    ensures
        Request::missing_after(prefix) == Ok::<nat, DecodeError>(0) <==> (Request::decoded(prefix)
            matches Ok((_, used)) && used <= prefix.len()),
        Request::missing_after(prefix) matches Ok(n) && n > 0 ==> Request::decoded(prefix) == Err::<
            (Request, nat),
            DecodeError,
        >(DecodeError::UnexpectedEof),
        Request::missing_after(prefix) matches Err(e) ==> Request::decoded(prefix) == Err::<
            (Request, nat),
            DecodeError,
        >(e) && !(e is UnexpectedEof),
{
}

impl ManagerView {
    /// Whether a reservation of a matrix of the given type and side is
    /// granted while `available` bytes of memory are free.
    pub open spec fn grants(matrix_type: MatrixType, matrix_dimension: u32, available: u64) -> bool {
        admitted(
            available as int,
            matrix_len(matrix_type.size(), matrix_dimension as nat) as int,
        ) && matrix_len(matrix_type.size(), matrix_dimension as nat) <= usize::MAX
    }

    /// The answer to `request`, with `payload` as the bytes that came with
    /// it, while `available` bytes of memory are free.
    pub open spec fn answer(self, request: Request, payload: Seq<u8>, available: u64) -> ResponseView {
        match request {
            Request::Reserve { matrix_type, matrix_dimension } => if ManagerView::grants(
                matrix_type,
                matrix_dimension,
                available,
            ) {
                ResponseView::Reserve { id: self.next_id as u64 }
            } else {
                ResponseView::Error { error: not_enough_memory() }
            },
            Request::Calc { id } => if self.takes(id, payload) {
                ResponseView::Calc
            } else if self.is_reserved(id) {
                ResponseView::Error { error: client_disconnected() }
            } else {
                ResponseView::Error { error: id_not_reserved() }
            },
            Request::Poll { id } => ResponseView::Poll { status: self.status(id) },
        }
    }

    /// The table after `request` has been carried out.
    pub open spec fn served(self, request: Request, payload: Seq<u8>, available: u64) -> ManagerView {
        match request {
            Request::Reserve { matrix_type, matrix_dimension } => if ManagerView::grants(
                matrix_type,
                matrix_dimension,
                available,
            ) {
                self.reserved(TaskView::reserved(matrix_type.size(), matrix_dimension as nat))
            } else {
                self
            },
            Request::Calc { id } => if self.takes(id, payload) {
                self.filled(id, payload).started(id)
            } else {
                self
            },
            Request::Poll { id } => self.polled(id),
        }
    }

    /// The matrix that leaves for the workers when `request` is carried out,
    /// if one does.
    pub open spec fn dispatched(self, request: Request, payload: Seq<u8>) -> Option<MatrixView> {
        match request {
            Request::Calc { id } => if self.takes(id, payload) {
                Some(self.filled(id, payload).tasks[id].order(0))
            } else {
                None
            },
            _ => None,
        }
    }
}

impl Request {
    /// Carries the request out on the jobs of its connection while
    /// `available` bytes of memory are free. `payload` holds the bytes of the
    /// matrix that came with a `Calc`. Gives the answer, and with it the
    /// matrix for the workers where a job was started.
    pub fn execute_with(
        self,
        job_manager: &mut JobManager,
        payload: Vec<u8>,
        available: u64,
    ) -> (outcome: (Response, Option<MatrixData>))
        requires
            old(job_manager)@.wf(),
            self is Reserve ==> old(job_manager)@.next_id < u64::MAX,
        ensures
            final(job_manager)@.wf(),
            outcome.0@ == old(job_manager)@.answer(self, payload@, available),
            final(job_manager)@ == old(job_manager)@.served(self, payload@, available),
            match outcome.1 {
                Some(order) => old(job_manager)@.dispatched(self, payload@) == Some(order@)
                    && order@.wf() && order@.bytes == payload@,
                None => old(job_manager)@.dispatched(self, payload@) is None,
            },
    {
        match self {
            Request::Reserve { matrix_type, matrix_dimension } => {
                match job_manager.reserve_with(matrix_type, matrix_dimension, available) {
                    Ok(id) => (Response::Reserve { id }, None),
                    Err(error) => (Response::Error { error }, None),
                }
            },
            Request::Calc { id } => match job_manager.calc(id, payload) {
                Ok(order) => (Response::Calc, Some(order)),
                Err(error) => (Response::Error { error }, None),
            },
            Request::Poll { id } => (Response::Poll { status: job_manager.poll(id) }, None),
        }
    }

    /// Carries the request out on the jobs of its connection, with the
    /// memory that the machine reports as available. Whatever is reported,
    /// the answer and the jobs are what they are for some amount of memory.
    pub fn execute(self, job_manager: &mut JobManager, payload: Vec<u8>) -> (outcome: (
        Response,
        Option<MatrixData>,
    ))
        requires
            old(job_manager)@.wf(),
            self is Reserve ==> old(job_manager)@.next_id < u64::MAX,
        ensures
            final(job_manager)@.wf(),
            exists|available: u64|
                outcome.0@ == old(job_manager)@.answer(self, payload@, available)
                    && final(job_manager)@ == #[trigger] old(job_manager)@.served(
                    self,
                    payload@,
                    available,
                ),
            match outcome.1 {
                Some(order) => old(job_manager)@.dispatched(self, payload@) == Some(order@)
                    && order@.wf() && order@.bytes == payload@,
                None => old(job_manager)@.dispatched(self, payload@) is None,
            },
    {
        let available = available_memory();
        self.execute_with(job_manager, payload, available)
    }
}

} // verus!
