use vstd::prelude::*;
use vstd::string::StringExecFns;

use crate::flags::{Flags, NO_DATA_BIT, REMOTE_CLOSED_BIT, REMOTE_OPEN_BIT};
use crate::message_type::MessageType;
use crate::frame::InvalidInput;
use crate::status::{code_number, decimal, push_decimal, Code, Status};

verus! {

/// The four shapes of a call.
#[derive(Clone, Copy, Debug, PartialEq, Eq, Structural)]
pub enum MethodKind {
    Unary,
    ServerStreaming,
    ClientStreaming,
    DuplexStreaming,
}

/// The flags that the request opening a call of each shape must carry.
pub open spec fn expected_flag_bits(kind: MethodKind) -> u8 {
    match kind {
        MethodKind::Unary => 0,
        MethodKind::ServerStreaming => REMOTE_CLOSED_BIT,
        MethodKind::ClientStreaming => (REMOTE_OPEN_BIT | NO_DATA_BIT) as u8,
        MethodKind::DuplexStreaming => (REMOTE_OPEN_BIT | NO_DATA_BIT) as u8,
    }
}

/// Whether the client streams its input, so that the request carries none.
pub open spec fn input_streamed(kind: MethodKind) -> bool {
    kind == MethodKind::ClientStreaming || kind == MethodKind::DuplexStreaming
}

/// The text of a flag-contract violation.
pub open spec fn flags_message(expected: u8, actual: u8) -> Seq<char> {
    "Invalid request flags. Expected "@ + decimal(expected as nat) + ", found "@ + decimal(actual as nat)
}

/// The flags that a request opening a call of shape `kind` must carry.
pub fn expected_request_flags(kind: MethodKind) -> (r: Flags)
    ensures
        r.bits == expected_flag_bits(kind),
{
    match kind {
        MethodKind::Unary => Flags::empty(),
        MethodKind::ServerStreaming => Flags::remote_closed(),
        MethodKind::ClientStreaming => Flags::remote_open().union(Flags::no_data()),
        MethodKind::DuplexStreaming => Flags::remote_open().union(Flags::no_data()),
    }
}

/// A request whose flags break the contract of its call shape.
pub fn invalid_request_flags(expected: Flags, actual: Flags) -> (r: Status)
    ensures
        r.is(Code::InvalidArgument, flags_message(expected.bits, actual.bits)),
{
    let mut m = "Invalid request flags. Expected ".to_owned();
    push_decimal(&mut m, expected.bits() as u64);
    m.append(", found ");
    push_decimal(&mut m, actual.bits() as u64);
    let r = Status::invalid_argument(m.as_str());
    r
}

/// A payload that does not read as the message it should be.
pub fn failed_to_decode() -> (r: Status)
    ensures
        r.is(Code::InvalidArgument, "Error decoding message"@),
{
    Status::invalid_argument("Error decoding message")
}

/// Checks the request that opens a call on the server: its flags must be
/// exactly those of the call's shape, and a call whose input is streamed
/// carries no payload in its request.
pub fn check_request(kind: MethodKind, flags: Flags, payload_len: usize) -> (r: Result<(), Status>)
    ensures
        match r {
            Ok(()) => flags.bits == expected_flag_bits(kind) && (input_streamed(kind) ==> payload_len == 0),
            Err(s) => if flags.bits != expected_flag_bits(kind) {
                s.is(Code::InvalidArgument, flags_message(expected_flag_bits(kind), flags.bits))
            } else {
                input_streamed(kind) && payload_len != 0 && s.is(
                    Code::InvalidArgument,
                    "Error decoding message"@,
                )
            },
        },
{
    let expected = expected_request_flags(kind);
    if flags.bits() != expected.bits() {
        return Err(invalid_request_flags(expected, flags));
    }
    match kind {
        MethodKind::ClientStreaming | MethodKind::DuplexStreaming => {
            if payload_len != 0 {
                return Err(failed_to_decode());
            }
        },
        _ => {},
    }
    Ok(())
}

/// What to do with one Data frame of a streamed input.
#[derive(Clone, Copy, Debug, PartialEq, Eq, Structural)]
pub struct DataStep {
    /// The frame carries an item to hand on.
    pub deliver: bool,
    /// The sender has closed its side: no more input follows.
    pub finished: bool,
}

/// Reads one frame of a streamed input: it must be a Data frame; with
/// `NO_DATA` it carries no item and its payload must be empty; with
/// `REMOTE_CLOSED` it is the last.
pub fn input_data_step(ty: MessageType, flags: Flags, payload_len: usize) -> (r: Result<DataStep, Status>)
    ensures
        match r {
            Ok(step) => {
                &&& ty == MessageType::Data
                &&& step.deliver == (flags.bits & NO_DATA_BIT != NO_DATA_BIT)
                &&& step.finished == (flags.bits & REMOTE_CLOSED_BIT == REMOTE_CLOSED_BIT)
                &&& (!step.deliver ==> payload_len == 0)
            },
            Err(s) => {
                &&& s.is(Code::InvalidArgument, "Error decoding message"@)
                &&& (ty != MessageType::Data || (flags.bits & NO_DATA_BIT == NO_DATA_BIT && payload_len != 0))
            },
        },
{
    if ty != MessageType::Data {
        return Err(failed_to_decode());
    }
    let deliver = !flags.contains(Flags::no_data());
    if !deliver && payload_len != 0 {
        return Err(failed_to_decode());
    }
    let finished = flags.contains(Flags::remote_closed());
    Ok(DataStep { deliver, finished })
}

/// What a client streaming output learns from one inbound frame.
#[derive(Clone, Debug)]
pub enum OutputStep {
    /// An item, or none for a frame with `NO_DATA`; `finished` when the
    /// server has closed its side.
    Data { deliver: bool, finished: bool },
    /// The server ended the stream with a response whose status is Ok.
    Done,
    /// The server ended the stream with an error.
    Failed(Status),
}

/// Reads one frame of a server's output stream on the client. A Response
/// ends the stream: with an Ok status (or none) normally, otherwise with its
/// status; its payload must be empty. A Data frame is read as
/// `input_data_step` reads it.
pub fn output_frame_step(ty: MessageType, flags: Flags, status: Option<Status>, payload_len: usize) -> (r: Result<OutputStep, Status>)
    ensures
        ty == MessageType::Response ==> match r {
            Ok(OutputStep::Done) => payload_len == 0 && (status matches Some(s) ==> s.code == 0),
            Ok(OutputStep::Failed(s)) => payload_len == 0 && status == Some(s) && s.code != 0,
            Ok(OutputStep::Data { .. }) => false,
            Err(s) => payload_len != 0 && s.is(Code::InvalidArgument, "Error decoding message"@),
        },
        ty != MessageType::Response ==> match r {
            Ok(OutputStep::Data { deliver, finished }) => {
                &&& ty == MessageType::Data
                &&& deliver == (flags.bits & NO_DATA_BIT != NO_DATA_BIT)
                &&& finished == (flags.bits & REMOTE_CLOSED_BIT == REMOTE_CLOSED_BIT)
                &&& (!deliver ==> payload_len == 0)
            },
            Ok(_) => false,
            Err(s) => {
                &&& s.is(Code::InvalidArgument, "Error decoding message"@)
                &&& (ty != MessageType::Data || (flags.bits & NO_DATA_BIT == NO_DATA_BIT && payload_len != 0))
            },
        },
{
    if ty == MessageType::Response {
        if payload_len != 0 {
            return Err(failed_to_decode());
        }
        return match status {
            Some(s) => if s.is_ok() {
                Ok(OutputStep::Done)
            } else {
                Ok(OutputStep::Failed(s))
            },
            None => Ok(OutputStep::Done),
        };
    }
    match input_data_step(ty, flags, payload_len) {
        Ok(step) => Ok(OutputStep::Data { deliver: step.deliver, finished: step.finished }),
        Err(s) => Err(s),
    }
}

/// Why a frame could not be handed to the writer.
#[derive(Clone, Debug)]
pub enum SendError {
    /// The connection's writer is gone.
    ChannelClosed,
    /// The frame could not be encoded.
    InvalidInput(InvalidInput),
}

/// The status a handler reports when its output could not be sent.
pub fn send_error(err: &SendError) -> (r: Status)
    ensures
        r.code == code_number(Code::Internal),
        r.message@ == match err {
            SendError::ChannelClosed => "Error sending message: "@ + "Channel closed"@,
            SendError::InvalidInput(e) => "Error sending message: "@ + "Invalid input: "@ + e.0@,
        },
        r.details@.len() == 0,
{
    let mut m = "Error sending message: ".to_owned();
    match err {
        SendError::ChannelClosed => m.append("Channel closed"),
        SendError::InvalidInput(e) => {
            m.append("Invalid input: ");
            m.append(e.0.as_str());
        },
    }
    Status::internal(m.as_str())
}

/// How the server answers a frame that opened no known stream.
#[derive(Clone, Debug)]
pub enum Admission {
    /// Decode the request and dispatch it.
    Accept,
    /// Send this error back on the stream and drop the frame.
    Reject(Status),
}

/// A request is taken only on a stream id that is free, odd, and carried by
/// a Request frame; each failure has its own error.
pub fn admit_frame(id: u32, stream_free: bool, ty: MessageType) -> (r: Admission)
    ensures
        match r {
            Admission::Accept => stream_free && id % 2 == 1 && ty == MessageType::Request,
            Admission::Reject(s) => if !stream_free {
                s.is(Code::InvalidArgument, "Stream `"@ + decimal(id as nat) + "` is already in use"@)
            } else if id % 2 != 1 {
                s.is(Code::InvalidArgument, "Stream id must be odd, found `"@ + decimal(id as nat) + "`"@)
            } else {
                ty != MessageType::Request && s.is(Code::InvalidArgument, expected_request_message(id, ty))
            },
        },
{
    if !stream_free {
        return Admission::Reject(Status::stream_in_use(id));
    }
    if id % 2 != 1 {
        return Admission::Reject(Status::invalid_stream_id(id));
    }
    if ty != MessageType::Request {
        return Admission::Reject(expected_request(id, ty));
    }
    Admission::Accept
}

/// How a message kind is named in error texts.
pub open spec fn kind_name(ty: MessageType) -> Seq<char> {
    match ty {
        MessageType::Request => "Request"@,
        MessageType::Response => "Response"@,
        MessageType::Data => "Data"@,
        MessageType::Unknown(b) => "Unknown("@ + decimal(b as nat) + ")"@,
    }
}

pub open spec fn expected_request_message(id: u32, ty: MessageType) -> Seq<char> {
    "Invalid message type "@ + kind_name(ty) + " on stream `"@ + decimal(id as nat) + "`, expected Request"@
}

fn push_kind_name(out: &mut String, ty: MessageType)
    ensures
        final(out)@ == old(out)@ + kind_name(ty),
{
    match ty {
        MessageType::Request => out.append("Request"),
        MessageType::Response => out.append("Response"),
        MessageType::Data => out.append("Data"),
        MessageType::Unknown(b) => {
            out.append("Unknown(");
            push_decimal(out, b as u64);
            out.append(")");
        },
    }
}

/// A stream opened by a frame that is not a readable request.
pub fn expected_request(stream_id: u32, ty: MessageType) -> (r: Status)
    ensures
        r.is(Code::InvalidArgument, expected_request_message(stream_id, ty)),
{
    let mut m = "Invalid message type ".to_owned();
    push_kind_name(&mut m, ty);
    m.append(" on stream `");
    push_decimal(&mut m, stream_id as u64);
    m.append("`, expected Request");
    Status::invalid_argument(m.as_str())
}

/// The dispatch key of a method: `/service/method`.
pub open spec fn spec_method_path(service: Seq<char>, method: Seq<char>) -> Seq<char> {
    "/"@ + service + "/"@ + method
}

pub fn method_path(service: &str, method: &str) -> (r: String)
    ensures
        r@ == spec_method_path(service@, method@),
{
    let mut p = "/".to_owned();
    p.append(service);
    p.append("/");
    p.append(method);
    p
}

/// The index of the entry registered last under `path`, if any: a later
/// registration of a path replaces an earlier one.
pub fn find_method(paths: &Vec<String>, path: &str) -> (r: Option<usize>)
    ensures
        match r {
            Some(i) => i < paths@.len() && paths@[i as int]@ == path@ && forall|j: int|
                i < j < paths@.len() ==> (#[trigger] paths@[j])@ != path@,
            None => forall|j: int| 0 <= j < paths@.len() ==> (#[trigger] paths@[j])@ != path@,
        },
{
    let key = path.to_owned();
    let mut i: usize = paths.len();
    while i > 0
        invariant
            i <= paths@.len(),
            key@ == path@,
            forall|j: int| i <= j < paths@.len() ==> (#[trigger] paths@[j])@ != path@,
        decreases i,
    {
        i = i - 1;
        if paths[i] == key {
            return Some(i);
        }
    }
    None
}

} // verus!
