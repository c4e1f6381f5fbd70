use vstd::prelude::*;
use vstd::string::StringExecFns;

verus! {

/// The canonical status codes.
#[derive(Clone, Copy, Debug, PartialEq, Eq, Structural)]
pub enum Code {
    #[allow(non_camel_case_types)]
    OK,
    Cancelled,
    Unknown,
    InvalidArgument,
    DeadlineExceeded,
    NotFound,
    AlreadyExists,
    PermissionDenied,
    ResourceExhausted,
    FailedPrecondition,
    Aborted,
    OutOfRange,
    Unimplemented,
    Internal,
    Unavailable,
    DataLoss,
    Unauthenticated,
}

/// The number of a code on the wire.
pub open spec fn code_number(c: Code) -> i32 {
    match c {
        Code::OK => 0,
        Code::Cancelled => 1,
        Code::Unknown => 2,
        Code::InvalidArgument => 3,
        Code::DeadlineExceeded => 4,
        Code::NotFound => 5,
        Code::AlreadyExists => 6,
        Code::PermissionDenied => 7,
        Code::ResourceExhausted => 8,
        Code::FailedPrecondition => 9,
        Code::Aborted => 10,
        Code::OutOfRange => 11,
        Code::Unimplemented => 12,
        Code::Internal => 13,
        Code::Unavailable => 14,
        Code::DataLoss => 15,
        Code::Unauthenticated => 16,
    }
}

/// The name of a code number, or `<None>` for a number with no code.
pub open spec fn code_name(n: i32) -> Seq<char> {
    if n == 0 { "OK"@ }
    else if n == 1 { "CANCELLED"@ }
    else if n == 2 { "UNKNOWN"@ }
    else if n == 3 { "INVALID_ARGUMENT"@ }
    else if n == 4 { "DEADLINE_EXCEEDED"@ }
    else if n == 5 { "NOT_FOUND"@ }
    else if n == 6 { "ALREADY_EXISTS"@ }
    else if n == 7 { "PERMISSION_DENIED"@ }
    else if n == 8 { "RESOURCE_EXHAUSTED"@ }
    else if n == 9 { "FAILED_PRECONDITION"@ }
    else if n == 10 { "ABORTED"@ }
    else if n == 11 { "OUT_OF_RANGE"@ }
    else if n == 12 { "UNIMPLEMENTED"@ }
    else if n == 13 { "INTERNAL"@ }
    else if n == 14 { "UNAVAILABLE"@ }
    else if n == 15 { "DATA_LOSS"@ }
    else if n == 16 { "UNAUTHENTICATED"@ }
    else { "<None>"@ }
}

impl Code {
    pub fn to_i32(self) -> (r: i32)
        ensures
            r == code_number(self),
    {
        match self {
            Code::OK => 0,
            Code::Cancelled => 1,
            Code::Unknown => 2,
            Code::InvalidArgument => 3,
            Code::DeadlineExceeded => 4,
            Code::NotFound => 5,
            Code::AlreadyExists => 6,
            Code::PermissionDenied => 7,
            Code::ResourceExhausted => 8,
            Code::FailedPrecondition => 9,
            Code::Aborted => 10,
            Code::OutOfRange => 11,
            Code::Unimplemented => 12,
            Code::Internal => 13,
            Code::Unavailable => 14,
            Code::DataLoss => 15,
            Code::Unauthenticated => 16,
        }
    }

    /// The code with the given number, if there is one.
    pub fn from_i32(n: i32) -> (r: Option<Code>)
        ensures
            match r {
                Some(c) => code_number(c) == n,
                None => n < 0 || n > 16,
            },
    {
        match n {
            0 => Some(Code::OK),
            1 => Some(Code::Cancelled),
            2 => Some(Code::Unknown),
            3 => Some(Code::InvalidArgument),
            4 => Some(Code::DeadlineExceeded),
            5 => Some(Code::NotFound),
            6 => Some(Code::AlreadyExists),
            7 => Some(Code::PermissionDenied),
            8 => Some(Code::ResourceExhausted),
            9 => Some(Code::FailedPrecondition),
            10 => Some(Code::Aborted),
            11 => Some(Code::OutOfRange),
            12 => Some(Code::Unimplemented),
            13 => Some(Code::Internal),
            14 => Some(Code::Unavailable),
            15 => Some(Code::DataLoss),
            16 => Some(Code::Unauthenticated),
            _ => None,
        }
    }
}

/// The name of a code number, as written in error texts.
pub fn code_to_str(code: i32) -> (r: &'static str)
    ensures
        r@ == code_name(code),
{
    proof {
        reveal_strlit("OK");
        reveal_strlit("CANCELLED");
        reveal_strlit("UNKNOWN");
        reveal_strlit("INVALID_ARGUMENT");
        reveal_strlit("DEADLINE_EXCEEDED");
        reveal_strlit("NOT_FOUND");
        reveal_strlit("ALREADY_EXISTS");
        reveal_strlit("PERMISSION_DENIED");
        reveal_strlit("RESOURCE_EXHAUSTED");
        reveal_strlit("FAILED_PRECONDITION");
        reveal_strlit("ABORTED");
        reveal_strlit("OUT_OF_RANGE");
        reveal_strlit("UNIMPLEMENTED");
        reveal_strlit("INTERNAL");
        reveal_strlit("UNAVAILABLE");
        reveal_strlit("DATA_LOSS");
        reveal_strlit("UNAUTHENTICATED");
        reveal_strlit("<None>");
    }
    match code {
        0 => "OK",
        1 => "CANCELLED",
        2 => "UNKNOWN",
        3 => "INVALID_ARGUMENT",
        4 => "DEADLINE_EXCEEDED",
        5 => "NOT_FOUND",
        6 => "ALREADY_EXISTS",
        7 => "PERMISSION_DENIED",
        8 => "RESOURCE_EXHAUSTED",
        9 => "FAILED_PRECONDITION",
        10 => "ABORTED",
        11 => "OUT_OF_RANGE",
        12 => "UNIMPLEMENTED",
        13 => "INTERNAL",
        14 => "UNAVAILABLE",
        15 => "DATA_LOSS",
        16 => "UNAUTHENTICATED",
        _ => "<None>",
    }
}

/// The character of a decimal digit.
pub open spec fn digit_char(d: nat) -> char {
    if d == 0 { '0' }
    else if d == 1 { '1' }
    else if d == 2 { '2' }
    else if d == 3 { '3' }
    else if d == 4 { '4' }
    else if d == 5 { '5' }
    else if d == 6 { '6' }
    else if d == 7 { '7' }
    else if d == 8 { '8' }
    else { '9' }
}

/// The decimal digits of `n`, without leading zeros.
pub open spec fn decimal(n: nat) -> Seq<char>
    decreases n,
{
    if n < 10 {
        seq![digit_char(n)]
    } else {
        decimal(n / 10) + seq![digit_char(n % 10)]
    }
}

fn digit_str(d: u64) -> (r: &'static str)
    requires
        d < 10,
    ensures
        r@ == seq![digit_char(d as nat)],
{
    proof {
        reveal_strlit("0");
        reveal_strlit("1");
        reveal_strlit("2");
        reveal_strlit("3");
        reveal_strlit("4");
        reveal_strlit("5");
        reveal_strlit("6");
        reveal_strlit("7");
        reveal_strlit("8");
        reveal_strlit("9");
    }
    match d {
        0 => "0",
        1 => "1",
        2 => "2",
        3 => "3",
        4 => "4",
        5 => "5",
        6 => "6",
        7 => "7",
        8 => "8",
        _ => "9",
    }
}

/// Appends the decimal digits of `n`.
pub fn push_decimal(out: &mut String, n: u64)
    ensures
        final(out)@ == old(out)@ + decimal(n as nat),
    decreases n,
{
    if n >= 10 {
        push_decimal(out, n / 10);
    }
    out.append(digit_str(n % 10));
    proof {
        assert(final(out)@ =~= old(out)@ + decimal(n as nat));
    }
}

/// A detail attached to a status: a type URL and the bytes of a message.
#[derive(Clone, Debug, PartialEq, Eq)]
pub struct Any {
    pub type_url: String,
    pub value: Vec<u8>,
}

/// An error as carried in a response: a code number, a message for
/// developers, and details.
#[derive(Clone, Debug, PartialEq, Eq)]
pub struct Status {
    pub code: i32,
    pub message: String,
    pub details: Vec<Any>,
}

impl Status {
    /// A status with the given code and message and no details.
    pub open spec fn is(&self, code: Code, message: Seq<char>) -> bool {
        &&& self.code == code_number(code)
        &&& self.message@ == message
        &&& self.details@.len() == 0
    }

    pub fn new(code: Code, message: &str) -> (r: Status)
        ensures
            r.is(code, message@),
    {
        Status { code: code.to_i32(), message: message.to_owned(), details: Vec::new() }
    }

    fn with_message(code: Code, message: String) -> (r: Status)
        ensures
            r.is(code, message@),
    {
        Status { code: code.to_i32(), message, details: Vec::new() }
    }

    pub fn cancelled(message: &str) -> (r: Status)
        ensures r.is(Code::Cancelled, message@),
    {
        Status::new(Code::Cancelled, message)
    }

    pub fn unknown(message: &str) -> (r: Status)
        ensures r.is(Code::Unknown, message@),
    {
        Status::new(Code::Unknown, message)
    }

    pub fn invalid_argument(message: &str) -> (r: Status)
        ensures r.is(Code::InvalidArgument, message@),
    {
        Status::new(Code::InvalidArgument, message)
    }

    pub fn deadline_exceeded(message: &str) -> (r: Status)
        ensures r.is(Code::DeadlineExceeded, message@),
    {
        Status::new(Code::DeadlineExceeded, message)
    }

    pub fn not_found(message: &str) -> (r: Status)
        ensures r.is(Code::NotFound, message@),
    {
        Status::new(Code::NotFound, message)
    }

    pub fn already_exists(message: &str) -> (r: Status)
        ensures r.is(Code::AlreadyExists, message@),
    {
        Status::new(Code::AlreadyExists, message)
    }

    pub fn permission_denied(message: &str) -> (r: Status)
        ensures r.is(Code::PermissionDenied, message@),
    {
        Status::new(Code::PermissionDenied, message)
    }

    pub fn unauthenticated(message: &str) -> (r: Status)
        ensures r.is(Code::Unauthenticated, message@),
    {
        Status::new(Code::Unauthenticated, message)
    }

    pub fn resource_exhausted(message: &str) -> (r: Status)
        ensures r.is(Code::ResourceExhausted, message@),
    {
        Status::new(Code::ResourceExhausted, message)
    }

    pub fn failed_precondition(message: &str) -> (r: Status)
        ensures r.is(Code::FailedPrecondition, message@),
    {
        Status::new(Code::FailedPrecondition, message)
    }

    pub fn aborted(message: &str) -> (r: Status)
        ensures r.is(Code::Aborted, message@),
    {
        Status::new(Code::Aborted, message)
    }

    pub fn out_of_range(message: &str) -> (r: Status)
        ensures r.is(Code::OutOfRange, message@),
    {
        Status::new(Code::OutOfRange, message)
    }

    pub fn unimplemented(message: &str) -> (r: Status)
        ensures r.is(Code::Unimplemented, message@),
    {
        Status::new(Code::Unimplemented, message)
    }

    pub fn internal(message: &str) -> (r: Status)
        ensures r.is(Code::Internal, message@),
    {
        Status::new(Code::Internal, message)
    }

    pub fn unavailable(message: &str) -> (r: Status)
        ensures r.is(Code::Unavailable, message@),
    {
        Status::new(Code::Unavailable, message)
    }

    pub fn data_loss(message: &str) -> (r: Status)
        ensures r.is(Code::DataLoss, message@),
    {
        Status::new(Code::DataLoss, message)
    }

    /// A stream id that arrived while its stream was still running.
    pub fn stream_in_use(stream_id: u32) -> (r: Status)
        ensures
            r.is(Code::InvalidArgument, "Stream `"@ + decimal(stream_id as nat) + "` is already in use"@),
    {
        let mut m = "Stream `".to_owned();
        push_decimal(&mut m, stream_id as u64);
        m.append("` is already in use");
        Status::with_message(Code::InvalidArgument, m)
    }

    /// An even stream id, which clients never open.
    pub fn invalid_stream_id(stream_id: u32) -> (r: Status)
        ensures
            r.is(Code::InvalidArgument, "Stream id must be odd, found `"@ + decimal(stream_id as nat) + "`"@),
    {
        let mut m = "Stream id must be odd, found `".to_owned();
        push_decimal(&mut m, stream_id as u64);
        m.append("`");
        Status::with_message(Code::InvalidArgument, m)
    }

    /// A frame that arrived on a stream after the call had all its input.
    pub fn stream_closed(stream_id: u32) -> (r: Status)
        ensures
            r.is(Code::InvalidArgument, "Channel on stream `"@ + decimal(stream_id as nat) + "` is closed"@),
    {
        let mut m = "Channel on stream `".to_owned();
        push_decimal(&mut m, stream_id as u64);
        m.append("` is closed");
        Status::with_message(Code::InvalidArgument, m)
    }

    /// The connection went away during a call.
    pub fn channel_closed() -> (r: Status)
        ensures
            r.is(Code::Aborted, "Channel closed"@),
    {
        Status::aborted("Channel closed")
    }

    /// No handler is registered for `/service/method`.
    pub fn method_not_found(service: &str, method: &str) -> (r: Status)
        ensures
            r.is(Code::NotFound, "/"@ + service@ + "/"@ + method@ + " is not supported"@),
    {
        let mut m = "/".to_owned();
        m.append(service);
        m.append("/");
        m.append(method);
        m.append(" is not supported");
        Status::with_message(Code::NotFound, m)
    }

    /// The call ran out of time.
    pub fn timeout() -> (r: Status)
        ensures
            r.is(Code::DeadlineExceeded, "Request timed out"@),
    {
        Status::deadline_exceeded("Request timed out")
    }

    /// Whether this status reports success.
    pub fn is_ok(&self) -> (r: bool)
        ensures
            r == (self.code == code_number(Code::OK)),
    {
        self.code == 0
    }
}

} // verus!
