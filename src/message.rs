use vstd::prelude::*;

use crate::encoded::{EncodeError, Encoded};
use crate::frame::{frame_bytes, header_bytes, push_be32, MAX_DATA_LENGTH};
use crate::message_type::MessageType;

verus! {

/// A whole unary message: a request or a response, with its stream id and
/// encoded body.
#[derive(Clone, Debug)]
pub enum Message {
    Request { id: u32, data: Encoded },
    Response { id: u32, data: Encoded },
}

/// Why a header and body do not form a unary message.
#[derive(Clone, Copy, Debug, PartialEq, Eq, Structural)]
pub enum MessageReadError {
    /// A type byte other than Request or Response.
    InvalidType(u8),
    /// Flags other than none.
    InvalidFlags(u8),
    /// An even stream id.
    InvalidId(u32),
    /// The body is over the size ceiling.
    Encoded(EncodeError),
}

/// Why a client stopped reading its connection.
#[derive(Clone, Copy, Debug, PartialEq, Eq, Structural)]
pub enum ClientError {
    /// The server sent a request, which clients never serve.
    ReceivedRequest,
    MessageRead(MessageReadError),
}

impl Message {
    pub open spec fn id(&self) -> u32 {
        match self {
            Message::Request { id, .. } => *id,
            Message::Response { id, .. } => *id,
        }
    }

    pub open spec fn data(&self) -> Seq<u8> {
        match self {
            Message::Request { data, .. } => data@,
            Message::Response { data, .. } => data@,
        }
    }

    /// The body fits under the size ceiling.
    pub open spec fn wf(&self) -> bool {
        self.data().len() <= MAX_DATA_LENGTH
    }

    pub open spec fn kind(&self) -> MessageType {
        match self {
            Message::Request { .. } => MessageType::Request,
            Message::Response { .. } => MessageType::Response,
        }
    }
}

/// Forms a message from a frame's header fields and body: the body must fit,
/// the id be odd, the type be Request or Response, and no flag be set, each
/// checked in that order.
pub fn check_message(id: u32, ty: u8, flags: u8, data: Vec<u8>) -> (r: Result<Message, MessageReadError>)
    ensures
        match r {
            Ok(m) => {
                &&& data@.len() <= MAX_DATA_LENGTH
                &&& id % 2 == 1
                &&& flags == 0
                &&& (ty == 1 || ty == 2)
                &&& m.id() == id
                &&& m.data() == data@
                &&& m.wf()
                &&& m.kind() == (if ty == 1 { MessageType::Request } else { MessageType::Response })
            },
            Err(e) => e == if data@.len() > MAX_DATA_LENGTH {
                MessageReadError::Encoded(EncodeError::TooLong(data@.len() as usize))
            } else if id % 2 == 0 {
                MessageReadError::InvalidId(id)
            } else if ty != 1 && ty != 2 {
                MessageReadError::InvalidType(ty)
            } else {
                MessageReadError::InvalidFlags(flags)
            },
        },
{
    let data = match Encoded::buffer(data) {
        Ok(d) => d,
        Err(e) => return Err(MessageReadError::Encoded(e)),
    };
    if id % 2 == 0 {
        return Err(MessageReadError::InvalidId(id));
    }
    if ty != 1 && ty != 2 {
        return Err(MessageReadError::InvalidType(ty));
    }
    if flags != 0 {
        return Err(MessageReadError::InvalidFlags(flags));
    }
    if ty == 1 {
        Ok(Message::Request { id, data })
    } else {
        Ok(Message::Response { id, data })
    }
}

/// The bytes of a message on the wire: a frame with no flags.
pub fn message_bytes(msg: &Message) -> (r: Vec<u8>)
    requires
        msg.wf(),
    ensures
        r@ == frame_bytes(msg.id(), 0, msg.kind(), msg.data()),
{
    let (ty, id, data) = match msg {
        Message::Request { id, data } => (1u8, *id, data),
        Message::Response { id, data } => (2u8, *id, data),
    };
    let body = data.as_slice();
    let length = body.len() as u32;
    let mut buf: Vec<u8> = Vec::with_capacity(10 + body.len());
    let mut k: usize = 0;
    let mut header: Vec<u8> = Vec::new();
    proof {
        assert(length as int == body@.len());
    }
    push_be32(&mut header, length);
    push_be32(&mut header, id);
    header.push(ty);
    header.push(0u8);
    proof {
        assert(header@ =~= header_bytes(length, id, msg.kind(), 0));
    }
    while k < header.len()
        invariant
            k <= header@.len(),
            buf@ == header@.subrange(0, k as int),
        decreases header@.len() - k,
    {
        buf.push(header[k]);
        k = k + 1;
        assert(buf@ =~= header@.subrange(0, k as int));
    }
    let mut i: usize = 0;
    while i < body.len()
        invariant
            i <= body@.len(),
            header@.subrange(0, header@.len() as int) == header@,
            buf@ == header@ + body@.subrange(0, i as int),
        decreases body@.len() - i,
    {
        buf.push(body[i]);
        i = i + 1;
        assert(buf@ =~= header@ + body@.subrange(0, i as int));
    }
    assert(body@.subrange(0, body@.len() as int) =~= body@);
    buf
}

/// A client takes responses only: a request from the server ends its
/// connection.
pub fn client_response(msg: Message) -> (r: Result<(u32, Encoded), ClientError>)
    ensures
        match r {
            Ok((id, data)) => msg.kind() == MessageType::Response && id == msg.id() && data@ == msg.data(),
            Err(e) => msg.kind() == MessageType::Request && e == ClientError::ReceivedRequest,
        },
{
    match msg {
        Message::Request { .. } => Err(ClientError::ReceivedRequest),
        Message::Response { id, data } => Ok((id, data)),
    }
}

} // verus!
