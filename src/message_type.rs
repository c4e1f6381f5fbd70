use vstd::prelude::*;

verus! {

/// The kind of message a frame carries, as named by its type byte.
#[derive(Clone, Copy, Debug, PartialEq, Eq, Structural)]
pub enum MessageType {
    Request,
    Response,
    Data,
    /// A type byte with no meaning in the protocol, kept verbatim.
    Unknown(u8),
}

/// The kind named by a type byte.
pub open spec fn type_of_byte(b: u8) -> MessageType {
    if b == 1 {
        MessageType::Request
    } else if b == 2 {
        MessageType::Response
    } else if b == 3 {
        MessageType::Data
    } else {
        MessageType::Unknown(b)
    }
}

/// The type byte that names a kind on the wire.
pub open spec fn byte_of_type(t: MessageType) -> u8 {
    match t {
        MessageType::Request => 1,
        MessageType::Response => 2,
        MessageType::Data => 3,
        MessageType::Unknown(b) => b,
    }
}

/// A kind as decoding produces it: an `Unknown` never holds a known byte.
pub open spec fn canonical(t: MessageType) -> bool {
    match t {
        MessageType::Unknown(b) => b != 1 && b != 2 && b != 3,
        _ => true,
    }
}

impl MessageType {
    pub fn from_u8(value: u8) -> (r: MessageType)
        ensures
            r == type_of_byte(value),
            canonical(r),
    {
        match value {
            1 => MessageType::Request,
            2 => MessageType::Response,
            3 => MessageType::Data,
            ty => MessageType::Unknown(ty),
        }
    }

    pub fn to_u8(self) -> (r: u8)
        ensures
            r == byte_of_type(self),
    {
        match self {
            MessageType::Request => 1,
            MessageType::Response => 2,
            MessageType::Data => 3,
            MessageType::Unknown(ty) => ty,
        }
    }
}

/// Reading a byte as a kind and writing it back gives the byte.
pub proof fn lemma_byte_round_trip(b: u8)
    ensures
        byte_of_type(type_of_byte(b)) == b,
        canonical(type_of_byte(b)),
{
}

/// Writing a decoded kind as a byte and reading it back gives the kind.
pub proof fn lemma_type_round_trip(t: MessageType)
    requires
        canonical(t),
    ensures
        type_of_byte(byte_of_type(t)) == t,
{
}

} // verus!
