use vstd::prelude::*;

use crate::flags::Flags;
use crate::message_type::{byte_of_type, canonical, type_of_byte, MessageType};
use crate::status::{decimal, push_decimal};
use vstd::string::StringExecFns;

verus! {

/// The largest payload a frame may carry: 4 MiB.
pub const MAX_DATA_LENGTH: usize = 4194304;

/// Bytes of the fixed header: length, stream id, type, flags.
pub const HEADER_LENGTH: usize = 10;

/// One unit on the wire: a stream id, flags, a message kind and its bytes.
#[derive(Clone, Debug)]
pub struct Frame {
    pub id: u32,
    pub flags: Flags,
    pub ty: MessageType,
    pub payload: Vec<u8>,
}

/// A value that cannot be put on the wire, with the reason.
#[derive(Clone, Debug)]
pub struct InvalidInput(pub String);

/// The reason given for a payload of `length` bytes over the ceiling.
pub open spec fn oversized_message(length: nat) -> Seq<char> {
    "Oversized payload: "@ + decimal(length) + " bytes > "@ + decimal(MAX_DATA_LENGTH as nat) + " bytes"@
}

/// Why the bytes of a frame or of its payload could not be read.
#[derive(Clone, Copy, Debug, PartialEq, Eq, Structural)]
pub enum DecodeError {
    /// Fewer bytes than the header or the payload needs.
    UnexpectedEof,
    /// Bytes left over after the frame.
    RemainingBytes(usize),
    /// The header announces a payload over the size ceiling.
    Oversized(usize),
    /// The frame carries another kind of message than the one asked for.
    WrongMessageType { expected: MessageType, found: MessageType },
}

/// Payload bytes, or the error that reading them met.
#[derive(Clone, Debug)]
pub enum FallibleBuf {
    Bytes(Vec<u8>),
    Failed(DecodeError),
}

impl FallibleBuf {
    pub open spec fn view(&self) -> Result<Seq<u8>, DecodeError> {
        match self {
            FallibleBuf::Bytes(b) => Ok(b@),
            FallibleBuf::Failed(e) => Err(*e),
        }
    }
}

/// The payload of a decoded frame: its bytes, or the error that reading
/// them met, reported only when the payload is asked for.
#[derive(Clone, Debug)]
pub struct FallibleBytesMessage {
    pub ty: MessageType,
    pub bytes: FallibleBuf,
}

/// A frame as read from the wire, with its payload not yet checked.
#[derive(Clone, Debug)]
pub struct DecodedFrame {
    pub id: u32,
    pub flags: Flags,
    pub message: FallibleBytesMessage,
}

/// The four bytes of `x`, most significant first.
pub open spec fn be32(x: u32) -> Seq<u8> {
    seq![(x >> 24u32) as u8, ((x >> 16u32) & 0xffu32) as u8, ((x >> 8u32) & 0xffu32) as u8, (x & 0xffu32) as u8]
}

/// The number whose bytes, most significant first, are `a, b, c, d`.
pub open spec fn from_be(a: u8, b: u8, c: u8, d: u8) -> u32 {
    ((a as u32) << 24u32) | ((b as u32) << 16u32) | ((c as u32) << 8u32) | (d as u32)
}

/// The number that the four bytes of `s` from `at` on spell.
pub open spec fn read_be32(s: Seq<u8>, at: int) -> u32 {
    from_be(s[at], s[at + 1], s[at + 2], s[at + 3])
}

pub proof fn lemma_be32_round_trip(x: u32)
    ensures
        read_be32(be32(x), 0) == x,
{
    assert(from_be((x >> 24u32) as u8, ((x >> 16u32) & 0xffu32) as u8, ((x >> 8u32) & 0xffu32) as u8, (x & 0xffu32) as u8) == x) by (bit_vector);
}

/// The header of a frame with the given fields.
pub open spec fn header_bytes(length: u32, id: u32, ty: MessageType, flags: u8) -> Seq<u8> {
    be32(length) + be32(id) + seq![byte_of_type(ty), flags]
}

/// The bytes that encode a frame.
pub open spec fn frame_bytes(id: u32, flags: u8, ty: MessageType, payload: Seq<u8>) -> Seq<u8> {
    header_bytes(payload.len() as u32, id, ty, flags) + payload
}

/// The outcome of decoding `s` as one frame: the id, the flags byte, the
/// kind, and the payload or its deferred error.
pub open spec fn spec_decode(s: Seq<u8>) -> Result<(u32, u8, MessageType, Result<Seq<u8>, DecodeError>), DecodeError> {
    if s.len() < HEADER_LENGTH {
        Err(DecodeError::UnexpectedEof)
    } else {
        let length = read_be32(s, 0);
        let id = read_be32(s, 4);
        let ty = type_of_byte(s[8]);
        let flags = s[9];
        let (payload, consumed) = if length > MAX_DATA_LENGTH {
            (Err(DecodeError::Oversized(length as usize)), HEADER_LENGTH as int)
        } else if s.len() - HEADER_LENGTH < length {
            (Err(DecodeError::UnexpectedEof), HEADER_LENGTH as int)
        } else {
            (
                Ok(s.subrange(HEADER_LENGTH as int, HEADER_LENGTH + length)),
                HEADER_LENGTH + length,
            )
        };
        if consumed < s.len() {
            Err(DecodeError::RemainingBytes((s.len() - consumed) as usize))
        } else {
            Ok((id, flags, ty, payload))
        }
    }
}

impl Frame {
    /// The bytes of this frame on the wire.
    pub open spec fn spec_bytes(&self) -> Seq<u8> {
        frame_bytes(self.id, self.flags.bits, self.ty, self.payload@)
    }
}

impl DecodedFrame {
    pub open spec fn view_tuple(&self) -> (u32, u8, MessageType, Result<Seq<u8>, DecodeError>) {
        (
            self.id,
            self.flags.bits,
            self.message.ty,
            self.message.bytes.view(),
        )
    }
}

pub(crate) fn push_be32(out: &mut Vec<u8>, x: u32)
    ensures
        final(out)@ == old(out)@ + be32(x),
{
    out.push((x >> 24u32) as u8);
    out.push(((x >> 16u32) & 0xffu32) as u8);
    out.push(((x >> 8u32) & 0xffu32) as u8);
    out.push((x & 0xffu32) as u8);
    assert(final(out)@ =~= old(out)@ + be32(x));
}

fn get_be32(s: &[u8], at: usize) -> (r: u32)
    requires
        at + 4 <= s@.len(),
    ensures
        r == read_be32(s@, at as int),
{
    ((s[at] as u32) << 24u32) | ((s[at + 1] as u32) << 16u32) | ((s[at + 2] as u32) << 8u32) | (s[at + 3] as u32)
}

/// Writes a frame: the header, then the payload. A payload over the size
/// ceiling is refused.
pub fn encode(frame: &Frame) -> (r: Result<Vec<u8>, InvalidInput>)
    ensures
        match r {
            Ok(bytes) => frame.payload@.len() <= MAX_DATA_LENGTH && bytes@ == frame.spec_bytes(),
            Err(e) => frame.payload@.len() > MAX_DATA_LENGTH && e.0@ == oversized_message(frame.payload@.len()),
        },
{
    let length = frame.payload.len();
    if length > MAX_DATA_LENGTH {
        let mut m = "Oversized payload: ".to_owned();
        push_decimal(&mut m, length as u64);
        m.append(" bytes > ");
        push_decimal(&mut m, MAX_DATA_LENGTH as u64);
        m.append(" bytes");
        return Err(InvalidInput(m));
    }
    let mut buf: Vec<u8> = Vec::with_capacity(HEADER_LENGTH + length);
    push_be32(&mut buf, length as u32);
    push_be32(&mut buf, frame.id);
    buf.push(frame.ty.to_u8());
    buf.push(frame.flags.bits());
    let mut i: usize = 0;
    while i < length
        invariant
            length == frame.payload@.len(),
            i <= length,
            buf@ == header_bytes(length as u32, frame.id, frame.ty, frame.flags.bits) + frame.payload@.subrange(0, i as int),
        decreases length - i,
    {
        buf.push(frame.payload[i]);
        i = i + 1;
        assert(frame.payload@.subrange(0, i as int) =~= frame.payload@.subrange(0, i - 1) + seq![frame.payload@[i - 1]]);
    }
    assert(frame.payload@.subrange(0, length as int) =~= frame.payload@);
    Ok(buf)
}

fn copy_range(s: &[u8], from: usize, to: usize) -> (r: Vec<u8>)
    requires
        from <= to <= s@.len(),
    ensures
        r@ == s@.subrange(from as int, to as int),
{
    let mut out: Vec<u8> = Vec::with_capacity(to - from);
    let mut i: usize = from;
    while i < to
        invariant
            from <= i <= to <= s@.len(),
            out@ == s@.subrange(from as int, i as int),
        decreases to - i,
    {
        out.push(s[i]);
        i = i + 1;
        assert(out@ =~= s@.subrange(from as int, i as int));
    }
    out
}

/// Reads one frame from `buf`. The header is read eagerly; a payload that
/// is oversized or cut short becomes an error that the payload carries.
/// Bytes left after the frame are an error of the whole decode.
pub fn decode(buf: &[u8]) -> (r: Result<DecodedFrame, DecodeError>)
    ensures
        match r {
            Ok(f) => spec_decode(buf@) == Ok::<_, DecodeError>(f.view_tuple()),
            Err(e) => spec_decode(buf@) == Err::<(u32, u8, MessageType, Result<Seq<u8>, DecodeError>), DecodeError>(e),
        },
{
    if buf.len() < HEADER_LENGTH {
        return Err(DecodeError::UnexpectedEof);
    }
    let length = get_be32(buf, 0);
    let id = get_be32(buf, 4);
    let ty = MessageType::from_u8(buf[8]);
    let flags = Flags::from_bits_retain(buf[9]);
    let len = length as usize;
    let (bytes, consumed) = if len > MAX_DATA_LENGTH {
        (FallibleBuf::Failed(DecodeError::Oversized(len)), HEADER_LENGTH)
    } else if buf.len() - HEADER_LENGTH < len {
        (FallibleBuf::Failed(DecodeError::UnexpectedEof), HEADER_LENGTH)
    } else {
        (FallibleBuf::Bytes(copy_range(buf, HEADER_LENGTH, HEADER_LENGTH + len)), HEADER_LENGTH + len)
    };
    if consumed < buf.len() {
        return Err(DecodeError::RemainingBytes(buf.len() - consumed));
    }
    let message = FallibleBytesMessage { ty, bytes };
    Ok(DecodedFrame { id, flags, message })
}

impl FallibleBytesMessage {
    /// The payload, read as a message of kind `expected`: a frame of another
    /// kind, or a payload that could not be read, gives an error.
    pub fn decode_as(&self, expected: MessageType) -> (r: Result<Vec<u8>, DecodeError>)
        ensures
            self.ty != expected ==> r == Err::<Vec<u8>, DecodeError>(DecodeError::WrongMessageType { expected, found: self.ty }),
            self.ty == expected ==> match r {
                Ok(b) => self.bytes.view() == Ok::<Seq<u8>, DecodeError>(b@),
                Err(e) => self.bytes.view() == Err::<Seq<u8>, DecodeError>(e),
            },
    {
        if self.ty != expected {
            return Err(DecodeError::WrongMessageType { expected, found: self.ty });
        }
        match &self.bytes {
            FallibleBuf::Bytes(b) => {
                let c = copy_range(b.as_slice(), 0, b.len());
                assert(c@ =~= b@);
                Ok(c)
            },
            FallibleBuf::Failed(e) => Err(*e),
        }
    }
}

/// What a reader does after the header of a frame.
#[derive(Clone, Copy, Debug, PartialEq, Eq, Structural)]
pub enum ReadPlan {
    /// Read this many payload bytes.
    Payload(usize),
    /// Read and drop this many bytes, keeping only the header, whose decode
    /// then reports the payload as oversized.
    Discard(usize),
}

/// The bytes a reader takes from the transport for a frame with this header.
pub open spec fn plan_total(p: ReadPlan) -> int {
    match p {
        ReadPlan::Payload(n) => HEADER_LENGTH + n,
        ReadPlan::Discard(n) => HEADER_LENGTH + n,
    }
}

/// The plan for the frame whose header is `header`: the announced length is
/// read in full, as payload if it fits, else to be discarded.
pub fn read_plan(header: &[u8]) -> (r: ReadPlan)
    requires
        header@.len() == HEADER_LENGTH,
    ensures
        r == (if read_be32(header@, 0) > MAX_DATA_LENGTH {
            ReadPlan::Discard(read_be32(header@, 0) as usize)
        } else {
            ReadPlan::Payload(read_be32(header@, 0) as usize)
        }),
        plan_total(r) == HEADER_LENGTH + read_be32(header@, 0),
{
    let length = get_be32(header, 0) as usize;
    if length > MAX_DATA_LENGTH {
        ReadPlan::Discard(length)
    } else {
        ReadPlan::Payload(length)
    }
}

/// Bytes dropped by one read while discarding.
pub const DISCARD_PAGE_SIZE: usize = 4096;

/// How many bytes the next read of a discard takes, `remaining` being left.
pub fn discard_chunk(remaining: usize) -> (r: usize)
    ensures
        r == (if remaining < DISCARD_PAGE_SIZE { remaining } else { DISCARD_PAGE_SIZE }),
{
    if remaining < DISCARD_PAGE_SIZE {
        remaining
    } else {
        DISCARD_PAGE_SIZE
    }
}

/// A frame announcing a payload over the ceiling: the reader takes exactly
/// the header and the announced bytes, keeps only the header, and the kept
/// bytes decode to a frame whose payload reports the oversize, which every
/// read of the payload as its own kind then yields.
pub proof fn lemma_oversized_frame(header: Seq<u8>)
    requires
        header.len() == HEADER_LENGTH,
        read_be32(header, 0) > MAX_DATA_LENGTH,
    ensures
        HEADER_LENGTH + read_be32(header, 0) == plan_total(ReadPlan::Discard(read_be32(header, 0) as usize)),
        spec_decode(header) == Ok::<_, DecodeError>(
            (
                read_be32(header, 4),
                header[9],
                type_of_byte(header[8]),
                Err::<Seq<u8>, DecodeError>(DecodeError::Oversized(read_be32(header, 0) as usize)),
            ),
        ),
{
}

/// Encoding a frame whose payload fits and decoding the bytes gives the
/// frame back.
pub proof fn lemma_frame_round_trip(id: u32, flags: u8, ty: MessageType, payload: Seq<u8>)
    requires
        payload.len() <= MAX_DATA_LENGTH,
        canonical(ty),
    ensures
        spec_decode(frame_bytes(id, flags, ty, payload)) == Ok::<_, DecodeError>(
            (id, flags, ty, Ok::<Seq<u8>, DecodeError>(payload)),
        ),
{
    let s = frame_bytes(id, flags, ty, payload);
    let length = payload.len() as u32;
    lemma_be32_round_trip(length);
    lemma_be32_round_trip(id);
    assert(s.subrange(0, 4) =~= be32(length));
    assert(s.subrange(4, 8) =~= be32(id));
    assert(read_be32(s, 0) == read_be32(be32(length), 0));
    assert(read_be32(s, 4) == read_be32(be32(id), 0));
    assert(s[8] == byte_of_type(ty));
    assert(type_of_byte(byte_of_type(ty)) == ty);
    assert(s.subrange(10, 10 + payload.len() as int) =~= payload);
}

} // verus!
