use trapeze::encoded::{EncodeError, Encoded};
use trapeze::flags::Flags;
use trapeze::frame::{
    decode, discard_chunk, encode, read_plan, DecodeError, FallibleBuf, Frame, ReadPlan,
    MAX_DATA_LENGTH,
};
use trapeze::message_type::MessageType;

fn frame(payload: Vec<u8>) -> Frame {
    Frame {
        id: 3,
        flags: Flags::remote_closed(),
        ty: MessageType::Data,
        payload,
    }
}

#[test]
fn encode_writes_big_endian_header() {
    let bytes = encode(&frame(vec![0xaa, 0xbb])).unwrap();
    assert_eq!(bytes, vec![0, 0, 0, 2, 0, 0, 0, 3, 3, 1, 0xaa, 0xbb]);
}

#[test]
fn round_trip() {
    let f = Frame {
        id: 0x01020305,
        flags: Flags::from_bits_retain(0x86),
        ty: MessageType::Unknown(9),
        payload: b"hello".to_vec(),
    };
    let bytes = encode(&f).unwrap();
    let d = decode(&bytes).unwrap();
    assert_eq!(d.id, f.id);
    assert_eq!(d.flags, f.flags);
    assert_eq!(d.message.ty, f.ty);
    assert_eq!(d.message.decode_as(MessageType::Unknown(9)), Ok(b"hello".to_vec()));
}

#[test]
fn round_trip_empty_payload() {
    let bytes = encode(&frame(vec![])).unwrap();
    assert_eq!(bytes.len(), 10);
    let d = decode(&bytes).unwrap();
    assert_eq!(d.message.decode_as(MessageType::Data), Ok(vec![]));
}

#[test]
fn round_trip_largest_payload() {
    let f = frame(vec![7u8; MAX_DATA_LENGTH]);
    let bytes = encode(&f).unwrap();
    assert_eq!(bytes.len(), 10 + MAX_DATA_LENGTH);
    let d = decode(&bytes).unwrap();
    assert_eq!(d.message.decode_as(MessageType::Data).unwrap().len(), MAX_DATA_LENGTH);
}

#[test]
fn encode_refuses_oversized_payload() {
    let f = frame(vec![0u8; MAX_DATA_LENGTH + 1]);
    let err = encode(&f).unwrap_err();
    assert_eq!(err.0, "Oversized payload: 4194305 bytes > 4194304 bytes");
}

#[test]
fn oversized_header_defers_error() {
    // length 4 MiB + 1, id 5, type Request, no flags
    let header = [0u8, 0x40, 0, 1, 0, 0, 0, 5, 1, 0];
    assert_eq!(read_plan(&header), ReadPlan::Discard(MAX_DATA_LENGTH + 1));
    let d = decode(&header).unwrap();
    assert_eq!(d.id, 5);
    assert_eq!(
        d.message.decode_as(MessageType::Request),
        Err(DecodeError::Oversized(MAX_DATA_LENGTH + 1))
    );
    assert!(matches!(d.message.bytes, FallibleBuf::Failed(_)));
}

#[test]
fn read_plan_for_fitting_payload() {
    let header = [0u8, 0, 1, 0, 0, 0, 0, 1, 2, 0];
    assert_eq!(read_plan(&header), ReadPlan::Payload(256));
}

#[test]
fn discard_reads_in_pages() {
    assert_eq!(discard_chunk(10_000), 4096);
    assert_eq!(discard_chunk(100), 100);
    assert_eq!(discard_chunk(0), 0);
}

#[test]
fn short_input_is_eof() {
    assert_eq!(decode(&[0, 0, 0]).unwrap_err(), DecodeError::UnexpectedEof);
    let d = decode(&[0, 0, 0, 4, 0, 0, 0, 1, 3, 0]).unwrap();
    assert_eq!(d.message.decode_as(MessageType::Data), Err(DecodeError::UnexpectedEof));
    // a payload cut short is not consumed, so its bytes are left over
    assert_eq!(
        decode(&[0, 0, 0, 4, 0, 0, 0, 1, 3, 0, 1]).unwrap_err(),
        DecodeError::RemainingBytes(1)
    );
}

#[test]
fn trailing_bytes_are_refused() {
    let mut bytes = encode(&frame(vec![1])).unwrap();
    bytes.push(0);
    bytes.push(0);
    assert_eq!(decode(&bytes).unwrap_err(), DecodeError::RemainingBytes(2));
}

#[test]
fn wrong_kind_is_refused() {
    let bytes = encode(&frame(vec![1])).unwrap();
    let d = decode(&bytes).unwrap();
    assert_eq!(
        d.message.decode_as(MessageType::Request),
        Err(DecodeError::WrongMessageType {
            expected: MessageType::Request,
            found: MessageType::Data
        })
    );
}

#[test]
fn message_type_bytes() {
    assert_eq!(MessageType::from_u8(1), MessageType::Request);
    assert_eq!(MessageType::from_u8(2), MessageType::Response);
    assert_eq!(MessageType::from_u8(3), MessageType::Data);
    assert_eq!(MessageType::from_u8(200), MessageType::Unknown(200));
    assert_eq!(MessageType::Unknown(200).to_u8(), 200);
    assert_eq!(MessageType::Data.to_u8(), 3);
}

#[test]
fn encoded_buffer_size_check() {
    let e = Encoded::buffer(vec![1, 2, 3]).unwrap();
    assert_eq!(e.len(), 3);
    assert!(!e.is_empty());
    assert_eq!(e.as_slice(), &[1, 2, 3]);
    assert_eq!(e.into_inner(), vec![1, 2, 3]);
    assert!(Encoded::buffer(vec![]).unwrap().is_empty());
    assert_eq!(
        Encoded::buffer(vec![0; MAX_DATA_LENGTH + 1]).unwrap_err(),
        EncodeError::TooLong(MAX_DATA_LENGTH + 1)
    );
    assert_eq!(Encoded::check_size(MAX_DATA_LENGTH), Ok(()));
}
