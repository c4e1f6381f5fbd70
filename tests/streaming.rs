use trapeze::calls::{close_data_frame, collect_input, data_frame, outbound_stream, request_frame};
use trapeze::flags::Flags;
use trapeze::frame::{decode, encode, DecodedFrame, Frame};
use trapeze::message_type::MessageType;
use trapeze::protocol::{check_request, output_frame_step, MethodKind, OutputStep};
use trapeze::protos::{decode_request, Request};
use trapeze::wire::{read_field_at, WireValue};

fn wire(frame: &Frame) -> DecodedFrame {
    decode(&encode(frame).unwrap()).unwrap()
}

/// A message with one int32 field 1, as protobuf writes it.
fn int_message(v: i32) -> Vec<u8> {
    let mut out = Vec::new();
    if v != 0 {
        out.push(0x08);
        let mut n = v as i64 as u64;
        while n >= 0x80 {
            out.push((n as u8 & 0x7f) | 0x80);
            n >>= 7;
        }
        out.push(n as u8);
    }
    out
}

fn read_int_message(b: &[u8]) -> i32 {
    match read_field_at(b, 0) {
        None => 0,
        Some((1, WireValue::Varint(v), _)) => v as i32,
        Some(_) => panic!("unexpected field"),
    }
}

fn call(service: &str, method: &str, payload: Vec<u8>) -> Request {
    Request {
        service: service.to_string(),
        method: method.to_string(),
        payload,
        timeout_nano: 0,
        metadata: vec![],
    }
}

/// The client reads a server's output stream until it ends.
fn client_reads_output(frames: &[DecodedFrame]) -> Vec<Vec<u8>> {
    let mut out = Vec::new();
    for f in frames {
        let payload = match &f.message.bytes {
            trapeze::frame::FallibleBuf::Bytes(b) => b.clone(),
            trapeze::frame::FallibleBuf::Failed(e) => panic!("{e:?}"),
        };
        match output_frame_step(f.message.ty, f.flags, None, payload.len()).unwrap() {
            OutputStep::Data { deliver, finished } => {
                if deliver {
                    out.push(payload);
                }
                if finished {
                    return out;
                }
            }
            OutputStep::Done => return out,
            OutputStep::Failed(s) => panic!("{}", s.message),
        }
    }
    panic!("output stream did not end")
}

#[test]
fn client_streaming_sum() {
    let mut adds = vec![0i32];
    adds.extend(-99..=100);
    adds.push(0);
    let sent = adds.len();
    let items: Vec<Vec<u8>> = adds.iter().map(|a| int_message(*a)).collect();
    let req = call("Streaming", "SumStream", vec![]);
    let frames = outbound_stream(1, MethodKind::ClientStreaming, &req, &items);
    let received: Vec<DecodedFrame> = frames.iter().map(wire).collect();
    // the server checks the opening request, then collects the input
    let open = &received[0];
    let opened = decode_request(&open.message.decode_as(MessageType::Request).unwrap()).unwrap();
    assert!(check_request(MethodKind::ClientStreaming, open.flags, opened.payload.len()).is_ok());
    let (inputs, closed_at) = collect_input(&received[1..].to_vec()).unwrap();
    assert_eq!(closed_at, Some(sent));
    let parts: Vec<i32> = inputs.iter().map(|b| read_int_message(b)).collect();
    assert_eq!(parts, adds);
    assert_eq!(parts.iter().sum::<i32>(), 100);
}

#[test]
fn server_streaming_divide() {
    let req = call("Streaming", "DivideStream", vec![0x08, 0x88, 0x03, 0x10, 0x04]);
    let open = wire(&request_frame(3, MethodKind::ServerStreaming, &req));
    assert_eq!(open.flags.bits(), 0x01);
    let opened = decode_request(&open.message.decode_as(MessageType::Request).unwrap()).unwrap();
    assert!(check_request(MethodKind::ServerStreaming, open.flags, opened.payload.len()).is_ok());
    // the handler divides 392 into 4 parts
    let mut out: Vec<DecodedFrame> = (0..4).map(|_| wire(&data_frame(3, int_message(98)))).collect();
    out.push(wire(&close_data_frame(3)));
    let parts: Vec<i32> = client_reads_output(&out).iter().map(|b| read_int_message(b)).collect();
    assert_eq!(parts.len(), 4);
    assert_eq!(parts.iter().sum::<i32>(), 392);
}

#[test]
fn duplex_echo() {
    let items: Vec<Vec<u8>> = (0..100)
        .map(|i| {
            let mut m = int_message(i);
            let msg = b"non-empty empty";
            m.push(0x12);
            m.push(msg.len() as u8);
            m.extend_from_slice(msg);
            m
        })
        .collect();
    let req = call("Streaming", "EchoNullStream", vec![]);
    let frames = outbound_stream(5, MethodKind::DuplexStreaming, &req, &items);
    let received: Vec<DecodedFrame> = frames.iter().map(wire).collect();
    assert_eq!(received[0].flags.bits(), 0x06);
    let (inputs, _) = collect_input(&received[1..].to_vec()).unwrap();
    assert_eq!(inputs.len(), 100);
    assert_eq!(inputs[7], items[7]);
    // one empty acknowledgement per input, then the close
    let mut out: Vec<DecodedFrame> = inputs.iter().map(|_| wire(&data_frame(5, vec![]))).collect();
    out.push(wire(&close_data_frame(5)));
    let acks = client_reads_output(&out);
    assert_eq!(acks.len(), 100);
    assert!(acks.iter().all(|a| a.is_empty()));
}

#[test]
fn input_without_close_and_bad_frames() {
    let frames = vec![wire(&data_frame(1, vec![1])), wire(&data_frame(1, vec![2]))];
    let (items, closed) = collect_input(&frames).unwrap();
    assert_eq!(items, vec![vec![1], vec![2]]);
    assert_eq!(closed, None);
    let bad = vec![wire(&Frame {
        id: 1,
        flags: Flags::no_data(),
        ty: MessageType::Data,
        payload: vec![1],
    })];
    assert_eq!(collect_input(&bad).unwrap_err().code, 3);
}
