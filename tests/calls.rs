use trapeze::calls::{
    close_data_frame, data_frame, dispatch_frame, request_frame, response_frame, unary_result, Dispatch,
};
use trapeze::frame::{decode, encode, DecodedFrame, MAX_DATA_LENGTH};
use trapeze::message_type::MessageType;
use trapeze::metadata::KeyValue;
use trapeze::protocol::{method_path, MethodKind};
use trapeze::protos::{
    decode_key_value, decode_request, decode_response, encode_key_value, encode_request,
    encode_response, merge_status, Request, Response,
};
use trapeze::status::{Any, Code, Status};
use trapeze::timeout::Timeout;
use trapeze::wire::read_varint_at;

/// Base-128 bytes of `n`, written out by hand for the tests.
fn varint_bytes(mut n: u64) -> Vec<u8> {
    let mut out = Vec::new();
    while n >= 0x80 {
        out.push((n as u8 & 0x7f) | 0x80);
        n >>= 7;
    }
    out.push(n as u8);
    out
}

fn request(service: &str, method: &str) -> Request {
    Request {
        service: service.to_string(),
        method: method.to_string(),
        payload: vec![],
        timeout_nano: 0,
        metadata: vec![],
    }
}

fn over_the_wire(frame: &trapeze::frame::Frame) -> DecodedFrame {
    decode(&encode(frame).unwrap()).unwrap()
}

fn health_paths() -> Vec<String> {
    vec![method_path("grpc.Health", "Check")]
}

#[test]
fn varints() {
    for n in [0u64, 1, 127, 128, 300, 16384, u32::MAX as u64, u64::MAX] {
        let out = varint_bytes(n);
        assert_eq!(read_varint_at(&out, 0), Some((n, out.len())));
    }
    assert_eq!(read_varint_at(&[9, 0xac, 0x02, 7], 1), Some((300, 3)));
    assert_eq!(read_varint_at(&[0x80], 0), None);
    assert_eq!(read_varint_at(&[1], 2), None);
    // ten bytes whose last carries a value bit past 64 bits
    let mut too_big = vec![0xff; 9];
    too_big.push(0x02);
    assert_eq!(read_varint_at(&too_big, 0), None);
    let mut largest = vec![0xff; 9];
    largest.push(0x01);
    assert_eq!(read_varint_at(&largest, 0), Some((u64::MAX, 10)));
    // an over-long zero is still read
    assert_eq!(read_varint_at(&[0x80, 0x00], 0), Some((0, 2)));
}

#[test]
fn varint_writer_through_request() {
    for t in [1i64, 127, 128, 300, i64::MAX, -1] {
        let mut req = request("", "");
        req.timeout_nano = t;
        let b = encode_request(&req);
        let mut expected = vec![0x1a, 0, 0x20];
        expected.extend(varint_bytes(t as u64));
        assert_eq!(b, expected);
    }
}

#[test]
fn key_value_bytes() {
    let kv = KeyValue {
        key: "k".to_string(),
        value: "vé".to_string(),
    };
    let b = encode_key_value(&kv);
    assert_eq!(b, vec![0x0a, 1, b'k', 0x12, 3, b'v', 0xc3, 0xa9]);
    assert_eq!(decode_key_value(&b), Some(kv));
    assert_eq!(decode_key_value(&[0x0a, 2, 0xff, 0xfe]), None);
}

#[test]
fn request_round_trip() {
    let req = Request {
        service: "grpc.Health".to_string(),
        method: "Check".to_string(),
        payload: vec![1, 2, 3],
        timeout_nano: 20_000_000,
        metadata: vec![
            KeyValue {
                key: "a".to_string(),
                value: "1".to_string(),
            },
            KeyValue {
                key: "a".to_string(),
                value: "".to_string(),
            },
        ],
    };
    let b = encode_request(&req);
    let back = decode_request(&b).unwrap();
    assert_eq!(back.service, req.service);
    assert_eq!(back.method, req.method);
    assert_eq!(back.payload, req.payload);
    assert_eq!(back.timeout_nano, req.timeout_nano);
    assert_eq!(back.metadata, req.metadata);
}

#[test]
fn request_negative_timeout_round_trip() {
    let mut req = request("s", "m");
    req.timeout_nano = -5;
    let back = decode_request(&encode_request(&req)).unwrap();
    assert_eq!(back.timeout_nano, -5);
}

#[test]
fn empty_request_is_just_payload_field() {
    let b = encode_request(&request("", ""));
    assert_eq!(b, vec![0x1a, 0]);
    assert_eq!(decode_request(&[]).unwrap().service, "");
}

#[test]
fn request_skips_unknown_fields() {
    // field 9 varint 5, then service "x"
    let b = vec![0x48, 5, 0x0a, 1, b'x'];
    assert_eq!(decode_request(&b).unwrap().service, "x");
    // field 1 with a varint wire type is refused
    assert!(decode_request(&[0x08, 1]).is_none());
    // field number zero is refused
    assert!(decode_request(&[0x00, 1]).is_none());
    // a length that runs past the end is refused
    assert!(decode_request(&[0x0a, 5, b'x']).is_none());
}

#[test]
fn response_and_status_bytes() {
    let st = Status {
        code: Code::NotFound.to_i32(),
        message: "Just for fun".to_string(),
        details: vec![Any {
            type_url: "t".to_string(),
            value: vec![9],
        }],
    };
    let resp = Response {
        status: Some(st.clone()),
        payload: vec![],
    };
    let b = encode_response(&resp);
    let back = decode_response(&b).unwrap();
    assert_eq!(back.status, Some(st));
    assert!(back.payload.is_empty());
}

#[test]
fn negative_status_code_round_trip() {
    let resp = Response {
        status: Some(Status {
            code: -3,
            message: String::new(),
            details: vec![],
        }),
        payload: vec![7],
    };
    let back = decode_response(&encode_response(&resp)).unwrap();
    assert_eq!(back.status.unwrap().code, -3);
    assert_eq!(back.payload, vec![7]);
}

#[test]
fn repeated_status_fields_merge() {
    let base = Status::not_found("old");
    let merged = merge_status(&[0x12, 3, b'n', b'e', b'w'], base).unwrap();
    assert_eq!(merged.code, 5);
    assert_eq!(merged.message, "new");
}

#[test]
fn unary_error_status_reaches_client() {
    let handler_result = Response {
        status: Some(Status::not_found("Just for fun")),
        payload: vec![],
    };
    let frame = over_the_wire(&response_frame(1, &handler_result));
    let err = unary_result(&frame.message).unwrap_err();
    assert_eq!(err.code, Code::NotFound.to_i32());
    assert_eq!(err.message, "Just for fun");
}

#[test]
fn unary_success_reaches_client() {
    let ok = Response {
        status: None,
        payload: vec![4, 2],
    };
    let frame = over_the_wire(&response_frame(7, &ok));
    assert_eq!(frame.id, 7);
    assert_eq!(unary_result(&frame.message), Ok(vec![4, 2]));
    let ok_code = Response {
        status: Some(Status::new(Code::OK, "")),
        payload: vec![1],
    };
    let frame = over_the_wire(&response_frame(7, &ok_code));
    assert_eq!(unary_result(&frame.message), Ok(vec![1]));
}

#[test]
fn oversized_response_is_replaced() {
    let big = Response {
        status: None,
        payload: vec![0; MAX_DATA_LENGTH],
    };
    let frame = over_the_wire(&response_frame(3, &big));
    let err = unary_result(&frame.message).unwrap_err();
    assert_eq!(err.code, Code::Internal.to_i32());
    assert_eq!(err.message, "Response too long");
}

#[test]
fn unary_result_needs_a_response() {
    let frame = over_the_wire(&data_frame(1, vec![]));
    let err = unary_result(&frame.message).unwrap_err();
    assert_eq!(err.code, 3);
}

#[test]
fn unknown_method_is_not_found() {
    let frame = request_frame(1, MethodKind::Unary, &request("grpc.Health", "Phantom"));
    let decoded = over_the_wire(&frame);
    match dispatch_frame(decoded.id, true, &decoded.message, &health_paths()) {
        Dispatch::Reject(s) => {
            assert_eq!(s.code, Code::NotFound.to_i32());
            assert_eq!(s.message, "/grpc.Health/Phantom is not supported");
        }
        Dispatch::Run { .. } => panic!("unknown method dispatched"),
    }
}

#[test]
fn known_method_is_dispatched() {
    let mut req = request("grpc.Health", "Check");
    req.timeout_nano = 20_000_000;
    req.metadata.push(KeyValue {
        key: "k".to_string(),
        value: "v".to_string(),
    });
    let decoded = over_the_wire(&request_frame(5, MethodKind::Unary, &req));
    assert_eq!(decoded.flags.bits(), 0);
    match dispatch_frame(decoded.id, true, &decoded.message, &health_paths()) {
        Dispatch::Run {
            method,
            request,
            context,
        } => {
            assert_eq!(method, 0);
            assert_eq!(request.method, "Check");
            assert_eq!(context.timeout, Timeout::Duration(20_000_000));
            assert_eq!(context.metadata.get(&"k".to_string()), Some(&vec!["v".to_string()]));
        }
        Dispatch::Reject(s) => panic!("rejected: {}", s.message),
    }
}

#[test]
fn dispatch_rejections() {
    let decoded = over_the_wire(&request_frame(5, MethodKind::Unary, &request("grpc.Health", "Check")));
    match dispatch_frame(5, false, &decoded.message, &health_paths()) {
        Dispatch::Reject(s) => assert_eq!(s.message, "Stream `5` is already in use"),
        _ => panic!(),
    }
    match dispatch_frame(6, true, &decoded.message, &health_paths()) {
        Dispatch::Reject(s) => assert_eq!(s.message, "Stream id must be odd, found `6`"),
        _ => panic!(),
    }
    let data = over_the_wire(&data_frame(5, vec![1]));
    match dispatch_frame(5, true, &data.message, &health_paths()) {
        Dispatch::Reject(s) => {
            assert_eq!(s.code, 3);
            assert_eq!(s.message, "Invalid message type Data on stream `5`, expected Request");
        }
        _ => panic!(),
    }
}

#[test]
fn streaming_request_frames() {
    let mut req = request("Streaming", "EchoStream");
    req.payload = vec![1, 2];
    let f = request_frame(9, MethodKind::DuplexStreaming, &req);
    assert_eq!(f.flags.bits(), 0x06);
    assert_eq!(f.ty, MessageType::Request);
    assert!(decode_request(&f.payload).unwrap().payload.is_empty());
    let f = request_frame(9, MethodKind::ServerStreaming, &req);
    assert_eq!(f.flags.bits(), 0x01);
    assert_eq!(decode_request(&f.payload).unwrap().payload, vec![1, 2]);
    let c = close_data_frame(9);
    assert_eq!(c.flags.bits(), 0x05);
    assert!(c.payload.is_empty());
    assert_eq!(c.ty, MessageType::Data);
}

#[test]
fn request_carries_client_context() {
    let ctx = trapeze::metadata::Context::from_request(
        &vec![KeyValue {
            key: "trace".to_string(),
            value: "1".to_string(),
        }],
        0,
    );
    let req = trapeze::calls::build_request("grpc.Health", "Check", vec![5], &ctx);
    assert_eq!(req.service, "grpc.Health");
    assert_eq!(req.method, "Check");
    assert_eq!(req.payload, vec![5]);
    assert_eq!(req.timeout_nano, 0);
    assert_eq!(
        req.metadata,
        vec![KeyValue {
            key: "trace".to_string(),
            value: "1".to_string(),
        }]
    );
}

#[test]
fn unary_timeout_reaches_server() {
    let client_ctx = trapeze::metadata::Context {
        metadata: trapeze::metadata::Metadata::new(),
        timeout: Timeout::from_duration_nanos(20_000_000),
    };
    let req = trapeze::calls::build_request("grpc.Health", "Check", vec![], &client_ctx);
    let decoded = over_the_wire(&request_frame(1, MethodKind::Unary, &req));
    match dispatch_frame(1, true, &decoded.message, &health_paths()) {
        Dispatch::Run { context, .. } => assert_eq!(context.timeout, Timeout::Duration(20_000_000)),
        Dispatch::Reject(s) => panic!("rejected: {}", s.message),
    }
    // what the caller sees when the deadline passes first
    let expired = Status::timeout();
    assert_eq!(expired.code, Code::DeadlineExceeded.to_i32());
}
