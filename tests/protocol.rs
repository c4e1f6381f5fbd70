use trapeze::flags::Flags;
use trapeze::message_type::MessageType;
use trapeze::protocol::{
    admit_frame, check_request, find_method, input_data_step, method_path, output_frame_step,
    Admission, DataStep, MethodKind, OutputStep,
};
use trapeze::status::{code_to_str, Code, Status};
use trapeze::timeout::Timeout;

fn open_flags() -> Flags {
    Flags::remote_open().union(Flags::no_data())
}

#[test]
fn unary_rejects_any_flag() {
    assert!(check_request(MethodKind::Unary, Flags::empty(), 5).is_ok());
    for bits in 1..=255u8 {
        let err = check_request(MethodKind::Unary, Flags::from_bits_retain(bits), 0).unwrap_err();
        assert_eq!(err.code, Code::InvalidArgument.to_i32());
    }
}

#[test]
fn server_streaming_accepts_only_remote_closed() {
    for bits in 0..=255u8 {
        let r = check_request(MethodKind::ServerStreaming, Flags::from_bits_retain(bits), 4);
        assert_eq!(r.is_ok(), bits == 0x01);
    }
}

#[test]
fn streamed_input_accepts_only_open_no_data() {
    for kind in [MethodKind::ClientStreaming, MethodKind::DuplexStreaming] {
        for bits in 0..=255u8 {
            let r = check_request(kind, Flags::from_bits_retain(bits), 0);
            assert_eq!(r.is_ok(), bits == 0x06);
        }
        let err = check_request(kind, open_flags(), 3).unwrap_err();
        assert_eq!(err.code, 3);
    }
}

#[test]
fn flag_error_text() {
    let err = check_request(MethodKind::ServerStreaming, Flags::empty(), 0).unwrap_err();
    assert_eq!(err.message, "Invalid request flags. Expected 1, found 0");
}

#[test]
fn data_steps() {
    assert_eq!(
        input_data_step(MessageType::Data, Flags::empty(), 4),
        Ok(DataStep { deliver: true, finished: false })
    );
    assert_eq!(
        input_data_step(MessageType::Data, Flags::remote_closed().union(Flags::no_data()), 0),
        Ok(DataStep { deliver: false, finished: true })
    );
    assert_eq!(
        input_data_step(MessageType::Data, Flags::remote_closed(), 2),
        Ok(DataStep { deliver: true, finished: true })
    );
    assert!(input_data_step(MessageType::Data, Flags::no_data(), 1).is_err());
    assert!(input_data_step(MessageType::Request, Flags::empty(), 1).is_err());
}

#[test]
fn output_steps() {
    assert!(matches!(
        output_frame_step(MessageType::Response, Flags::empty(), None, 0),
        Ok(OutputStep::Done)
    ));
    let failed = output_frame_step(
        MessageType::Response,
        Flags::empty(),
        Some(Status::internal("boom")),
        0,
    );
    match failed {
        Ok(OutputStep::Failed(s)) => {
            assert_eq!(s.code, 13);
            assert_eq!(s.message, "boom");
        }
        _ => panic!("expected a failed step"),
    }
    assert!(output_frame_step(MessageType::Response, Flags::empty(), None, 1).is_err());
    assert!(matches!(
        output_frame_step(MessageType::Data, Flags::remote_closed(), None, 3),
        Ok(OutputStep::Data { deliver: true, finished: true })
    ));
}

#[test]
fn admission() {
    assert!(matches!(admit_frame(3, true, MessageType::Request), Admission::Accept));
    match admit_frame(4, true, MessageType::Request) {
        Admission::Reject(s) => {
            assert_eq!(s.code, 3);
            assert_eq!(s.message, "Stream id must be odd, found `4`");
        }
        Admission::Accept => panic!("even id accepted"),
    }
    match admit_frame(1234567, false, MessageType::Request) {
        Admission::Reject(s) => assert_eq!(s.message, "Stream `1234567` is already in use"),
        Admission::Accept => panic!("busy stream accepted"),
    }
    assert!(matches!(admit_frame(5, true, MessageType::Data), Admission::Reject(_)));
}

#[test]
fn unknown_method() {
    let s = Status::method_not_found("grpc.Health", "Phantom");
    assert_eq!(s.code, Code::NotFound.to_i32());
    assert_eq!(s.message, "/grpc.Health/Phantom is not supported");
}

#[test]
fn method_lookup_last_registration_wins() {
    let paths = vec![
        method_path("grpc.Health", "Check"),
        method_path("Streaming", "DivideStream"),
        method_path("grpc.Health", "Check"),
    ];
    assert_eq!(paths[0], "/grpc.Health/Check");
    assert_eq!(find_method(&paths, "/grpc.Health/Check"), Some(2));
    assert_eq!(find_method(&paths, "/Streaming/DivideStream"), Some(1));
    assert_eq!(find_method(&paths, "/grpc.Health/Phantom"), None);
}

#[test]
fn status_codes() {
    assert_eq!(code_to_str(0), "OK");
    assert_eq!(code_to_str(4), "DEADLINE_EXCEEDED");
    assert_eq!(code_to_str(16), "UNAUTHENTICATED");
    assert_eq!(code_to_str(17), "<None>");
    assert_eq!(code_to_str(-1), "<None>");
    assert_eq!(Code::from_i32(5), Some(Code::NotFound));
    assert_eq!(Code::from_i32(99), None);
    let s = Status::not_found("Just for fun");
    assert_eq!(s.code, 5);
    assert_eq!(s.message, "Just for fun");
    assert!(s.details.is_empty());
    assert!(!s.is_ok());
    assert!(Status::new(Code::OK, "").is_ok());
    assert_eq!(Status::timeout().code, 4);
    assert_eq!(Status::channel_closed().message, "Channel closed");
    assert_eq!(Status::stream_closed(0).message, "Channel on stream `0` is closed");
}

#[test]
fn timeouts() {
    assert_eq!(Timeout::from_nanos(0), Timeout::Unlimited);
    assert_eq!(Timeout::from_nanos(-5), Timeout::Unlimited);
    assert_eq!(Timeout::from_nanos(20_000_000), Timeout::Duration(20_000_000));
    assert_eq!(Timeout::Duration(20_000_000).as_nanos(), 20_000_000);
    assert_eq!(Timeout::Unlimited.as_nanos(), 0);
    assert_eq!(Timeout::Duration(u64::MAX).as_nanos(), i64::MAX);
    assert_eq!(Timeout::from_duration_nanos(u64::MAX), Timeout::Duration(i64::MAX as u64));
    assert_eq!(Timeout::from_duration_nanos(0), Timeout::Unlimited);
    assert_eq!(Timeout::default(), Timeout::Unlimited);
}
