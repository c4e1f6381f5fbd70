use trapeze::encoded::{EncodeError, Encoded};
use trapeze::message::{check_message, client_response, message_bytes, ClientError, Message, MessageReadError};
use trapeze::metadata::{Context, KeyValue, Metadata};
use trapeze::protocol::{send_error, SendError};
use trapeze::frame::InvalidInput;
use trapeze::timeout::Timeout;

fn kv(key: &str, value: &str) -> KeyValue {
    KeyValue {
        key: key.to_string(),
        value: value.to_string(),
    }
}

#[test]
fn metadata_groups_values_in_order() {
    let kvs = vec![kv("a", "1"), kv("B", "2"), kv("a", "3"), kv("b", "4")];
    let md = Metadata::from_pairs(&kvs);
    assert_eq!(md.get(&"a".to_string()), Some(&vec!["1".to_string(), "3".to_string()]));
    assert_eq!(md.get(&"B".to_string()), Some(&vec!["2".to_string()]));
    assert_eq!(md.get(&"b".to_string()), Some(&vec!["4".to_string()]));
    assert_eq!(md.get(&"c".to_string()), None);
}

#[test]
fn metadata_lists_every_value() {
    let kvs = vec![kv("a", "1"), kv("b", "2"), kv("a", "3")];
    let md = Metadata::from_pairs(&kvs);
    let listed = md.iter();
    assert_eq!(listed, vec![kv("a", "1"), kv("a", "3"), kv("b", "2")]);
    let again = Metadata::from_pairs(&listed);
    assert_eq!(again.get(&"a".to_string()), md.get(&"a".to_string()));
    assert_eq!(again.get(&"b".to_string()), md.get(&"b".to_string()));
}

#[test]
fn metadata_append() {
    let mut md = Metadata::new();
    md.append("k".to_string(), "v1".to_string());
    md.append("k".to_string(), "v2".to_string());
    assert_eq!(md.get(&"k".to_string()), Some(&vec!["v1".to_string(), "v2".to_string()]));
    assert!(Metadata::new().iter().is_empty());
}

#[test]
fn context_from_request() {
    let ctx = Context::from_request(&vec![kv("x", "y")], 20_000_000);
    assert_eq!(ctx.timeout, Timeout::Duration(20_000_000));
    assert_eq!(ctx.metadata.get(&"x".to_string()), Some(&vec!["y".to_string()]));
    let ctx = Context::from_request(&vec![], 0);
    assert_eq!(ctx.timeout, Timeout::Unlimited);
}

#[test]
fn unary_message_checks() {
    match check_message(3, 1, 0, vec![9, 8]) {
        Ok(Message::Request { id, data }) => {
            assert_eq!(id, 3);
            assert_eq!(data.as_slice(), &[9, 8]);
        }
        _ => panic!("expected a request"),
    }
    assert!(matches!(check_message(5, 2, 0, vec![]), Ok(Message::Response { id: 5, .. })));
    assert_eq!(check_message(4, 1, 0, vec![]).unwrap_err(), MessageReadError::InvalidId(4));
    assert_eq!(check_message(5, 3, 0, vec![]).unwrap_err(), MessageReadError::InvalidType(3));
    assert_eq!(check_message(5, 1, 1, vec![]).unwrap_err(), MessageReadError::InvalidFlags(1));
    assert_eq!(
        check_message(5, 1, 0, vec![0; 4194305]).unwrap_err(),
        MessageReadError::Encoded(EncodeError::TooLong(4194305))
    );
}

#[test]
fn unary_message_bytes() {
    let msg = Message::Response {
        id: 7,
        data: Encoded::buffer(vec![1, 2, 3]).unwrap(),
    };
    assert_eq!(message_bytes(&msg), vec![0, 0, 0, 3, 0, 0, 0, 7, 2, 0, 1, 2, 3]);
}

#[test]
fn client_refuses_requests() {
    let req = Message::Request {
        id: 1,
        data: Encoded::buffer(vec![]).unwrap(),
    };
    assert_eq!(client_response(req).unwrap_err(), ClientError::ReceivedRequest);
    let resp = Message::Response {
        id: 9,
        data: Encoded::buffer(vec![4]).unwrap(),
    };
    let (id, data) = client_response(resp).unwrap();
    assert_eq!(id, 9);
    assert_eq!(data.into_inner(), vec![4]);
}

#[test]
fn send_errors() {
    let s = send_error(&SendError::ChannelClosed);
    assert_eq!(s.code, 13);
    assert_eq!(s.message, "Error sending message: Channel closed");
    let s = send_error(&SendError::InvalidInput(InvalidInput("too big".to_string())));
    assert_eq!(s.message, "Error sending message: Invalid input: too big");
}
