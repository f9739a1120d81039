use chat_client::codec::{decode_frame, decode_payload, encode_register, encode_send};
use chat_client::wire::{MsgTypes, ProtocolDecodeError};

#[test]
fn encode_register_exact() {
    assert_eq!(
        encode_register("alice"),
        "{\"messageType\":\"register\",\"dataArray\":null,\"data\":\"alice\"}"
    );
}

#[test]
fn encode_send_exact() {
    assert_eq!(
        encode_send("hello"),
        "{\"messageType\":\"message\",\"dataArray\":null,\"data\":\"hello\"}"
    );
}

#[test]
fn encode_send_escapes_quotes_and_backslashes() {
    assert_eq!(
        encode_send("a\"b\\c"),
        "{\"messageType\":\"message\",\"dataArray\":null,\"data\":\"a\\\"b\\\\c\"}"
    );
}

#[test]
fn round_trip_send() {
    let m = decode_frame(&encode_send("hi there")).unwrap();
    assert!(matches!(m.message_type, MsgTypes::Message));
    assert_eq!(m.data, Some(String::from("hi there")));
    assert!(m.data_array.is_none());
}

#[test]
fn round_trip_send_with_escapes() {
    let body = "quote \" back \\ slash";
    let m = decode_frame(&encode_send(body)).unwrap();
    assert!(matches!(m.message_type, MsgTypes::Message));
    assert_eq!(m.data, Some(String::from(body)));
}

#[test]
fn round_trip_register() {
    let m = decode_frame(&encode_register("bob")).unwrap();
    assert!(matches!(m.message_type, MsgTypes::Register));
    assert_eq!(m.data, Some(String::from("bob")));
}

#[test]
fn decode_users_frame() {
    let m = decode_frame("{\"messageType\":\"users\",\"dataArray\":[\"a\",\"b\"],\"data\":null}")
        .unwrap();
    assert!(matches!(m.message_type, MsgTypes::Users));
    assert_eq!(m.data_array, Some(vec![String::from("a"), String::from("b")]));
    assert!(m.data.is_none());
}

#[test]
fn decode_tolerates_whitespace_and_key_order() {
    let m = decode_frame(
        " { \"data\" : null , \"dataArray\" : [ \"a\" , \"b\" ] , \"messageType\" : \"users\" } ",
    )
    .unwrap();
    assert!(matches!(m.message_type, MsgTypes::Users));
    assert_eq!(m.data_array, Some(vec![String::from("a"), String::from("b")]));
}

#[test]
fn decode_users_without_array_member() {
    let m = decode_frame("{\"messageType\":\"users\"}").unwrap();
    assert!(matches!(m.message_type, MsgTypes::Users));
    assert!(m.data_array.is_none());
}

#[test]
fn decode_empty_array() {
    let m = decode_frame("{\"messageType\":\"users\",\"dataArray\":[]}").unwrap();
    assert_eq!(m.data_array, Some(Vec::new()));
}

#[test]
fn decode_string_escapes() {
    let m = decode_frame("{\"messageType\":\"message\",\"data\":\"a\\n\\t\\\"b\\\\/\"}").unwrap();
    assert_eq!(m.data, Some(String::from("a\n\t\"b\\/")));
}

#[test]
fn decode_rejects_plain_text() {
    assert!(matches!(
        decode_frame("not json"),
        Err(ProtocolDecodeError::MalformedFrame)
    ));
}

#[test]
fn decode_rejects_missing_message_type() {
    assert!(matches!(
        decode_frame("{}"),
        Err(ProtocolDecodeError::MalformedFrame)
    ));
    assert!(matches!(
        decode_frame("{\"data\":\"x\"}"),
        Err(ProtocolDecodeError::MalformedFrame)
    ));
}

#[test]
fn decode_rejects_unknown_message_type() {
    assert!(matches!(
        decode_frame("{\"messageType\":\"ping\"}"),
        Err(ProtocolDecodeError::MalformedFrame)
    ));
}

#[test]
fn decode_rejects_unknown_member() {
    assert!(matches!(
        decode_frame("{\"messageType\":\"users\",\"extra\":\"x\"}"),
        Err(ProtocolDecodeError::MalformedFrame)
    ));
}

#[test]
fn decode_rejects_duplicate_member() {
    assert!(matches!(
        decode_frame("{\"messageType\":\"users\",\"messageType\":\"users\"}"),
        Err(ProtocolDecodeError::MalformedFrame)
    ));
}

#[test]
fn decode_rejects_trailing_text() {
    assert!(matches!(
        decode_frame("{\"messageType\":\"users\"} x"),
        Err(ProtocolDecodeError::MalformedFrame)
    ));
}

#[test]
fn decode_rejects_unknown_escape() {
    assert!(matches!(
        decode_frame("{\"messageType\":\"message\",\"data\":\"a\\x\"}"),
        Err(ProtocolDecodeError::MalformedFrame)
    ));
    assert!(matches!(
        decode_frame("{\"messageType\":\"message\",\"data\":\"\\u0041\"}"),
        Err(ProtocolDecodeError::MalformedFrame)
    ));
}

#[test]
fn decode_rejects_non_string_array_element() {
    assert!(matches!(
        decode_frame("{\"messageType\":\"users\",\"dataArray\":[1]}"),
        Err(ProtocolDecodeError::MalformedFrame)
    ));
}

#[test]
fn decode_rejects_null_message_type() {
    assert!(matches!(
        decode_frame("{\"messageType\":null}"),
        Err(ProtocolDecodeError::MalformedFrame)
    ));
}

#[test]
fn payload_decodes() {
    let p = decode_payload("{\"from\":\"alice\",\"message\":\"hi\"}").unwrap();
    assert_eq!(p.from, "alice");
    assert_eq!(p.message, "hi");
}

#[test]
fn payload_key_order_free() {
    let p = decode_payload("{ \"message\" : \"hi\" , \"from\" : \"alice\" }").unwrap();
    assert_eq!(p.from, "alice");
    assert_eq!(p.message, "hi");
}

#[test]
fn payload_rejects_plain_text() {
    assert!(matches!(
        decode_payload("not json"),
        Err(ProtocolDecodeError::MalformedPayload)
    ));
}

#[test]
fn payload_rejects_missing_member() {
    assert!(matches!(
        decode_payload("{\"from\":\"alice\"}"),
        Err(ProtocolDecodeError::MalformedPayload)
    ));
}
