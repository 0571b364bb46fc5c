use jsonrpc_wire::error::{INVALID_REQUEST, PARSE_ERROR};
use jsonrpc_wire::message::Id;
use jsonrpc_wire::stream::SliceSource;
use jsonrpc_wire::{Error, Message, Notification, Request, Response};
use serde_json::Value;

fn frame(payload: &str) -> Vec<u8> {
    let mut wire = format!("Content-Length: {}\r\n\r\n", payload.len()).into_bytes();
    wire.extend_from_slice(payload.as_bytes());
    wire
}

#[test]
fn test_try_from_reader() {
    let input = "Content-Length: 75\n\n{\"jsonrpc\":\"2.0\",\"id\":\"3162690c-fe69-4b78-b418-0b2e8326ac08\",\"result\":true}";
    let mut src = SliceSource::new(input.as_bytes().to_vec());
    let (consumed, _message) = Message::try_from_reader(&mut src).unwrap();
    assert_eq!(consumed, input.len());
}

#[test]
fn classifies_method_and_id_as_request() {
    let wire = frame("{\"jsonrpc\":\"2.0\",\"method\":\"m\",\"id\":1}");
    let (message, rest) = Message::parse(&wire).unwrap();
    assert!(matches!(message, Message::Request(_)));
    assert!(rest.is_empty());
}

#[test]
fn classifies_method_without_id_as_notification() {
    let wire = frame("{\"jsonrpc\":\"2.0\",\"method\":\"m\"}");
    let (message, _) = Message::parse(&wire).unwrap();
    assert!(matches!(message, Message::Notification(_)));
}

#[test]
fn classifies_result_as_response() {
    let wire = frame("{\"jsonrpc\":\"2.0\",\"result\":true,\"id\":1}");
    let (message, _) = Message::parse(&wire).unwrap();
    assert!(matches!(message, Message::Response(_)));
}

#[test]
fn classifies_error_as_response() {
    let wire = frame(
        "{\"jsonrpc\":\"2.0\",\"error\":{\"code\":-32600,\"message\":\"bad\"},\"id\":1}",
    );
    let (message, _) = Message::parse(&wire).unwrap();
    match message {
        Message::Response(r) => {
            let e = r.error.expect("error object expected");
            assert_eq!(e.code, -32600);
            assert_eq!(e.message, "bad");
        },
        other => panic!("expected a response, got {:?}", other),
    }
}

#[test]
fn id_without_method_is_a_response_and_fails_its_schema() {
    // A malformed request missing its method is read as a response and then
    // fails response-schema validation (it has neither result nor error).
    let wire = frame("{\"jsonrpc\":\"2.0\",\"id\":1}");
    let err = Message::parse(&wire).unwrap_err();
    assert_eq!(err.code, INVALID_REQUEST);
}

#[test]
fn null_id_classifies_as_request_and_fails_its_schema() {
    // Presence of `id`, even null, classifies as a request; a null id is no
    // scalar, so the request schema then rejects it.
    let wire = frame("{\"jsonrpc\":\"2.0\",\"method\":\"m\",\"id\":null}");
    let err = Message::parse(&wire).unwrap_err();
    assert_eq!(err.code, INVALID_REQUEST);
}

#[test]
fn request_round_trips() {
    let request = Request::new(String::from("subtract"))
        .with_id(7)
        .with_params_value(Value::Array(vec![Value::from(42), Value::from(23)]));
    let wire = request.to_wire_bytes();
    let (message, rest) = Message::parse(&wire).unwrap();
    assert!(rest.is_empty());
    match message {
        Message::Request(r) => {
            assert_eq!(r.jsonrpc, "2.0");
            assert_eq!(r.method, "subtract");
            assert_eq!(r.id, Id::Num(7));
            assert_eq!(r.params, Some(Value::Array(vec![Value::from(42), Value::from(23)])));
        },
        other => panic!("expected a request, got {:?}", other),
    }
}

#[test]
fn notification_round_trips() {
    let notification = Notification::new(String::from("update"))
        .with_params_value(Value::Bool(true));
    let wire = notification.to_wire_bytes();
    let (message, rest) = Message::parse(&wire).unwrap();
    assert!(rest.is_empty());
    match message {
        Message::Notification(n) => {
            assert_eq!(n.jsonrpc, "2.0");
            assert_eq!(n.method, "update");
            assert_eq!(n.params, Some(Value::Bool(true)));
        },
        other => panic!("expected a notification, got {:?}", other),
    }
}

#[test]
fn response_round_trips() {
    let response = Response::ok(Id::Str(String::from("abc")), Value::from(9));
    let wire = response.to_wire_bytes();
    let (message, _) = Message::parse(&wire).unwrap();
    match message {
        Message::Response(r) => {
            assert_eq!(r.jsonrpc, "2.0");
            assert_eq!(r.id, Id::Str(String::from("abc")));
            assert_eq!(r.result, Some(Value::from(9)));
            assert!(r.error.is_none());
        },
        other => panic!("expected a response, got {:?}", other),
    }
}

#[test]
fn error_response_round_trips() {
    let response = Response::err(
        Id::Num(4),
        Error { code: -32700, message: String::from("parse error"), data: Some(Value::from("x")) },
    );
    let wire = response.to_wire_bytes();
    let (message, _) = Message::parse(&wire).unwrap();
    match message {
        Message::Response(r) => {
            let e = r.error.expect("error object expected");
            assert_eq!(e.code, -32700);
            assert_eq!(e.message, "parse error");
            assert_eq!(e.data, Some(Value::from("x")));
            assert!(r.result.is_none());
        },
        other => panic!("expected a response, got {:?}", other),
    }
}

#[test]
fn round_trip_consumed_count_equals_wire_length() {
    let request = Request::new(String::from("ping")).with_id_string(String::from("a-1"));
    let wire = request.to_wire_bytes();
    let mut src = SliceSource::new(wire.clone());
    let (consumed, message) = Message::try_from_reader(&mut src).unwrap();
    assert_eq!(consumed, wire.len());
    assert!(matches!(message, Message::Request(_)));
}

#[test]
fn pipelined_messages_parse_in_turn() {
    let first = Request::new(String::from("one")).with_id(1);
    let second = Notification::new(String::from("two"));
    let mut wire = first.to_wire_bytes();
    wire.extend_from_slice(&second.to_wire_bytes());
    let (m1, rest) = Message::parse(&wire).unwrap();
    assert!(matches!(m1, Message::Request(_)));
    let (m2, rest2) = Message::parse(rest).unwrap();
    assert!(matches!(m2, Message::Notification(_)));
    assert!(rest2.is_empty());
}

#[test]
fn narrowing_to_the_wrong_variant_fails() {
    // The error carries the re-encoded original message as diagnostic data.
    let wire = frame("{\"jsonrpc\":\"2.0\",\"method\":\"m\"}");
    let (message, _) = Message::parse(&wire).unwrap();
    let err = message.into_request().unwrap_err();
    assert_eq!(err.code, INVALID_REQUEST);
    assert_eq!(err.message, "the provided message is not a request");
    let expected: Value = serde_json::from_str("{\"jsonrpc\":\"2.0\",\"method\":\"m\"}").unwrap();
    assert_eq!(err.data, Some(expected));
}

#[test]
fn narrowing_to_the_right_variant_succeeds() {
    let wire = frame("{\"jsonrpc\":\"2.0\",\"method\":\"m\",\"id\":\"k\"}");
    let (message, _) = Message::parse(&wire).unwrap();
    let request = message.into_request().unwrap();
    assert_eq!(request.method, "m");
    assert_eq!(request.id, Id::Str(String::from("k")));
}

#[test]
fn response_with_both_result_and_error_is_rejected() {
    let wire = frame(
        "{\"jsonrpc\":\"2.0\",\"result\":1,\"error\":{\"code\":1,\"message\":\"m\"},\"id\":1}",
    );
    let err = Message::parse(&wire).unwrap_err();
    assert_eq!(err.code, INVALID_REQUEST);
}

#[test]
fn error_object_with_non_integer_code_is_rejected() {
    let wire = frame(
        "{\"jsonrpc\":\"2.0\",\"error\":{\"code\":\"x\",\"message\":\"m\"},\"id\":1}",
    );
    let err = Message::parse(&wire).unwrap_err();
    assert_eq!(err.code, INVALID_REQUEST);
}

#[test]
fn invalid_json_payload_fails_with_the_raw_text_attached() {
    let wire = frame("this is not json");
    let err = Message::parse(&wire).unwrap_err();
    assert_eq!(err.code, INVALID_REQUEST);
    assert_eq!(err.data, Some(Value::from("this is not json")));
}

#[test]
fn generated_request_ids_are_hyphenated_uuids() {
    let request = Request::new(String::from("m"));
    match request.id {
        Id::Str(s) => assert_eq!(s.len(), 36),
        Id::Num(n) => panic!("expected a string id, got {}", n),
    }
}

#[test]
fn prepare_splits_id_and_wire_form() {
    let request = Request::new(String::from("m")).with_id(3);
    let (id, wire) = request.prepare();
    assert_eq!(id, Id::Num(3));
    let (message, _) = Message::parse(&wire).unwrap();
    assert!(matches!(message, Message::Request(_)));
}

#[test]
fn into_result_reads_the_response() {
    let ok = Response::ok(Id::Num(1), Value::from(5));
    assert_eq!(ok.into_result().unwrap(), Value::from(5));
    let err = Response::err(
        Id::Num(1),
        Error { code: -32700, message: String::from("e"), data: None },
    );
    assert_eq!(err.into_result().unwrap_err().code, -32700);
    let neither = Response {
        jsonrpc: String::from("2.0"),
        result: None,
        error: None,
        id: Id::Num(1),
    };
    assert_eq!(neither.into_result().unwrap_err().code, INVALID_REQUEST);
}

#[test]
fn typed_parse_rejects_the_wrong_schema() {
    let response_wire = frame("{\"jsonrpc\":\"2.0\",\"result\":true,\"id\":1}");
    let err = Request::parse(&response_wire).unwrap_err();
    assert_eq!(err.code, INVALID_REQUEST);
    let request_wire = frame("{\"jsonrpc\":\"2.0\",\"method\":\"m\",\"id\":1}");
    let (request, rest) = Request::parse(&request_wire).unwrap();
    assert_eq!(request.id, Id::Num(1));
    assert!(rest.is_empty());
}

#[test]
fn notification_schema_ignores_an_id_member() {
    // The notification schema alone does not reject an id member; only the
    // classifier in Message::parse_json routes such a payload elsewhere.
    let payload = "{\"jsonrpc\":\"2.0\",\"method\":\"m\",\"id\":1}";
    let notification = Notification::parse_json(payload.as_bytes()).unwrap();
    assert_eq!(notification.method, "m");
}

#[test]
fn reserved_error_codes() {
    assert_eq!(PARSE_ERROR, -32700);
    assert_eq!(INVALID_REQUEST, -32600);
}

#[test]
fn typed_readers_report_consumed_bytes() {
    let wire = Notification::new(String::from("n")).to_wire_bytes();
    let mut src = SliceSource::new(wire.clone());
    let (consumed, notification) = Notification::try_from_reader(&mut src).unwrap();
    assert_eq!(consumed, wire.len());
    assert_eq!(notification.method, "n");

    let wire = Response::ok(Id::Num(2), Value::Null).to_wire_bytes();
    let mut src = SliceSource::new(wire.clone());
    let (consumed, response) = Response::try_from_reader(&mut src).unwrap();
    assert_eq!(consumed, wire.len());
    assert_eq!(response.result, Some(Value::Null));

    let wire = Request::new(String::from("r")).to_wire_bytes();
    let mut src = SliceSource::new(wire.clone());
    let (consumed, request) = Request::try_from_reader(&mut src).unwrap();
    assert_eq!(consumed, wire.len());
    assert_eq!(request.method, "r");
}

#[test]
fn wire_form_is_the_literal_header_and_payload() {
    let notification = Notification::new(String::from("hi"));
    let wire = notification.to_wire_bytes();
    let expected_payload = "{\"jsonrpc\":\"2.0\",\"method\":\"hi\"}";
    let expected = format!("Content-Length: {}\r\n\r\n{}", expected_payload.len(), expected_payload);
    assert_eq!(wire, expected.as_bytes());
}
