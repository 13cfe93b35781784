use lsp_jsonrpc::json::{JsonNumber, JsonValue};
use lsp_jsonrpc::message::{
    accept_params, classify, decode_id, parse_message, Envelope, FailureKind, Id, ParseFailure,
};
use lsp_jsonrpc::reply::{error_to_json, failure_packet, id_to_json, success_packet, RpcError};

fn text(s: &str) -> JsonValue {
    JsonValue::String(s.to_string())
}

fn object(members: Vec<(&str, JsonValue)>) -> JsonValue {
    JsonValue::Object(members.into_iter().map(|(k, v)| (k.to_string(), v)).collect())
}

fn number(n: u64) -> JsonValue {
    JsonValue::Number(JsonNumber::Unsigned(n))
}

fn invalid(id: Id) -> Result<Envelope, ParseFailure> {
    Err(ParseFailure { id, kind: FailureKind::InvalidRequest })
}

#[test]
fn packet_without_id_is_a_notification() {
    let message = parse_message(r#"{"method":"hover","params":{"key":"value"}}"#).unwrap();
    assert_eq!(
        message,
        Envelope::Notification {
            method: "hover".to_string(),
            params: object(vec![("key", text("value"))]),
        }
    );
}

#[test]
fn packet_with_id_is_a_request() {
    let message =
        parse_message(r#"{"id":123,"method":"hover","params":{"key":"value"}}"#).unwrap();
    assert_eq!(
        message,
        Envelope::Request {
            id: Id::Num(123),
            method: "hover".to_string(),
            params: object(vec![("key", text("value"))]),
        }
    );
}

#[test]
fn packet_with_string_id_is_a_request() {
    let message = parse_message(r#"{"jsonrpc":"2.0","id":"a-1","method":"m","params":[1,"x"]}"#)
        .unwrap();
    assert_eq!(
        message,
        Envelope::Request {
            id: Id::Str("a-1".to_string()),
            method: "m".to_string(),
            params: JsonValue::Array(vec![number(1), text("x")]),
        }
    );
}

#[test]
fn packet_with_negative_id_is_a_request() {
    let message = parse_message(r#"{"id":-1,"method":"m"}"#).unwrap();
    assert_eq!(
        message,
        Envelope::Request { id: Id::Neg(-1), method: "m".to_string(), params: JsonValue::Null }
    );
    let message = parse_message(r#"{"id":-9223372036854775808,"method":"m","params":[]}"#).unwrap();
    assert_eq!(
        message,
        Envelope::Request {
            id: Id::Neg(i64::MIN),
            method: "m".to_string(),
            params: JsonValue::Array(vec![]),
        }
    );
    assert_eq!(parse_message(r#"{"id":-7,"params":{}}"#), invalid(Id::Neg(-7)));
}

#[test]
fn packet_with_zero_id_is_a_request() {
    let message = parse_message(r#"{"id":0,"method":"m"}"#).unwrap();
    assert_eq!(
        message,
        Envelope::Request { id: Id::Num(0), method: "m".to_string(), params: JsonValue::Null }
    );
}

#[test]
fn packet_with_null_id_is_a_notification() {
    let message = parse_message(r#"{"id":null,"method":"m"}"#).unwrap();
    assert_eq!(
        message,
        Envelope::Notification { method: "m".to_string(), params: JsonValue::Null }
    );
}

#[test]
fn absent_and_null_params_are_the_same() {
    let absent = parse_message(r#"{"id":1,"method":"m"}"#).unwrap();
    let null = parse_message(r#"{"id":1,"method":"m","params":null}"#).unwrap();
    assert_eq!(absent, null);
    assert_eq!(
        absent,
        Envelope::Request { id: Id::Num(1), method: "m".to_string(), params: JsonValue::Null }
    );

    let absent = parse_message(r#"{"method":"m"}"#).unwrap();
    let null = parse_message(r#"{"params":null,"method":"m"}"#).unwrap();
    assert_eq!(absent, null);
}

#[test]
fn empty_params_are_kept_as_they_are() {
    let message = parse_message(r#"{"method":"m","params":{}}"#).unwrap();
    assert_eq!(
        message,
        Envelope::Notification { method: "m".to_string(), params: JsonValue::Object(vec![]) }
    );
    let message = parse_message(r#"{"method":"m","params":[]}"#).unwrap();
    assert_eq!(
        message,
        Envelope::Notification { method: "m".to_string(), params: JsonValue::Array(vec![]) }
    );
}

#[test]
fn packet_that_is_not_json_is_a_parse_error() {
    for packet in ["", "{", "hello", r#"{"method":"m""#, r#"{"method":"m"} x"#] {
        assert_eq!(
            parse_message(packet),
            Err(ParseFailure { id: Id::Null, kind: FailureKind::ParseError }),
            "{}",
            packet
        );
    }
}

#[test]
fn packet_without_method_is_an_invalid_request() {
    assert_eq!(parse_message(r#"{"id":7,"params":{}}"#), invalid(Id::Num(7)));
    assert_eq!(parse_message(r#"{"id":"x"}"#), invalid(Id::Str("x".to_string())));
    assert_eq!(parse_message(r#"{}"#), invalid(Id::Null));
}

#[test]
fn packet_with_wrong_method_is_an_invalid_request() {
    assert_eq!(parse_message(r#"{"id":7,"method":5}"#), invalid(Id::Num(7)));
    assert_eq!(parse_message(r#"{"id":7,"method":null}"#), invalid(Id::Num(7)));
    assert_eq!(parse_message(r#"{"id":7,"method":["m"]}"#), invalid(Id::Num(7)));
    assert_eq!(parse_message(r#"{"id":7,"method":""}"#), invalid(Id::Num(7)));
}

#[test]
fn packet_with_wrong_params_is_an_invalid_request() {
    assert_eq!(parse_message(r#"{"id":7,"method":"m","params":5}"#), invalid(Id::Num(7)));
    assert_eq!(parse_message(r#"{"id":7,"method":"m","params":"p"}"#), invalid(Id::Num(7)));
    assert_eq!(parse_message(r#"{"method":"m","params":true}"#), invalid(Id::Null));
}

#[test]
fn packet_with_wrong_id_is_an_invalid_request() {
    assert_eq!(parse_message(r#"{"id":true,"method":"m"}"#), invalid(Id::Null));
    assert_eq!(parse_message(r#"{"id":1.5,"method":"m"}"#), invalid(Id::Null));
    assert_eq!(parse_message(r#"{"id":{},"method":"m"}"#), invalid(Id::Null));
    assert_eq!(parse_message(r#"{"id":[1],"method":"m"}"#), invalid(Id::Null));
}

#[test]
fn packet_that_is_no_object_is_an_invalid_request() {
    assert_eq!(parse_message("[1,2]"), invalid(Id::Null));
    assert_eq!(parse_message("5"), invalid(Id::Null));
    assert_eq!(parse_message("null"), invalid(Id::Null));
    assert_eq!(parse_message(r#""method""#), invalid(Id::Null));
}

#[test]
fn later_member_counts_where_a_key_stands_twice() {
    let doc = JsonValue::Object(vec![
        ("method".to_string(), text("first")),
        ("id".to_string(), number(1)),
        ("method".to_string(), text("second")),
        ("id".to_string(), number(2)),
    ]);
    assert_eq!(
        classify(doc),
        Ok(Envelope::Request {
            id: Id::Num(2),
            method: "second".to_string(),
            params: JsonValue::Null
        })
    );
}

#[test]
fn classify_ignores_other_members() {
    let doc = object(vec![
        ("jsonrpc", text("2.0")),
        ("extra", number(1)),
        ("method", text("m")),
    ]);
    assert_eq!(
        classify(doc),
        Ok(Envelope::Notification { method: "m".to_string(), params: JsonValue::Null })
    );
}

#[test]
fn decode_id_takes_null_numbers_and_strings() {
    assert_eq!(decode_id(JsonValue::Null), Some(Id::Null));
    assert_eq!(decode_id(number(0)), Some(Id::Num(0)));
    assert_eq!(decode_id(number(u64::MAX)), Some(Id::Num(u64::MAX)));
    assert_eq!(decode_id(text("")), Some(Id::Str("".to_string())));
    assert_eq!(decode_id(JsonValue::Bool(false)), None);
    assert_eq!(decode_id(JsonValue::Number(JsonNumber::Negative(-3))), Some(Id::Neg(-3)));
    assert_eq!(decode_id(JsonValue::Number(JsonNumber::Negative(i64::MIN))), Some(Id::Neg(i64::MIN)));
    assert_eq!(decode_id(JsonValue::Number(JsonNumber::Negative(5))), Some(Id::Num(5)));
    assert_eq!(decode_id(JsonValue::Number(JsonNumber::Decimal("1.0".to_string()))), None);
    assert_eq!(decode_id(JsonValue::Array(vec![])), None);
    assert_eq!(decode_id(JsonValue::Object(vec![])), None);
}

#[test]
fn accept_params_takes_objects_arrays_and_null() {
    assert_eq!(accept_params(None), Some(JsonValue::Null));
    assert_eq!(accept_params(Some(JsonValue::Null)), Some(JsonValue::Null));
    assert_eq!(
        accept_params(Some(JsonValue::Array(vec![number(1)]))),
        Some(JsonValue::Array(vec![number(1)]))
    );
    assert_eq!(
        accept_params(Some(object(vec![("a", number(1))]))),
        Some(object(vec![("a", number(1))]))
    );
    assert_eq!(accept_params(Some(number(1))), None);
    assert_eq!(accept_params(Some(text("p"))), None);
    assert_eq!(accept_params(Some(JsonValue::Bool(true))), None);
}

#[test]
fn standard_errors_have_their_codes() {
    assert_eq!(
        RpcError::standard(FailureKind::InvalidRequest),
        RpcError { code: -32600, message: "Invalid request".to_string(), data: None }
    );
    assert_eq!(
        RpcError::standard(FailureKind::ParseError),
        RpcError { code: -32700, message: "Parse error".to_string(), data: None }
    );
}

#[test]
fn id_to_json_gives_the_document() {
    assert_eq!(id_to_json(Id::Null), JsonValue::Null);
    assert_eq!(id_to_json(Id::Num(5)), number(5));
    assert_eq!(id_to_json(Id::Neg(-5)), JsonValue::Number(JsonNumber::Negative(-5)));
    assert_eq!(id_to_json(Id::Neg(5)), number(5));
    assert_eq!(id_to_json(Id::Str("s".to_string())), text("s"));
}

#[test]
fn error_to_json_gives_code_message_and_data() {
    assert_eq!(
        error_to_json(RpcError { code: -32601, message: "Method not found".to_string(), data: None }),
        object(vec![
            ("code", JsonValue::Number(JsonNumber::Negative(-32601))),
            ("message", text("Method not found")),
        ])
    );
    assert_eq!(
        error_to_json(RpcError { code: 3, message: "m".to_string(), data: Some(JsonValue::Bool(true)) }),
        object(vec![("code", number(3)), ("message", text("m")), ("data", JsonValue::Bool(true))])
    );
}

#[test]
fn success_packet_holds_version_id_and_result() {
    let packet = success_packet(Id::Num(123), object(vec![("success", text("yes"))]));
    assert_eq!(packet, r#"{"id":123,"jsonrpc":"2.0","result":{"success":"yes"}}"#);
    let packet = success_packet(Id::Str("a".to_string()), JsonValue::Null);
    assert_eq!(packet, r#"{"id":"a","jsonrpc":"2.0","result":null}"#);
    let packet = success_packet(Id::Neg(-12), JsonValue::Bool(true));
    assert_eq!(packet, r#"{"id":-12,"jsonrpc":"2.0","result":true}"#);
}

#[test]
fn failure_packet_holds_version_id_and_error() {
    let packet = failure_packet(
        Id::Num(9),
        RpcError { code: -32602, message: "Invalid params".to_string(), data: None },
    );
    assert_eq!(
        packet,
        r#"{"error":{"code":-32602,"message":"Invalid params"},"id":9,"jsonrpc":"2.0"}"#
    );
    let packet = failure_packet(
        Id::Null,
        RpcError { code: 1, message: "m".to_string(), data: Some(JsonValue::Array(vec![number(2)])) },
    );
    assert_eq!(
        packet,
        r#"{"error":{"code":1,"data":[2],"message":"m"},"id":null,"jsonrpc":"2.0"}"#
    );
}
