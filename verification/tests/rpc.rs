use lsp_jsonrpc::error::TransportError;
use lsp_jsonrpc::frame::encode_packet;
use lsp_jsonrpc::json::{JsonNumber, JsonValue};
use lsp_jsonrpc::message::{Envelope, Id};
use lsp_jsonrpc::reply::RpcError;
use lsp_jsonrpc::rpc::{next_step, JsonRpcServer, Message, ResponseHandle, Step};
use lsp_jsonrpc::transport::{ByteStream, LspTransport, Transport};

fn server_over(input: Vec<u8>) -> JsonRpcServer<LspTransport> {
    JsonRpcServer::new(LspTransport::new(ByteStream::new(input)))
}

fn packets(texts: &[&str]) -> Vec<u8> {
    let mut bytes = Vec::new();
    for text in texts {
        bytes.extend(encode_packet(text));
    }
    bytes
}

fn sent_by(server: JsonRpcServer<LspTransport>) -> Vec<serde_json::Value> {
    let transport = server.into_transport();
    let mut reader = LspTransport::new(ByteStream::new(transport.output().clone()));
    let mut sent = Vec::new();
    while let Ok(packet) = reader.receive_packet() {
        sent.push(serde_json::from_str(&packet).unwrap());
    }
    sent
}

fn key_value() -> serde_json::Value {
    let mut params = serde_json::Map::new();
    params.insert("key".to_string(), serde_json::Value::from("value"));
    serde_json::Value::Object(params)
}

fn expected_params() -> JsonValue {
    JsonValue::Object(vec![("key".to_string(), JsonValue::String("value".to_string()))])
}

#[test]
fn read_message_returns_notification_when_message_is_missing_id() {
    let mut packet = serde_json::Map::new();
    packet.insert("method".to_string(), serde_json::Value::from("hover"));
    packet.insert("params".to_string(), key_value());
    let mut server = server_over(packets(&[&serde_json::Value::Object(packet).to_string()]));

    let message = server
        .read_message()
        .expect("Notification should be returned from valid notification packet");

    let raw_notification = match message {
        Message::Notification(n) => n,
        _ => panic!("Expected notification"),
    };
    assert_eq!(raw_notification.method, "hover");
    assert_eq!(raw_notification.params, expected_params());
}

#[test]
fn read_message_returns_request_when_message_has_id() {
    let mut packet = serde_json::Map::new();
    packet.insert("id".to_string(), serde_json::Value::from(123));
    packet.insert("method".to_string(), serde_json::Value::from("hover"));
    packet.insert("params".to_string(), key_value());
    let mut server = server_over(packets(&[&serde_json::Value::Object(packet).to_string()]));

    let message = server
        .read_message()
        .expect("Notification should be returned from valid notification packet");

    let raw_request = match message {
        Message::Request(r) => r,
        _ => panic!("Expected request"),
    };
    assert_eq!(raw_request.method, "hover");
    assert_eq!(raw_request.params, expected_params());
    raw_request
        .response
        .success(JsonValue::Object(vec![(
            "success".to_string(),
            JsonValue::String("yes".to_string()),
        )]))
        .unwrap();

    let mut result = serde_json::Map::new();
    result.insert("success".to_string(), serde_json::Value::from("yes"));
    let mut response = serde_json::Map::new();
    response.insert("id".to_string(), serde_json::Value::from(123));
    response.insert("jsonrpc".to_string(), serde_json::Value::from("2.0"));
    response.insert("result".to_string(), serde_json::Value::Object(result));
    assert_eq!(sent_by(server), vec![serde_json::Value::Object(response)]);
}

#[test]
fn read_message_skips_packet_with_bad_header() {
    let mut input = b"Invalid-Header\r\n".to_vec();
    input.extend(packets(&[r#"{"method":"hover"}"#]));
    let mut server = server_over(input);

    match server.read_message().unwrap() {
        Message::Notification(n) => assert_eq!(n.method, "hover"),
        _ => panic!("Expected notification"),
    }
    assert!(matches!(
        server.read_message().err().unwrap(),
        TransportError::UnexpectedEof
    ));
    assert_eq!(sent_by(server), Vec::<serde_json::Value>::new());
}

#[test]
fn read_message_skips_what_frames_but_is_no_message() {
    let mut server = server_over(packets(&["not json", r#"{"params":[]}"#, r#"{"method":"m"}"#]));
    match server.read_message().unwrap() {
        Message::Notification(n) => {
            assert_eq!(n.method, "m");
            assert_eq!(n.params, JsonValue::Null);
        }
        _ => panic!("Expected notification"),
    }
    assert_eq!(sent_by(server), Vec::<serde_json::Value>::new());
}

#[test]
fn read_message_tells_the_sender_where_the_id_is_known() {
    let mut server = server_over(packets(&[r#"{"id":5,"params":[]}"#, r#"{"id":6,"method":"m"}"#]));
    match server.read_message().unwrap() {
        Message::Request(r) => {
            assert_eq!(r.method, "m");
            r.response
                .failure(RpcError { code: -32601, message: "Method not found".to_string(), data: None })
                .unwrap();
        }
        _ => panic!("Expected request"),
    }
    let sent = sent_by(server);
    assert_eq!(sent.len(), 2);
    assert_eq!(
        sent[0],
        serde_json::from_str::<serde_json::Value>(
            r#"{"jsonrpc":"2.0","id":5,"error":{"code":-32600,"message":"Invalid request"}}"#
        )
        .unwrap()
    );
    assert_eq!(
        sent[1],
        serde_json::from_str::<serde_json::Value>(
            r#"{"jsonrpc":"2.0","id":6,"error":{"code":-32601,"message":"Method not found"}}"#
        )
        .unwrap()
    );
}

#[test]
fn read_message_answers_a_packet_without_method_and_reads_on() {
    let mut server = server_over(packets(&[r#"{"id":7}"#, r#"{"method":"hover"}"#]));
    match server.read_message().unwrap() {
        Message::Notification(n) => {
            assert_eq!(n.method, "hover");
            assert_eq!(n.params, JsonValue::Null);
        }
        _ => panic!("Expected notification"),
    }
    assert_eq!(
        sent_by(server),
        vec![serde_json::from_str::<serde_json::Value>(
            r#"{"jsonrpc":"2.0","id":7,"error":{"code":-32600,"message":"Invalid request"}}"#
        )
        .unwrap()]
    );
}

#[test]
fn read_message_answers_every_packet_that_shows_its_id() {
    let mut server = server_over(packets(&[
        r#"{"id":1}"#,
        "no json",
        r#"{"id":"two","method":5}"#,
        r#"{"id":-3,"method":"m","params":1}"#,
    ]));
    assert!(matches!(
        server.read_message().err().unwrap(),
        TransportError::UnexpectedEof
    ));
    let ids: Vec<serde_json::Value> =
        sent_by(server).into_iter().map(|reply| reply["id"].clone()).collect();
    assert_eq!(
        ids,
        vec![
            serde_json::Value::from(1),
            serde_json::Value::from("two"),
            serde_json::Value::from(-3)
        ]
    );
}

#[test]
fn read_message_returns_request_with_negative_id() {
    let mut server = server_over(packets(&[r#"{"id":-1,"method":"m"}"#]));
    match server.read_message().unwrap() {
        Message::Request(r) => {
            assert_eq!(r.method, "m");
            r.response.success(JsonValue::Null).unwrap();
        }
        _ => panic!("Expected request"),
    }
    assert_eq!(
        sent_by(server),
        vec![serde_json::from_str::<serde_json::Value>(
            r#"{"jsonrpc":"2.0","id":-1,"result":null}"#
        )
        .unwrap()]
    );
}

#[test]
fn read_message_fails_when_the_stream_is_over() {
    let mut server = server_over(Vec::new());
    assert!(matches!(
        server.read_message().err().unwrap(),
        TransportError::UnexpectedEof
    ));

    let mut server = server_over(b"Content-Length: 50\r\n\r\n{}".to_vec());
    assert!(matches!(
        server.read_message().err().unwrap(),
        TransportError::UnexpectedEof
    ));
}

#[test]
fn read_message_reads_messages_in_order() {
    let mut server = server_over(packets(&[
        r#"{"id":1,"method":"a"}"#,
        r#"{"method":"b"}"#,
        r#"{"id":"z","method":"c","params":{"key":"value"}}"#,
    ]));
    match server.read_message().unwrap() {
        Message::Request(r) => {
            assert_eq!(r.method, "a");
            r.response.success(JsonValue::Number(JsonNumber::Unsigned(1))).unwrap();
        }
        _ => panic!("Expected request"),
    }
    match server.read_message().unwrap() {
        Message::Notification(n) => assert_eq!(n.method, "b"),
        _ => panic!("Expected notification"),
    }
    match server.read_message().unwrap() {
        Message::Request(r) => {
            assert_eq!(r.params, expected_params());
            r.response.success(JsonValue::Null).unwrap();
        }
        _ => panic!("Expected request"),
    }
    let sent = sent_by(server);
    assert_eq!(
        sent,
        vec![
            serde_json::from_str::<serde_json::Value>(r#"{"id":1,"jsonrpc":"2.0","result":1}"#)
                .unwrap(),
            serde_json::from_str::<serde_json::Value>(r#"{"id":"z","jsonrpc":"2.0","result":null}"#)
                .unwrap(),
        ]
    );
}

#[test]
fn next_step_sorts_what_was_received() {
    assert!(matches!(
        next_step(Err(TransportError::UnexpectedEof)),
        Step::Stop(TransportError::UnexpectedEof)
    ));
    assert!(matches!(
        next_step(Err(TransportError::Io("gone".to_string()))),
        Step::Stop(TransportError::Io(_))
    ));
    assert!(matches!(
        next_step(Err(TransportError::MissingContentLength)),
        Step::Discard(None)
    ));
    assert!(matches!(
        next_step(Err(TransportError::InvalidBodyEncoding)),
        Step::Discard(None)
    ));
    assert!(matches!(next_step(Ok("{".to_string())), Step::Discard(None)));
    assert!(matches!(next_step(Ok("{}".to_string())), Step::Discard(None)));
    match next_step(Ok(r#"{"id":"q"}"#.to_string())) {
        Step::Discard(Some(reply)) => assert_eq!(
            reply,
            r#"{"error":{"code":-32600,"message":"Invalid request"},"id":"q","jsonrpc":"2.0"}"#
        ),
        _ => panic!("Expected a reply"),
    }
    match next_step(Ok(r#"{"id":4,"method":"m"}"#.to_string())) {
        Step::Deliver(envelope) => assert_eq!(
            envelope,
            Envelope::Request { id: Id::Num(4), method: "m".to_string(), params: JsonValue::Null }
        ),
        _ => panic!("Expected a message"),
    }
}
