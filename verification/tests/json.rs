use lsp_jsonrpc::json::{JsonNumber, JsonValue};

#[test]
fn parse_reads_every_kind_of_document() {
    assert_eq!(JsonValue::parse("null"), Some(JsonValue::Null));
    assert_eq!(JsonValue::parse("true"), Some(JsonValue::Bool(true)));
    assert_eq!(JsonValue::parse(" false "), Some(JsonValue::Bool(false)));
    assert_eq!(JsonValue::parse("17"), Some(JsonValue::Number(JsonNumber::Unsigned(17))));
    assert_eq!(
        JsonValue::parse("18446744073709551615"),
        Some(JsonValue::Number(JsonNumber::Unsigned(u64::MAX)))
    );
    assert_eq!(JsonValue::parse("-4"), Some(JsonValue::Number(JsonNumber::Negative(-4))));
    assert_eq!(
        JsonValue::parse("1.5"),
        Some(JsonValue::Number(JsonNumber::Decimal("1.5".to_string())))
    );
    assert_eq!(
        JsonValue::parse(r#""a\nb""#),
        Some(JsonValue::String("a\nb".to_string()))
    );
    assert_eq!(
        JsonValue::parse("[1, [], {}]"),
        Some(JsonValue::Array(vec![
            JsonValue::Number(JsonNumber::Unsigned(1)),
            JsonValue::Array(vec![]),
            JsonValue::Object(vec![]),
        ]))
    );
    assert_eq!(
        JsonValue::parse(r#"{"b": {"c": null}, "a": 1}"#),
        Some(JsonValue::Object(vec![
            ("a".to_string(), JsonValue::Number(JsonNumber::Unsigned(1))),
            (
                "b".to_string(),
                JsonValue::Object(vec![("c".to_string(), JsonValue::Null)])
            ),
        ]))
    );
}

#[test]
fn parse_refuses_what_is_not_json() {
    assert_eq!(JsonValue::parse(""), None);
    assert_eq!(JsonValue::parse("{"), None);
    assert_eq!(JsonValue::parse("[1,]"), None);
    assert_eq!(JsonValue::parse("nul"), None);
    assert_eq!(JsonValue::parse("{} {}"), None);
    assert_eq!(JsonValue::parse("'a'"), None);
}

#[test]
fn to_text_writes_compact_json() {
    assert_eq!(JsonValue::Null.to_text(), "null");
    assert_eq!(JsonValue::Bool(true).to_text(), "true");
    assert_eq!(JsonValue::Number(JsonNumber::Unsigned(17)).to_text(), "17");
    assert_eq!(JsonValue::Number(JsonNumber::Negative(-4)).to_text(), "-4");
    assert_eq!(JsonValue::Number(JsonNumber::Decimal("1.5".to_string())).to_text(), "1.5");
    assert_eq!(JsonValue::String("a\"b".to_string()).to_text(), r#""a\"b""#);
    assert_eq!(
        JsonValue::Array(vec![JsonValue::Null, JsonValue::Bool(false)]).to_text(),
        "[null,false]"
    );
    assert_eq!(
        JsonValue::Object(vec![
            ("k".to_string(), JsonValue::Array(vec![])),
            ("a".to_string(), JsonValue::Object(vec![])),
        ])
        .to_text(),
        r#"{"a":{},"k":[]}"#
    );
}

#[test]
fn to_text_takes_the_later_of_two_members() {
    let doc = JsonValue::Object(vec![
        ("k".to_string(), JsonValue::Bool(false)),
        ("k".to_string(), JsonValue::Bool(true)),
    ]);
    assert_eq!(doc.to_text(), r#"{"k":true}"#);
}

#[test]
fn to_text_writes_null_for_what_is_no_number() {
    assert_eq!(JsonValue::Number(JsonNumber::Decimal("abc".to_string())).to_text(), "null");
}

#[test]
fn text_is_read_back() {
    let doc = JsonValue::Object(vec![
        ("a".to_string(), JsonValue::Array(vec![
            JsonValue::Number(JsonNumber::Unsigned(1)),
            JsonValue::Number(JsonNumber::Negative(-2)),
            JsonValue::Number(JsonNumber::Decimal("0.25".to_string())),
        ])),
        ("b".to_string(), JsonValue::String("x".to_string())),
        ("c".to_string(), JsonValue::Null),
    ]);
    assert_eq!(JsonValue::parse(&doc.to_text()), Some(doc));
}
