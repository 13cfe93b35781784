//! What a server answers: the reply to a request, as a document and as the
//! text of a packet.
use crate::json::{
    json_text, lemma_object_view, lift, members_view, JsonNumber, JsonValue, JsonView, NumberView,
};
use crate::message::{FailureKind, Id, IdView};
use vstd::prelude::*;
use vstd::string::*;

verus! {

/// The error of a failed request: a code, a message, and data if any.
#[derive(Debug, PartialEq)]
pub struct RpcError {
    pub code: i64,
    pub message: String,
    pub data: Option<JsonValue>,
}

/// The mathematical value of an [`RpcError`].
pub struct RpcErrorView {
    pub code: i64,
    pub message: Seq<char>,
    pub data: Option<JsonView>,
}

impl View for RpcError {
    type V = RpcErrorView;

    open spec fn view(&self) -> RpcErrorView {
        RpcErrorView {
            code: self.code,
            message: self.message@,
            data: match self.data {
                Some(data) => Some(data@),
                None => None,
            },
        }
    }
}

/// The error that answers a packet that is no message.
pub open spec fn standard_error(kind: FailureKind) -> RpcErrorView {
    match kind {
        FailureKind::InvalidRequest => RpcErrorView {
            code: -32600i64,
            message: "Invalid request"@,
            data: None,
        },
        FailureKind::ParseError => RpcErrorView {
            code: -32700i64,
            message: "Parse error"@,
            data: None,
        },
    }
}

/// The document for a whole number.
pub open spec fn number_value(n: i64) -> JsonView {
    if n >= 0 {
        JsonView::Number(NumberView::Unsigned(n as u64))
    } else {
        JsonView::Number(NumberView::Negative(n))
    }
}

/// The document for an id.
pub open spec fn id_value(id: IdView) -> JsonView {
    match id {
        IdView::Null => JsonView::Null,
        IdView::Num(n) => JsonView::Number(NumberView::Unsigned(n)),
        IdView::Neg(n) => number_value(n),
        IdView::Str(text) => JsonView::String(text),
    }
}

/// The document for an error: its code and its message, and its data where
/// it has some.
pub open spec fn error_value(error: RpcErrorView) -> JsonView {
    JsonView::Object(
        seq![("code"@, number_value(error.code)), ("message"@, JsonView::String(error.message))]
            + match error.data {
            Some(data) => seq![("data"@, data)],
            None => Seq::empty(),
        },
    )
}

/// A reply to the request `id`: the version, the id, and the member `key`
/// with the value `payload`.
pub open spec fn reply(id: IdView, key: Seq<char>, payload: JsonView) -> JsonView {
    JsonView::Object(
        seq![("jsonrpc"@, JsonView::String("2.0"@)), ("id"@, id_value(id)), (key, payload)],
    )
}

/// The reply that gives the request `id` its result.
pub open spec fn success_reply(id: IdView, result: JsonView) -> JsonView {
    reply(id, "result"@, result)
}

/// The reply that tells the request `id` of its failure.
pub open spec fn failure_reply(id: IdView, error: RpcErrorView) -> JsonView {
    reply(id, "error"@, error_value(error))
}

/// The error for a request that is no request.
///
/// Wraps `jsonrpc_core::Error::invalid_request`, which gives the code
/// -32600 with the message "Invalid request" and no data.
#[verifier::external_body]
fn invalid_request() -> (r: RpcError)
    ensures
        r@ == standard_error(FailureKind::InvalidRequest),
{
    let e = jsonrpc_core::Error::invalid_request();
    RpcError { code: e.code.code(), message: e.message, data: e.data.map(lift) }
}

/// The error for a packet that is not JSON.
///
/// Wraps `jsonrpc_core::Error::parse_error`, which gives the code -32700
/// with the message "Parse error" and no data.
#[verifier::external_body]
fn parse_error() -> (r: RpcError)
    ensures
        r@ == standard_error(FailureKind::ParseError),
{
    let e = jsonrpc_core::Error::parse_error();
    RpcError { code: e.code.code(), message: e.message, data: e.data.map(lift) }
}

impl RpcError {
    /// The error that answers a packet that is no message.
    pub fn standard(kind: FailureKind) -> (r: RpcError)
        ensures
            r@ == standard_error(kind),
    {
        match kind {
            FailureKind::InvalidRequest => invalid_request(),
            FailureKind::ParseError => parse_error(),
        }
    }
}

/// Builds the document for an id.
pub fn id_to_json(id: Id) -> (r: JsonValue)
    ensures
        r@ == id_value(id@),
{
    match id {
        Id::Null => JsonValue::Null,
        Id::Num(n) => JsonValue::Number(JsonNumber::Unsigned(n)),
        Id::Neg(n) => if n >= 0 {
            JsonValue::Number(JsonNumber::Unsigned(n as u64))
        } else {
            JsonValue::Number(JsonNumber::Negative(n))
        },
        Id::Str(text) => JsonValue::String(text),
    }
}

/// Builds the document for an error.
pub fn error_to_json(error: RpcError) -> (r: JsonValue)
    ensures
        r@ == error_value(error@),
{
    let code = if error.code >= 0 {
        JsonValue::Number(JsonNumber::Unsigned(error.code as u64))
    } else {
        JsonValue::Number(JsonNumber::Negative(error.code))
    };
    let mut members: Vec<(String, JsonValue)> = Vec::new();
    members.push((String::from_str("code"), code));
    members.push((String::from_str("message"), JsonValue::String(error.message)));
    match error.data {
        Some(data) => {
            members.push((String::from_str("data"), data));
        },
        None => {},
    }
    proof {
        lemma_object_view(members);
        assert(members_view(members@) =~= error_value(error@)->Object_0);
    }
    JsonValue::Object(members)
}

/// Builds a reply.
fn reply_to_json(id: Id, key: &str, payload: JsonValue) -> (r: JsonValue)
    ensures
        r@ == reply(id@, key@, payload@),
{
    let mut members: Vec<(String, JsonValue)> = Vec::new();
    members.push((String::from_str("jsonrpc"), JsonValue::String(String::from_str("2.0"))));
    members.push((String::from_str("id"), id_to_json(id)));
    members.push((String::from_str(key), payload));
    proof {
        lemma_object_view(members);
        assert(members_view(members@) =~= reply(id@, key@, payload@)->Object_0);
    }
    JsonValue::Object(members)
}

/// The text of the packet that gives the request `id` its result.
pub fn success_packet(id: Id, result: JsonValue) -> (r: String)
    ensures
        r@ == json_text(success_reply(id@, result@)),
{
    reply_to_json(id, "result", result).to_text()
}

/// The text of the packet that tells the request `id` of its failure.
pub fn failure_packet(id: Id, error: RpcError) -> (r: String)
    ensures
        r@ == json_text(failure_reply(id@, error@)),
{
    reply_to_json(id, "error", error_to_json(error)).to_text()
}

} // verus!
