//! The JSON-RPC envelope: what a packet says, and what is said in return.
use crate::json::{
    json_document, lemma_object_view, lookup, members_view, JsonNumber, JsonValue, JsonView,
    NumberView,
};
use vstd::prelude::*;
use vstd::string::*;

verus! {

/// What identifies a request, so that its reply can be told from others.
#[derive(Debug, PartialEq)]
pub enum Id {
    /// No id: the mark of a notification.
    Null,
    /// A whole number that is not negative.
    Num(u64),
    /// A negative whole number.
    Neg(i64),
    Str(String),
}

/// The mathematical value of an [`Id`].
pub enum IdView {
    Null,
    Num(u64),
    Neg(i64),
    Str(Seq<char>),
}

impl View for Id {
    type V = IdView;

    open spec fn view(&self) -> IdView {
        match *self {
            Id::Null => IdView::Null,
            Id::Num(n) => IdView::Num(n),
            Id::Neg(n) => IdView::Neg(n),
            Id::Str(text) => IdView::Str(text@),
        }
    }
}

/// In which way a packet is no message.
#[derive(Clone, Copy, Debug, PartialEq, Eq, Structural)]
pub enum FailureKind {
    /// The packet is JSON, but no request and no notification.
    InvalidRequest,
    /// The packet is not JSON.
    ParseError,
}

/// A packet that is no message, with the id that could be made out.
#[derive(Debug, PartialEq)]
pub struct ParseFailure {
    pub id: Id,
    pub kind: FailureKind,
}

/// The mathematical value of a [`ParseFailure`].
pub struct ParseFailureView {
    pub id: IdView,
    pub kind: FailureKind,
}

impl View for ParseFailure {
    type V = ParseFailureView;

    open spec fn view(&self) -> ParseFailureView {
        ParseFailureView { id: self.id@, kind: self.kind }
    }
}

/// A packet read as a message: a request, which has an id and is owed a
/// reply, or a notification, which has none and is owed none. Parameters
/// that are absent are `Null`.
#[derive(Debug, PartialEq)]
pub enum Envelope {
    Request { id: Id, method: String, params: JsonValue },
    Notification { method: String, params: JsonValue },
}

/// The mathematical value of an [`Envelope`].
pub enum EnvelopeView {
    Request { id: IdView, method: Seq<char>, params: JsonView },
    Notification { method: Seq<char>, params: JsonView },
}

impl View for Envelope {
    type V = EnvelopeView;

    open spec fn view(&self) -> EnvelopeView {
        match self {
            Envelope::Request { id, method, params } => EnvelopeView::Request {
                id: id@,
                method: method@,
                params: params@,
            },
            Envelope::Notification { method, params } => EnvelopeView::Notification {
                method: method@,
                params: params@,
            },
        }
    }
}

/// The id that a document stands for: `null`, a whole number, or a string.
/// Nothing else is an id. A whole number is `Neg` where it is negative and
/// `Num` where it is not.
pub open spec fn id_of(value: JsonView) -> Option<IdView> {
    match value {
        JsonView::Null => Some(IdView::Null),
        JsonView::Number(NumberView::Unsigned(n)) => Some(IdView::Num(n)),
        JsonView::Number(NumberView::Negative(n)) => if n < 0 {
            Some(IdView::Neg(n))
        } else {
            Some(IdView::Num(n as u64))
        },
        JsonView::String(text) => Some(IdView::Str(text)),
        _ => None,
    }
}

/// The id of the message `doc`: that of its member `id`, `Null` where it has
/// none; `None` where the member is no id.
pub open spec fn message_id(doc: JsonView) -> Option<IdView> {
    match doc.member("id"@) {
        None => Some(IdView::Null),
        Some(value) => id_of(value),
    }
}

/// The method of the message `doc`: its member `method`, which must be a
/// string and not empty.
pub open spec fn message_method(doc: JsonView) -> Option<Seq<char>> {
    match doc.member("method"@) {
        Some(JsonView::String(method)) => if method.len() > 0 {
            Some(method)
        } else {
            None
        },
        _ => None,
    }
}

/// The parameters that the member `params` gives: an object or an array as
/// it is, and `Null` for `null` and for no member at all. `None` for any
/// other document.
pub open spec fn accepted_params(params: Option<JsonView>) -> Option<JsonView> {
    match params {
        None => Some(JsonView::Null),
        Some(JsonView::Null) => Some(JsonView::Null),
        Some(JsonView::Object(members)) => Some(JsonView::Object(members)),
        Some(JsonView::Array(items)) => Some(JsonView::Array(items)),
        Some(_) => None,
    }
}

/// What the document `doc` is as a message. A document whose `id` is no id
/// fails without one; one whose `method` or `params` will not do fails with
/// its id.
pub open spec fn envelope_of(doc: JsonView) -> Result<EnvelopeView, ParseFailureView> {
    match message_id(doc) {
        None => Err(ParseFailureView { id: IdView::Null, kind: FailureKind::InvalidRequest }),
        Some(id) => match (message_method(doc), accepted_params(doc.member("params"@))) {
            (Some(method), Some(params)) => if id is Null {
                Ok(EnvelopeView::Notification { method, params })
            } else {
                Ok(EnvelopeView::Request { id, method, params })
            },
            _ => Err(ParseFailureView { id, kind: FailureKind::InvalidRequest }),
        },
    }
}

/// What the packet `packet` is as a message.
pub open spec fn message_of(packet: Seq<char>) -> Result<EnvelopeView, ParseFailureView> {
    match json_document(packet) {
        None => Err(ParseFailureView { id: IdView::Null, kind: FailureKind::ParseError }),
        Some(doc) => envelope_of(doc),
    }
}

/// The mathematical value of what parsing gave.
pub open spec fn parsed_view(r: Result<Envelope, ParseFailure>) -> Result<
    EnvelopeView,
    ParseFailureView,
> {
    match r {
        Ok(envelope) => Ok(envelope@),
        Err(failure) => Err(failure@),
    }
}

/// The mathematical value of a document that may be absent.
pub open spec fn optional_view(value: Option<JsonValue>) -> Option<JsonView> {
    match value {
        Some(value) => Some(value@),
        None => None,
    }
}

/// The three members of a message.
struct Fields {
    id: Option<JsonValue>,
    method: Option<JsonValue>,
    params: Option<JsonValue>,
}

/// Takes the members `id`, `method` and `params` out of a document.
fn take_fields(doc: JsonValue) -> (r: Fields)
    ensures
        optional_view(r.id) == doc@.member("id"@),
        optional_view(r.method) == doc@.member("method"@),
        optional_view(r.params) == doc@.member("params"@),
{
    let mut id: Option<JsonValue> = None;
    let mut method: Option<JsonValue> = None;
    let mut params: Option<JsonValue> = None;
    match doc {
        JsonValue::Object(members) => {
            let mut members = members;
            let ghost all = members_view(members@);
            proof {
                lemma_object_view(members);
                reveal_strlit("id");
                reveal_strlit("method");
                reveal_strlit("params");
                assert("id"@.len() != "method"@.len());
                assert("id"@.len() != "params"@.len());
                assert("method"@[0] != "params"@[0]);
            }
            let id_key = String::from_str("id");
            let method_key = String::from_str("method");
            let params_key = String::from_str("params");
            while members.len() > 0
                invariant
                    members.len() <= all.len(),
                    members_view(members@) == all.take(members.len() as int),
                    id_key@ == "id"@,
                    method_key@ == "method"@,
                    params_key@ == "params"@,
                    "id"@ != "method"@,
                    "id"@ != "params"@,
                    "method"@ != "params"@,
                    match id {
                        Some(value) => lookup(all, "id"@) == Some(value@),
                        None => lookup(all, "id"@) == lookup(members_view(members@), "id"@),
                    },
                    match method {
                        Some(value) => lookup(all, "method"@) == Some(value@),
                        None => lookup(all, "method"@) == lookup(
                            members_view(members@),
                            "method"@,
                        ),
                    },
                    match params {
                        Some(value) => lookup(all, "params"@) == Some(value@),
                        None => lookup(all, "params"@) == lookup(
                            members_view(members@),
                            "params"@,
                        ),
                    },
                decreases members.len(),
            {
                let ghost before = members_view(members@);
                let ghost last = members@.last();
                let (key, value) = members.pop().unwrap();
                proof {
                    assert(last == (key, value));
                    assert(before.last() == (key@, value@));
                    assert(members_view(members@) =~= before.drop_last());
                    assert(all.take(members.len() as int) =~= before.drop_last());
                }
                if key == id_key {
                    if id.is_none() {
                        id = Some(value);
                    }
                } else if key == method_key {
                    if method.is_none() {
                        method = Some(value);
                    }
                } else if key == params_key {
                    if params.is_none() {
                        params = Some(value);
                    }
                }
            }
        },
        _ => {},
    }
    Fields { id, method, params }
}

/// Reads a document as an id.
pub fn decode_id(value: JsonValue) -> (r: Option<Id>)
    ensures
        match r {
            Some(id) => id_of(value@) == Some(id@),
            None => id_of(value@) is None,
        },
{
    match value {
        JsonValue::Null => Some(Id::Null),
        JsonValue::Number(JsonNumber::Unsigned(n)) => Some(Id::Num(n)),
        JsonValue::Number(JsonNumber::Negative(n)) => if n < 0 {
            Some(Id::Neg(n))
        } else {
            Some(Id::Num(n as u64))
        },
        JsonValue::String(text) => Some(Id::Str(text)),
        _ => None,
    }
}

/// Checks the parameters of a message; see [`accepted_params`].
pub fn accept_params(params: Option<JsonValue>) -> (r: Option<JsonValue>)
    ensures
        optional_view(r) == accepted_params(optional_view(params)),
{
    match params {
        None => Some(JsonValue::Null),
        Some(value) => match value {
            JsonValue::Null => Some(value),
            JsonValue::Object(_) => Some(value),
            JsonValue::Array(_) => Some(value),
            _ => None,
        },
    }
}

/// Reads a document as a message.
pub fn classify(doc: JsonValue) -> (r: Result<Envelope, ParseFailure>)
    ensures
        parsed_view(r) == envelope_of(doc@),
{
    let fields = take_fields(doc);
    let id = match fields.id {
        None => Id::Null,
        Some(value) => match decode_id(value) {
            Some(id) => id,
            None => {
                return Err(ParseFailure { id: Id::Null, kind: FailureKind::InvalidRequest });
            },
        },
    };
    let method = match fields.method {
        Some(JsonValue::String(method)) => method,
        _ => {
            return Err(ParseFailure { id, kind: FailureKind::InvalidRequest });
        },
    };
    if method.as_str().is_empty() {
        return Err(ParseFailure { id, kind: FailureKind::InvalidRequest });
    }
    let params = match accept_params(fields.params) {
        Some(params) => params,
        None => {
            return Err(ParseFailure { id, kind: FailureKind::InvalidRequest });
        },
    };
    match id {
        Id::Null => Ok(Envelope::Notification { method, params }),
        _ => Ok(Envelope::Request { id, method, params }),
    }
}

/// Reads the text of a packet as a message: a request where it has an id, a
/// notification where it has none. A packet that is not JSON is a
/// `ParseError`; one that is JSON but no message is an `InvalidRequest`.
pub fn parse_message(packet: &str) -> (r: Result<Envelope, ParseFailure>)
    ensures
        parsed_view(r) == message_of(packet@),
{
    match JsonValue::parse(packet) {
        Some(doc) => classify(doc),
        None => Err(ParseFailure { id: Id::Null, kind: FailureKind::ParseError }),
    }
}

} // verus!
