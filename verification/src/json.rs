//! JSON documents as values of this library. Reading and writing JSON text
//! is the work of `serde_json`.
use serde_json::Value;
use vstd::prelude::*;
use vstd::string::*;

verus! {

/// A JSON number: a whole number where it is one that fits, else its
/// decimal text.
#[derive(Debug, PartialEq)]
pub enum JsonNumber {
    /// A whole number that is not negative.
    Unsigned(u64),
    /// A negative whole number.
    Negative(i64),
    /// Any other number, as written in JSON. Text that is no JSON number
    /// is written as `null`.
    Decimal(String),
}

/// A JSON document. The members of an object stand in a list; where a key
/// stands twice, the later member counts.
#[derive(Debug, PartialEq)]
pub enum JsonValue {
    Null,
    Bool(bool),
    Number(JsonNumber),
    String(String),
    Array(Vec<JsonValue>),
    Object(Vec<(String, JsonValue)>),
}

/// The mathematical value of a [`JsonNumber`].
pub enum NumberView {
    Unsigned(u64),
    Negative(i64),
    Decimal(Seq<char>),
}

/// The mathematical value of a [`JsonValue`].
pub enum JsonView {
    Null,
    Bool(bool),
    Number(NumberView),
    String(Seq<char>),
    Array(Seq<JsonView>),
    Object(Seq<(Seq<char>, JsonView)>),
}

impl View for JsonNumber {
    type V = NumberView;

    open spec fn view(&self) -> NumberView {
        match *self {
            JsonNumber::Unsigned(n) => NumberView::Unsigned(n),
            JsonNumber::Negative(n) => NumberView::Negative(n),
            JsonNumber::Decimal(text) => NumberView::Decimal(text@),
        }
    }
}

impl JsonValue {
    /// The mathematical value of this document.
    pub open spec fn model(self) -> JsonView
        decreases self,
    {
        match self {
            JsonValue::Null => JsonView::Null,
            JsonValue::Bool(b) => JsonView::Bool(b),
            JsonValue::Number(n) => JsonView::Number(n@),
            JsonValue::String(text) => JsonView::String(text@),
            JsonValue::Array(items) => JsonView::Array(
                Seq::new(
                    items.len() as nat,
                    |i: int|
                        if 0 <= i < items.len() {
                            items[i].model()
                        } else {
                            JsonView::Null
                        },
                ),
            ),
            JsonValue::Object(members) => JsonView::Object(
                Seq::new(
                    members.len() as nat,
                    |i: int|
                        if 0 <= i < members.len() {
                            (members[i].0@, members[i].1.model())
                        } else {
                            (Seq::empty(), JsonView::Null)
                        },
                ),
            ),
        }
    }
}

impl View for JsonValue {
    type V = JsonView;

    open spec fn view(&self) -> JsonView {
        self.model()
    }
}

/// The value that the members `members` give the key `key`: that of the
/// last member with this key.
pub open spec fn lookup(members: Seq<(Seq<char>, JsonView)>, key: Seq<char>) -> Option<JsonView>
    decreases members.len(),
{
    if members.len() == 0 {
        None
    } else if members.last().0 == key {
        Some(members.last().1)
    } else {
        lookup(members.drop_last(), key)
    }
}

impl JsonView {
    /// The member `key` of an object; `None` for what is no object or has no
    /// such member.
    pub open spec fn member(self, key: Seq<char>) -> Option<JsonView> {
        match self {
            JsonView::Object(members) => lookup(members, key),
            _ => None,
        }
    }
}

/// The mathematical value of a list of members.
pub open spec fn members_view(members: Seq<(String, JsonValue)>) -> Seq<(Seq<char>, JsonView)> {
    Seq::new(members.len(), |i: int| (members[i].0@, members[i].1@))
}

/// The value of an object is the object of its members' values.
pub proof fn lemma_object_view(members: Vec<(String, JsonValue)>)
    ensures
        JsonValue::Object(members)@ == JsonView::Object(members_view(members@)),
{
    let left = JsonValue::Object(members)@->Object_0;
    assert(left.len() == members@.len());
    assert forall|i: int| 0 <= i < left.len() implies left[i] == members_view(members@)[i] by {
        assert(left[i] == (members[i].0@, members[i].1@));
    }
    assert(left =~= members_view(members@));
}

/// The document that the JSON text `text` denotes, if it is JSON.
pub uninterp spec fn json_document(text: Seq<char>) -> Option<JsonView>;

/// The JSON text that is written for the document `value`.
pub uninterp spec fn json_text(value: JsonView) -> Seq<char>;

#[verifier::external_type_specification]
#[verifier::external_body]
pub struct ExValue(Value);

/// Turns a `serde_json::Value` into a [`JsonValue`], variant by variant,
/// the members of an object in the order in which its map hands them out.
/// A number becomes `Unsigned` where `as_u64` gives one, `Negative` where
/// only `as_i64` does, else the text that `to_string` writes.
#[verifier::external_body]
pub(crate) fn lift(value: Value) -> (r: JsonValue) {
    match value {
        Value::Null => JsonValue::Null,
        Value::Bool(b) => JsonValue::Bool(b),
        Value::Number(n) => JsonValue::Number(match (n.as_u64(), n.as_i64()) {
            (Some(u), _) => JsonNumber::Unsigned(u),
            (_, Some(i)) => JsonNumber::Negative(i),
            _ => JsonNumber::Decimal(n.to_string()),
        }),
        Value::String(s) => JsonValue::String(s),
        Value::Array(a) => JsonValue::Array(a.into_iter().map(lift).collect()),
        Value::Object(o) => JsonValue::Object(o.into_iter().map(|(k, v)| (k, lift(v))).collect()),
    }
}

/// Turns a [`JsonValue`] into a `serde_json::Value`, variant by variant.
/// Where a key stands twice in an object, the map keeps the later member.
/// A `Decimal` that `serde_json` does not read as a number becomes `null`.
#[verifier::external_body]
fn lower(value: &JsonValue) -> (r: Value) {
    match value {
        JsonValue::Null => Value::Null,
        JsonValue::Bool(b) => Value::Bool(*b),
        JsonValue::Number(JsonNumber::Unsigned(u)) => Value::from(*u),
        JsonValue::Number(JsonNumber::Negative(i)) => Value::from(*i),
        JsonValue::Number(JsonNumber::Decimal(t)) => t.parse().map_or(Value::Null, Value::Number),
        JsonValue::String(s) => Value::String(s.clone()),
        JsonValue::Array(a) => Value::Array(a.iter().map(lower).collect()),
        JsonValue::Object(o) => Value::Object(o.iter().map(|(k, v)| (k.clone(), lower(v))).collect()),
    }
}

/// Reads JSON text.
///
/// Wraps `serde_json::from_str`: the result is the document that the text
/// denotes, or `None` where the text is not JSON.
#[verifier::external_body]
fn read_document(text: &str) -> (r: Option<JsonValue>)
    ensures
        match r {
            Some(value) => json_document(text@) == Some(value@),
            None => json_document(text@) is None,
        },
{
    serde_json::from_str::<Value>(text).ok().map(lift)
}

/// Writes JSON text.
///
/// Wraps `serde_json::Value`'s `to_string`: the compact text of the
/// document.
#[verifier::external_body]
fn write_document(value: &JsonValue) -> (r: String)
    ensures
        r@ == json_text(value@),
{
    lower(value).to_string()
}

impl JsonValue {
    /// Reads a document from JSON text; `None` where the text is not JSON.
    pub fn parse(text: &str) -> (r: Option<JsonValue>)
        ensures
            match r {
                Some(value) => json_document(text@) == Some(value@),
                None => json_document(text@) is None,
            },
    {
        read_document(text)
    }

    /// The JSON text of this document, as `serde_json` writes it: compact,
    /// the members of an object in the order of their keys, and of two
    /// members with one key the later only. A `Decimal` whose text is no
    /// JSON number is written as `null`.
    pub fn to_text(&self) -> (r: String)
        ensures
            r@ == json_text(self@),
    {
        write_document(self)
    }
}

} // verus!
