//! Reading a JSON document with `serde_json`, as plain values.
use vstd::prelude::*;

use serde_json::Value;

verus! {

/// A JSON value, one variant per kind of value. Strings and booleans are
/// held as they are; numbers, arrays and objects as their compact JSON text.
pub enum JsonValue {
    Null,
    Bool(bool),
    Number(String),
    Text(String),
    Array(String),
    Object(String),
}

/// What a `JsonValue` holds, as plain values.
pub enum ValueView {
    Null,
    Bool(bool),
    Number(Seq<char>),
    Text(Seq<char>),
    Array(Seq<char>),
    Object(Seq<char>),
}

impl View for JsonValue {
    type V = ValueView;

    open spec fn view(&self) -> ValueView {
        match self {
            JsonValue::Null => ValueView::Null,
            JsonValue::Bool(b) => ValueView::Bool(*b),
            JsonValue::Number(t) => ValueView::Number(t@),
            JsonValue::Text(t) => ValueView::Text(t@),
            JsonValue::Array(t) => ValueView::Array(t@),
            JsonValue::Object(t) => ValueView::Object(t@),
        }
    }
}

/// A parsed JSON document: the members of an object, in the parser's
/// order, or any other value.
pub enum JsonDocument {
    Object(Vec<(String, JsonValue)>),
    Other(JsonValue),
}

/// What a `JsonDocument` holds, as plain values.
pub enum DocumentView {
    Object(Seq<(Seq<char>, ValueView)>),
    Other(ValueView),
}

/// The members of an object, as plain values.
pub open spec fn members_view(ms: Seq<(String, JsonValue)>) -> Seq<(Seq<char>, ValueView)> {
    ms.map_values(|m: (String, JsonValue)| (m.0@, m.1@))
}

impl View for JsonDocument {
    type V = DocumentView;

    open spec fn view(&self) -> DocumentView {
        match self {
            JsonDocument::Object(ms) => DocumentView::Object(members_view(ms@)),
            JsonDocument::Other(v) => DocumentView::Other(v@),
        }
    }
}

/// No key occurs twice among the members.
pub open spec fn keys_distinct(ms: Seq<(Seq<char>, ValueView)>) -> bool {
    forall|i: int, j: int| 0 <= i < ms.len() && 0 <= j < ms.len() && i != j ==> ms[i].0 != ms[j].0
}

/// The text a value shows: a string its own text, without quotes or
/// escapes; `null`, `true` and `false` their names; anything else its JSON.
pub open spec fn value_text(v: ValueView) -> Seq<char> {
    match v {
        ValueView::Null => "null"@,
        ValueView::Bool(b) => if b { "true"@ } else { "false"@ },
        ValueView::Number(t) => t,
        ValueView::Text(t) => t,
        ValueView::Array(t) => t,
        ValueView::Object(t) => t,
    }
}

/// The text a value shows.
pub fn json_to_str(v: &JsonValue) -> (r: String)
    ensures
        r@ == value_text(v@),
{
    match v {
        JsonValue::Null => "null".to_owned(),
        JsonValue::Bool(b) => if *b { "true".to_owned() } else { "false".to_owned() },
        JsonValue::Number(t) => t.clone(),
        JsonValue::Text(t) => t.clone(),
        JsonValue::Array(t) => t.clone(),
        JsonValue::Object(t) => t.clone(),
    }
}

/// Names what `serde_json::from_str` makes of a text read as a `Value`,
/// each value taken apart as `parse_json_document` does: `None` when the
/// text is not JSON.
pub uninterp spec fn json_document(content: Seq<char>) -> Option<DocumentView>;

/// Names the message of the error `serde_json::from_str` gives on a text
/// that is not JSON: the `Display` of its `serde_json::Error`, which says
/// what is wrong and at which line and column.
pub uninterp spec fn json_error_message(content: Seq<char>) -> Seq<char>;

/// Calls `serde_json::from_str` for a `Value` and hands it back as plain
/// values, one variant for each of `Value`'s: strings and booleans as they
/// are, numbers, arrays and nested objects through their `Display` (compact
/// JSON), and a root object as its members; an error comes back as its
/// `Display`. The contract claims that the outcome is a function of the
/// text, named `json_document` and, for an error, `json_error_message`,
/// that an error comes exactly where `json_document` has none, and that an
/// object's keys are distinct (a `serde_json::Map` holds each key once).
/// What `from_str` accepts as JSON, the order of the members and the
/// `Display` texts are not stated.
#[verifier::external_body]
pub(crate) fn parse_json_document(content: &str) -> (r: Result<JsonDocument, String>)
    ensures
        match r {
            Ok(d) => json_document(content@) == Some(d@),
            Err(m) => json_document(content@) is None && m@ == json_error_message(content@),
        },
        r matches Ok(JsonDocument::Object(ms)) ==> keys_distinct(members_view(ms@)),
{
    let plain = |v: Value| match v {
        Value::Null => JsonValue::Null,
        Value::Bool(b) => JsonValue::Bool(b),
        Value::String(s) => JsonValue::Text(s),
        n @ Value::Number(_) => JsonValue::Number(n.to_string()),
        a @ Value::Array(_) => JsonValue::Array(a.to_string()),
        o @ Value::Object(_) => JsonValue::Object(o.to_string()),
    };
    Ok(match serde_json::from_str::<Value>(content) {
        Err(e) => return Err(e.to_string()),
        Ok(Value::Object(map)) => JsonDocument::Object(map.into_iter().map(|(k, v)| (k, plain(v))).collect()),
        Ok(other) => JsonDocument::Other(plain(other)),
    })
}

} // verus!
