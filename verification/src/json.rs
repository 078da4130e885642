//! JSON documents, read and written through `serde_json`.
//!
//! A parsed document is carried as a `serde_json::Value`, of which the
//! verifier sees nothing. What a value holds is named [`shape`], and the
//! functions of this module that call into `serde_json` are believed, not
//! proved, to do to the shape what their contracts say.

use vstd::prelude::*;

verus! {

/// `serde_json::Value`: a JSON document, or a part of one.
#[verifier::external_type_specification]
#[verifier::external_body]
pub struct ExValue(serde_json::Value);

/// `serde_json::Error`: why a text could not be read or written.
#[verifier::external_type_specification]
#[verifier::external_body]
pub struct ExJsonError(serde_json::Error);

/// What a JSON value holds. Of a number only that it is one.
pub enum Json {
    Null,
    Bool(bool),
    Number,
    Text(Seq<char>),
    Array(Seq<Json>),
    Object(Map<Seq<char>, Json>),
}

/// What a `serde_json::Value` holds.
pub uninterp spec fn shape(value: serde_json::Value) -> Json;

/// What the document holds that `text` parses to, or `None` where `text`
/// is no JSON.
pub uninterp spec fn parsed(text: Seq<char>) -> Option<Json>;

/// `text` written as a JSON string literal, quotes and escapes included;
/// `None` where the serializer reports an error.
pub uninterp spec fn quoted(text: Seq<char>) -> Option<Seq<char>>;

/// What each of a list of values holds.
pub open spec fn shapes(values: Seq<serde_json::Value>) -> Seq<Json> {
    Seq::new(values.len(), |i: int| shape(values[i]))
}

/// `serde_json::from_str` at type `Value`: parses `text` as one JSON
/// document. The outcome depends on `text` alone.
#[verifier::external_body]
pub(crate) fn parse(text: &str) -> (out: Result<serde_json::Value, serde_json::Error>)
    ensures
        match out {
            Ok(doc) => parsed(text@) == Some(shape(doc)),
            Err(_) => parsed(text@) is None,
        },
{
    serde_json::from_str::<serde_json::Value>(text)
}

/// `Value::get` with a string key: the member of an object under that key.
/// There is none where the value is no object or has no such member.
#[verifier::external_body]
pub(crate) fn member<'a>(doc: &'a serde_json::Value, key: &str) -> (out: Option<
    &'a serde_json::Value,
>)
    ensures
        match shape(*doc) {
            Json::Object(members) if members.contains_key(key@) => out matches Some(found)
                && shape(*found) == members[key@],
            _ => out is None,
        },
{
    doc.get(key)
}

/// `Value::as_str`: the text of a JSON string, and nothing for any other
/// value.
#[verifier::external_body]
pub(crate) fn as_text<'a>(value: &'a serde_json::Value) -> (out: Option<&'a str>)
    ensures
        match shape(*value) {
            Json::Text(text) => out matches Some(found) && found@ == text,
            _ => out is None,
        },
{
    value.as_str()
}

/// `Value::as_array`: the elements of a JSON array, and nothing for any
/// other value.
#[verifier::external_body]
pub(crate) fn as_elements<'a>(value: &'a serde_json::Value) -> (out: Option<
    &'a Vec<serde_json::Value>,
>)
    ensures
        match shape(*value) {
            Json::Array(items) => out matches Some(found) && shapes(found@) == items,
            _ => out is None,
        },
{
    value.as_array()
}

/// `serde_json::to_string` at type `str`: writes `text` as a JSON string
/// literal. The outcome depends on `text` alone.
#[verifier::external_body]
pub(crate) fn quote(text: &str) -> (out: Result<String, serde_json::Error>)
    ensures
        match out {
            Ok(literal) => quoted(text@) == Some(literal@),
            Err(_) => quoted(text@) is None,
        },
{
    serde_json::to_string::<str>(text)
}

} // verus!
