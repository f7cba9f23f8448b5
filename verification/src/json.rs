//! JSON text: reading it into the library's document model and writing the
//! model back out, both done by `serde_json`.
use vstd::prelude::*;

use crate::document::{json_view, Json, JsonMember, JsonValue};

verus! {

/// A JSON value as `serde_json` holds it, passed between the conversions
/// and the parser and writers.
#[verifier::external_type_specification]
#[verifier::external_body]
pub struct ExJsonValue(serde_json::Value);

/// A JSON syntax or data error.
#[verifier::external_type_specification]
#[verifier::external_body]
pub struct ExJsonError(serde_json::Error);

/// The document `serde_json::from_slice` reads from `bytes`, in the library's
/// model; `None` when it rejects them.
pub uninterp spec fn parsed_json(bytes: Seq<u8>) -> Option<Json>;

/// The text `serde_json::to_string` writes for a document; `None` when it
/// fails.
pub uninterp spec fn compact_json_text(doc: Json) -> Option<Seq<char>>;

/// The text `serde_json::to_string_pretty` writes for a document; `None`
/// when it fails.
pub uninterp spec fn pretty_json_text(doc: Json) -> Option<Seq<char>>;

/// Parses `bytes` with `serde_json::from_slice::<serde_json::Value>` and
/// converts the value, member for member, into the library's model.
///
/// The contract claims that the outcome is a function of the bytes alone
/// (`parsed_json`); it says nothing of which error a rejection carries.
#[verifier::external_body]
pub(crate) fn parse_json(bytes: &[u8]) -> (res: Result<JsonValue, serde_json::Error>)
    ensures
        match res {
            Ok(v) => parsed_json(bytes@) == Some(json_view(v)),
            Err(_) => parsed_json(bytes@) is None,
        },
{
    serde_json::from_slice::<serde_json::Value>(bytes).map(document_of)
}

/// The conversion half of `parse_json`: a `serde_json` value as the
/// library's model, one variant for one variant, numbers by their text.
#[verifier::external_body]
fn document_of(v: serde_json::Value) -> JsonValue {
    match v {
        serde_json::Value::Null => JsonValue::Null,
        serde_json::Value::Bool(b) => JsonValue::Bool(b),
        serde_json::Value::Number(n) => JsonValue::Number(n.to_string()),
        serde_json::Value::String(s) => JsonValue::String(s),
        serde_json::Value::Array(items) => JsonValue::Array(items.into_iter().map(document_of).collect()),
        serde_json::Value::Object(map) => JsonValue::Object(
            map.into_iter().map(|(key, value)| JsonMember { key, value: document_of(value) }).collect(),
        ),
    }
}

/// The conversion half of the writers: the library's model as a
/// `serde_json` value, one variant for one variant; a number's text is read
/// back with `serde_json::Number`'s parser.
#[verifier::external_body]
fn value_of(d: &JsonValue) -> Result<serde_json::Value, serde_json::Error> {
    Ok(match d {
        JsonValue::Null => serde_json::Value::Null,
        JsonValue::Bool(b) => serde_json::Value::Bool(*b),
        JsonValue::Number(t) => serde_json::Value::Number(t.parse::<serde_json::Number>()?),
        JsonValue::String(s) => serde_json::Value::String(s.clone()),
        JsonValue::Array(items) => serde_json::Value::Array(items.iter().map(value_of).collect::<Result<_, _>>()?),
        JsonValue::Object(members) => serde_json::Value::Object(
            members.iter().map(|m| Ok((m.key.clone(), value_of(&m.value)?))).collect::<Result<_, serde_json::Error>>()?,
        ),
    })
}

/// Writes a document with `serde_json::to_string`, after converting it to a
/// `serde_json` value; the contract claims the outcome is a function of the
/// document alone (`compact_json_text`).
#[verifier::external_body]
pub(crate) fn write_compact_json(doc: &JsonValue) -> (res: Result<String, serde_json::Error>)
    ensures
        match res {
            Ok(s) => compact_json_text(json_view(*doc)) == Some(s@),
            Err(_) => compact_json_text(json_view(*doc)) is None,
        },
{
    serde_json::to_string(&value_of(doc)?)
}

/// Writes a document with `serde_json::to_string_pretty`, after converting
/// it to a `serde_json` value; the contract claims the outcome is a function
/// of the document alone (`pretty_json_text`).
#[verifier::external_body]
pub(crate) fn write_pretty_json(doc: &JsonValue) -> (res: Result<String, serde_json::Error>)
    ensures
        match res {
            Ok(s) => pretty_json_text(json_view(*doc)) == Some(s@),
            Err(_) => pretty_json_text(json_view(*doc)) is None,
        },
{
    serde_json::to_string_pretty(&value_of(doc)?)
}

} // verus!
