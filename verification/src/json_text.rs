//! JSON text: reading and writing it with `serde_json`.

use crate::json::{Json, JsonModel, JsonNumber};
use serde_json::Value;
use vstd::prelude::*;

verus! {

/// The value tree of `serde_json`.
#[verifier::external_type_specification]
#[verifier::external_body]
pub struct ExValue(serde_json::Value);

/// The value that `serde_json::from_str` reads from a text, or `None` where it
/// fails.
pub uninterp spec fn json_read(text: Seq<char>) -> Option<JsonModel>;

/// The compact text in which `serde_json` writes a value.
pub uninterp spec fn json_written(value: JsonModel) -> Seq<char>;

/// Converts a tree of `serde_json`, node by node. Nothing is claimed of it here:
/// what it hands over is part of [`json_read`].
#[verifier::external_body]
fn from_tree(tree: Value) -> (value: Json) {
    match tree {
        Value::Null => Json::Null,
        Value::Bool(flag) => Json::Bool(flag),
        Value::Number(n) => Json::Number(
            JsonNumber::from_parts(n.as_u64(), n.as_i64(), n.to_string()),
        ),
        Value::String(text) => Json::Str(text),
        Value::Array(items) => Json::Array(items.into_iter().map(from_tree).collect()),
        Value::Object(map) => Json::Object(
            map.into_iter().map(|(key, item)| (key, from_tree(item))).collect(),
        ),
    }
}

/// Converts to a tree of `serde_json`, node by node; where a number's text is
/// not one that `serde_json` reads as a number, the node is null. Nothing is
/// claimed of it here: what it hands over is part of [`json_written`].
#[verifier::external_body]
fn to_tree(value: &Json) -> (tree: Value) {
    match value {
        Json::Null => Value::Null,
        Json::Bool(flag) => Value::Bool(*flag),
        Json::Number(JsonNumber::Unsigned(n)) => Value::from(*n),
        Json::Number(JsonNumber::Signed(n)) => Value::from(*n),
        Json::Number(JsonNumber::Other(text)) => text.parse().map_or(Value::Null, Value::Number),
        Json::Str(text) => Value::String(text.clone()),
        Json::Array(items) => Value::Array(items.iter().map(to_tree).collect()),
        Json::Object(entries) => Value::Object(
            entries.iter().map(|(key, item)| (key.clone(), to_tree(item))).collect(),
        ),
    }
}

/// Calls `serde_json::from_str` for a `serde_json::Value`. The claim is that
/// the outcome is a function of the text, [`json_read`].
#[verifier::external_body]
fn serde_from_str(text: &str) -> (value: Option<Json>)
    ensures
        match value {
            Some(value) => json_read(text@) == Some(value@),
            None => json_read(text@) is None,
        },
{
    serde_json::from_str::<Value>(text).ok().map(from_tree)
}

/// Calls `to_string` of `serde_json::Value`, which writes the same compact text
/// as `serde_json::to_string`. The claim is that the text is a function of the
/// value, [`json_written`].
#[verifier::external_body]
fn serde_to_string(value: &Json) -> (text: String)
    ensures
        text@ == json_written(value@),
{
    to_tree(value).to_string()
}

/// Reads a JSON text.
pub fn read_json(text: &str) -> (value: Option<Json>)
    ensures
        match value {
            Some(value) => json_read(text@) == Some(value@),
            None => json_read(text@) is None,
        },
{
    serde_from_str(text)
}

/// Writes a value as compact JSON text.
pub fn write_json(value: &Json) -> (text: String)
    ensures
        text@ == json_written(value@),
{
    serde_to_string(value)
}

} // verus!
