//! JSON as text.

use crate::json::{Json, JsonView, Number};
use serde_json::Value;
use vstd::prelude::*;
use vstd::string::*;

verus! {

/// `serde_json::Value`: a JSON value of serde_json.
#[verifier::external_type_specification]
#[verifier::external_body]
pub struct ExValue(serde_json::Value);

/// What `serde_json::from_str` makes of a text: the JSON value that it stands
/// for, or the message of the error.
pub uninterp spec fn parsed_json(text: Seq<char>) -> Result<JsonView, Seq<char>>;

/// What `serde_json::to_string_pretty` makes of a JSON value: its text, with
/// line breaks and indentation, or the message of the error.
pub uninterp spec fn pretty_json(value: JsonView) -> Result<Seq<char>, Seq<char>>;

/// The value of a parsed text.
pub open spec fn parse_value(res: Result<Json, String>) -> Result<JsonView, Seq<char>> {
    match res {
        Ok(json) => Ok(json@),
        Err(message) => Err(message@),
    }
}

/// The value of a printed text.
pub open spec fn print_value(res: Result<String, String>) -> Result<Seq<char>, Seq<char>> {
    match res {
        Ok(text) => Ok(text@),
        Err(message) => Err(message@),
    }
}

/// A `serde_json::Value` as a [`Json`], variant by variant; nothing is claimed
/// of the result.
#[verifier::external_body]
fn json_from_value(value: Value) -> (res: Json) {
    match value {
        Value::Null => Json::Null,
        Value::Bool(b) => Json::Bool(b),
        Value::Number(n) => Json::Number(match (n.as_u64(), n.as_i64()) {
            (Some(n), _) => Number::Natural(n),
            (None, Some(n)) => Number::Negative(n),
            (None, None) => Number::Float(n.to_string()),
        }),
        Value::String(s) => Json::Text(s),
        Value::Array(a) => Json::Array(a.into_iter().map(json_from_value).collect()),
        Value::Object(o) =>
            Json::Object(o.into_iter().map(|(k, v)| (k, json_from_value(v))).collect()),
    }
}

/// A [`Json`] as a `serde_json::Value`, variant by variant; nothing is claimed
/// of the result.
#[verifier::external_body]
fn value_from_json(json: Json) -> (res: Value) {
    match json {
        Json::Null => Value::Null,
        Json::Bool(b) => Value::Bool(b),
        Json::Number(Number::Natural(n)) => Value::from(n),
        Json::Number(Number::Negative(n)) => Value::from(n),
        Json::Number(Number::Float(text)) =>
            text.parse().ok().and_then(serde_json::Number::from_f64).map_or(Value::Null, Value::Number),
        Json::Text(s) => Value::String(s),
        Json::Array(a) => Value::Array(a.into_iter().map(value_from_json).collect()),
        Json::Object(o) => Value::Object(
            o.into_iter().map(|(k, v)| (k, value_from_json(v))).collect()),
    }
}

/// `serde_json::from_str` into a `serde_json::Value`, which is a function of the
/// text and is named, not described.
#[verifier::external_body]
pub(crate) fn parse_json(text: &str) -> (res: Result<Json, String>)
    ensures
        parse_value(res) == parsed_json(text@),
{
    match serde_json::from_str::<serde_json::Value>(text) {
        Ok(value) => Ok(json_from_value(value)),
        Err(e) => Err(e.to_string()),
    }
}

/// `serde_json::to_string_pretty` of a `serde_json::Value`, which is a function
/// of the value and is named, not described.
#[verifier::external_body]
pub(crate) fn print_json(json: Json) -> (res: Result<String, String>)
    ensures
        print_value(res) == pretty_json(json@),
{
    match serde_json::to_string_pretty(&value_from_json(json)) {
        Ok(text) => Ok(text),
        Err(e) => Err(e.to_string()),
    }
}

} // verus!
