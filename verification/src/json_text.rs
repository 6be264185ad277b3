//! JSON text in and out, through serde_json.
//!
//! Parsing and printing JSON text is serde_json's work; this module holds the
//! two calls, and names what they compute, since that takes pages to state.

use vstd::prelude::*;
use crate::json::{Json, JsonModel, JsonNumber, opt_json_model};

verus! {

/// serde_json's dynamic JSON value, carried through opaquely.
#[verifier::external_type_specification]
#[verifier::external_body]
pub struct ExSerdeJsonValue(serde_json::Value);

/// The value that `serde_json::from_str::<serde_json::Value>` reads from a
/// text, or `None` where it reports an error.
pub uninterp spec fn spec_parse_json(text: Seq<char>) -> Option<JsonModel>;

/// The compact text that serde_json writes for a value (`Value::to_string`).
pub uninterp spec fn spec_json_text(v: JsonModel) -> Seq<char>;

/// serde_json's number, carried through opaquely.
#[verifier::external_type_specification]
#[verifier::external_body]
pub struct ExSerdeJsonNumber(serde_json::Number);

/// One-for-one conversion of a serde_json number into the library's model,
/// by the shape serde_json stores it in: `as_u64`, else `as_i64`, else the
/// float's text.
#[verifier::external_body]
fn number_from_serde(n: serde_json::Number) -> JsonNumber {
    match (n.as_u64(), n.as_i64()) {
        (Some(u), _) => JsonNumber::PosInt(u),
        (None, Some(i)) => JsonNumber::NegInt(i),
        (None, None) => JsonNumber::Float(n.to_string()),
    }
}

/// One-for-one conversion of a serde_json value into the library's model:
/// each variant to its counterpart.
#[verifier::external_body]
fn from_serde(v: serde_json::Value) -> Json {
    match v {
        serde_json::Value::Null => Json::Null,
        serde_json::Value::Bool(b) => Json::Bool(b),
        serde_json::Value::Number(n) => Json::Number(number_from_serde(n)),
        serde_json::Value::String(s) => Json::Str(s),
        serde_json::Value::Array(a) => Json::Array(a.into_iter().map(from_serde).collect()),
        serde_json::Value::Object(m) => Json::Object(m.into_iter().map(|(k, v)| (k, from_serde(v))).collect()),
    }
}

/// One-for-one conversion of the library's number into a serde_json value;
/// a float's text is read back as serde_json reads a number.
#[verifier::external_body]
fn number_to_serde(n: &JsonNumber) -> serde_json::Value {
    match n {
        JsonNumber::PosInt(u) => serde_json::Value::from(*u),
        JsonNumber::NegInt(i) => serde_json::Value::from(*i),
        JsonNumber::Float(s) => s.parse::<serde_json::Number>().map(serde_json::Value::Number).unwrap_or(serde_json::Value::Null),
    }
}

/// One-for-one conversion of the library's model into a serde_json value;
/// object entries are inserted in order.
#[verifier::external_body]
fn to_serde(v: &Json) -> serde_json::Value {
    match v {
        Json::Null => serde_json::Value::Null,
        Json::Bool(b) => serde_json::Value::Bool(*b),
        Json::Number(n) => number_to_serde(n),
        Json::Str(s) => serde_json::Value::String(s.clone()),
        Json::Array(a) => serde_json::Value::Array(a.iter().map(to_serde).collect()),
        Json::Object(o) => serde_json::Value::Object(o.iter().map(|(k, v)| (k.clone(), to_serde(v))).collect()),
    }
}

/// The message serde_json gives (its error's `Display` text) for a text it
/// cannot read as JSON.
pub uninterp spec fn spec_json_error(text: Seq<char>) -> Seq<char>;

/// Parses a JSON text with `serde_json::from_str::<serde_json::Value>`.
/// Claims that a value comes back exactly when `spec_parse_json` names one
/// for the text, and is that value; otherwise the error's message, which
/// `spec_json_error` names.
#[verifier::external_body]
pub(crate) fn parse_json_text(text: &str) -> (r: Result<Json, String>)
    ensures
        match r {
            Ok(v) => spec_parse_json(text@) == Some(v@),
            Err(m) => spec_parse_json(text@) is None && m@ == spec_json_error(text@),
        },
{
    match serde_json::from_str::<serde_json::Value>(text) {
        Ok(v) => Ok(from_serde(v)),
        Err(e) => Err(e.to_string()),
    }
}

/// The value a JSON text holds, if it is valid JSON.
pub fn parse_json(text: &str) -> (r: Option<Json>)
    ensures
        opt_json_model(r) == spec_parse_json(text@),
{
    match parse_json_text(text) {
        Ok(v) => Some(v),
        Err(_) => None,
    }
}

/// Writes a value as compact JSON text with serde_json (`Value::to_string`).
/// Claims that the text is what `spec_json_text` names for the value.
#[verifier::external_body]
pub(crate) fn json_to_text(v: &Json) -> (r: String)
    ensures
        r@ == spec_json_text(v@),
{
    to_serde(v).to_string()
}

} // verus!
