//! JSON text read into the library's JSON values, through `serde_json`.

use vstd::prelude::*;

use crate::json::{JsonNumber, JsonValue};

verus! {

#[verifier::external_type_specification]
#[verifier::external_body]
pub struct ExSerdeJsonValue(serde_json::Value);

#[verifier::external_type_specification]
#[verifier::external_body]
pub struct ExSerdeJsonNumber(serde_json::Number);

/// The JSON value `serde_json` reads from `text`, or `None` where it refuses
/// the text.
pub uninterp spec fn json_text_value(text: Seq<char>) -> Option<JsonValue>;

/// Reads `text` with `serde_json::from_str` into a `serde_json::Value` and
/// turns that into the library's value. What `serde_json` reads is not
/// restated here; the contract names it `json_text_value` of the text, the
/// same for the same text.
#[verifier::external_body]
pub(crate) fn parse_json_text(text: &str) -> (r: Option<JsonValue>)
    ensures
        r == json_text_value(text@),
{
    match serde_json::from_str::<serde_json::Value>(text) {
        Ok(value) => Some(json_of(value)),
        Err(_) => None,
    }
}

/// Turns a `serde_json::Value` into the library's value, variant for
/// variant. Nothing is claimed of the result: it is only reached through
/// [`parse_json_text`].
#[verifier::external_body]
fn json_of(value: serde_json::Value) -> JsonValue {
    match value {
        serde_json::Value::Null => JsonValue::Null,
        serde_json::Value::Bool(b) => JsonValue::Bool(b),
        serde_json::Value::Number(n) => JsonValue::Number(number_of(&n)),
        serde_json::Value::String(s) => JsonValue::String(s),
        serde_json::Value::Array(items) => JsonValue::Array(items.into_iter().map(json_of).collect()),
        serde_json::Value::Object(members) => JsonValue::Object(
            members.into_iter().map(|(k, v)| (k, json_of(v))).collect(),
        ),
    }
}

/// Turns a `serde_json::Number` into the library's number: by its `u64`,
/// else its `i64`, else the bits of its double. Nothing is claimed of the
/// result: it is only reached through [`parse_json_text`].
#[verifier::external_body]
fn number_of(n: &serde_json::Number) -> JsonNumber {
    match (n.as_u64(), n.as_i64()) {
        (Some(u), _) => JsonNumber::PosInt(u),
        (None, Some(i)) => JsonNumber::NegInt(i),
        (None, None) => JsonNumber::Float(n.as_f64().map_or(0, |x| x.to_bits())),
    }
}

} // verus!
