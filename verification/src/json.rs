//! Compact JSON text of values, as `serde_json` writes it.
use vstd::prelude::*;

use serde_json::Value as Json;

use crate::value::{Val, Value};

verus! {

/// The text that `serde_json::Value`'s `Display` (compact JSON) gives for the
/// JSON value that `v` stands for.
pub uninterp spec fn compact_json(v: Val) -> Seq<char>;

/// `serde_json::Value::to_string` of `v`, converted to a `serde_json::Value`
/// one variant for one (an item of a list or object by way of its own text,
/// which `serde_json::from_str` reads back).
#[verifier::external_body]
pub(crate) fn to_json_text(v: &Value) -> (r: String)
    ensures
        r@ == compact_json(v.deep()),
{
    let part = |x: &Value| serde_json::from_str::<Json>(&to_json_text(x)).unwrap_or_default();
    let j = match v {
        Value::Null => Json::Null,
        Value::Bool(b) => Json::Bool(*b),
        Value::Int(i) => Json::from(*i),
        Value::Float(t) => serde_json::from_str(t).unwrap_or_default(),
        Value::Str(s) => Json::String(s.clone()),
        Value::List(items) => Json::Array(items.iter().map(part).collect()),
        Value::Object(es) => Json::Object(es.iter().map(|(k, x)| (k.clone(), part(x))).collect()),
    };
    j.to_string()
}

/// The library value that `serde_json::from_str` reads from the JSON text
/// `text` (`Null` when it is not JSON): an integer that fits in `i64` as an
/// integer, another number by its `serde_json` text, objects with their
/// entries in the order of `serde_json`'s map.
pub uninterp spec fn json_parse(text: Seq<char>) -> Val;

/// `serde_json::from_str` of `text`, converted into a library value one
/// variant for one (an item of a list or object by way of its own text).
#[verifier::external_body]
pub(crate) fn from_json_text(text: &str) -> (r: Value)
    ensures
        r.deep() == json_parse(text@),
{
    let part = |x: &Json| from_json_text(&x.to_string());
    match serde_json::from_str::<Json>(text).unwrap_or_default() {
        Json::Null => Value::Null,
        Json::Bool(b) => Value::Bool(b),
        Json::Number(n) => n.as_i64().map_or_else(|| Value::Float(n.to_string()), Value::Int),
        Json::String(s) => Value::Str(s),
        Json::Array(items) => Value::List(items.iter().map(part).collect()),
        Json::Object(m) => Value::Object(m.iter().map(|(k, x)| (k.clone(), part(x))).collect()),
    }
}

/// The text that `serde_json::to_string_pretty` writes for the JSON value
/// that `v` stands for.
pub uninterp spec fn pretty_json(v: Val) -> Seq<char>;

/// `serde_json::to_string_pretty` of `v`, converted to a `serde_json` value
/// by way of its compact text.
#[verifier::external_body]
pub(crate) fn to_pretty_json_text(v: &Value) -> (r: String)
    ensures
        r@ == pretty_json(v.deep()),
{
    let j: Json = serde_json::from_str(&to_json_text(v)).unwrap_or_default();
    serde_json::to_string_pretty(&j).unwrap_or_default()
}

} // verus!
