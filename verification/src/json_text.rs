//! JSON text: reading text into a [`Json`] and writing a [`Json`] as text, both through
//! `serde_json`. What the parser and the writers make of a given value is named, not restated: the
//! library's contracts speak of those names.
use vstd::prelude::*;

use crate::json::Json;

verus! {

#[verifier::external_type_specification]
#[verifier::external_body]
pub struct ExJsonValue(serde_json::Value);

/// What `serde_json::from_str::<Value>` makes of `text`: the value read (as a [`Json`]), or the
/// parser's error message.
pub uninterp spec fn json_text_value(text: Seq<char>) -> Result<Json, Seq<char>>;

/// What `serde_json::to_string` writes for `v`: its compact text.
pub uninterp spec fn json_compact_of(v: Json) -> Seq<char>;

/// What `serde_json::to_string_pretty` writes for `v`: its indented text.
pub uninterp spec fn json_pretty_of(v: Json) -> Seq<char>;

/// The library's `Json` for a `serde_json::Value`, one for one: non-negative integers as `UInt`,
/// negative ones as `Int`, every other number as its decimal text. It only converts, and is called
/// only from the bodies of the wrappers below.
#[verifier::external_body]
fn json_of_value(v: &serde_json::Value) -> Json {
    match v {
        serde_json::Value::Null => Json::Null,
        serde_json::Value::Bool(b) => Json::Bool(*b),
        serde_json::Value::Number(n) => match (n.as_u64(), n.as_i64()) {
            (Some(u), _) => Json::UInt(u),
            (None, Some(i)) => Json::Int(i),
            _ => Json::Float(n.to_string()),
        },
        serde_json::Value::String(s) => Json::Str(s.clone()),
        serde_json::Value::Array(a) => Json::Array(a.iter().map(json_of_value).collect()),
        serde_json::Value::Object(o) => Json::Object(o.iter().map(|(k, v)| (k.clone(), json_of_value(v))).collect()),
    }
}

/// The `serde_json::Value` of a library `Json`, one for one (a number's decimal text read back as
/// that number; of two entries with one key the later stands). It only converts, and is called only
/// from the bodies of the wrappers below.
#[verifier::external_body]
fn value_of_json(j: &Json) -> serde_json::Value {
    match j {
        Json::Null => serde_json::Value::Null,
        Json::Bool(b) => serde_json::Value::Bool(*b),
        Json::UInt(u) => serde_json::Value::from(*u),
        Json::Int(i) => serde_json::Value::from(*i),
        Json::Float(t) => serde_json::from_str::<serde_json::Value>(t).unwrap_or(serde_json::Value::Null),
        Json::Str(s) => serde_json::Value::String(s.clone()),
        Json::Array(a) => serde_json::Value::Array(a.iter().map(value_of_json).collect()),
        Json::Object(o) => serde_json::Value::Object(o.iter().map(|(k, v)| (k.clone(), value_of_json(v))).collect()),
    }
}

/// Read `text` with `serde_json::from_str::<Value>`: the value, or the parser's message. The
/// contract claims only that the result is the named reading of the text.
#[verifier::external_body]
pub(crate) fn parse_json_text(text: &str) -> (r: Result<Json, String>)
    ensures
        match r {
            Ok(v) => json_text_value(text@) == Ok::<Json, Seq<char>>(v),
            Err(e) => json_text_value(text@) == Err::<Json, Seq<char>>(e@),
        },
{
    match serde_json::from_str::<serde_json::Value>(text) {
        Ok(v) => Ok(json_of_value(&v)),
        Err(e) => Err(e.to_string()),
    }
}

/// Write `v` with `serde_json::to_string`: its compact text. serde_json documents that writing
/// fails only when a `Serialize` impl fails or a map has non-string keys, neither of which a
/// `Value` can hold, so the write always succeeds; the contract claims that the result is the named
/// writing of the value.
#[verifier::external_body]
pub(crate) fn compact_json_text(v: &Json) -> (t: String)
    ensures
        t@ == json_compact_of(*v),
{
    serde_json::to_string(&value_of_json(v)).unwrap_or_default()
}

/// Write `v` with `serde_json::to_string_pretty`: its indented text (always written, as for
/// [`compact_json_text`]); the contract claims that the result is the named writing of the value.
#[verifier::external_body]
pub(crate) fn pretty_json_text(v: &Json) -> (t: String)
    ensures
        t@ == json_pretty_of(*v),
{
    serde_json::to_string_pretty(&value_of_json(v)).unwrap_or_default()
}

} // verus!
