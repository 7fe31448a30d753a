//! JSON values, and looking values up in JSON text.
use crate::fleet::task_checks::{entry_index, find_entry};
use crate::text::{chars_of, parse_u64, parse_u64_exec, string_of};
use vstd::prelude::*;

verus! {

/// A JSON value, held as plain values.
#[derive(Debug)]
pub enum JsonValue {
    Null,
    Bool(bool),
    /// A number, as its text.
    Number(String),
    Text(String),
    Array(Vec<JsonValue>),
    /// An object's entries, in the order they were written; the keys of a
    /// JSON object are distinct.
    Object(Vec<(String, JsonValue)>),
}

/// What a JSON pointer lookup into a response body found.
#[derive(Debug)]
pub enum JsonProbe {
    /// The body is not valid JSON.
    NotJson,
    /// The body is JSON but nothing is at the pointer.
    Missing,
    /// A JSON string is at the pointer.
    Text(String),
    /// A JSON object is at the pointer; its compact serialization.
    Object(String),
    /// A JSON array is at the pointer; its compact serialization.
    Array(String),
    /// A number, boolean or null is at the pointer.
    Scalar,
}

/// Model of a [`JsonProbe`].
pub enum JsonProbeView {
    NotJson,
    Missing,
    Text(Seq<char>),
    Object(Seq<char>),
    Array(Seq<char>),
    Scalar,
}

impl View for JsonProbe {
    type V = JsonProbeView;

    open spec fn view(&self) -> JsonProbeView {
        match self {
            JsonProbe::NotJson => JsonProbeView::NotJson,
            JsonProbe::Missing => JsonProbeView::Missing,
            JsonProbe::Text(s) => JsonProbeView::Text(s@),
            JsonProbe::Object(s) => JsonProbeView::Object(s@),
            JsonProbe::Array(s) => JsonProbeView::Array(s@),
            JsonProbe::Scalar => JsonProbeView::Scalar,
        }
    }
}

/// What parsing `body` with `serde_json::from_str` and looking up `pointer`
/// with `Value::pointer` finds.
pub uninterp spec fn json_probe(body: Seq<char>, pointer: Seq<char>) -> JsonProbeView;

/// Parses `body` as JSON (`serde_json::from_str::<Value>`) and looks up the
/// JSON pointer (`Value::pointer`); strings are returned as they are and
/// objects or arrays by `Value::to_string`. The result depends only on the
/// two arguments.
#[verifier::external_body]
pub(crate) fn probe_json(body: &str, pointer: &str) -> (r: JsonProbe)
    ensures
        r@ == json_probe(body@, pointer@),
{
    match serde_json::from_str::<serde_json::Value>(body) {
        Err(_) => JsonProbe::NotJson,
        Ok(value) => match value.pointer(pointer) {
            None => JsonProbe::Missing,
            Some(serde_json::Value::String(s)) => JsonProbe::Text(s.clone()),
            Some(v @ serde_json::Value::Object(_)) => JsonProbe::Object(v.to_string()),
            Some(v @ serde_json::Value::Array(_)) => JsonProbe::Array(v.to_string()),
            Some(_) => JsonProbe::Scalar,
        },
    }
}

/// What `Value::get(key)` gives: the value of the object entry named `key`.
pub open spec fn json_get(v: JsonValue, key: Seq<char>) -> Option<JsonValue> {
    match v {
        JsonValue::Object(entries) => match entry_index(entries@, key) {
            Some(i) => Some(entries@[i].1),
            None => None,
        },
        _ => None,
    }
}

/// What `Value::as_str` gives on an optional value.
pub open spec fn json_str(v: Option<JsonValue>) -> Option<Seq<char>> {
    match v {
        Some(JsonValue::Text(s)) => Some(s@),
        _ => None,
    }
}

/// What `Value::as_u64` gives on an optional value: a number written as
/// plain decimal digits whose value fits in 64 bits.
pub open spec fn json_u64(v: Option<JsonValue>) -> Option<u64> {
    match v {
        Some(JsonValue::Number(t)) => if t@.len() > 0 && t@[0] != '+' {
            parse_u64(t@)
        } else {
            None
        },
        _ => None,
    }
}

/// `Value::get(key)`: the value of the object entry named `key` (see
/// [`json_get`]).
pub fn json_field<'a>(v: &'a JsonValue, key: &str) -> (r: Option<&'a JsonValue>)
    ensures
        match r {
            Some(x) => json_get(*v, key@) == Some(*x),
            None => json_get(*v, key@) is None,
        },
{
    match v {
        JsonValue::Object(entries) => {
            let k = string_of(chars_of(key).as_slice());
            match find_entry(entries, &k) {
                Some(i) => Some(&entries[i].1),
                None => None,
            }
        },
        _ => None,
    }
}

/// `Value::as_u64` (see [`json_u64`]).
pub fn json_as_u64(v: &JsonValue) -> (r: Option<u64>)
    ensures
        r == json_u64(Some(*v)),
{
    match v {
        JsonValue::Number(t) => {
            let cs = chars_of(t.as_str());
            if cs.len() > 0 && cs[0] != '+' {
                parse_u64_exec(cs.as_slice())
            } else {
                None
            }
        },
        _ => None,
    }
}

} // verus!
