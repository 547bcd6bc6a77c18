//! JSON values as plain data, parsed and printed by serde_json.
use vstd::prelude::*;
use crate::text::{chars_eq, chars_of};

verus! {

#[verifier::external_type_specification]
#[verifier::external_body]
pub struct ExJsonValue(serde_json::Value);

/// A JSON value. A number is held as the text serde_json writes for it.
pub enum JsonValue {
    Null,
    Bool(bool),
    Number(String),
    Str(String),
    Array(Vec<JsonValue>),
    Object(Vec<(String, JsonValue)>),
}

/// What serde_json parses from the text `s`, or `None` where it reports an error.
pub uninterp spec fn json_parse(s: Seq<char>) -> Option<JsonValue>;

/// The message of the error serde_json reports on the text `s`.
pub uninterp spec fn json_error_text(s: Seq<char>) -> Seq<char>;

/// The compact JSON text serde_json writes for `v`.
pub uninterp spec fn json_text(v: JsonValue) -> Seq<char>;

/// Relies on the variants of `serde_json::Value`: each value is moved into the
/// matching variant, a number as the text of its `Display`.
#[verifier::external_body]
fn from_serde(v: serde_json::Value) -> JsonValue {
    match v {
        serde_json::Value::Null => JsonValue::Null,
        serde_json::Value::Bool(b) => JsonValue::Bool(b),
        serde_json::Value::Number(n) => JsonValue::Number(n.to_string()),
        serde_json::Value::String(s) => JsonValue::Str(s),
        serde_json::Value::Array(a) => JsonValue::Array(a.into_iter().map(from_serde).collect()),
        serde_json::Value::Object(m) => JsonValue::Object(
            m.into_iter().map(|(k, x)| (k, from_serde(x))).collect(),
        ),
    }
}

/// Relies on the variants of `serde_json::Value` and on `FromStr` for
/// `serde_json::Number`: each value is moved back into the matching variant.
#[verifier::external_body]
fn to_serde(v: &JsonValue) -> serde_json::Value {
    match v {
        JsonValue::Null => serde_json::Value::Null,
        JsonValue::Bool(b) => serde_json::Value::Bool(*b),
        JsonValue::Number(t) => t.parse().map(serde_json::Value::Number).unwrap_or(serde_json::Value::Null),
        JsonValue::Str(s) => serde_json::Value::String(s.clone()),
        JsonValue::Array(a) => serde_json::Value::Array(a.iter().map(to_serde).collect()),
        JsonValue::Object(m) => serde_json::Value::Object(
            m.iter().map(|(k, x)| (k.clone(), to_serde(x))).collect(),
        ),
    }
}

/// Relies on `serde_json::from_str::<serde_json::Value>`, which parses JSON text and
/// depends on the text alone, and on the `Display` of `serde_json::Error` for its message.
#[verifier::external_body]
pub(crate) fn parse_json(text: &str) -> (r: Result<JsonValue, String>)
    ensures
        match r {
            Ok(v) => json_parse(text@) == Some(v),
            Err(e) => json_parse(text@) is None && e@ == json_error_text(text@),
        },
{
    match serde_json::from_str::<serde_json::Value>(text) {
        Ok(v) => Ok(from_serde(v)),
        Err(e) => Err(e.to_string()),
    }
}

/// Relies on the `Display` of `serde_json::Value`: its compact JSON text.
#[verifier::external_body]
pub(crate) fn json_to_string(v: &JsonValue) -> (r: String)
    ensures
        r@ == json_text(*v),
{
    to_serde(v).to_string()
}

/// The value under the first entry named `key` at or after `k`.
pub open spec fn member_from(m: Seq<(String, JsonValue)>, key: Seq<char>, k: int) -> Option<
    JsonValue,
>
    decreases m.len() - k,
{
    if k < 0 || k >= m.len() {
        None
    } else if m[k].0@ == key {
        Some(m[k].1)
    } else {
        member_from(m, key, k + 1)
    }
}

/// The member `key` of `v`; none where `v` is no object or has no such member.
pub open spec fn member(v: JsonValue, key: Seq<char>) -> Option<JsonValue> {
    match v {
        JsonValue::Object(m) => member_from(m@, key, 0),
        _ => None,
    }
}

/// The characters of a string value.
pub open spec fn str_of(v: Option<JsonValue>) -> Option<Seq<char>> {
    match v {
        Some(JsonValue::Str(s)) => Some(s@),
        _ => None,
    }
}

/// Looks up the member `key` of `v`.
pub fn get_member<'a>(v: &'a JsonValue, key: &[char]) -> (r: Option<&'a JsonValue>)
    ensures
        match r {
            Some(x) => member(*v, key@) == Some(*x),
            None => member(*v, key@) is None,
        },
{
    match v {
        JsonValue::Object(m) => {
            let mut k: usize = 0;
            while k < m.len()
                invariant
                    k <= m@.len(),
                    member(*v, key@) == member_from(m@, key@, 0),
                    member_from(m@, key@, 0) == member_from(m@, key@, k as int),
                decreases m@.len() - k,
            {
                let entry = &m[k];
                let name = chars_of(entry.0.as_str());
                if chars_eq(&name, key) {
                    return Some(&entry.1);
                }
                k += 1;
            }
            None
        },
        _ => None,
    }
}

/// The string held by `v`, if it is one.
pub fn as_str_value(v: Option<&JsonValue>) -> (r: Option<&String>)
    ensures
        match r {
            Some(s) => str_of(
                match v {
                    Some(x) => Some(*x),
                    None => None,
                },
            ) == Some(s@),
            None => str_of(
                match v {
                    Some(x) => Some(*x),
                    None => None,
                },
            ) is None,
        },
{
    match v {
        Some(JsonValue::Str(s)) => Some(s),
        _ => None,
    }
}

} // verus!
