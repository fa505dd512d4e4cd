//! Trusted bridge to serde_json: single-field lookups in a JSON text.
//!
//! What a lookup returns is a function of the text alone, so each lookup
//! is given a name (an uninterpreted spec function); the verified parsers
//! in `models` compose these lookups and carry exact contracts over the
//! names.
use vstd::prelude::*;

verus! {

/// The string value of field `key` of the top-level JSON object in `s`,
/// when `s` parses as an object and the field holds a string — as
/// serde_json decides it.
pub uninterp spec fn json_str_field(s: Seq<char>, key: Seq<char>) -> Option<Seq<char>>;

/// The unsigned integer value of field `key`, when present and a `u64`.
pub uninterp spec fn json_u64_field(s: Seq<char>, key: Seq<char>) -> Option<u64>;

/// The boolean value of field `key`, when present and a boolean.
pub uninterp spec fn json_bool_field(s: Seq<char>, key: Seq<char>) -> Option<bool>;

/// The elements of the array at `key`, each re-rendered as JSON text,
/// when the field holds an array.
pub uninterp spec fn json_array_field(s: Seq<char>, key: Seq<char>) -> Option<Seq<Seq<char>>>;

/// The object at `key`, re-rendered as JSON text, when the field holds
/// an object.
pub uninterp spec fn json_object_field(s: Seq<char>, key: Seq<char>) -> Option<Seq<char>>;

/// The elements of the array at `key`, when every element is a string.
pub uninterp spec fn json_str_array_field(s: Seq<char>, key: Seq<char>) -> Option<Seq<Seq<char>>>;

/// The key/value pairs of the object at `key`, in serde_json's map order,
/// when every value is a string.
pub uninterp spec fn json_str_map_field(s: Seq<char>, key: Seq<char>) -> Option<
    Seq<(Seq<char>, Seq<char>)>,
>;

/// Relies on serde_json::from_str::<Value>, Value::get and Value::as_str.
#[verifier::external_body]
pub(crate) fn get_str_field(s: &str, key: &str) -> (r: Option<String>)
    ensures
        r is Some <==> json_str_field(s@, key@) is Some,
        r matches Some(v) ==> json_str_field(s@, key@) == Some(v@),
{
    let val: serde_json::Value = serde_json::from_str(s).ok()?;
    Some(val.get(key)?.as_str()?.to_string())
}

/// Relies on serde_json::from_str::<Value>, Value::get and Value::as_u64.
#[verifier::external_body]
pub(crate) fn get_u64_field(s: &str, key: &str) -> (r: Option<u64>)
    ensures
        r == json_u64_field(s@, key@),
{
    let val: serde_json::Value = serde_json::from_str(s).ok()?;
    val.get(key)?.as_u64()
}

/// Relies on serde_json::from_str::<Value>, Value::get and Value::as_bool.
#[verifier::external_body]
pub(crate) fn get_bool_field(s: &str, key: &str) -> (r: Option<bool>)
    ensures
        r == json_bool_field(s@, key@),
{
    let val: serde_json::Value = serde_json::from_str(s).ok()?;
    val.get(key)?.as_bool()
}

/// Relies on serde_json::from_str::<Value>, Value::get, Value::as_array
/// and Value::to_string.
#[verifier::external_body]
pub(crate) fn get_array_field(s: &str, key: &str) -> (r: Option<Vec<String>>)
    ensures
        r is Some <==> json_array_field(s@, key@) is Some,
        r matches Some(v) ==> json_array_field(s@, key@) == Some(v.deep_view()),
{
    let val: serde_json::Value = serde_json::from_str(s).ok()?;
    let arr = val.get(key)?.as_array()?;
    Some(arr.iter().map(|v| v.to_string()).collect())
}

/// Relies on serde_json::from_str::<Value>, Value::get, Value::as_object
/// and Value::to_string.
#[verifier::external_body]
pub(crate) fn get_object_field(s: &str, key: &str) -> (r: Option<String>)
    ensures
        r is Some <==> json_object_field(s@, key@) is Some,
        r matches Some(v) ==> json_object_field(s@, key@) == Some(v@),
{
    let val: serde_json::Value = serde_json::from_str(s).ok()?;
    let field = val.get(key)?;
    field.as_object()?;
    Some(field.to_string())
}

/// Relies on serde_json::from_str::<Value>, Value::get, Value::as_array
/// and Value::as_str.
#[verifier::external_body]
pub(crate) fn get_str_array_field(s: &str, key: &str) -> (r: Option<Vec<String>>)
    ensures
        r is Some <==> json_str_array_field(s@, key@) is Some,
        r matches Some(v) ==> json_str_array_field(s@, key@) == Some(v.deep_view()),
{
    let val: serde_json::Value = serde_json::from_str(s).ok()?;
    let arr = val.get(key)?.as_array()?;
    let mut out = Vec::new();
    for v in arr {
        out.push(v.as_str()?.to_string());
    }
    Some(out)
}

/// Relies on serde_json::from_str::<Value>, Value::get, Value::as_object
/// and Value::as_str.
#[verifier::external_body]
pub(crate) fn get_str_map_field(s: &str, key: &str) -> (r: Option<Vec<(String, String)>>)
    ensures
        r is Some <==> json_str_map_field(s@, key@) is Some,
        r matches Some(v) ==> json_str_map_field(s@, key@) == Some(v.deep_view()),
{
    let val: serde_json::Value = serde_json::from_str(s).ok()?;
    let obj = val.get(key)?.as_object()?;
    let mut out = Vec::new();
    for (k, v) in obj {
        out.push((k.clone(), v.as_str()?.to_string()));
    }
    Some(out)
}

} // verus!
