//! Reading JSON text with `serde_json`: whether a text is JSON, and the fields the
//! library looks at. What `serde_json` gives for a text is named here, not restated.
use vstd::prelude::*;

verus! {

/// A JSON value as `serde_json` holds it; the library only carries it along.
#[verifier::external_type_specification]
#[verifier::external_body]
pub struct ExJsonValue(serde_json::Value);

/// The value `serde_json` reads from `text`; `None` when it is not JSON.
pub uninterp spec fn json_value(text: Seq<char>) -> Option<serde_json::Value>;

/// For JSON text: the value under `key` of the top-level object, if any.
pub uninterp spec fn json_field_value(text: Seq<char>, key: Seq<char>) -> Option<Option<serde_json::Value>>;

/// The message `serde_json` gives when `text` is not one JSON value; `None` when it is.
pub uninterp spec fn json_parse_error(text: Seq<char>) -> Option<Seq<char>>;

/// For JSON text: the string under `key` of the top-level object, if that is a string.
/// `None` when the text is not JSON.
pub uninterp spec fn json_str_field(text: Seq<char>, key: Seq<char>) -> Option<Option<Seq<char>>>;

/// For JSON text: the number under `key`, if it is an integer in `u64`.
pub uninterp spec fn json_u64_field(text: Seq<char>, key: Seq<char>) -> Option<Option<u64>>;

/// For JSON text: the bit pattern of the number under `key` read as an `f64`, if it is a
/// number.
pub uninterp spec fn json_f64_bits_field(text: Seq<char>, key: Seq<char>) -> Option<Option<u64>>;

/// For JSON text: the length of the array under `key`, if it is an array.
pub uninterp spec fn json_array_len_field(text: Seq<char>, key: Seq<char>) -> Option<Option<u64>>;

/// For JSON text: whether the value is an array.
pub uninterp spec fn json_is_array(text: Seq<char>) -> Option<bool>;

pub open spec fn opt_str(o: Option<String>) -> Option<Seq<char>> {
    match o {
        Some(s) => Some(s@),
        None => None,
    }
}

pub open spec fn opt_opt_str(o: Option<Option<String>>) -> Option<Option<Seq<char>>> {
    match o {
        Some(x) => Some(opt_str(x)),
        None => None,
    }
}

/// The inner option of a field read, nothing when the text was not JSON.
pub open spec fn flat<T>(o: Option<Option<T>>) -> Option<T> {
    match o {
        Some(Some(x)) => Some(x),
        _ => None,
    }
}

/// `serde_json::from_str::<Value>`, keeping only its error message (`Display`).
#[verifier::external_body]
pub(crate) fn json_error(text: &str) -> (r: Option<String>)
    ensures
        opt_str(r) == json_parse_error(text@),
{
    match serde_json::from_str::<serde_json::Value>(text) {
        Ok(_) => None,
        Err(e) => Some(e.to_string()),
    }
}

/// `serde_json::from_str::<Value>`: the value, when the text is JSON.
#[verifier::external_body]
pub(crate) fn parse_value(text: &str) -> (r: Option<serde_json::Value>)
    ensures
        r == json_value(text@),
        (r is Some) == (json_parse_error(text@) is None),
{
    serde_json::from_str::<serde_json::Value>(text).ok()
}

/// `serde_json::from_str::<Value>`, then `get(key)` and `as_str`.
#[verifier::external_body]
pub(crate) fn parse_str_field(text: &str, key: &str) -> (r: Option<Option<String>>)
    ensures
        opt_opt_str(r) == json_str_field(text@, key@),
        (r is None) == (json_parse_error(text@) is Some),
{
    serde_json::from_str::<serde_json::Value>(text).ok().map(|v| v.get(key).and_then(|x| x.as_str()).map(|s| s.to_string()))
}

/// `serde_json::from_str::<Value>`, then `get(key)` and `as_u64`.
#[verifier::external_body]
pub(crate) fn parse_u64_field(text: &str, key: &str) -> (r: Option<Option<u64>>)
    ensures
        r == json_u64_field(text@, key@),
        (r is None) == (json_parse_error(text@) is Some),
{
    serde_json::from_str::<serde_json::Value>(text).ok().map(|v| v.get(key).and_then(|x| x.as_u64()))
}

/// `serde_json::from_str::<Value>`, then `get(key)`, `as_f64` and `to_bits`.
#[verifier::external_body]
pub(crate) fn parse_f64_bits_field(text: &str, key: &str) -> (r: Option<Option<u64>>)
    ensures
        r == json_f64_bits_field(text@, key@),
        (r is None) == (json_parse_error(text@) is Some),
{
    serde_json::from_str::<serde_json::Value>(text).ok().map(|v| v.get(key).and_then(|x| x.as_f64()).map(|n| n.to_bits()))
}

/// `serde_json::from_str::<Value>`, then `get(key)`, `as_array` and its length.
#[verifier::external_body]
pub(crate) fn parse_array_len_field(text: &str, key: &str) -> (r: Option<Option<u64>>)
    ensures
        r == json_array_len_field(text@, key@),
        (r is None) == (json_parse_error(text@) is Some),
{
    serde_json::from_str::<serde_json::Value>(text).ok().map(|v| v.get(key).and_then(|x| x.as_array()).map(|a| a.len() as u64))
}

/// `serde_json::from_str::<Value>`, then `is_array`.
#[verifier::external_body]
pub(crate) fn parse_is_array(text: &str) -> (r: Option<bool>)
    ensures
        r == json_is_array(text@),
        (r is None) == (json_parse_error(text@) is Some),
{
    serde_json::from_str::<serde_json::Value>(text).ok().map(|v| v.is_array())
}

/// `serde_json::from_str::<Value>`, then `get(key)`, cloned.
#[verifier::external_body]
pub(crate) fn parse_field_value(text: &str, key: &str) -> (r: Option<Option<serde_json::Value>>)
    ensures
        r == json_field_value(text@, key@),
        (r is None) == (json_parse_error(text@) is Some),
{
    serde_json::from_str::<serde_json::Value>(text).ok().map(|v| v.get(key).cloned())
}

} // verus!
