//! JSON values, as `serde_json` holds them.

use vstd::prelude::*;

use serde_json::Value;

verus! {

/// A JSON value of `serde_json`.
#[verifier::external_type_specification]
#[verifier::external_body]
pub struct ExValue(serde_json::Value);

/// The text of a JSON string; none of any other value.
pub uninterp spec fn json_text(v: serde_json::Value) -> Option<Seq<char>>;

/// The items of a JSON array; none of any other value.
pub uninterp spec fn json_items(v: serde_json::Value) -> Option<Seq<serde_json::Value>>;

/// The number, if the value is an integer that a `u64` can hold.
pub uninterp spec fn json_u64(v: serde_json::Value) -> Option<u64>;

/// The value that a JSON object has under a key; none of any other value.
pub uninterp spec fn json_member(v: serde_json::Value, key: Seq<char>) -> Option<serde_json::Value>;

/// `Value::as_str` gives the text of a string, and nothing of any other value:
/// [`json_text`].
pub assume_specification[ serde_json::Value::as_str ](v: &serde_json::Value) -> (r: Option<&str>)
    ensures
        match r {
            Some(s) => json_text(*v) == Some(s@),
            None => json_text(*v) is None,
        },
;

/// `Value::as_array` gives the items of an array, and nothing of any other
/// value: [`json_items`].
pub assume_specification[ serde_json::Value::as_array ](v: &serde_json::Value) -> (r: Option<
    &Vec<serde_json::Value>,
>)
    ensures
        match r {
            Some(items) => json_items(*v) == Some(items@),
            None => json_items(*v) is None,
        },
;

/// `Value::as_u64` gives the number where the value is an integer that a `u64`
/// can hold, and nothing otherwise: [`json_u64`].
pub assume_specification[ serde_json::Value::as_u64 ](v: &serde_json::Value) -> (r: Option<u64>)
    ensures
        r == json_u64(*v),
;

/// `Value::get` with a text gives what an object has under that key, and
/// nothing where it has no such key or the value is no object:
/// [`json_member`].
#[verifier::external_body]
pub(crate) fn member<'a>(v: &'a Value, key: &str) -> (r: Option<&'a Value>)
    ensures
        match r {
            Some(m) => json_member(*v, key@) == Some(*m),
            None => json_member(*v, key@) is None,
        },
{
    v.get(key)
}

/// The text that an object has under a key.
pub open spec fn text_at(v: Value, key: Seq<char>) -> Option<Seq<char>> {
    match json_member(v, key) {
        Some(m) => json_text(m),
        None => None,
    }
}

/// The text that an object has under a key.
pub(crate) fn optional_str<'a>(v: &'a Value, key: &str) -> (r: Option<&'a str>)
    ensures
        match r {
            Some(s) => text_at(*v, key@) == Some(s@),
            None => text_at(*v, key@) is None,
        },
{
    match member(v, key) {
        Some(m) => m.as_str(),
        None => None,
    }
}

} // verus!
