//! Trusted boundary to `serde_json` for reading a decoded page body.
//!
//! A page body arrives as one opaque `serde_json::Value`. The accessors the
//! record decoder needs are declared here with contracts over uninterpreted
//! names for their results; everything that interprets those results is
//! verified code elsewhere in the crate.

use vstd::prelude::*;

verus! {

#[verifier::external_type_specification]
#[verifier::external_body]
pub struct ExJsonValue(serde_json::Value);

/// Whether a JSON value is an array.
pub uninterp spec fn json_is_array(v: serde_json::Value) -> bool;

/// The elements of a JSON array value.
pub uninterp spec fn json_elems(v: serde_json::Value) -> Seq<serde_json::Value>;

/// The field of a JSON object value under a key, when the value is an
/// object that has the key.
pub uninterp spec fn json_field_of(v: serde_json::Value, key: Seq<char>) -> Option<
    serde_json::Value,
>;

/// The character content of a JSON string value.
pub uninterp spec fn json_str_of(v: serde_json::Value) -> Option<Seq<char>>;

/// Relies on `serde_json::Value::as_array`: returns the borrowed elements
/// exactly when the value is a JSON array.
#[verifier::external_body]
pub fn json_as_array(v: &serde_json::Value) -> (r: Option<&Vec<serde_json::Value>>)
    ensures
        r matches Some(a) ==> json_is_array(*v) && a@ == json_elems(*v),
        r is None ==> !json_is_array(*v),
{
    v.as_array()
}

/// Relies on `serde_json::Value::get` with a string index: returns the field
/// under that key exactly when the value is an object that has the key.
#[verifier::external_body]
pub fn json_get<'a>(v: &'a serde_json::Value, key: &str) -> (r: Option<&'a serde_json::Value>)
    ensures
        r matches Some(f) ==> json_field_of(*v, key@) == Some(*f),
        r is None ==> json_field_of(*v, key@) is None,
{
    v.get(key)
}

/// Relies on `serde_json::Value::as_str`: returns the borrowed content
/// exactly when the value is a JSON string.
#[verifier::external_body]
pub fn json_as_str(v: &serde_json::Value) -> (r: Option<&str>)
    ensures
        r matches Some(s) ==> json_str_of(*v) == Some(s@),
        r is None ==> json_str_of(*v) is None,
{
    v.as_str()
}

} // verus!
