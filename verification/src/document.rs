//! JSON request bodies and definition files, read with `serde_json`: the
//! parse and each look into the parsed value are calls of that crate, named
//! here; which members are read, and how, is this library's.

use vstd::prelude::*;
use crate::text::owned;

verus! {

/// A parsed JSON value, as `serde_json::Value`.
#[verifier::external_type_specification]
#[verifier::external_body]
pub struct ExJsonValue(serde_json::Value);

/// A JSON number, as `serde_json::Number`.
#[verifier::external_type_specification]
#[verifier::external_body]
pub struct ExJsonNumber(serde_json::Number);

/// The value `serde_json::from_slice` parses from `bytes`, if they are a
/// JSON document.
pub uninterp spec fn json_parse(bytes: Seq<u8>) -> Option<serde_json::Value>;

/// The member `key` of `v`, as `Value::get` finds it (only in an object).
pub uninterp spec fn json_member_of(v: serde_json::Value, key: Seq<char>) -> Option<serde_json::Value>;

/// The text of `v`, as `Value::as_str` gives it (only for a string).
pub uninterp spec fn json_string_of(v: serde_json::Value) -> Option<Seq<char>>;

/// The number `Value::as_u64` gives for `v` (only for an integer that fits).
pub uninterp spec fn json_u64_of(v: serde_json::Value) -> Option<u64>;

/// The flag `Value::as_bool` gives for `v` (only for a boolean).
pub uninterp spec fn json_bool_of(v: serde_json::Value) -> Option<bool>;

/// The number `Value::as_number` gives for `v` (only for a number).
pub uninterp spec fn json_number_of(v: serde_json::Value) -> Option<serde_json::Number>;

/// Calls `serde_json::from_slice` into a `Value`; `None` stands for its
/// error. The value is named by `json_parse`.
#[verifier::external_body]
pub(crate) fn json_from_slice(bytes: &[u8]) -> (r: Option<serde_json::Value>)
    ensures
        r == json_parse(bytes@),
{
    serde_json::from_slice(bytes).ok()
}

/// Calls `Value::get` with a key; the member is named by `json_member_of`.
#[verifier::external_body]
fn json_get<'a>(v: &'a serde_json::Value, key: &str) -> (r: Option<&'a serde_json::Value>)
    ensures
        match r {
            Some(m) => json_member_of(*v, key@) == Some(*m),
            None => json_member_of(*v, key@) is None,
        },
{
    v.get(key)
}

/// Calls `Value::as_str`; the text is named by `json_string_of`.
#[verifier::external_body]
fn json_as_str(v: &serde_json::Value) -> (r: Option<&str>)
    ensures
        match r {
            Some(s) => json_string_of(*v) == Some(s@),
            None => json_string_of(*v) is None,
        },
{
    v.as_str()
}

/// Calls `Value::as_u64`; the number is named by `json_u64_of`.
#[verifier::external_body]
fn json_as_u64(v: &serde_json::Value) -> (r: Option<u64>)
    ensures
        r == json_u64_of(*v),
{
    v.as_u64()
}

/// Calls `Value::as_bool`; the flag is named by `json_bool_of`.
#[verifier::external_body]
fn json_as_bool(v: &serde_json::Value) -> (r: Option<bool>)
    ensures
        r == json_bool_of(*v),
{
    v.as_bool()
}

/// Calls `Value::as_number` and takes an owned copy of the number, named by
/// `json_number_of`.
#[verifier::external_body]
fn json_as_number(v: &serde_json::Value) -> (r: Option<serde_json::Number>)
    ensures
        r == json_number_of(*v),
{
    v.as_number().cloned()
}

/// The view of an optional owned string.
pub open spec fn opt_string_view(v: Option<String>) -> Option<Seq<char>> {
    match v {
        Some(s) => Some(s@),
        None => None,
    }
}

/// The text of the member `key` of `v`, when it is a string.
pub open spec fn string_member(v: serde_json::Value, key: Seq<char>) -> Option<Seq<char>> {
    match json_member_of(v, key) {
        Some(m) => json_string_of(m),
        None => None,
    }
}

/// The member `key` of `v` as an unsigned integer, when it is one.
pub open spec fn u64_member(v: serde_json::Value, key: Seq<char>) -> Option<u64> {
    match json_member_of(v, key) {
        Some(m) => json_u64_of(m),
        None => None,
    }
}

/// The member `key` of `v` as a flag, when it is one.
pub open spec fn bool_member(v: serde_json::Value, key: Seq<char>) -> Option<bool> {
    match json_member_of(v, key) {
        Some(m) => json_bool_of(m),
        None => None,
    }
}

/// The member `key` of `v` as a number, when it is one.
pub open spec fn number_member(v: serde_json::Value, key: Seq<char>) -> Option<serde_json::Number> {
    match json_member_of(v, key) {
        Some(m) => json_number_of(m),
        None => None,
    }
}

/// The member `key` of the member `outer` of `v`.
pub open spec fn nested_member(v: serde_json::Value, outer: Seq<char>, key: Seq<char>) -> Option<serde_json::Value> {
    match json_member_of(v, outer) {
        Some(o) => json_member_of(o, key),
        None => None,
    }
}

/// The text of the member `key` of `v`, when it is a string.
pub fn member_text(v: &serde_json::Value, key: &str) -> (r: Option<String>)
    ensures
        opt_string_view(r) == string_member(*v, key@),
{
    match json_get(v, key) {
        Some(m) => match json_as_str(m) {
            Some(s) => Some(owned(s)),
            None => None,
        },
        None => None,
    }
}

/// The member `key` of `v` as an unsigned integer, when it is one.
pub fn member_u64(v: &serde_json::Value, key: &str) -> (r: Option<u64>)
    ensures
        r == u64_member(*v, key@),
{
    match json_get(v, key) {
        Some(m) => json_as_u64(m),
        None => None,
    }
}

/// The member `key` of `v` as a flag, when it is one.
pub fn member_bool(v: &serde_json::Value, key: &str) -> (r: Option<bool>)
    ensures
        r == bool_member(*v, key@),
{
    match json_get(v, key) {
        Some(m) => json_as_bool(m),
        None => None,
    }
}

/// The member `key` of `v` as a number, when it is one.
pub fn member_number(v: &serde_json::Value, key: &str) -> (r: Option<serde_json::Number>)
    ensures
        r == number_member(*v, key@),
{
    match json_get(v, key) {
        Some(m) => json_as_number(m),
        None => None,
    }
}

/// The flag at `key` inside the member `outer` of `v`, when both are there.
pub fn nested_bool(v: &serde_json::Value, outer: &str, key: &str) -> (r: Option<bool>)
    ensures
        r == match nested_member(*v, outer@, key@) {
            Some(m) => json_bool_of(m),
            None => None,
        },
{
    match json_get(v, outer) {
        Some(o) => match json_get(o, key) {
            Some(m) => json_as_bool(m),
            None => None,
        },
        None => None,
    }
}

/// The unsigned integer at `key` inside the member `outer` of `v`, when
/// both are there.
pub fn nested_u64(v: &serde_json::Value, outer: &str, key: &str) -> (r: Option<u64>)
    ensures
        r == match nested_member(*v, outer@, key@) {
            Some(m) => json_u64_of(m),
            None => None,
        },
{
    match json_get(v, outer) {
        Some(o) => match json_get(o, key) {
            Some(m) => json_as_u64(m),
            None => None,
        },
        None => None,
    }
}

} // verus!
