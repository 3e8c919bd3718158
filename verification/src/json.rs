//! JSON documents, as `serde_json` reads them.

use vstd::prelude::*;

verus! {

/// The JSON value of `serde_json`. What is inside is known through the names below alone.
#[verifier::external_type_specification]
#[verifier::external_body]
pub struct ExJsonValue(serde_json::Value);

/// The failure of `serde_json`, of which nothing is used.
#[verifier::external_type_specification]
#[verifier::external_body]
pub struct ExJsonError(serde_json::Error);

/// The value that `serde_json::from_slice` reads from the bytes of a document, if it reads one.
pub uninterp spec fn json_document(bytes: Seq<u8>) -> Option<serde_json::Value>;

/// The members of a JSON object by their keys. A value of any other kind has none.
pub uninterp spec fn json_members(value: serde_json::Value) -> Map<Seq<char>, serde_json::Value>;

/// The items of a JSON array.
pub uninterp spec fn json_items(value: serde_json::Value) -> Option<Seq<serde_json::Value>>;

/// The characters of a JSON string.
pub uninterp spec fn json_text(value: serde_json::Value) -> Option<Seq<char>>;

/// The number that a JSON value is, where it is an integer that an unsigned 64-bit number holds.
pub uninterp spec fn json_unsigned(value: serde_json::Value) -> Option<u64>;

/// The value is the JSON value `null`, as far as it is looked at: no object with members, no array,
/// no string and no number.
pub open spec fn json_null(value: serde_json::Value) -> bool {
    &&& json_members(value) == Map::<Seq<char>, serde_json::Value>::empty()
    &&& json_items(value) is None
    &&& json_text(value) is None
    &&& json_unsigned(value) is None
}

/// Calls `serde_json::from_slice`, which reads a value from the bytes of a document or fails; which
/// of the two, and the value, depend on the bytes alone.
#[verifier::external_body]
pub(crate) fn parse_document(bytes: &[u8]) -> (r: Result<serde_json::Value, serde_json::Error>)
    ensures
        r is Ok <==> json_document(bytes@) is Some,
        r matches Ok(value) ==> json_document(bytes@) == Some(value),
{
    serde_json::from_slice::<serde_json::Value>(bytes)
}

/// Indexes a `serde_json::Value` by a key. That gives the member of an object, and `null` where the
/// object has no such member or the value is no object.
#[verifier::external_body]
pub(crate) fn json_member<'a>(value: &'a serde_json::Value, key: &str) -> (r:
    &'a serde_json::Value)
    ensures
        json_members(*value).contains_key(key@) ==> *r == json_members(*value)[key@],
        !json_members(*value).contains_key(key@) ==> json_null(*r),
{
    &value[key]
}

/// `serde_json::Value::as_array` gives the items of an array, and nothing of another value.
pub assume_specification[ serde_json::Value::as_array ](value: &serde_json::Value) -> (r: Option<
    &Vec<serde_json::Value>,
>)
    ensures
        r is Some <==> json_items(*value) is Some,
        r matches Some(items) ==> json_items(*value) == Some(items@),
;

/// `serde_json::Value::as_str` gives the characters of a string, and nothing of another value.
pub assume_specification[ serde_json::Value::as_str ](value: &serde_json::Value) -> (r: Option<
    &str,
>)
    ensures
        r is Some <==> json_text(*value) is Some,
        r matches Some(text) ==> json_text(*value) == Some(text@),
;

/// `serde_json::Value::as_u64` gives the number that a value is, where it is an unsigned integer,
/// and nothing of another value.
pub assume_specification[ serde_json::Value::as_u64 ](value: &serde_json::Value) -> (r: Option<u64>)
    ensures
        r == json_unsigned(*value),
;

/// The member `key` of a value that may be missing itself.
pub open spec fn member_of(value: Option<serde_json::Value>, key: Seq<char>) -> Option<
    serde_json::Value,
> {
    match value {
        Some(value) => if json_members(value).contains_key(key) {
            Some(json_members(value)[key])
        } else {
            None
        },
        None => None,
    }
}

/// The characters of the string that is the member `key`.
pub open spec fn text_member(value: Option<serde_json::Value>, key: Seq<char>) -> Option<Seq<char>> {
    match member_of(value, key) {
        Some(member) => json_text(member),
        None => None,
    }
}

/// The number that is the member `key`.
pub open spec fn unsigned_member(value: Option<serde_json::Value>, key: Seq<char>) -> Option<u64> {
    match member_of(value, key) {
        Some(member) => json_unsigned(member),
        None => None,
    }
}

} // verus!
