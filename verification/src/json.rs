//! The boundary to `serde_json`.
//!
//! A share's payload is arbitrary JSON, held as a `serde_json::Value`. The
//! library never looks inside a value itself: it asks `serde_json`, through the
//! small functions of this module. Their contracts are taken on trust; they say
//! what `serde_json` does in terms of three names for what a value holds.

use serde_json::Value;
use vstd::prelude::*;

verus! {

/// `serde_json::Value`, carried through verified code as an opaque value.
#[verifier::external_type_specification]
#[verifier::external_body]
pub struct ExValue(serde_json::Value);

/// The members of a JSON object, by name; `None` for a value that is not an
/// object.
pub uninterp spec fn json_members(value: Value) -> Option<Map<Seq<char>, Value>>;

/// The characters of a JSON string; `None` for a value that is not a string.
pub uninterp spec fn json_text(value: Value) -> Option<Seq<char>>;

/// The elements of a JSON array, in order; `None` for a value that is not an
/// array.
pub uninterp spec fn json_elements(value: Value) -> Option<Seq<Value>>;

/// The member called `name` of `value`, if `value` is an object that has one.
pub open spec fn member_of(value: Value, name: Seq<char>) -> Option<Value> {
    match json_members(value) {
        Some(members) => if members.contains_key(name) {
            Some(members[name])
        } else {
            None
        },
        None => None,
    }
}

/// The text of the member called `name` of `value`, if `value` is an object
/// whose member of that name is a string.
pub open spec fn text_member_of(value: Value, name: Seq<char>) -> Option<Seq<char>> {
    match member_of(value, name) {
        Some(member) => json_text(member),
        None => None,
    }
}

/// Calls `Value::get` with a string index: the member of that name where
/// `value` is an object that has it, nothing otherwise.
#[verifier::external_body]
pub(crate) fn member<'a>(value: &'a Value, name: &str) -> (found: Option<&'a Value>)
    ensures
        found.is_some() == member_of(*value, name@).is_some(),
        found matches Some(m) ==> Some(*m) == member_of(*value, name@),
{
    value.get(name)
}

/// Calls `Value::as_str`: the string slice inside a JSON string, nothing for
/// any other value.
#[verifier::external_body]
pub(crate) fn text<'a>(value: &'a Value) -> (found: Option<&'a str>)
    ensures
        found.is_some() == json_text(*value).is_some(),
        found matches Some(s) ==> Some(s@) == json_text(*value),
{
    value.as_str()
}

/// Calls `Value::is_object`.
#[verifier::external_body]
pub(crate) fn is_object(value: &Value) -> (yes: bool)
    ensures
        yes == json_members(*value).is_some(),
{
    value.is_object()
}

/// Calls `Value::clone`, which copies the whole tree: the copy is the same
/// JSON value.
#[verifier::external_body]
pub(crate) fn duplicate(value: &Value) -> (copy: Value)
    ensures
        copy == *value,
{
    value.clone()
}

/// Calls `Value::as_array`: the list inside a JSON array, nothing for any
/// other value.
#[verifier::external_body]
pub(crate) fn elements<'a>(value: &'a Value) -> (found: Option<&'a Vec<Value>>)
    ensures
        found.is_some() == json_elements(*value).is_some(),
        found matches Some(list) ==> Some(list@) == json_elements(*value),
{
    value.as_array()
}

/// Makes the object without members: `Value::Object` of `Map::new`.
#[verifier::external_body]
pub(crate) fn empty_object() -> (value: Value)
    ensures
        json_members(value) == Some(Map::<Seq<char>, Value>::empty()),
{
    Value::Object(serde_json::Map::new())
}

/// Calls `Map::insert` on the members of an object: the member `name` is set
/// to `member`, replacing a member of that name; the other members stay.
#[verifier::external_body]
pub(crate) fn with_member(object: Value, name: &str, member: Value) -> (value: Value)
    requires
        json_members(object) is Some,
    ensures
        json_members(value) == Some(json_members(object)->0.insert(name@, member)),
{
    let mut value = object;
    if let Value::Object(members) = &mut value {
        members.insert(name.to_owned(), member);
    }
    value
}

/// Calls `Value::from` on a string slice: the JSON string with those
/// characters, which is not an object.
#[verifier::external_body]
pub(crate) fn text_value(text: &str) -> (value: Value)
    ensures
        json_text(value) == Some(text@),
        json_members(value) is None,
{
    Value::from(text)
}

/// Makes the JSON array of the given elements, in their order: `Value::Array`.
/// An array is not an object.
#[verifier::external_body]
pub(crate) fn array(elements: Vec<Value>) -> (value: Value)
    ensures
        json_elements(value) == Some(elements@),
        json_members(value) is None,
{
    Value::Array(elements)
}

/// The text of the string member `name` of `value`, as an owned string.
pub fn text_member(value: &Value, name: &str) -> (found: Option<String>)
    ensures
        found.is_some() == text_member_of(*value, name@).is_some(),
        found matches Some(s) ==> Some(s@) == text_member_of(*value, name@),
{
    match member(value, name) {
        Some(m) => match text(m) {
            Some(s) => Some(s.to_owned()),
            None => None,
        },
        None => None,
    }
}

} // verus!
