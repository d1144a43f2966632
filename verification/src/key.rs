//! Merge keys: the identity under which two items of a share are the same
//! item, and the later replaces the earlier.

use crate::json::{text_member, text_member_of};
use crate::models::ShareData;
use serde_json::Value;
use vstd::prelude::*;
use vstd::string::StringExecFns;

verus! {

/// The key that a payload names for itself: the text of its member `_key`, or
/// else of its member `key`.
pub open spec fn explicit_key(data: Value) -> Option<Seq<char>> {
    match text_member_of(data, "_key"@) {
        Some(key) => Some(key),
        None => text_member_of(data, "key"@),
    }
}

/// The text of the member `name`, or `unknown` where the payload has no such
/// string.
pub open spec fn text_or_unknown(data: Value, name: Seq<char>) -> Seq<char> {
    match text_member_of(data, name) {
        Some(text) => text,
        None => "unknown"@,
    }
}

/// The key that an item's kind gives it.
pub open spec fn kind_key(item: ShareData) -> Seq<char> {
    match item {
        ShareData::Session { .. } => "session"@,
        ShareData::Message { data } => "message/"@ + text_or_unknown(data, "id"@),
        ShareData::Part { data } => text_or_unknown(data, "messageID"@) + "/"@ + text_or_unknown(
            data,
            "id"@,
        ),
        ShareData::SessionDiff { .. } => "session_diff"@,
        ShareData::Model { .. } => "model"@,
        ShareData::Generic { .. } => "unknown"@,
    }
}

/// An item's merge key: the key its payload names, or else the key of its kind.
pub open spec fn key_of(item: ShareData) -> Seq<char> {
    match explicit_key(item.payload()) {
        Some(key) => key,
        None => kind_key(item),
    }
}

fn member_or_unknown(data: &Value, name: &str) -> (text: String)
    ensures
        text@ == text_or_unknown(*data, name@),
{
    match text_member(data, name) {
        Some(text) => text,
        None => String::from_str("unknown"),
    }
}

fn named_key(data: &Value) -> (key: Option<String>)
    ensures
        key.is_some() == explicit_key(*data).is_some(),
        key matches Some(k) ==> Some(k@) == explicit_key(*data),
{
    match text_member(data, "_key") {
        Some(key) => Some(key),
        None => text_member(data, "key"),
    }
}

/// Derives an item's merge key. Every item has one: a payload that lacks the
/// members its kind is keyed by is keyed with `unknown` in their place.
pub fn get_data_key(data: &ShareData) -> (key: String)
    ensures
        key@ == key_of(*data),
{
    match named_key(data.data()) {
        Some(key) => key,
        None => match data {
            ShareData::Session { .. } => String::from_str("session"),
            ShareData::Message { data } => {
                let id = member_or_unknown(data, "id");
                String::from_str("message/").concat(id.as_str())
            },
            ShareData::Part { data } => {
                let message = member_or_unknown(data, "messageID");
                let id = member_or_unknown(data, "id");
                message.concat("/").concat(id.as_str())
            },
            ShareData::SessionDiff { .. } => String::from_str("session_diff"),
            ShareData::Model { .. } => String::from_str("model"),
            ShareData::Generic { .. } => String::from_str("unknown"),
        },
    }
}

} // verus!
