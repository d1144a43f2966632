//! Items as JSON: how an item is written down, and how what was written down
//! is read back.
//!
//! An item of a named kind is written as an object with two members: `type`,
//! the kind's name, and `data`, the payload. An item of no named kind is
//! written as its payload. Reading accepts any object: one that declares a
//! named kind is an item of that kind, any other is an item of no named kind.

use crate::error::ShareError;
use crate::json::{
    array, duplicate, elements, empty_object, is_object, json_elements, json_members, json_text,
    member, member_of, text_member, text_member_of, text_value, with_member,
};
use crate::models::ShareData;
use crate::text::same_text;
use serde_json::Value;
use vstd::prelude::*;

verus! {

/// The name of an item's kind, as written in the member `type`; none for an
/// item of no named kind.
pub open spec fn tag_of(item: ShareData) -> Option<Seq<char>> {
    match item {
        ShareData::Session { .. } => Some("session"@),
        ShareData::Message { .. } => Some("message"@),
        ShareData::Part { .. } => Some("part"@),
        ShareData::SessionDiff { .. } => Some("session_diff"@),
        ShareData::Model { .. } => Some("model"@),
        ShareData::Generic { .. } => None,
    }
}

/// Whether `tag` names a kind.
pub open spec fn is_kind(tag: Seq<char>) -> bool {
    tag == "session"@ || tag == "message"@ || tag == "part"@ || tag == "session_diff"@ || tag
        == "model"@
}

/// The kind that a JSON value declares: the text of its member `type`, where
/// that names a kind.
pub open spec fn declared_kind(value: Value) -> Option<Seq<char>> {
    match text_member_of(value, "type"@) {
        Some(tag) => if is_kind(tag) {
            Some(tag)
        } else {
            None
        },
        None => None,
    }
}

/// `item` is what the JSON object `value` reads as. An object that declares
/// a kind is the item of that kind whose payload is the object's member
/// `data`, or the empty object where it has no such member. Any other object
/// is the item of no named kind whose payload is the object itself.
pub open spec fn reads_as(value: Value, item: ShareData) -> bool {
    &&& json_members(value) is Some
    &&& match declared_kind(value) {
        Some(tag) => {
            &&& tag_of(item) == Some(tag)
            &&& match member_of(value, "data"@) {
                Some(data) => item.payload() == data,
                None => json_members(item.payload()) == Some(Map::<Seq<char>, Value>::empty()),
            }
        },
        None => item == (ShareData::Generic { data: value }),
    }
}

/// `value` is `item` written down: for an item of a named kind, the object
/// whose two members are `type`, a string that names the kind, and `data`,
/// the payload; for an item of no named kind, the payload.
pub open spec fn written_as(item: ShareData, value: Value) -> bool {
    match tag_of(item) {
        Some(tag) => match json_members(value) {
            Some(members) => {
                &&& members.dom() == set!["type"@, "data"@]
                &&& json_text(members["type"@]) == Some(tag)
                &&& members["data"@] == item.payload()
            },
            None => false,
        },
        None => value == item.payload(),
    }
}

/// The values of a list that are objects, in their order.
pub open spec fn objects_of(values: Seq<Value>) -> Seq<Value> {
    values.filter(|value: Value| json_members(value) is Some)
}

/// `items` are what the objects among `values` read as, one for one and in
/// their order.
pub open spec fn read_as(values: Seq<Value>, items: Seq<ShareData>) -> bool {
    &&& items.len() == objects_of(values).len()
    &&& forall|i: int| 0 <= i < items.len() ==> reads_as(objects_of(values)[i], #[trigger] items[i])
}

/// The five names of kinds are five different names, and `type` is not `data`.
proof fn lemma_names_differ()
    ensures
        "session"@ != "message"@,
        "session"@ != "part"@,
        "session"@ != "session_diff"@,
        "session"@ != "model"@,
        "message"@ != "part"@,
        "message"@ != "session_diff"@,
        "message"@ != "model"@,
        "part"@ != "session_diff"@,
        "part"@ != "model"@,
        "session_diff"@ != "model"@,
        "type"@ != "data"@,
{
    reveal_strlit("session");
    reveal_strlit("message");
    reveal_strlit("part");
    reveal_strlit("session_diff");
    reveal_strlit("model");
    reveal_strlit("type");
    reveal_strlit("data");
    assert("session"@.len() == 7 && "message"@.len() == 7);
    assert("part"@.len() == 4 && "session_diff"@.len() == 12 && "model"@.len() == 5);
    assert("session"@[0] != "message"@[0]);
    assert("type"@[0] != "data"@[0]);
}

/// What was written can be read back: an item written down reads as itself.
/// For an item of no named kind this holds where its payload is an object
/// that declares no kind; written down, any other payload would be taken for
/// something else.
pub proof fn lemma_round_trip(item: ShareData, value: Value)
    requires
        written_as(item, value),
        item is Generic ==> json_members(item.payload()) is Some && declared_kind(item.payload())
            is None,
    ensures
        reads_as(value, item),
{
    lemma_names_differ();
    match tag_of(item) {
        Some(tag) => {
            let members = json_members(value)->0;
            assert(members.dom().contains("type"@) && members.dom().contains("data"@));
        },
        None => {},
    }
}

/// The name of an item's kind, as written in the member `type`.
pub fn kind_tag(item: &ShareData) -> (tag: Option<&'static str>)
    ensures
        tag.is_some() == tag_of(*item).is_some(),
        tag matches Some(name) ==> Some(name@) == tag_of(*item),
{
    match item {
        ShareData::Session { .. } => Some("session"),
        ShareData::Message { .. } => Some("message"),
        ShareData::Part { .. } => Some("part"),
        ShareData::SessionDiff { .. } => Some("session_diff"),
        ShareData::Model { .. } => Some("model"),
        ShareData::Generic { .. } => None,
    }
}

fn of_kind(tag: &str, data: Value) -> (item: Option<ShareData>)
    ensures
        item.is_some() == is_kind(tag@),
        item matches Some(typed) ==> tag_of(typed) == Some(tag@) && typed.payload() == data,
{
    proof {
        lemma_names_differ();
    }
    if same_text(tag, "session") {
        Some(ShareData::Session { data })
    } else if same_text(tag, "message") {
        Some(ShareData::Message { data })
    } else if same_text(tag, "part") {
        Some(ShareData::Part { data })
    } else if same_text(tag, "session_diff") {
        Some(ShareData::SessionDiff { data })
    } else if same_text(tag, "model") {
        Some(ShareData::Model { data })
    } else {
        None
    }
}

fn payload_of(value: &Value) -> (data: Value)
    ensures
        match member_of(*value, "data"@) {
            Some(found) => data == found,
            None => json_members(data) == Some(Map::<Seq<char>, Value>::empty()),
        },
{
    match member(value, "data") {
        Some(found) => duplicate(found),
        None => empty_object(),
    }
}

/// Reads one item from JSON. Fails with `MalformedPayload` where the value is
/// not an object; every object is an item.
pub fn decode_item(value: &Value) -> (read: Result<ShareData, ShareError>)
    ensures
        match read {
            Ok(item) => reads_as(*value, item),
            Err(error) => error == ShareError::MalformedPayload && json_members(*value) is None,
        },
{
    if !is_object(value) {
        return Err(ShareError::MalformedPayload);
    }
    match text_member(value, "type") {
        Some(tag) => match of_kind(tag.as_str(), payload_of(value)) {
            Some(item) => Ok(item),
            None => Ok(ShareData::Generic { data: duplicate(value) }),
        },
        None => Ok(ShareData::Generic { data: duplicate(value) }),
    }
}

/// Reads the items of a list of JSON values. A value that is not an object
/// is passed over and contributes nothing; the rest are read in their order.
pub fn decode_items(values: &Vec<Value>) -> (items: Vec<ShareData>)
    ensures
        read_as(values@, items@),
{
    let mut items: Vec<ShareData> = Vec::new();
    let mut index: usize = 0;
    proof {
        reveal(Seq::filter);
        assert(values@.take(0) =~= Seq::empty());
    }
    while index < values.len()
        invariant
            index <= values.len(),
            read_as(values@.take(index as int), items@),
        decreases values.len() - index,
    {
        proof {
            reveal(Seq::filter);
            assert(values@.take(index + 1).drop_last() =~= values@.take(index as int));
        }
        match decode_item(&values[index]) {
            Ok(item) => {
                items.push(item);
            },
            Err(_) => {},
        }
        index += 1;
    }
    proof {
        assert(values@.take(index as int) =~= values@);
    }
    items
}

/// Reads the items of a stored batch: the items of its elements where the
/// value is an array, none where it is anything else.
pub fn decode_payload(payload: &Value) -> (items: Vec<ShareData>)
    ensures
        match json_elements(*payload) {
            Some(values) => read_as(values, items@),
            None => items@ == Seq::<ShareData>::empty(),
        },
{
    match elements(payload) {
        Some(values) => decode_items(values),
        None => Vec::new(),
    }
}

/// Writes one item down as JSON.
pub fn encode_item(item: &ShareData) -> (value: Value)
    ensures
        written_as(*item, value),
{
    match kind_tag(item) {
        Some(tag) => {
            let kind = text_value(tag);
            let value = with_member(
                with_member(empty_object(), "type", kind),
                "data",
                duplicate(item.data()),
            );
            proof {
                lemma_names_differ();
                assert(json_members(value)->0.dom() =~= set!["type"@, "data"@]);
            }
            value
        },
        None => duplicate(item.data()),
    }
}

/// Writes a list of items down, one JSON value for each, in their order.
pub fn encode_items(items: &Vec<ShareData>) -> (values: Vec<Value>)
    ensures
        values.len() == items.len(),
        forall|i: int| 0 <= i < items.len() ==> written_as(items[i], #[trigger] values[i]),
{
    let mut values: Vec<Value> = Vec::new();
    let mut index: usize = 0;
    while index < items.len()
        invariant
            index <= items.len(),
            values.len() == index,
            forall|i: int| 0 <= i < index ==> written_as(items[i], #[trigger] values[i]),
        decreases items.len() - index,
    {
        values.push(encode_item(&items[index]));
        index += 1;
    }
    values
}

/// Writes a batch down as one JSON array.
pub fn encode_payload(items: &Vec<ShareData>) -> (payload: Value)
    ensures
        json_elements(payload) matches Some(values) && values.len() == items.len() && forall|
            i: int,
        |
            0 <= i < items.len() ==> written_as(items[i], #[trigger] values[i]),
{
    array(encode_items(items))
}

} // verus!
