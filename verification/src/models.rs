//! The records that the service and its callers exchange.

use crate::json::duplicate;
use serde_json::Value;
use vstd::prelude::*;

verus! {

/// One item of a share: a JSON payload and the kind it was declared as.
///
/// The five named kinds decide the item's merge key. `Generic` holds an item
/// that declares none of them; it is keyed by the key that its payload names.
#[derive(Debug, PartialEq)]
pub enum ShareData {
    Session { data: Value },
    Message { data: Value },
    Part { data: Value },
    SessionDiff { data: Value },
    Model { data: Value },
    Generic { data: Value },
}

impl ShareData {
    /// The item's JSON payload.
    pub open spec fn payload(self) -> Value {
        match self {
            ShareData::Session { data } => data,
            ShareData::Message { data } => data,
            ShareData::Part { data } => data,
            ShareData::SessionDiff { data } => data,
            ShareData::Model { data } => data,
            ShareData::Generic { data } => data,
        }
    }

    /// The item's JSON payload.
    pub fn data(&self) -> (data: &Value)
        ensures
            *data == self.payload(),
    {
        match self {
            ShareData::Session { data } => data,
            ShareData::Message { data } => data,
            ShareData::Part { data } => data,
            ShareData::SessionDiff { data } => data,
            ShareData::Model { data } => data,
            ShareData::Generic { data } => data,
        }
    }
}

impl Clone for ShareData {
    fn clone(&self) -> (copy: Self)
        ensures
            copy == *self,
    {
        match self {
            ShareData::Session { data } => ShareData::Session { data: duplicate(data) },
            ShareData::Message { data } => ShareData::Message { data: duplicate(data) },
            ShareData::Part { data } => ShareData::Part { data: duplicate(data) },
            ShareData::SessionDiff { data } => ShareData::SessionDiff { data: duplicate(data) },
            ShareData::Model { data } => ShareData::Model { data: duplicate(data) },
            ShareData::Generic { data } => ShareData::Generic { data: duplicate(data) },
        }
    }
}

/// Copies a list of items.
pub fn copy_items(items: &Vec<ShareData>) -> (copy: Vec<ShareData>)
    ensures
        copy@ == items@,
{
    let mut copy: Vec<ShareData> = Vec::new();
    let mut index: usize = 0;
    while index < items.len()
        invariant
            index <= items.len(),
            copy@ == items@.take(index as int),
        decreases items.len() - index,
    {
        copy.push(items[index].clone());
        proof {
            assert(items@.take(index as int).push(items@[index as int]) =~= items@.take(
                index + 1,
            ));
        }
        index += 1;
    }
    proof {
        assert(items@.take(index as int) =~= items@);
    }
    copy
}

/// A published handle: who may write to it, and for which session it stands.
/// Times are milliseconds since the Unix epoch.
#[derive(Debug)]
pub struct Share {
    pub id: String,
    pub secret: String,
    pub session_id: String,
    pub created_at: i64,
    pub updated_at: i64,
}

/// What a `Share` holds, as plain values.
pub struct ShareView {
    pub id: Seq<char>,
    pub secret: Seq<char>,
    pub session_id: Seq<char>,
    pub created_at: i64,
    pub updated_at: i64,
}

impl View for Share {
    type V = ShareView;

    open spec fn view(&self) -> ShareView {
        ShareView {
            id: self.id@,
            secret: self.secret@,
            session_id: self.session_id@,
            created_at: self.created_at,
            updated_at: self.updated_at,
        }
    }
}

impl Clone for Share {
    fn clone(&self) -> (copy: Self)
        ensures
            copy@ == self@,
    {
        Share {
            id: self.id.clone(),
            secret: self.secret.clone(),
            session_id: self.session_id.clone(),
            created_at: self.created_at,
            updated_at: self.updated_at,
        }
    }
}

/// One item as it was received: the item, the key under which its receipt was
/// recorded, and when.
#[derive(Debug)]
pub struct ShareEvent {
    pub event_key: String,
    pub data: ShareData,
    pub created_at: i64,
}

/// A request to publish a session.
#[derive(Debug)]
pub struct CreateShareRequest {
    pub session_id: String,
}

/// The answer to a `CreateShareRequest`: the new share's id, the secret that
/// later writes must present, and the address of its page.
#[derive(Debug)]
pub struct CreateShareResponse {
    pub id: String,
    pub secret: String,
    pub url: String,
}

/// A request to add items to a share.
#[derive(Debug)]
pub struct SyncShareRequest {
    pub secret: String,
    pub data: Vec<ShareData>,
}

/// The answer to a `SyncShareRequest`.
#[derive(Debug)]
pub struct SyncShareResponse {
    pub data: Vec<ShareData>,
}

/// The merged state of a share, as returned to a reader.
#[derive(Debug)]
pub struct GetShareResponse {
    pub data: Vec<ShareData>,
}

/// A request to delete a share.
#[derive(Debug)]
pub struct RemoveShareRequest {
    pub secret: String,
}

/// The query that names a session.
#[derive(Debug)]
pub struct ShareQuery {
    pub session_id: String,
}

} // verus!
