//! The registry of shares as a mathematical object: what the service holds,
//! what holds of it, and what each operation makes of it. Also the decisions
//! that need no store: whether a session may be published, and whether a
//! secret opens a share.

use crate::compact::{bound_of, reflects, refreshed, SnapshotView};
use crate::error::ShareError;
use crate::event::{items_of, last_sequence_of, later_than, valid_log, EventLogView, EventView};
use crate::merge::folded;
use crate::models::{Share, ShareData, ShareView};
use crate::text::same_text;
use crate::token::{new_secret, now_millis};
use vstd::prelude::*;

verus! {

/// What the service holds of one share: the share, its events in the order of
/// receipt, and the snapshot of its merged state, if one was taken.
pub struct RecordView {
    pub share: ShareView,
    pub events: Seq<EventView>,
    pub snapshot: Option<SnapshotView>,
}

/// What the service holds: for each id of a published share, its record.
pub type StoreView = Map<Seq<char>, RecordView>;

/// What holds of every record: it is filed under its share's id, its events
/// form a valid log of that share, and its snapshot, if any, belongs to the
/// share and is the merge of the events up to the snapshot's sequence number.
pub open spec fn valid_record(id: Seq<char>, record: RecordView) -> bool {
    &&& record.share.id == id
    &&& valid_log(EventLogView { share_id: id, events: record.events })
    &&& reflects(record.snapshot, record.events)
    &&& match record.snapshot {
        Some(snapshot) => snapshot.share_id == id && snapshot.up_to_sequence <= last_sequence_of(
            record.events,
        ),
        None => true,
    }
}

/// Every record of the store is valid.
pub open spec fn valid_store(store: StoreView) -> bool {
    forall|id: Seq<char>| store.contains_key(id) ==> valid_record(id, #[trigger] store[id])
}

/// The share that a new publication of `session_id` creates. Its id is the
/// session's id.
pub open spec fn new_share(session_id: Seq<char>, secret: Seq<char>, now: i64) -> ShareView {
    ShareView { id: session_id, secret, session_id, created_at: now, updated_at: now }
}

/// The record of a share that was just published: no events, no snapshot.
pub open spec fn fresh_record(share: ShareView) -> RecordView {
    RecordView { share, events: Seq::empty(), snapshot: None }
}

/// The share published under `id`, if there is one.
pub open spec fn lookup(store: StoreView, id: Seq<char>) -> Option<ShareView> {
    if store.contains_key(id) {
        Some(store[id].share)
    } else {
        None
    }
}

/// The outcome of publishing a session, given the share that is already
/// published under its id, if any: the new share, or `AlreadyExists`.
pub open spec fn issued(
    existing: Option<ShareView>,
    session_id: Seq<char>,
    secret: Seq<char>,
    now: i64,
) -> Result<ShareView, ShareError> {
    match existing {
        Some(_) => Err(ShareError::AlreadyExists),
        None => Ok(new_share(session_id, secret, now)),
    }
}

/// Whether `secret` opens the share that was found, if one was: the share,
/// `NotFound` where none was found, `InvalidSecret` where its secret is
/// another.
pub open spec fn granted(found: Option<ShareView>, secret: Seq<char>) -> Result<
    ShareView,
    ShareError,
> {
    match found {
        None => Err(ShareError::NotFound),
        Some(share) => if share.secret == secret {
            Ok(share)
        } else {
            Err(ShareError::InvalidSecret)
        },
    }
}

/// Whether `secret` opens the share `id`: the share, or why not.
pub open spec fn authorized(store: StoreView, id: Seq<char>, secret: Seq<char>) -> Result<
    ShareView,
    ShareError,
> {
    granted(lookup(store, id), secret)
}

/// The event that records the batch `items`, received at `now`, after the
/// events of `record`.
pub open spec fn next_event(record: RecordView, items: Seq<ShareData>, now: i64) -> EventView {
    EventView {
        share_id: record.share.id,
        sequence: (last_sequence_of(record.events) + 1) as u64,
        payload: items,
        created_at: now,
    }
}

/// `record` after the batch `items` was received at `now`.
pub open spec fn appended(record: RecordView, items: Seq<ShareData>, now: i64) -> RecordView {
    RecordView {
        share: ShareView { updated_at: now, ..record.share },
        events: record.events.push(next_event(record, items, now)),
        snapshot: record.snapshot,
    }
}

/// The merged state of a share: the merge of all items it ever received.
pub open spec fn data_of(record: RecordView) -> Seq<ShareData> {
    folded(Seq::empty(), items_of(record.events))
}

/// The events of `record` that its snapshot does not cover yet.
pub open spec fn uncompacted(record: RecordView) -> Seq<EventView> {
    later_than(record.events, bound_of(record.snapshot))
}

/// `record` after a read: where events came since the snapshot, the snapshot
/// is replaced by one that covers them; otherwise nothing changes.
pub open spec fn compacted(record: RecordView) -> RecordView {
    match refreshed(record.share.id, record.snapshot, uncompacted(record)) {
        Some(snapshot) => RecordView { snapshot: Some(snapshot), ..record },
        None => record,
    }
}

/// A share that may be absent, by what it holds.
pub open spec fn share_view(share: Option<Share>) -> Option<ShareView> {
    match share {
        Some(share) => Some(share@),
        None => None,
    }
}

/// The outcome of an authorization, by what it holds.
pub open spec fn grant_view(grant: Result<Share, ShareError>) -> Result<ShareView, ShareError> {
    match grant {
        Ok(share) => Ok(share@),
        Err(error) => Err(error),
    }
}

/// A share that may be absent and is borrowed, by what it holds.
pub open spec fn share_ref_view(share: Option<&Share>) -> Option<ShareView> {
    match share {
        Some(share) => Some(share@),
        None => None,
    }
}

/// Decides a publication: given the share already published under the
/// session's id, if any, makes the new share with the given secret and time,
/// or refuses with `AlreadyExists`.
pub fn issue_with(existing: Option<&Share>, session_id: String, secret: String, now: i64) -> (made:
    Result<Share, ShareError>)
    ensures
        grant_view(made) == issued(
            share_ref_view(existing),
            session_id@,
            secret@,
            now,
        ),
{
    match existing {
        Some(_) => Err(ShareError::AlreadyExists),
        None => Ok(
            Share {
                id: session_id.clone(),
                secret,
                session_id,
                created_at: now,
                updated_at: now,
            },
        ),
    }
}

/// Decides a publication as `issue_with` does, with a fresh secret and the
/// time that the clock gives.
pub fn issue(existing: Option<&Share>, session_id: String) -> (made: Result<Share, ShareError>)
    ensures
        match made {
            Ok(share) => {
                &&& existing is None
                &&& share@ == new_share(session_id@, share@.secret, share@.created_at)
                &&& share@.secret.len() == 36
            },
            Err(error) => existing is Some && error == ShareError::AlreadyExists,
        },
{
    let secret = new_secret();
    let now = now_millis();
    issue_with(existing, session_id, secret, now)
}

/// Decides an authorization: whether `secret` opens the share that was found.
pub fn grant(found: Option<Share>, secret: &str) -> (given: Result<Share, ShareError>)
    ensures
        grant_view(given) == granted(share_view(found), secret@),
{
    match found {
        None => Err(ShareError::NotFound),
        Some(share) => if same_text(share.secret.as_str(), secret) {
            Ok(share)
        } else {
            Err(ShareError::InvalidSecret)
        },
    }
}

} // verus!
