//! The share service: the shares that are published, each with its event log
//! and its snapshot, and the operations that publish, authorize, write, read
//! and remove.

use crate::compact::{compact, snapshot_view, Compaction, Snapshot};
use crate::error::ShareError;
use crate::event::{
    ascending, last_sequence_of, later_than, lemma_last_is_greatest, views_of, Event, EventLog,
};
use crate::models::{Share, ShareData, ShareView};
use crate::registry::{
    appended, authorized, compacted, data_of, fresh_record, grant, grant_view, issue_with, lookup,
    new_share, share_view, valid_record, valid_store, RecordView, StoreView,
};
use crate::share_laws::{lemma_appended_valid, lemma_compacted_valid};
use crate::text::same_text;
use crate::token::{new_secret, now_millis};
use vstd::prelude::*;

verus! {

/// What the service keeps of one share.
struct ShareRecord {
    share: Share,
    log: EventLog,
    snapshot: Option<Snapshot>,
}

/// A record, by what it holds.
spec fn record_view(record: ShareRecord) -> RecordView {
    RecordView {
        share: record.share@,
        events: record.log@.events,
        snapshot: snapshot_view(record.snapshot),
    }
}

/// The id of the share whose record stands at `at`.
spec fn id_at(records: Seq<ShareRecord>, at: int) -> Seq<char> {
    records[at].share.id@
}

/// Some record is that of the share `id`.
spec fn has_id(records: Seq<ShareRecord>, id: Seq<char>) -> bool {
    exists|at: int| 0 <= at < records.len() && #[trigger] id_at(records, at) == id
}

/// Where the record of the share `id` stands, if there is one.
spec fn slot_of(records: Seq<ShareRecord>, id: Seq<char>) -> int {
    choose|at: int| 0 <= at < records.len() && #[trigger] id_at(records, at) == id
}

/// The records as a store: each under the id of its share.
spec fn store_of(records: Seq<ShareRecord>) -> StoreView {
    Map::new(
        |id: Seq<char>| has_id(records, id),
        |id: Seq<char>| record_view(records[slot_of(records, id)]),
    )
}

/// No two records are of the same share.
spec fn distinct_ids(records: Seq<ShareRecord>) -> bool {
    forall|i: int, j: int|
        0 <= i < j < records.len() ==> #[trigger] id_at(records, i) != #[trigger] id_at(
            records,
            j,
        )
}

/// The record's log is the log of its share, and the record is valid.
spec fn sound_record(record: ShareRecord) -> bool {
    &&& record.log@.share_id == record.share.id@
    &&& valid_record(record.share.id@, record_view(record))
}

/// What the service maintains of its records.
spec fn sound(records: Seq<ShareRecord>) -> bool {
    &&& distinct_ids(records)
    &&& forall|at: int| 0 <= at < records.len() ==> sound_record(#[trigger] records[at])
}

/// The store holds each record under the id of its share.
proof fn lemma_store_at(records: Seq<ShareRecord>, at: int)
    requires
        distinct_ids(records),
        0 <= at < records.len(),
    ensures
        store_of(records).contains_key(id_at(records, at)),
        store_of(records)[id_at(records, at)] == record_view(records[at]),
{
    let id = id_at(records, at);
    let slot = slot_of(records, id);
    assert(id_at(records, slot) == id);
    if slot < at {
        assert(id_at(records, slot) != id_at(records, at));
    }
    if at < slot {
        assert(id_at(records, at) != id_at(records, slot));
    }
}

/// The store holds nothing under an id that no record has.
proof fn lemma_store_without(records: Seq<ShareRecord>, id: Seq<char>)
    requires
        forall|at: int| 0 <= at < records.len() ==> #[trigger] id_at(records, at) != id,
    ensures
        !store_of(records).contains_key(id),
{
}

/// Sound records make a valid store.
proof fn lemma_store_valid(records: Seq<ShareRecord>)
    requires
        sound(records),
    ensures
        valid_store(store_of(records)),
{
    assert forall|id: Seq<char>| store_of(records).contains_key(id) implies valid_record(
        id,
        #[trigger] store_of(records)[id],
    ) by {
        let slot = slot_of(records, id);
        assert(id_at(records, slot) == id);
        assert(sound_record(records[slot]));
    }
}

/// Adding the record of a new share inserts it into the store.
proof fn lemma_store_push(records: Seq<ShareRecord>, record: ShareRecord)
    requires
        distinct_ids(records),
        forall|at: int| 0 <= at < records.len() ==> #[trigger] id_at(records, at) != record.share.id@,
    ensures
        distinct_ids(records.push(record)),
        store_of(records.push(record)) == store_of(records).insert(
            record.share.id@,
            record_view(record),
        ),
{
    let after = records.push(record);
    let new_id = record.share.id@;
    assert forall|i: int, j: int| 0 <= i < j < after.len() implies #[trigger] id_at(after, i)
        != #[trigger] id_at(after, j) by {
        assert(id_at(after, i) == id_at(records, i));
        if j < records.len() {
            assert(id_at(after, j) == id_at(records, j));
        }
    }
    let expected = store_of(records).insert(new_id, record_view(record));
    assert forall|id: Seq<char>| store_of(after).contains_key(id) == expected.contains_key(
        id,
    ) by {
        if has_id(after, id) {
            let at = slot_of(after, id);
            if at < records.len() {
                assert(id_at(records, at) == id);
            }
        }
        if has_id(records, id) {
            let at = slot_of(records, id);
            assert(id_at(after, at) == id);
        }
        assert(id_at(after, records.len() as int) == new_id);
    }
    assert forall|id: Seq<char>| store_of(after).contains_key(id) implies store_of(after)[id]
        == expected[id] by {
        if id == new_id {
            assert(id_at(after, records.len() as int) == new_id);
            lemma_store_at(after, records.len() as int);
        } else {
            let at = slot_of(after, id);
            assert(id_at(after, at) == id);
            assert(id_at(records, at) == id);
            lemma_store_at(after, at);
            lemma_store_at(records, at);
        }
    }
    assert(store_of(after) =~= expected);
}

/// Replacing a record by one of the same share replaces it in the store.
proof fn lemma_store_update(records: Seq<ShareRecord>, at: int, record: ShareRecord)
    requires
        distinct_ids(records),
        0 <= at < records.len(),
        record.share.id@ == id_at(records, at),
    ensures
        distinct_ids(records.update(at, record)),
        store_of(records.update(at, record)) == store_of(records).insert(
            record.share.id@,
            record_view(record),
        ),
{
    let after = records.update(at, record);
    let the_id = record.share.id@;
    assert forall|i: int| 0 <= i < records.len() implies #[trigger] id_at(after, i) == id_at(
        records,
        i,
    ) by {}
    assert forall|i: int, j: int| 0 <= i < j < after.len() implies #[trigger] id_at(after, i)
        != #[trigger] id_at(after, j) by {
        assert(id_at(after, i) == id_at(records, i));
        assert(id_at(after, j) == id_at(records, j));
    }
    let expected = store_of(records).insert(the_id, record_view(record));
    assert forall|id: Seq<char>| store_of(after).contains_key(id) == expected.contains_key(
        id,
    ) by {
        if has_id(after, id) {
            let slot = slot_of(after, id);
            assert(id_at(records, slot) == id);
        }
        if has_id(records, id) {
            let slot = slot_of(records, id);
            assert(id_at(after, slot) == id);
        }
        assert(id_at(after, at) == the_id);
    }
    assert forall|id: Seq<char>| store_of(after).contains_key(id) implies store_of(after)[id]
        == expected[id] by {
        let slot = slot_of(after, id);
        assert(id_at(after, slot) == id);
        assert(id_at(records, slot) == id);
        lemma_store_at(after, slot);
        lemma_store_at(records, slot);
        if id == the_id {
            if slot < at {
                assert(id_at(records, slot) != id_at(records, at));
            }
            if at < slot {
                assert(id_at(records, at) != id_at(records, slot));
            }
        }
    }
    assert(store_of(after) =~= expected);
}

/// Taking a record out removes its share from the store.
proof fn lemma_store_remove(records: Seq<ShareRecord>, at: int)
    requires
        distinct_ids(records),
        0 <= at < records.len(),
    ensures
        distinct_ids(records.remove(at)),
        store_of(records.remove(at)) == store_of(records).remove(id_at(records, at)),
{
    let after = records.remove(at);
    let the_id = id_at(records, at);
    assert forall|i: int| 0 <= i < after.len() implies #[trigger] id_at(after, i) == id_at(
        records,
        if i < at {
            i
        } else {
            i + 1
        },
    ) by {}
    assert forall|i: int, j: int| 0 <= i < j < after.len() implies #[trigger] id_at(after, i)
        != #[trigger] id_at(after, j) by {
        let from_i = if i < at {
            i
        } else {
            i + 1
        };
        let from_j = if j < at {
            j
        } else {
            j + 1
        };
        assert(id_at(after, i) == id_at(records, from_i));
        assert(id_at(after, j) == id_at(records, from_j));
        assert(id_at(records, from_i) != id_at(records, from_j));
    }
    let expected = store_of(records).remove(the_id);
    assert forall|id: Seq<char>| store_of(after).contains_key(id) == expected.contains_key(
        id,
    ) by {
        if has_id(after, id) {
            let slot = slot_of(after, id);
            let from = if slot < at {
                slot
            } else {
                slot + 1
            };
            assert(id_at(after, slot) == id_at(records, from));
            assert(id_at(records, from) == id);
            if from < at {
                assert(id_at(records, from) != id_at(records, at));
            } else {
                assert(id_at(records, at) != id_at(records, from));
            }
        }
        if has_id(records, id) && id != the_id {
            let slot = slot_of(records, id);
            let to = if slot < at {
                slot
            } else {
                slot - 1
            };
            assert(id_at(after, to) == id_at(records, slot));
        }
    }
    assert forall|id: Seq<char>| store_of(after).contains_key(id) implies store_of(after)[id]
        == expected[id] by {
        let slot = slot_of(after, id);
        let from = if slot < at {
            slot
        } else {
            slot + 1
        };
        assert(id_at(after, slot) == id);
        assert(id_at(after, slot) == id_at(records, from));
        lemma_store_at(after, slot);
        lemma_store_at(records, from);
    }
    assert(store_of(after) =~= expected);
}

/// The registry of shares. It holds each published share together with the
/// events the share received and the snapshot of its merged state.
pub struct ShareService {
    records: Vec<ShareRecord>,
}

impl View for ShareService {
    type V = StoreView;

    closed spec fn view(&self) -> StoreView {
        store_of(self.records@)
    }
}

impl ShareService {
    #[verifier::type_invariant]
    spec fn well_formed(&self) -> bool {
        sound(self.records@)
    }

    /// A service with no shares.
    pub fn new() -> (service: Self)
        ensures
            service@ == Map::<Seq<char>, RecordView>::empty(),
            valid_store(service@),
    {
        let service = ShareService { records: Vec::new() };
        proof {
            assert(store_of(service.records@) =~= Map::<Seq<char>, RecordView>::empty());
        }
        service
    }

    /// Where the record of the share `id` stands, if the share is published.
    fn find(&self, id: &str) -> (found: Option<usize>)
        ensures
            match found {
                Some(at) => at < self.records.len() && id_at(self.records@, at as int) == id@,
                None => forall|at: int|
                    0 <= at < self.records.len() ==> #[trigger] id_at(self.records@, at) != id@,
            },
    {
        let mut index: usize = 0;
        while index < self.records.len()
            invariant
                index <= self.records.len(),
                forall|at: int| 0 <= at < index ==> #[trigger] id_at(self.records@, at) != id@,
            decreases self.records.len() - index,
        {
            if same_text(self.records[index].share.id.as_str(), id) {
                return Some(index);
            }
            index += 1;
        }
        None
    }

    /// Looks a share up by its id. Changes nothing, and never fails.
    pub fn get(&self, id: &str) -> (found: Result<Option<Share>, ShareError>)
        ensures
            found matches Ok(share) && share_view(share) == lookup(self@, id@),
    {
        proof {
            use_type_invariant(self);
        }
        match self.find(id) {
            Some(at) => {
                proof {
                    lemma_store_at(self.records@, at as int);
                }
                Ok(Some(self.records[at].share.clone()))
            },
            None => {
                proof {
                    lemma_store_without(self.records@, id@);
                }
                Ok(None)
            },
        }
    }

    /// Checks that `secret` is the secret of the share `id`. Fails with
    /// `NotFound` where no such share is published, and with `InvalidSecret`
    /// where the share's secret is another.
    pub fn authorize(&self, id: &str, secret: &str) -> (given: Result<Share, ShareError>)
        ensures
            grant_view(given) == authorized(self@, id@, secret@),
    {
        match self.get(id) {
            Ok(found) => grant(found, secret),
            Err(error) => Err(error),
        }
    }

    /// Publishes the session `session_id` with the given secret, at the time
    /// `now`. The new share has no history. Fails with `AlreadyExists`, and
    /// changes nothing, where the session is already published.
    pub fn create_with(&mut self, session_id: String, secret: String, now: i64) -> (created:
        Result<Share, ShareError>)
        ensures
            valid_store(final(self)@),
            match created {
                Ok(share) => {
                    &&& !old(self)@.contains_key(session_id@)
                    &&& share@ == new_share(session_id@, secret@, now)
                    &&& final(self)@ == old(self)@.insert(session_id@, fresh_record(share@))
                },
                Err(error) => {
                    &&& old(self)@.contains_key(session_id@)
                    &&& error == ShareError::AlreadyExists
                    &&& final(self)@ == old(self)@
                },
            },
    {
        proof {
            use_type_invariant(&*self);
            lemma_store_valid(self.records@);
        }
        let found = self.find(session_id.as_str());
        let existing = match found {
            Some(at) => {
                proof {
                    lemma_store_at(self.records@, at as int);
                }
                Some(&self.records[at].share)
            },
            None => {
                proof {
                    lemma_store_without(self.records@, session_id@);
                }
                None
            },
        };
        match issue_with(existing, session_id, secret, now) {
            Err(error) => Err(error),
            Ok(share) => {
                let record = ShareRecord {
                    share: share.clone(),
                    log: EventLog::new(share.id.clone()),
                    snapshot: None,
                };
                let mut records = Vec::new();
                std::mem::swap(&mut records, &mut self.records);
                proof {
                    lemma_store_push(records@, record);
                    lemma_store_valid(records@.push(record));
                }
                records.push(record);
                self.records = records;
                Ok(share)
            },
        }
    }

    /// Publishes the session `session_id`: derives the share's id, which is the
    /// session's id, draws a fresh secret and reads the clock. Fails with
    /// `AlreadyExists`, and changes nothing, where the session is already
    /// published.
    pub fn create(&mut self, session_id: String) -> (created: Result<Share, ShareError>)
        ensures
            valid_store(final(self)@),
            match created {
                Ok(share) => {
                    &&& !old(self)@.contains_key(session_id@)
                    &&& share@ == new_share(session_id@, share@.secret, share@.created_at)
                    &&& share@.secret.len() == 36
                    &&& final(self)@ == old(self)@.insert(session_id@, fresh_record(share@))
                },
                Err(error) => {
                    &&& old(self)@.contains_key(session_id@)
                    &&& error == ShareError::AlreadyExists
                    &&& final(self)@ == old(self)@
                },
            },
    {
        let secret = new_secret();
        let now = now_millis();
        self.create_with(session_id, secret, now)
    }

    /// Appends a batch to the log of the record at `at`.
    fn append_at(&mut self, at: usize, items: Vec<ShareData>, now: i64) -> (written: Result<
        u64,
        ShareError,
    >)
        requires
            at < old(self).records.len(),
        ensures
            valid_store(final(self)@),
            final(self).records.len() == old(self).records.len(),
            match written {
                Ok(sequence) => {
                    &&& last_sequence_of(old(self)@[id_at(old(self).records@, at as int)].events)
                        < u64::MAX
                    &&& sequence == last_sequence_of(
                        old(self)@[id_at(old(self).records@, at as int)].events,
                    ) + 1
                    &&& final(self)@ == old(self)@.insert(
                        id_at(old(self).records@, at as int),
                        appended(old(self)@[id_at(old(self).records@, at as int)], items@, now),
                    )
                },
                Err(error) => {
                    &&& last_sequence_of(old(self)@[id_at(old(self).records@, at as int)].events)
                        == u64::MAX
                    &&& error == ShareError::StorageError
                    &&& final(self)@ == old(self)@
                },
            },
    {
        proof {
            use_type_invariant(&*self);
            lemma_store_valid(self.records@);
            lemma_store_at(self.records@, at as int);
        }
        if self.records[at].log.last_sequence() == u64::MAX {
            return Err(ShareError::StorageError);
        }
        let mut records = Vec::new();
        std::mem::swap(&mut records, &mut self.records);
        let ghost before = records@;
        let mut record = records.remove(at);
        let written = record.log.append(items, now);
        record.share.updated_at = now;
        proof {
            assert(sound_record(before[at as int]));
            lemma_appended_valid(record_view(before[at as int]), items@, now);
            assert(record_view(record) == appended(record_view(before[at as int]), items@, now));
            lemma_store_update(before, at as int, record);
            assert(before.remove(at as int).insert(at as int, record) =~= before.update(
                at as int,
                record,
            ));
            assert forall|i: int| 0 <= i < before.len() implies sound_record(
                #[trigger] before.update(at as int, record)[i],
            ) by {
                if i != at {
                    assert(sound_record(before[i]));
                }
            }
            lemma_store_valid(before.update(at as int, record));
        }
        records.insert(at, record);
        self.records = records;
        written
    }

    /// Records the batch `items` for the share `share_id`, received at `now`,
    /// and returns the batch's sequence number, which is greater than every
    /// number given to the share before. Fails with `StorageError`, and
    /// changes nothing, where no such share is published or the sequence
    /// numbers are used up.
    pub fn append(&mut self, share_id: &str, items: Vec<ShareData>, now: i64) -> (written: Result<
        u64,
        ShareError,
    >)
        ensures
            valid_store(final(self)@),
            match written {
                Ok(sequence) => {
                    &&& old(self)@.contains_key(share_id@)
                    &&& last_sequence_of(old(self)@[share_id@].events) < u64::MAX
                    &&& sequence == last_sequence_of(old(self)@[share_id@].events) + 1
                    &&& forall|i: int|
                        0 <= i < old(self)@[share_id@].events.len() ==> (
                        #[trigger] old(self)@[share_id@].events[i]).sequence < sequence
                    &&& final(self)@ == old(self)@.insert(
                        share_id@,
                        appended(old(self)@[share_id@], items@, now),
                    )
                },
                Err(error) => {
                    &&& error == ShareError::StorageError
                    &&& !old(self)@.contains_key(share_id@) || last_sequence_of(
                        old(self)@[share_id@].events,
                    ) == u64::MAX
                    &&& final(self)@ == old(self)@
                },
            },
    {
        proof {
            use_type_invariant(&*self);
            lemma_store_valid(self.records@);
        }
        match self.find(share_id) {
            Some(at) => {
                proof {
                    lemma_store_at(self.records@, at as int);
                    lemma_last_is_greatest(self@[share_id@].events);
                }
                self.append_at(at, items, now)
            },
            None => {
                proof {
                    lemma_store_without(self.records@, share_id@);
                }
                Err(ShareError::StorageError)
            },
        }
    }

    /// The events that the share `share_id` received after the sequence number
    /// `after`, in the order of receipt; its whole history where no number is
    /// given. Fails with `StorageError` where no such share is published.
    pub fn read_since(&self, share_id: &str, after: Option<u64>) -> (read: Result<
        Vec<Event>,
        ShareError,
    >)
        ensures
            match read {
                Ok(events) => {
                    &&& self@.contains_key(share_id@)
                    &&& views_of(events@) == later_than(self@[share_id@].events, after)
                    &&& ascending(views_of(events@))
                },
                Err(error) => error == ShareError::StorageError && !self@.contains_key(share_id@),
            },
    {
        proof {
            use_type_invariant(self);
        }
        match self.find(share_id) {
            Some(at) => {
                proof {
                    lemma_store_at(self.records@, at as int);
                }
                Ok(self.records[at].log.read_since(after))
            },
            None => {
                proof {
                    lemma_store_without(self.records@, share_id@);
                }
                Err(ShareError::StorageError)
            },
        }
    }

    /// Adds the batch `data` to the share `share_id`, received at `now`, for a
    /// caller that presents `secret`. Fails as `authorize` does; fails with
    /// `StorageError` where the share's sequence numbers are used up. A call
    /// that fails changes nothing. Nothing is merged yet: that is left to the
    /// next read.
    pub fn sync_at(&mut self, share_id: &str, secret: &str, data: Vec<ShareData>, now: i64) -> (done:
        Result<(), ShareError>)
        ensures
            valid_store(final(self)@),
            match done {
                Ok(_) => {
                    &&& authorized(old(self)@, share_id@, secret@) is Ok
                    &&& last_sequence_of(old(self)@[share_id@].events) < u64::MAX
                    &&& final(self)@ == old(self)@.insert(
                        share_id@,
                        appended(old(self)@[share_id@], data@, now),
                    )
                },
                Err(error) => {
                    &&& final(self)@ == old(self)@
                    &&& match authorized(old(self)@, share_id@, secret@) {
                        Ok(_) => error == ShareError::StorageError && last_sequence_of(
                            old(self)@[share_id@].events,
                        ) == u64::MAX,
                        Err(refusal) => error == refusal,
                    }
                },
            },
    {
        proof {
            use_type_invariant(&*self);
            lemma_store_valid(self.records@);
        }
        match self.find(share_id) {
            Some(at) => {
                proof {
                    lemma_store_at(self.records@, at as int);
                }
                if !same_text(self.records[at].share.secret.as_str(), secret) {
                    return Err(ShareError::InvalidSecret);
                }
                match self.append_at(at, data, now) {
                    Ok(_) => Ok(()),
                    Err(error) => Err(error),
                }
            },
            None => {
                proof {
                    lemma_store_without(self.records@, share_id@);
                }
                Err(ShareError::NotFound)
            },
        }
    }

    /// Adds the batch `data` to the share `share_id`, for a caller that
    /// presents `secret`, at the time that the clock gives. Otherwise as
    /// `sync_at`.
    pub fn sync(&mut self, share_id: &str, secret: &str, data: Vec<ShareData>) -> (done: Result<
        (),
        ShareError,
    >)
        ensures
            valid_store(final(self)@),
            match done {
                Ok(_) => {
                    &&& authorized(old(self)@, share_id@, secret@) is Ok
                    &&& last_sequence_of(old(self)@[share_id@].events) < u64::MAX
                    &&& final(self)@ == old(self)@.insert(
                        share_id@,
                        appended(
                            old(self)@[share_id@],
                            data@,
                            final(self)@[share_id@].share.updated_at,
                        ),
                    )
                },
                Err(error) => {
                    &&& final(self)@ == old(self)@
                    &&& match authorized(old(self)@, share_id@, secret@) {
                        Ok(_) => error == ShareError::StorageError && last_sequence_of(
                            old(self)@[share_id@].events,
                        ) == u64::MAX,
                        Err(refusal) => error == refusal,
                    }
                },
            },
    {
        let now = now_millis();
        self.sync_at(share_id, secret, data, now)
    }

    /// Compacts the record at `at` and returns its merged state.
    fn materialize_at(&mut self, at: usize) -> (state: Vec<ShareData>)
        requires
            at < old(self).records.len(),
        ensures
            valid_store(final(self)@),
            state@ == data_of(old(self)@[id_at(old(self).records@, at as int)]),
            final(self)@ == old(self)@.insert(
                id_at(old(self).records@, at as int),
                compacted(old(self)@[id_at(old(self).records@, at as int)]),
            ),
    {
        proof {
            use_type_invariant(&*self);
            lemma_store_valid(self.records@);
            lemma_store_at(self.records@, at as int);
            assert(sound_record(self.records@[at as int]));
            lemma_compacted_valid(record_view(self.records@[at as int]));
        }
        let after = match &self.records[at].snapshot {
            Some(snapshot) => Some(snapshot.up_to_sequence),
            None => None,
        };
        let tail = self.records[at].log.read_since(after);
        let out = compact(
            self.records[at].share.id.as_str(),
            self.records[at].snapshot.as_ref(),
            &tail,
        );
        let Compaction { state, snapshot } = out;
        match snapshot {
            Some(taken) => {
                let mut records = Vec::new();
                std::mem::swap(&mut records, &mut self.records);
                let ghost before = records@;
                let mut record = records.remove(at);
                record.snapshot = Some(taken);
                proof {
                    assert(record_view(record) == compacted(record_view(before[at as int])));
                    lemma_store_update(before, at as int, record);
                    assert(before.remove(at as int).insert(at as int, record) =~= before.update(
                        at as int,
                        record,
                    ));
                    assert forall|i: int| 0 <= i < before.len() implies sound_record(
                        #[trigger] before.update(at as int, record)[i],
                    ) by {
                        if i != at {
                            assert(sound_record(before[i]));
                        }
                    }
                    lemma_store_valid(before.update(at as int, record));
                }
                records.insert(at, record);
                self.records = records;
            },
            None => {
                proof {
                    assert(self@.insert(
                        id_at(self.records@, at as int),
                        self@[id_at(self.records@, at as int)],
                    ) =~= self@);
                }
            },
        }
        state
    }

    /// Brings the snapshot of the share `share_id` up to date and returns the
    /// share's merged state: the merge of every item the share received. The
    /// events since the last snapshot are merged into it; where there are
    /// none, nothing is written. Fails with `StorageError` where no such share
    /// is published.
    pub fn materialize(&mut self, share_id: &str) -> (read: Result<Vec<ShareData>, ShareError>)
        ensures
            valid_store(final(self)@),
            match read {
                Ok(state) => {
                    &&& old(self)@.contains_key(share_id@)
                    &&& state@ == data_of(old(self)@[share_id@])
                    &&& final(self)@ == old(self)@.insert(
                        share_id@,
                        compacted(old(self)@[share_id@]),
                    )
                },
                Err(error) => {
                    &&& !old(self)@.contains_key(share_id@)
                    &&& error == ShareError::StorageError
                    &&& final(self)@ == old(self)@
                },
            },
    {
        proof {
            use_type_invariant(&*self);
            lemma_store_valid(self.records@);
        }
        match self.find(share_id) {
            Some(at) => {
                proof {
                    lemma_store_at(self.records@, at as int);
                }
                Ok(self.materialize_at(at))
            },
            None => {
                proof {
                    lemma_store_without(self.records@, share_id@);
                }
                Err(ShareError::StorageError)
            },
        }
    }

    /// The merged state of the share `share_id`, for any reader: one item for
    /// each merge key that the share ever received, the last that came with
    /// the key, in the order in which the keys first came. Fails with
    /// `NotFound` where no such share is published; a share without items has
    /// the empty state.
    pub fn get_data(&mut self, share_id: &str) -> (read: Result<Vec<ShareData>, ShareError>)
        ensures
            valid_store(final(self)@),
            match read {
                Ok(state) => {
                    &&& old(self)@.contains_key(share_id@)
                    &&& state@ == data_of(old(self)@[share_id@])
                    &&& final(self)@ == old(self)@.insert(
                        share_id@,
                        compacted(old(self)@[share_id@]),
                    )
                },
                Err(error) => {
                    &&& !old(self)@.contains_key(share_id@)
                    &&& error == ShareError::NotFound
                    &&& final(self)@ == old(self)@
                },
            },
    {
        match self.materialize(share_id) {
            Ok(state) => Ok(state),
            Err(_) => Err(ShareError::NotFound),
        }
    }

    /// Removes the share `id`, with its events and its snapshot, for a caller
    /// that presents `secret`. Fails as `authorize` does, and then changes
    /// nothing.
    pub fn remove(&mut self, id: &str, secret: &str) -> (done: Result<(), ShareError>)
        ensures
            valid_store(final(self)@),
            match done {
                Ok(_) => {
                    &&& authorized(old(self)@, id@, secret@) is Ok
                    &&& final(self)@ == old(self)@.remove(id@)
                },
                Err(error) => {
                    &&& authorized(old(self)@, id@, secret@) == Err::<ShareView, ShareError>(error)
                    &&& final(self)@ == old(self)@
                },
            },
    {
        proof {
            use_type_invariant(&*self);
            lemma_store_valid(self.records@);
        }
        match self.find(id) {
            Some(at) => {
                proof {
                    lemma_store_at(self.records@, at as int);
                }
                if !same_text(self.records[at].share.secret.as_str(), secret) {
                    return Err(ShareError::InvalidSecret);
                }
                let mut records = Vec::new();
                std::mem::swap(&mut records, &mut self.records);
                proof {
                    lemma_store_remove(records@, at as int);
                    assert forall|i: int| 0 <= i < records@.remove(at as int).len() implies
                        sound_record(#[trigger] records@.remove(at as int)[i]) by {
                        if i < at {
                            assert(sound_record(records@[i]));
                        } else {
                            assert(sound_record(records@[i + 1]));
                        }
                    }
                    lemma_store_valid(records@.remove(at as int));
                }
                records.remove(at);
                self.records = records;
                Ok(())
            },
            None => {
                proof {
                    lemma_store_without(self.records@, id@);
                }
                Err(ShareError::NotFound)
            },
        }
    }
}

} // verus!
