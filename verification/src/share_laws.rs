//! What holds of the service across calls: reads can be repeated, a write
//! shows in the next read as one more merge, and what is removed is gone.

use crate::compact::{
    bound_of, current, lemma_compaction_is_whole_merge, lemma_refreshed_reflects,
};
use crate::error::ShareError;
use crate::event::{
    items_of, last_sequence_of, lemma_items_of_push, lemma_last_is_greatest,
    lemma_later_than_rises, lemma_up_to_last, lemma_up_to_push,
};
use crate::key::key_of;
use crate::merge::{distinct_keys, folded, key_order, keys_of};
use crate::merge_laws::{lemma_fold_concat, lemma_fold_key_order, lemma_last_write_wins_in_place};
use crate::models::{ShareData, ShareView};
use crate::registry::{
    appended, authorized, compacted, data_of, lookup, next_event, uncompacted, valid_record,
    valid_store, RecordView, StoreView,
};
use vstd::prelude::*;

verus! {

/// Writing keeps a record valid: after a batch is appended, the events still
/// rise, and the snapshot still is the merge of the events up to its sequence
/// number.
pub proof fn lemma_appended_valid(record: RecordView, items: Seq<ShareData>, now: i64)
    requires
        valid_record(record.share.id, record),
        last_sequence_of(record.events) < u64::MAX,
    ensures
        valid_record(record.share.id, appended(record, items, now)),
{
    let event = next_event(record, items, now);
    let after = appended(record, items, now);
    lemma_last_is_greatest(record.events);
    assert forall|i: int, j: int| 0 <= i < j < after.events.len() implies after.events[i].sequence
        < after.events[j].sequence by {
        if j < record.events.len() {
            assert(after.events[i] == record.events[i] && after.events[j] == record.events[j]);
        } else {
            assert(after.events[i] == record.events[i]);
        }
    }
    assert(after.events.last() == event);
    match record.snapshot {
        Some(snapshot) => {
            lemma_up_to_push(record.events, event, snapshot.up_to_sequence);
        },
        None => {},
    }
}

/// Reading keeps a record valid, and reads the whole history: what a read
/// computes from the snapshot and the events after it is the merge of all
/// events, and the snapshot that it writes is that merge, up to the last
/// event's sequence number.
pub proof fn lemma_compacted_valid(record: RecordView)
    requires
        valid_record(record.share.id, record),
    ensures
        valid_record(record.share.id, compacted(record)),
        current(record.snapshot, uncompacted(record)) == data_of(record),
{
    lemma_compaction_is_whole_merge(record.snapshot, record.events);
    lemma_refreshed_reflects(record.share.id, record.snapshot, record.events);
    lemma_later_than_rises(record.events, bound_of(record.snapshot));
}

/// The secret decides: a caller is given a share exactly where the share is
/// published and the secret is the share's own; a wrong secret for a
/// published share is always answered with `InvalidSecret`.
pub proof fn lemma_secret_decides(store: StoreView, id: Seq<char>, secret: Seq<char>)
    ensures
        authorized(store, id, secret) is Ok <==> store.contains_key(id) && store[id].share.secret
            == secret,
        store.contains_key(id) && store[id].share.secret != secret ==> authorized(
            store,
            id,
            secret,
        ) == Err::<ShareView, ShareError>(ShareError::InvalidSecret),
        !store.contains_key(id) ==> authorized(store, id, secret) == Err::<ShareView, ShareError>(
            ShareError::NotFound,
        ),
{
}

/// A read can be repeated: with no write in between, a second read returns
/// what the first returned, and writes no snapshot.
pub proof fn lemma_read_is_repeatable(store: StoreView, id: Seq<char>)
    requires
        valid_store(store),
        store.contains_key(id),
    ensures
        data_of(store.insert(id, compacted(store[id]))[id]) == data_of(store[id]),
        compacted(compacted(store[id])) == compacted(store[id]),
{
    let record = store[id];
    assert(valid_record(id, record));
    let tail = uncompacted(record);
    if tail.len() > 0 {
        lemma_later_than_rises(record.events, bound_of(record.snapshot));
        lemma_up_to_last(record.events, tail.last().sequence);
    }
}

/// A write shows in the next read as one more merge: the state after a batch
/// was received is the state before it with the batch's items merged in.
pub proof fn lemma_data_after_sync(record: RecordView, items: Seq<ShareData>, now: i64)
    ensures
        data_of(appended(record, items, now)) == folded(data_of(record), items),
{
    let event = appended(record, items, now).events.last();
    lemma_items_of_push(record.events, event);
    lemma_fold_concat(Seq::empty(), items_of(record.events), items);
}

/// A share's state holds one item for each merge key that the share received,
/// in the order in which the keys first came.
pub proof fn lemma_data_key_order(record: RecordView)
    ensures
        keys_of(data_of(record)) == key_order(items_of(record.events)),
        distinct_keys(data_of(record)),
{
    assert(keys_of(Seq::<ShareData>::empty()) =~= Seq::empty());
    lemma_fold_key_order(Seq::empty(), items_of(record.events));
    assert(Seq::<ShareData>::empty() + items_of(record.events) =~= items_of(record.events));
}

/// Last write wins: of the items that a share received under one merge key, a
/// reader sees the one that came last and no other, and sees it where the key
/// stands in first-seen order.
pub proof fn lemma_data_last_write_wins(record: RecordView, last: int)
    requires
        0 <= last < items_of(record.events).len(),
        forall|j: int|
            last < j < items_of(record.events).len() ==> key_of(
                #[trigger] items_of(record.events)[j],
            ) != key_of(items_of(record.events)[last]),
    ensures
        key_order(items_of(record.events)).index_of_first(
            key_of(items_of(record.events)[last]),
        ) matches Some(at) && data_of(record)[at] == items_of(record.events)[last]
            && forall|other: int|
            0 <= other < data_of(record).len() && other != at ==> key_of(
                #[trigger] data_of(record)[other],
            ) != key_of(items_of(record.events)[last]),
{
    let items = items_of(record.events);
    assert(keys_of(Seq::<ShareData>::empty()) =~= Seq::empty());
    assert(Seq::<ShareData>::empty() + items =~= items);
    lemma_last_write_wins_in_place(Seq::empty(), items, last);
}

/// What is removed is gone: after a share was removed, no share answers to
/// its id, and nothing that the store still holds belongs to it.
pub proof fn lemma_removed_is_gone(store: StoreView, id: Seq<char>, secret: Seq<char>)
    requires
        valid_store(store),
    ensures
        !store.remove(id).contains_key(id),
        lookup(store.remove(id), id) is None,
        authorized(store.remove(id), id, secret) == Err::<ShareView, ShareError>(
            ShareError::NotFound,
        ),
        forall|other: Seq<char>| #[trigger]
            store.remove(id).contains_key(other) ==> {
                let record = store.remove(id)[other];
                &&& record.share.id != id
                &&& forall|i: int|
                    0 <= i < record.events.len() ==> (#[trigger] record.events[i]).share_id != id
                &&& record.snapshot matches Some(snapshot) ==> snapshot.share_id != id
            },
{
    assert forall|other: Seq<char>| #[trigger]
        store.remove(id).contains_key(other) implies {
        let record = store.remove(id)[other];
        &&& record.share.id != id
        &&& forall|i: int|
            0 <= i < record.events.len() ==> (#[trigger] record.events[i]).share_id != id
        &&& record.snapshot matches Some(snapshot) ==> snapshot.share_id != id
    } by {
        assert(store.contains_key(other));
        assert(valid_record(other, store[other]));
    }
}

} // verus!
