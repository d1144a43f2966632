//! The event log: every batch of items that a share received, in the order
//! of receipt.

use crate::error::ShareError;
use crate::merge::folded;
use crate::merge_laws::lemma_fold_concat;
use crate::models::{copy_items, ShareData};
use vstd::prelude::*;
use vstd::seq_lib::lemma_flatten_concat;

verus! {

/// One batch of items as it was received. Once written, an event is never
/// changed.
#[derive(Debug)]
pub struct Event {
    pub share_id: String,
    pub sequence: u64,
    pub payload: Vec<ShareData>,
    pub created_at: i64,
}

/// What an `Event` holds, as plain values.
pub struct EventView {
    pub share_id: Seq<char>,
    pub sequence: u64,
    pub payload: Seq<ShareData>,
    pub created_at: i64,
}

impl View for Event {
    type V = EventView;

    open spec fn view(&self) -> EventView {
        EventView {
            share_id: self.share_id@,
            sequence: self.sequence,
            payload: self.payload@,
            created_at: self.created_at,
        }
    }
}

impl Clone for Event {
    fn clone(&self) -> (copy: Self)
        ensures
            copy@ == self@,
    {
        Event {
            share_id: self.share_id.clone(),
            sequence: self.sequence,
            payload: copy_items(&self.payload),
            created_at: self.created_at,
        }
    }
}

/// The events of a list, each by what it holds.
pub open spec fn views_of(events: Seq<Event>) -> Seq<EventView> {
    events.map_values(|event: Event| event@)
}

/// All items of the events, in the order of receipt.
pub open spec fn items_of(events: Seq<EventView>) -> Seq<ShareData> {
    events.map_values(|event: EventView| event.payload).flatten()
}

/// Each event has a greater sequence number than the one before it.
pub open spec fn ascending(events: Seq<EventView>) -> bool {
    forall|i: int, j: int| 0 <= i < j < events.len() ==> events[i].sequence < events[j].sequence
}

/// The greatest sequence number given out so far; 0 before the first.
pub open spec fn last_sequence_of(events: Seq<EventView>) -> u64 {
    if events.len() == 0 {
        0
    } else {
        events.last().sequence
    }
}

/// Whether an event came after the bound `after`; every event did where there
/// is no bound.
pub open spec fn is_after(after: Option<u64>) -> spec_fn(EventView) -> bool {
    |event: EventView|
        match after {
            Some(bound) => event.sequence > bound,
            None => true,
        }
}

/// The events that came after the bound, in their order.
pub open spec fn later_than(events: Seq<EventView>, after: Option<u64>) -> Seq<EventView> {
    events.filter(is_after(after))
}

/// Whether an event came no later than the bound `up_to`.
pub open spec fn is_up_to(up_to: u64) -> spec_fn(EventView) -> bool {
    |event: EventView| event.sequence <= up_to
}

/// The events that came no later than the bound, in their order.
pub open spec fn up_to(events: Seq<EventView>, bound: u64) -> Seq<EventView> {
    events.filter(is_up_to(bound))
}

/// The items of a log that grew by one event are the items before, then the
/// event's items.
pub proof fn lemma_items_of_push(events: Seq<EventView>, event: EventView)
    ensures
        items_of(events.push(event)) == items_of(events) + event.payload,
{
    let payloads = events.map_values(|event: EventView| event.payload);
    assert(events.push(event).map_values(|event: EventView| event.payload) =~= payloads.push(
        event.payload,
    ));
    payloads.lemma_flatten_push(event.payload);
}

/// The items of two runs of events, one after the other, are the items of the
/// first, then those of the second.
pub proof fn lemma_items_of_concat(first: Seq<EventView>, second: Seq<EventView>)
    ensures
        items_of(first + second) == items_of(first) + items_of(second),
{
    let left = first.map_values(|event: EventView| event.payload);
    let right = second.map_values(|event: EventView| event.payload);
    assert((first + second).map_values(|event: EventView| event.payload) =~= left + right);
    lemma_flatten_concat(left, right);
}

/// A history may be merged in two parts, split after any event: merging the
/// later events onto the merge of the earlier ones gives the merge of the
/// whole history.
pub proof fn lemma_history_split(events: Seq<EventView>, split: int)
    requires
        0 <= split <= events.len(),
    ensures
        folded(
            folded(Seq::empty(), items_of(events.take(split))),
            items_of(events.skip(split)),
        ) == folded(Seq::empty(), items_of(events)),
{
    assert(events =~= events.take(split) + events.skip(split));
    lemma_items_of_concat(events.take(split), events.skip(split));
    lemma_fold_concat(
        Seq::empty(),
        items_of(events.take(split)),
        items_of(events.skip(split)),
    );
}

/// Selecting the later events of a log that grew by one event.
pub proof fn lemma_later_than_push(events: Seq<EventView>, event: EventView, after: Option<u64>)
    ensures
        later_than(events.push(event), after) == if is_after(after)(event) {
            later_than(events, after).push(event)
        } else {
            later_than(events, after)
        },
{
    reveal(Seq::filter);
    assert(events.push(event).drop_last() =~= events);
}

/// Selecting the earlier events of a log that grew by one event.
pub proof fn lemma_up_to_push(events: Seq<EventView>, event: EventView, bound: u64)
    ensures
        up_to(events.push(event), bound) == if event.sequence <= bound {
            up_to(events, bound).push(event)
        } else {
            up_to(events, bound)
        },
{
    reveal(Seq::filter);
    assert(events.push(event).drop_last() =~= events);
}

/// In a rising log, no event has a greater sequence number than the last.
pub proof fn lemma_last_is_greatest(events: Seq<EventView>)
    requires
        ascending(events),
    ensures
        forall|i: int|
            0 <= i < events.len() ==> (#[trigger] events[i]).sequence <= last_sequence_of(events),
{
}

/// The later events of a rising log rise, and where there are any, the log's
/// last event is the last of them.
pub proof fn lemma_later_than_rises(events: Seq<EventView>, after: Option<u64>)
    requires
        ascending(events),
    ensures
        ascending(later_than(events, after)),
        later_than(events, after).len() > 0 ==> events.len() > 0 && later_than(
            events,
            after,
        ).last() == events.last() && is_after(after)(events.last()),
    decreases events.len(),
{
    if events.len() == 0 {
        reveal(Seq::filter);
    } else {
        let before = events.drop_last();
        let last = events.last();
        assert(before.push(last) =~= events);
        lemma_later_than_rises(before, after);
        lemma_later_than_push(before, last, after);
        let selected = later_than(before, after);
        if selected.len() > 0 {
            assert(before.last() == events[events.len() - 2]);
            lemma_last_is_greatest(selected);
        }
    }
}

/// Up to the last sequence number, or any number above it, a rising log is
/// whole; nothing is later.
pub proof fn lemma_up_to_last(events: Seq<EventView>, bound: u64)
    requires
        ascending(events),
        last_sequence_of(events) <= bound,
    ensures
        up_to(events, bound) == events,
        later_than(events, Some(bound)) == Seq::<EventView>::empty(),
    decreases events.len(),
{
    if events.len() == 0 {
        reveal(Seq::filter);
    } else {
        let before = events.drop_last();
        let last = events.last();
        assert(before.push(last) =~= events);
        if before.len() > 0 {
            assert(before.last() == events[events.len() - 2]);
        }
        lemma_up_to_last(before, bound);
        lemma_later_than_push(before, last, Some(bound));
        lemma_up_to_push(before, last, bound);
    }
}

/// A rising log is the events up to a bound, followed by the events after it.
pub proof fn lemma_split_at(events: Seq<EventView>, bound: u64)
    requires
        ascending(events),
    ensures
        events == up_to(events, bound) + later_than(events, Some(bound)),
    decreases events.len(),
{
    if last_sequence_of(events) <= bound {
        lemma_up_to_last(events, bound);
        assert(events =~= events + Seq::<EventView>::empty());
    } else {
        let before = events.drop_last();
        let last = events.last();
        assert(before.push(last) =~= events);
        lemma_split_at(before, bound);
        lemma_later_than_push(before, last, Some(bound));
        lemma_up_to_push(before, last, bound);
        assert(events =~= up_to(before, bound) + later_than(before, Some(bound)).push(last));
    }
}

/// What an `EventLog` holds, as plain values.
pub struct EventLogView {
    pub share_id: Seq<char>,
    pub events: Seq<EventView>,
}

/// What holds of every log: its events belong to its share, and their
/// sequence numbers start above 0 and rise.
pub open spec fn valid_log(log: EventLogView) -> bool {
    &&& ascending(log.events)
    &&& forall|i: int|
        0 <= i < log.events.len() ==> (#[trigger] log.events[i]).share_id == log.share_id
            && log.events[i].sequence >= 1
}

/// The log of one share: append-only, strictly ordered.
pub struct EventLog {
    share_id: String,
    events: Vec<Event>,
}

impl View for EventLog {
    type V = EventLogView;

    closed spec fn view(&self) -> EventLogView {
        EventLogView { share_id: self.share_id@, events: views_of(self.events@) }
    }
}

impl EventLog {
    #[verifier::type_invariant]
    spec fn well_formed(&self) -> bool {
        valid_log(self@)
    }

    /// An empty log for the share `share_id`.
    pub fn new(share_id: String) -> (log: Self)
        ensures
            log@ == (EventLogView { share_id: share_id@, events: Seq::empty() }),
            valid_log(log@),
    {
        let log = EventLog { share_id, events: Vec::new() };
        proof {
            assert(views_of(log.events@) =~= Seq::empty());
        }
        log
    }

    /// The greatest sequence number given out so far; 0 before the first.
    pub fn last_sequence(&self) -> (sequence: u64)
        ensures
            sequence == last_sequence_of(self@.events),
    {
        if self.events.len() == 0 {
            0
        } else {
            self.events[self.events.len() - 1].sequence
        }
    }

    /// Records a batch. The batch gets the sequence number after the last one
    /// given out, which is returned. Fails with `StorageError`, and records
    /// nothing, only where the sequence numbers are used up.
    pub fn append(&mut self, items: Vec<ShareData>, created_at: i64) -> (written: Result<
        u64,
        ShareError,
    >)
        ensures
            valid_log(final(self)@),
            match written {
                Ok(sequence) => {
                    &&& last_sequence_of(old(self)@.events) < u64::MAX
                    &&& sequence == last_sequence_of(old(self)@.events) + 1
                    &&& forall|i: int|
                        0 <= i < old(self)@.events.len() ==> (#[trigger] old(
                            self,
                        )@.events[i]).sequence < sequence
                    &&& final(self)@ == (EventLogView {
                        share_id: old(self)@.share_id,
                        events: old(self)@.events.push(
                            EventView {
                                share_id: old(self)@.share_id,
                                sequence,
                                payload: items@,
                                created_at,
                            },
                        ),
                    })
                },
                Err(error) => {
                    &&& last_sequence_of(old(self)@.events) == u64::MAX
                    &&& error == ShareError::StorageError
                    &&& final(self)@ == old(self)@
                },
            },
    {
        proof {
            use_type_invariant(&*self);
        }
        let last = self.last_sequence();
        proof {
            lemma_last_is_greatest(self@.events);
        }
        if last == u64::MAX {
            return Err(ShareError::StorageError);
        }
        let sequence = last + 1;
        let event = Event { share_id: self.share_id.clone(), sequence, payload: items, created_at };
        let mut events = Vec::new();
        std::mem::swap(&mut events, &mut self.events);
        events.push(event);
        proof {
            assert(views_of(events@) =~= old(self)@.events.push(event@));
        }
        self.events = events;
        Ok(sequence)
    }

    /// The events recorded after the sequence number `after`, in the order of
    /// receipt; the whole history where no number is given.
    pub fn read_since(&self, after: Option<u64>) -> (events: Vec<Event>)
        ensures
            views_of(events@) == later_than(self@.events, after),
            ascending(views_of(events@)),
    {
        proof {
            use_type_invariant(self);
        }
        let mut selected: Vec<Event> = Vec::new();
        let mut index: usize = 0;
        proof {
            reveal(Seq::filter);
            assert(views_of(self.events@).take(0) =~= Seq::empty());
            assert(views_of(selected@) =~= Seq::empty());
        }
        while index < self.events.len()
            invariant
                index <= self.events.len(),
                views_of(selected@) == later_than(
                    views_of(self.events@).take(index as int),
                    after,
                ),
            decreases self.events.len() - index,
        {
            let event = &self.events[index];
            let wanted = match after {
                Some(bound) => event.sequence > bound,
                None => true,
            };
            proof {
                let seen = views_of(self.events@).take(index as int);
                assert(seen.push(event@) =~= views_of(self.events@).take(index + 1));
                lemma_later_than_push(seen, event@, after);
            }
            if wanted {
                let copy = event.clone();
                proof {
                    assert(views_of(selected@.push(copy)) =~= views_of(selected@).push(copy@));
                }
                selected.push(copy);
            }
            index += 1;
        }
        proof {
            assert(views_of(self.events@).take(index as int) =~= views_of(self.events@));
            lemma_later_than_rises(self@.events, after);
        }
        selected
    }

    /// How many events the log holds.
    pub fn len(&self) -> (count: usize)
        ensures
            count == self@.events.len(),
    {
        self.events.len()
    }
}

} // verus!
