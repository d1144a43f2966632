//! Compaction: a snapshot of a share's merged state, so that a read merges
//! only the events that came after the snapshot was taken.

use crate::event::{
    ascending, items_of, later_than, lemma_items_of_concat, lemma_items_of_push,
    lemma_later_than_rises, lemma_split_at, lemma_up_to_last, up_to, views_of, Event, EventView,
};
use crate::merge::{fold, folded};
use crate::merge_laws::lemma_fold_concat;
use crate::models::{copy_items, ShareData};
use vstd::prelude::*;

verus! {

/// The merged state of a share's events up to the sequence number
/// `up_to_sequence`.
#[derive(Debug)]
pub struct Snapshot {
    pub share_id: String,
    pub up_to_sequence: u64,
    pub state: Vec<ShareData>,
}

/// What a `Snapshot` holds, as plain values.
pub struct SnapshotView {
    pub share_id: Seq<char>,
    pub up_to_sequence: u64,
    pub state: Seq<ShareData>,
}

impl View for Snapshot {
    type V = SnapshotView;

    open spec fn view(&self) -> SnapshotView {
        SnapshotView {
            share_id: self.share_id@,
            up_to_sequence: self.up_to_sequence,
            state: self.state@,
        }
    }
}

impl Clone for Snapshot {
    fn clone(&self) -> (copy: Self)
        ensures
            copy@ == self@,
    {
        Snapshot {
            share_id: self.share_id.clone(),
            up_to_sequence: self.up_to_sequence,
            state: copy_items(&self.state),
        }
    }
}

/// A snapshot that may be absent, by what it holds.
pub open spec fn snapshot_view(snapshot: Option<Snapshot>) -> Option<SnapshotView> {
    match snapshot {
        Some(snapshot) => Some(snapshot@),
        None => None,
    }
}

/// The state that a snapshot stands for: empty where there is none yet.
pub open spec fn state_of(snapshot: Option<SnapshotView>) -> Seq<ShareData> {
    match snapshot {
        Some(snapshot) => snapshot.state,
        None => Seq::empty(),
    }
}

/// The sequence number after which events are missing from a snapshot: none
/// where there is no snapshot, so that all events are.
pub open spec fn bound_of(snapshot: Option<SnapshotView>) -> Option<u64> {
    match snapshot {
        Some(snapshot) => Some(snapshot.up_to_sequence),
        None => None,
    }
}

/// The snapshot is the merge of exactly those of `events` that came no later
/// than its sequence number.
pub open spec fn reflects(snapshot: Option<SnapshotView>, events: Seq<EventView>) -> bool {
    match snapshot {
        Some(snapshot) => snapshot.state == folded(
            Seq::empty(),
            items_of(up_to(events, snapshot.up_to_sequence)),
        ),
        None => true,
    }
}

/// The state now: the snapshot's state with the items of the later events
/// `tail` merged in.
pub open spec fn current(snapshot: Option<SnapshotView>, tail: Seq<EventView>) -> Seq<ShareData> {
    folded(state_of(snapshot), items_of(tail))
}

/// The snapshot to write after a read that found the later events `tail`:
/// none where there were no later events.
pub open spec fn refreshed(
    share_id: Seq<char>,
    snapshot: Option<SnapshotView>,
    tail: Seq<EventView>,
) -> Option<SnapshotView> {
    if tail.len() == 0 {
        None
    } else {
        Some(
            SnapshotView {
                share_id,
                up_to_sequence: tail.last().sequence,
                state: current(snapshot, tail),
            },
        )
    }
}

/// The outcome of a compaction: the state to return to the reader, and the
/// snapshot to write, if one is to be written.
#[derive(Debug)]
pub struct Compaction {
    pub state: Vec<ShareData>,
    pub snapshot: Option<Snapshot>,
}

/// Without a bound, every event is later.
pub proof fn lemma_later_than_none(events: Seq<EventView>)
    ensures
        later_than(events, None) == events,
    decreases events.len(),
{
    reveal(Seq::filter);
    if events.len() > 0 {
        lemma_later_than_none(events.drop_last());
        assert(events.drop_last().push(events.last()) =~= events);
    }
}

/// Compaction loses nothing: where the snapshot reflects a rising log, the
/// snapshot's state merged with the events after it is the merge of the whole
/// log.
pub proof fn lemma_compaction_is_whole_merge(
    snapshot: Option<SnapshotView>,
    events: Seq<EventView>,
)
    requires
        ascending(events),
        reflects(snapshot, events),
    ensures
        current(snapshot, later_than(events, bound_of(snapshot))) == folded(
            Seq::empty(),
            items_of(events),
        ),
{
    match snapshot {
        Some(taken) => {
            let head = up_to(events, taken.up_to_sequence);
            let tail = later_than(events, Some(taken.up_to_sequence));
            lemma_split_at(events, taken.up_to_sequence);
            lemma_items_of_concat(head, tail);
            lemma_fold_concat(Seq::empty(), items_of(head), items_of(tail));
            assert(items_of(events) == items_of(head) + items_of(tail));
            assert(taken.state == folded(Seq::empty(), items_of(head)));
        },
        None => {
            lemma_later_than_none(events);
        },
    }
}

/// The snapshot that a compaction writes reflects the log again.
pub proof fn lemma_refreshed_reflects(
    share_id: Seq<char>,
    snapshot: Option<SnapshotView>,
    events: Seq<EventView>,
)
    requires
        ascending(events),
        reflects(snapshot, events),
    ensures
        reflects(refreshed(share_id, snapshot, later_than(events, bound_of(snapshot))), events),
{
    let tail = later_than(events, bound_of(snapshot));
    if tail.len() > 0 {
        lemma_later_than_rises(events, bound_of(snapshot));
        lemma_up_to_last(events, tail.last().sequence);
        lemma_compaction_is_whole_merge(snapshot, events);
    }
}

/// Brings a share's state up to date: merges the items of the events `tail`,
/// which came after `snapshot` was taken, into the snapshot's state. Where
/// `tail` is empty the snapshot's state is returned and nothing is to be
/// written; otherwise the snapshot to write holds the new state, up to the
/// sequence number of the last event of `tail`.
pub fn compact(share_id: &str, snapshot: Option<&Snapshot>, tail: &Vec<Event>) -> (out: Compaction)
    ensures
        out.state@ == current(
            match snapshot {
                Some(snapshot) => Some(snapshot@),
                None => None,
            },
            views_of(tail@),
        ),
        snapshot_view(out.snapshot) == refreshed(
            share_id@,
            match snapshot {
                Some(snapshot) => Some(snapshot@),
                None => None,
            },
            views_of(tail@),
        ),
{
    let ghost before: Option<SnapshotView> = match snapshot {
        Some(snapshot) => Some(snapshot@),
        None => None,
    };
    let mut state = match snapshot {
        Some(snapshot) => copy_items(&snapshot.state),
        None => Vec::new(),
    };
    let mut index: usize = 0;
    proof {
        assert(views_of(tail@).take(0) =~= Seq::empty());
        assert(items_of(Seq::<EventView>::empty()) =~= Seq::empty());
    }
    while index < tail.len()
        invariant
            index <= tail.len(),
            state@ == folded(state_of(before), items_of(views_of(tail@).take(index as int))),
        decreases tail.len() - index,
    {
        proof {
            let seen = views_of(tail@).take(index as int);
            assert(seen.push(tail@[index as int]@) =~= views_of(tail@).take(index + 1));
            lemma_items_of_push(seen, tail@[index as int]@);
            lemma_fold_concat(state_of(before), items_of(seen), tail@[index as int].payload@);
        }
        state = fold(state, &tail[index].payload);
        index += 1;
    }
    proof {
        assert(views_of(tail@).take(index as int) =~= views_of(tail@));
    }
    if tail.len() == 0 {
        Compaction { state, snapshot: None }
    } else {
        let taken = Snapshot {
            share_id: share_id.to_owned(),
            up_to_sequence: tail[tail.len() - 1].sequence,
            state: copy_items(&state),
        };
        proof {
            assert(views_of(tail@).last() == tail@[tail.len() - 1]@);
        }
        Compaction { state, snapshot: Some(taken) }
    }
}

} // verus!
