//! What holds of every merge: the order of the keys, which item stands under a
//! key, and that merging in steps is merging at once.

use crate::key::key_of;
use crate::merge::{
    distinct_keys, folded, key_order, keys_of, lemma_merged_elsewhere, lemma_merged_here,
    lemma_merged_keys, merged, position,
};
use crate::models::ShareData;
use vstd::prelude::*;
use vstd::seq_lib::lemma_flatten_concat;

verus! {

/// Merging `first` and then `second` gives the state that merging the two as
/// one sequence gives.
pub proof fn lemma_fold_concat(
    base: Seq<ShareData>,
    first: Seq<ShareData>,
    second: Seq<ShareData>,
)
    ensures
        folded(folded(base, first), second) == folded(base, first + second),
    decreases second.len(),
{
    if second.len() == 0 {
        assert(first + second =~= first);
    } else {
        lemma_fold_concat(base, first, second.drop_last());
        assert((first + second).drop_last() =~= first + second.drop_last());
        assert((first + second).last() == second.last());
    }
}

/// A history of batches may be merged in two parts, split after any batch:
/// merging the later batches onto the merge of the earlier ones gives the
/// merge of the whole history.
pub proof fn lemma_fold_split(batches: Seq<Seq<ShareData>>, split: int)
    requires
        0 <= split <= batches.len(),
    ensures
        folded(
            folded(Seq::empty(), batches.take(split).flatten()),
            batches.skip(split).flatten(),
        ) == folded(Seq::empty(), batches.flatten()),
{
    assert(batches =~= batches.take(split) + batches.skip(split));
    lemma_flatten_concat(batches.take(split), batches.skip(split));
    lemma_fold_concat(
        Seq::empty(),
        batches.take(split).flatten(),
        batches.skip(split).flatten(),
    );
}

/// The keys of a state without repeated keys are already in first-seen order.
pub proof fn lemma_key_order_of_distinct(state: Seq<ShareData>)
    requires
        distinct_keys(state),
    ensures
        key_order(state) == keys_of(state),
    decreases state.len(),
{
    if state.len() == 0 {
        assert(keys_of(state) =~= Seq::empty());
    } else {
        let before = state.drop_last();
        let key = key_of(state.last());
        assert(keys_of(before) =~= keys_of(state).drop_last());
        lemma_key_order_of_distinct(before);
        if keys_of(before).contains(key) {
            let j = choose|j: int| 0 <= j < keys_of(before).len() && keys_of(before)[j] == key;
            assert(keys_of(state)[j] == keys_of(state)[state.len() - 1]);
        }
        assert(keys_of(before).push(key) =~= keys_of(state));
    }
}

/// First-seen order names no key twice.
pub proof fn lemma_key_order_distinct(items: Seq<ShareData>)
    ensures
        key_order(items).no_duplicates(),
    decreases items.len(),
{
    if items.len() > 0 {
        lemma_key_order_distinct(items.drop_last());
    }
}

proof fn lemma_push_contains(keys: Seq<Seq<char>>, added: Seq<char>, key: Seq<char>)
    ensures
        keys.push(added).contains(key) <==> keys.contains(key) || added == key,
{
    let after = keys.push(added);
    if keys.contains(key) {
        let j = choose|j: int| 0 <= j < keys.len() && keys[j] == key;
        assert(after[j] == key);
    }
    if added == key {
        assert(after[keys.len() as int] == key);
    }
    if after.contains(key) {
        let j = choose|j: int| 0 <= j < after.len() && after[j] == key;
        if j < keys.len() {
            assert(keys[j] == key);
        }
    }
}

/// First-seen order names exactly the keys that occur.
pub proof fn lemma_key_order_contains(items: Seq<ShareData>, key: Seq<char>)
    ensures
        key_order(items).contains(key) <==> keys_of(items).contains(key),
    decreases items.len(),
{
    if items.len() > 0 {
        let before = items.drop_last();
        let last_key = key_of(items.last());
        lemma_key_order_contains(before, key);
        lemma_key_order_contains(before, last_key);
        assert(keys_of(items) =~= keys_of(before).push(last_key));
        lemma_push_contains(keys_of(before), last_key, key);
        lemma_push_contains(key_order(before), last_key, key);
    }
}

/// The merged state holds one item for each key that occurs, in the order in
/// which the keys first occurred: first those of the state that was merged
/// into, then the new ones. How often a key recurs does not matter.
pub proof fn lemma_fold_key_order(base: Seq<ShareData>, incoming: Seq<ShareData>)
    requires
        distinct_keys(base),
    ensures
        keys_of(folded(base, incoming)) == key_order(base + incoming),
        distinct_keys(folded(base, incoming)),
    decreases incoming.len(),
{
    if incoming.len() == 0 {
        assert(base + incoming =~= base);
        lemma_key_order_of_distinct(base);
    } else {
        let before = incoming.drop_last();
        lemma_fold_key_order(base, before);
        assert((base + incoming).drop_last() =~= base + before);
        assert((base + incoming).last() == incoming.last());
        lemma_merged_keys(folded(base, before), incoming.last());
    }
    lemma_key_order_distinct(base + incoming);
}

/// Merging never moves or removes a key: the item at each place of the old
/// state is followed by an item with the same key at the same place.
pub proof fn lemma_fold_keeps_places(base: Seq<ShareData>, incoming: Seq<ShareData>)
    ensures
        base.len() <= folded(base, incoming).len(),
        forall|at: int|
            0 <= at < base.len() ==> key_of(#[trigger] folded(base, incoming)[at]) == key_of(
                base[at],
            ),
    decreases incoming.len(),
{
    if incoming.len() > 0 {
        let state = folded(base, incoming.drop_last());
        lemma_fold_keeps_places(base, incoming.drop_last());
        lemma_merged_keys(state, incoming.last());
        let after = merged(state, incoming.last());
        assert(keys_of(after).len() == after.len());
        assert forall|at: int| 0 <= at < base.len() implies key_of(#[trigger] after[at])
            == key_of(base[at]) by {
            assert(keys_of(after)[at] == keys_of(state)[at]);
            assert(key_of(state[at]) == key_of(base[at]));
        }
    }
}

/// Last write wins: of the incoming items that share a key, the state holds
/// the one that arrived last, as the first item with that key.
pub proof fn lemma_last_write_wins(base: Seq<ShareData>, incoming: Seq<ShareData>, last: int)
    requires
        0 <= last < incoming.len(),
        forall|j: int|
            last < j < incoming.len() ==> key_of(#[trigger] incoming[j]) != key_of(incoming[last]),
    ensures
        position(folded(base, incoming), key_of(incoming[last])) matches Some(at) && folded(
            base,
            incoming,
        )[at] == incoming[last],
    decreases incoming.len(),
{
    let before = incoming.drop_last();
    let state = folded(base, before);
    if last == incoming.len() - 1 {
        lemma_merged_here(state, incoming.last());
    } else {
        assert(key_of(incoming[incoming.len() - 1]) != key_of(incoming[last]));
        assert forall|j: int| last < j < before.len() implies key_of(#[trigger] before[j])
            != key_of(before[last]) by {
            assert(before[j] == incoming[j]);
        }
        lemma_last_write_wins(base, before, last);
        lemma_merged_elsewhere(state, incoming.last(), key_of(incoming[last]));
    }
}

/// Last write wins, in place: merged into a state without repeated keys, the
/// last item that arrived with a key is the only item with that key, and it
/// stands where the key stands in first-seen order.
pub proof fn lemma_last_write_wins_in_place(
    base: Seq<ShareData>,
    incoming: Seq<ShareData>,
    last: int,
)
    requires
        distinct_keys(base),
        0 <= last < incoming.len(),
        forall|j: int|
            last < j < incoming.len() ==> key_of(#[trigger] incoming[j]) != key_of(incoming[last]),
    ensures
        key_order(base + incoming).index_of_first(key_of(incoming[last])) matches Some(at)
            && folded(base, incoming)[at] == incoming[last] && forall|other: int|
            0 <= other < folded(base, incoming).len() && other != at ==> key_of(
                #[trigger] folded(base, incoming)[other],
            ) != key_of(incoming[last]),
{
    let state = folded(base, incoming);
    let key = key_of(incoming[last]);
    lemma_last_write_wins(base, incoming, last);
    lemma_fold_key_order(base, incoming);
    let at = position(state, key)->0;
    crate::merge::lemma_position(state, key);
    assert forall|other: int| 0 <= other < state.len() && other != at implies key_of(
        #[trigger] state[other],
    ) != key by {
        if key_of(state[other]) == key {
            assert(keys_of(state)[other] == keys_of(state)[at]);
        }
    }
}

} // verus!
