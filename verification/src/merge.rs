//! Merging: how a sequence of items becomes the state that readers see.
//!
//! A state is a list of items with one item per merge key. An incoming item
//! replaces the item that has its key, where that item stands, or is added at
//! the end when no item has its key yet.

use crate::key::{get_data_key, key_of};
use crate::models::ShareData;
use crate::text::same_text;
use vstd::prelude::*;

verus! {

/// The merge keys of `items`, item by item.
pub open spec fn keys_of(items: Seq<ShareData>) -> Seq<Seq<char>> {
    items.map_values(|item: ShareData| key_of(item))
}

/// Where the first item with the key `key` stands in `state`, if there is one.
pub open spec fn position(state: Seq<ShareData>, key: Seq<char>) -> Option<int> {
    keys_of(state).index_of_first(key)
}

/// `state` after `item` arrived under `key`.
pub open spec fn placed(state: Seq<ShareData>, item: ShareData, key: Seq<char>) -> Seq<ShareData> {
    match position(state, key) {
        Some(at) => state.update(at, item),
        None => state.push(item),
    }
}

/// `state` after `item` arrived under its own merge key.
pub open spec fn merged(state: Seq<ShareData>, item: ShareData) -> Seq<ShareData> {
    placed(state, item, key_of(item))
}

/// `base` after the items of `incoming` arrived, one after another.
pub open spec fn folded(base: Seq<ShareData>, incoming: Seq<ShareData>) -> Seq<ShareData>
    decreases incoming.len(),
{
    if incoming.len() == 0 {
        base
    } else {
        merged(folded(base, incoming.drop_last()), incoming.last())
    }
}

/// No two items of `state` have the same merge key.
pub open spec fn distinct_keys(state: Seq<ShareData>) -> bool {
    keys_of(state).no_duplicates()
}

/// The merge keys that occur in `items`, each once, in the order in which they
/// first occur.
pub open spec fn key_order(items: Seq<ShareData>) -> Seq<Seq<char>>
    decreases items.len(),
{
    if items.len() == 0 {
        Seq::empty()
    } else {
        let before = key_order(items.drop_last());
        let key = key_of(items.last());
        if before.contains(key) {
            before
        } else {
            before.push(key)
        }
    }
}

/// `position` finds the first item with the key, and finds nothing only where
/// no item has it.
pub proof fn lemma_position(state: Seq<ShareData>, key: Seq<char>)
    ensures
        match position(state, key) {
            Some(at) => {
                &&& 0 <= at < state.len()
                &&& key_of(state[at]) == key
                &&& forall|j: int| 0 <= j < at ==> key_of(#[trigger] state[j]) != key
            },
            None => forall|j: int| 0 <= j < state.len() ==> key_of(#[trigger] state[j]) != key,
        },
{
    let keys = keys_of(state);
    keys.index_of_first_ensures(key);
    match position(state, key) {
        Some(at) => {
            assert(keys[at] == key_of(state[at]));
            assert forall|j: int| 0 <= j < at implies key_of(#[trigger] state[j]) != key by {
                assert(keys[j] == key_of(state[j]));
            }
        },
        None => {
            assert forall|j: int| 0 <= j < state.len() implies key_of(#[trigger] state[j])
                != key by {
                assert(keys[j] == key_of(state[j]));
                assert(keys.contains(keys[j]));
            }
        },
    }
}

/// An item with the key, before which no item has the key, is where `position`
/// points.
pub proof fn lemma_position_at(state: Seq<ShareData>, key: Seq<char>, at: int)
    requires
        0 <= at < state.len(),
        key_of(state[at]) == key,
        forall|j: int| 0 <= j < at ==> key_of(#[trigger] state[j]) != key,
    ensures
        position(state, key) == Some(at),
{
    lemma_position(state, key);
}

/// Where no item has the key, `position` finds nothing.
pub proof fn lemma_position_none(state: Seq<ShareData>, key: Seq<char>)
    requires
        forall|j: int| 0 <= j < state.len() ==> key_of(#[trigger] state[j]) != key,
    ensures
        position(state, key) is None,
{
    lemma_position(state, key);
}

/// Merging an item changes the list of keys only by adding the item's key at
/// the end, and only if the key is new.
pub proof fn lemma_merged_keys(state: Seq<ShareData>, item: ShareData)
    ensures
        keys_of(merged(state, item)) == if keys_of(state).contains(key_of(item)) {
            keys_of(state)
        } else {
            keys_of(state).push(key_of(item))
        },
{
    let key = key_of(item);
    let keys = keys_of(state);
    lemma_position(state, key);
    match position(state, key) {
        Some(at) => {
            assert(keys[at] == key);
            assert(keys_of(state.update(at, item)) =~= keys);
        },
        None => {
            if keys.contains(key) {
                let j = choose|j: int| 0 <= j < keys.len() && keys[j] == key;
                assert(key_of(state[j]) == key);
            }
            assert(keys_of(state.push(item)) =~= keys.push(key));
        },
    }
}

/// Merging an item leaves the items with other keys as and where they are.
pub proof fn lemma_merged_elsewhere(state: Seq<ShareData>, item: ShareData, key: Seq<char>)
    requires
        key_of(item) != key,
    ensures
        position(merged(state, item), key) == position(state, key),
        position(state, key) matches Some(at) ==> merged(state, item)[at] == state[at],
{
    let after = merged(state, item);
    lemma_position(state, key_of(item));
    lemma_position(state, key);
    match position(state, key) {
        Some(at) => {
            assert forall|j: int| 0 <= j < at implies key_of(#[trigger] after[j]) != key by {
                assert(key_of(state[j]) != key);
            }
            lemma_position_at(after, key, at);
        },
        None => {
            assert forall|j: int| 0 <= j < after.len() implies key_of(#[trigger] after[j])
                != key by {
                if j < state.len() {
                    assert(key_of(state[j]) != key);
                }
            }
            lemma_position_none(after, key);
        },
    }
}

/// After an item is merged, the first item with its key is that item.
pub proof fn lemma_merged_here(state: Seq<ShareData>, item: ShareData)
    ensures
        position(merged(state, item), key_of(item)) matches Some(at) && merged(state, item)[at]
            == item && (position(state, key_of(item)) matches Some(old_at) ==> at == old_at)
            && (position(state, key_of(item)) is None ==> at == state.len()),
{
    let key = key_of(item);
    let after = merged(state, item);
    lemma_position(state, key);
    match position(state, key) {
        Some(at) => {
            assert forall|j: int| 0 <= j < at implies key_of(#[trigger] after[j]) != key by {
                assert(key_of(state[j]) != key);
            }
            lemma_position_at(after, key, at);
        },
        None => {
            assert forall|j: int| 0 <= j < state.len() implies key_of(#[trigger] after[j])
                != key by {
                assert(key_of(state[j]) != key);
            }
            lemma_position_at(after, key, state.len() as int);
        },
    }
}

/// Places `item` in `result` under `key`: over the first item whose merge key
/// is `key`, or at the end where no item has that key.
pub fn merge_data(result: &mut Vec<ShareData>, item: ShareData, key: &str)
    ensures
        final(result)@ == placed(old(result)@, item, key@),
{
    let mut index: usize = 0;
    while index < result.len()
        invariant
            index <= result.len(),
            result@ == old(result)@,
            forall|j: int| 0 <= j < index ==> key_of(#[trigger] result@[j]) != key@,
        decreases result.len() - index,
    {
        let existing = get_data_key(&result[index]);
        if same_text(existing.as_str(), key) {
            proof {
                lemma_position_at(result@, key@, index as int);
            }
            result[index] = item;
            return ;
        }
        index += 1;
    }
    proof {
        lemma_position_none(result@, key@);
    }
    result.push(item);
}

/// Merges the items of `incoming` into `base`, in their order.
pub fn fold(base: Vec<ShareData>, incoming: &Vec<ShareData>) -> (state: Vec<ShareData>)
    ensures
        state@ == folded(base@, incoming@),
{
    let ghost start = base@;
    let mut state = base;
    let mut index: usize = 0;
    while index < incoming.len()
        invariant
            index <= incoming.len(),
            state@ == folded(start, incoming@.take(index as int)),
        decreases incoming.len() - index,
    {
        let item = incoming[index].clone();
        let key = get_data_key(&item);
        proof {
            assert(incoming@.take(index + 1).drop_last() =~= incoming@.take(index as int));
        }
        merge_data(&mut state, item, key.as_str());
        index += 1;
    }
    proof {
        assert(incoming@.take(index as int) =~= incoming@);
    }
    state
}

} // verus!
