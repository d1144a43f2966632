//! Shares: a session's records, published under a handle.
//!
//! A client publishes a session and gets a share: an id, under which anyone
//! may read, and a secret, without which nobody may write. What the client
//! writes is an append-only stream of JSON items, batch by batch. What a
//! reader sees is the merge of that stream: one item for each merge key, the
//! last that was written under the key, the keys in the order in which they
//! first came. So that a read need not merge the whole history again, each
//! read leaves a snapshot behind, and the next read merges only what came
//! since.
//!
//! The parts, leaves first:
//!
//! - `json`, `text`, `token`: what is taken on trust from outside the
//!   library: `serde_json`'s values, the comparison of strings, fresh secrets
//!   and the clock.
//! - `models`, `error`: the records and the failures.
//! - `key`: the merge key of an item.
//! - `merge`, `merge_laws`: merging, and what holds of every merge.
//! - `codec`: items as JSON, written and read back.
//! - `event`: the event log of a share.
//! - `compact`: snapshots, and reading by way of them.
//! - `registry`: what the service holds and what its operations make of it,
//!   as mathematics; and the two decisions that need no store.
//! - `share`, `share_laws`: the service, and what holds of it across calls.
//! - `request`, `page`: what a request's headers say, and the page of a share.
//!
//! Every function of the library is verified against its contract, except the
//! few in `json`, `text` and `token` that call outside it; their contracts say
//! what the outside code is trusted to do.

pub mod codec;
pub mod compact;
pub mod error;
pub mod event;
pub mod json;
pub mod key;
pub mod merge;
pub mod merge_laws;
pub mod models;
pub mod page;
pub mod registry;
pub mod request;
pub mod share;
pub mod share_laws;
pub mod text;
pub mod token;
