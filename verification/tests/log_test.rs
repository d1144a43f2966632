// The event log and compaction.

use opencode_share::compact::{compact, Snapshot};
use opencode_share::error::ShareError;
use opencode_share::event::{Event, EventLog};
use opencode_share::models::{copy_items, ShareData};
use serde_json::Value;

fn value(text: &str) -> Value {
    serde_json::from_str(text).expect("test JSON must parse")
}

fn keyed(key: &str, v: i64) -> ShareData {
    ShareData::Generic { data: value(&format!(r#"{{"_key": "{}", "v": {}}}"#, key, v)) }
}

fn event(sequence: u64, payload: Vec<ShareData>) -> Event {
    Event { share_id: "s".to_string(), sequence, payload, created_at: 0 }
}

#[test]
fn a_new_log_is_empty() {
    let log = EventLog::new("s".to_string());
    assert_eq!(log.len(), 0);
    assert_eq!(log.last_sequence(), 0);
    assert!(log.read_since(None).is_empty());
    assert!(log.read_since(Some(0)).is_empty());
}

#[test]
fn sequence_numbers_rise_by_one_from_one() {
    let mut log = EventLog::new("s".to_string());
    assert_eq!(log.append(vec![keyed("a", 1)], 100), Ok(1));
    assert_eq!(log.append(vec![], 101), Ok(2));
    assert_eq!(log.append(vec![keyed("b", 1), keyed("a", 2)], 102), Ok(3));
    assert_eq!(log.len(), 3);
    assert_eq!(log.last_sequence(), 3);
    let error: Result<u64, ShareError> = Err(ShareError::StorageError);
    assert_ne!(log.append(vec![], 103), error);
}

#[test]
fn read_since_returns_what_came_after_in_order() {
    let mut log = EventLog::new("s".to_string());
    log.append(vec![keyed("a", 1)], 100).unwrap();
    log.append(vec![keyed("b", 1)], 101).unwrap();
    log.append(vec![keyed("c", 1)], 102).unwrap();

    let all = log.read_since(None);
    assert_eq!(all.len(), 3);
    assert_eq!(all[0].sequence, 1);
    assert_eq!(all[0].share_id, "s");
    assert_eq!(all[0].created_at, 100);
    assert_eq!(all[0].payload, vec![keyed("a", 1)]);
    assert_eq!(all[2].sequence, 3);
    assert_eq!(all[2].payload, vec![keyed("c", 1)]);

    let tail = log.read_since(Some(2));
    assert_eq!(tail.len(), 1);
    assert_eq!(tail[0].sequence, 3);
    assert_eq!(log.read_since(Some(1)).len(), 2);
    assert!(log.read_since(Some(3)).is_empty());
    assert!(log.read_since(Some(u64::MAX)).is_empty());
    assert_eq!(log.len(), 3);
}

#[test]
fn copies_are_equal() {
    let items = vec![keyed("a", 1), ShareData::Session { data: value("[1, 2]") }];
    assert_eq!(copy_items(&items), items);
    let original = event(4, items.clone());
    let copy = original.clone();
    assert_eq!(copy.sequence, 4);
    assert_eq!(copy.share_id, "s");
    assert_eq!(copy.payload, items);
}

#[test]
fn compaction_without_events_writes_nothing() {
    let out = compact("s", None, &vec![]);
    assert!(out.state.is_empty());
    assert!(out.snapshot.is_none());

    let taken = Snapshot {
        share_id: "s".to_string(),
        up_to_sequence: 7,
        state: vec![keyed("a", 1), keyed("b", 1)],
    };
    let out = compact("s", Some(&taken), &vec![]);
    assert_eq!(out.state, vec![keyed("a", 1), keyed("b", 1)]);
    assert!(out.snapshot.is_none());
}

#[test]
fn compaction_from_nothing_merges_the_whole_history() {
    let tail = vec![
        event(1, vec![keyed("a", 1), keyed("b", 1)]),
        event(2, vec![]),
        event(5, vec![keyed("a", 2), keyed("c", 1)]),
    ];
    let out = compact("s", None, &tail);
    assert_eq!(out.state, vec![keyed("a", 2), keyed("b", 1), keyed("c", 1)]);
    let written = out.snapshot.expect("events came, so a snapshot is written");
    assert_eq!(written.share_id, "s");
    assert_eq!(written.up_to_sequence, 5);
    assert_eq!(written.state, out.state);
}

#[test]
fn compaction_merges_the_tail_onto_the_snapshot() {
    let taken = Snapshot {
        share_id: "s".to_string(),
        up_to_sequence: 5,
        state: vec![keyed("a", 2), keyed("b", 1), keyed("c", 1)],
    };
    let tail = vec![
        event(6, vec![keyed("d", 1)]),
        event(7, vec![keyed("b", 2), keyed("d", 2)]),
    ];
    let out = compact("s", Some(&taken), &tail);
    assert_eq!(
        out.state,
        vec![keyed("a", 2), keyed("b", 2), keyed("c", 1), keyed("d", 2)]
    );
    let written = out.snapshot.unwrap();
    assert_eq!(written.up_to_sequence, 7);
    assert_eq!(written.state, out.state);
    assert_eq!(taken.clone().state, taken.state);
}

#[test]
fn compaction_in_steps_is_compaction_at_once() {
    let history = vec![
        event(1, vec![keyed("a", 1), keyed("b", 1)]),
        event(2, vec![keyed("a", 2)]),
        event(3, vec![keyed("c", 1), keyed("b", 2)]),
        event(4, vec![keyed("d", 1), keyed("a", 3)]),
    ];
    let at_once = compact("s", None, &history).state;
    for split in 1..history.len() {
        let head: Vec<Event> = history[..split].to_vec();
        let tail: Vec<Event> = history[split..].to_vec();
        let first = compact("s", None, &head).snapshot.unwrap();
        assert_eq!(first.up_to_sequence, split as u64);
        let second = compact("s", Some(&first), &tail);
        assert_eq!(second.state, at_once);
    }
}
