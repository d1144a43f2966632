// The share service, operation by operation.

use opencode_share::codec::decode_item;
use opencode_share::error::ShareError;
use opencode_share::models::ShareData;
use opencode_share::share::ShareService;
use serde_json::Value;

fn value(text: &str) -> Value {
    serde_json::from_str(text).expect("test JSON must parse")
}

fn item(text: &str) -> ShareData {
    decode_item(&value(text)).expect("an object is an item")
}

fn text_of<'a>(data: &'a ShareData, name: &str) -> Option<&'a str> {
    data.data().get(name).and_then(|v| v.as_str())
}

#[test]
fn test_create_share() {
    let mut service = ShareService::new();

    let session_id = "test-session-1".to_string();
    let share = service
        .create(session_id.clone())
        .expect("Failed to create share");

    assert_eq!(share.id, session_id);
    assert!(!share.secret.is_empty());
    assert_eq!(share.session_id, session_id);
    assert!(service.get_data(&session_id).unwrap().is_empty());
}

#[test]
fn test_create_duplicate_share() {
    let mut service = ShareService::new();

    let session_id = "test-session-duplicate".to_string();

    service
        .create(session_id.clone())
        .expect("Failed to create first share");

    let result = service.create(session_id);

    assert!(result.is_err());
    assert!(result.unwrap_err().message().contains("already exists"));
}

#[test]
fn test_get_share() {
    let mut service = ShareService::new();

    let session_id = "test-session-get".to_string();

    let created_share = service
        .create(session_id.clone())
        .expect("Failed to create share");

    let retrieved_share = service.get(&session_id).expect("Failed to get share");

    assert!(retrieved_share.is_some());
    let share = retrieved_share.unwrap();
    assert_eq!(share.id, created_share.id);
    assert_eq!(share.secret, created_share.secret);
    assert_eq!(share.session_id, created_share.session_id);
}

#[test]
fn test_get_nonexistent_share() {
    let service = ShareService::new();

    let result = service.get("nonexistent-id");

    assert!(result.is_ok());
    assert!(result.unwrap().is_none());
}

#[test]
fn test_remove_share() {
    let mut service = ShareService::new();

    let session_id = "test-session-remove".to_string();

    let created_share = service
        .create(session_id.clone())
        .expect("Failed to create share");

    service
        .remove(&session_id, &created_share.secret)
        .expect("Failed to remove share");

    let result = service.get(&session_id);
    assert!(result.unwrap().is_none());
}

#[test]
fn share_service_test_test_remove_share_with_invalid_secret() {
    let mut service = ShareService::new();

    let session_id = "test-session-invalid-secret".to_string();

    service
        .create(session_id.clone())
        .expect("Failed to create share");

    let result = service.remove(&session_id, "invalid-secret");

    assert!(result.is_err());
    assert!(result.unwrap_err().message().contains("secret invalid"));

    let retrieved = service.get(&session_id);
    assert!(retrieved.unwrap().is_some());
}

#[test]
fn test_remove_nonexistent_share() {
    let mut service = ShareService::new();

    let result = service.remove("nonexistent-id", "some-secret");

    assert!(result.is_err());
    assert!(result.unwrap_err().message().contains("not found"));
}

#[test]
fn test_sync_share_data() {
    let mut service = ShareService::new();

    let session_id = "test-session-sync".to_string();

    let created_share = service
        .create(session_id.clone())
        .expect("Failed to create share");

    let test_data = vec![
        item(r#"{"_key": "session", "model": "gpt-4", "messages": []}"#),
        item(r#"{"_key": "message/msg-1", "id": "msg-1", "role": "user", "content": "Hello"}"#),
    ];

    service
        .sync(&session_id, &created_share.secret, test_data.clone())
        .expect("Failed to sync data");

    let retrieved_data = service.get_data(&session_id).expect("Failed to get data");

    assert_eq!(retrieved_data.len(), 2);
}

#[test]
fn test_sync_with_invalid_secret() {
    let mut service = ShareService::new();

    let session_id = "test-session-sync-invalid".to_string();

    service
        .create(session_id.clone())
        .expect("Failed to create share");

    let test_data = vec![item(r#"{"_key": "session", "model": "gpt-4"}"#)];

    let result = service.sync(&session_id, "invalid-secret", test_data);

    assert!(result.is_err());
    assert!(result.unwrap_err().message().contains("secret invalid"));
}

#[test]
fn test_get_share_data() {
    let mut service = ShareService::new();

    let session_id = "test-session-get-data".to_string();

    let created_share = service
        .create(session_id.clone())
        .expect("Failed to create share");

    let test_data = vec![
        item(r#"{"_key": "session", "model": "gpt-4", "messages": []}"#),
        item(
            r#"{"_key": "message/msg-1", "id": "msg-1", "role": "user", "content": "Test message"}"#,
        ),
    ];

    service
        .sync(&session_id, &created_share.secret, test_data)
        .expect("Failed to sync data");

    let retrieved_data = service.get_data(&session_id).expect("Failed to get data");

    assert_eq!(retrieved_data.len(), 2);

    let session_data = &retrieved_data[0];
    assert_eq!(text_of(session_data, "_key"), Some("session"));
    assert_eq!(text_of(session_data, "model"), Some("gpt-4"));

    let message_data = &retrieved_data[1];
    assert_eq!(text_of(message_data, "_key"), Some("message/msg-1"));
    assert_eq!(text_of(message_data, "id"), Some("msg-1"));
    assert_eq!(text_of(message_data, "content"), Some("Test message"));
}

#[test]
fn test_merge_data_same_key() {
    let mut service = ShareService::new();

    let session_id = "test-session-merge".to_string();

    let created_share = service
        .create(session_id.clone())
        .expect("Failed to create share");

    let initial_data = vec![item(r#"{"_key": "session", "model": "gpt-3.5", "messages": []}"#)];

    service
        .sync(&session_id, &created_share.secret, initial_data)
        .expect("Failed to sync initial data");

    let updated_data = vec![item(
        r#"{"_key": "session", "model": "gpt-4", "messages": [], "temperature": 0.7}"#,
    )];

    service
        .sync(&session_id, &created_share.secret, updated_data)
        .expect("Failed to sync updated data");

    let retrieved_data = service.get_data(&session_id).expect("Failed to get data");

    assert_eq!(retrieved_data.len(), 1);

    let session_data = &retrieved_data[0];
    assert_eq!(text_of(session_data, "_key"), Some("session"));
    assert_eq!(text_of(session_data, "model"), Some("gpt-4"));
    assert_eq!(
        session_data.data().get("temperature").and_then(|v| v.as_f64()),
        Some(0.7)
    );
}

#[test]
fn test_get_empty_share_data() {
    let mut service = ShareService::new();

    let session_id = "test-session-empty-data".to_string();

    service
        .create(session_id.clone())
        .expect("Failed to create share");

    let retrieved_data = service.get_data(&session_id).expect("Failed to get data");

    assert!(retrieved_data.is_empty());
}

#[test]
fn create_gives_each_share_its_own_secret() {
    let mut service = ShareService::new();
    let first = service.create("one".to_string()).unwrap();
    let second = service.create("two".to_string()).unwrap();
    assert_eq!(first.secret.len(), 36);
    assert_eq!(second.secret.len(), 36);
    assert_ne!(first.secret, second.secret);
    assert_eq!(first.created_at, first.updated_at);
}

#[test]
fn create_with_keeps_what_it_is_given() {
    let mut service = ShareService::new();
    let share = service
        .create_with("abc123".to_string(), "s3cret".to_string(), 1_700_000_000_000)
        .unwrap();
    assert_eq!(share.id, "abc123");
    assert_eq!(share.session_id, "abc123");
    assert_eq!(share.secret, "s3cret");
    assert_eq!(share.created_at, 1_700_000_000_000);
    assert_eq!(share.updated_at, 1_700_000_000_000);
    let again = service.create_with("abc123".to_string(), "other".to_string(), 5);
    assert_eq!(again.unwrap_err(), ShareError::AlreadyExists);
    assert_eq!(service.get("abc123").unwrap().unwrap().secret, "s3cret");
}

#[test]
fn authorize_tells_the_three_cases_apart() {
    let mut service = ShareService::new();
    service
        .create_with("abc123".to_string(), "s3cret".to_string(), 1)
        .unwrap();
    assert_eq!(service.authorize("abc123", "s3cret").unwrap().id, "abc123");
    assert_eq!(
        service.authorize("abc123", "s3cre").unwrap_err(),
        ShareError::InvalidSecret
    );
    assert_eq!(
        service.authorize("abc123", "").unwrap_err(),
        ShareError::InvalidSecret
    );
    assert_eq!(
        service.authorize("abc12", "s3cret").unwrap_err(),
        ShareError::NotFound
    );
}

#[test]
fn sync_moves_the_time_of_the_last_update() {
    let mut service = ShareService::new();
    service
        .create_with("abc123".to_string(), "s3cret".to_string(), 10)
        .unwrap();
    service
        .sync_at("abc123", "s3cret", vec![item(r#"{"_key": "a"}"#)], 25)
        .unwrap();
    let share = service.get("abc123").unwrap().unwrap();
    assert_eq!(share.created_at, 10);
    assert_eq!(share.updated_at, 25);
}

#[test]
fn a_wrong_secret_changes_nothing() {
    let mut service = ShareService::new();
    service
        .create_with("abc123".to_string(), "s3cret".to_string(), 10)
        .unwrap();
    service
        .sync_at("abc123", "s3cret", vec![item(r#"{"_key": "a", "v": "1"}"#)], 11)
        .unwrap();
    let before = service.get_data("abc123").unwrap();

    let refused = service.sync_at("abc123", "wrong", vec![item(r#"{"_key": "a", "v": "2"}"#)], 12);
    assert_eq!(refused.unwrap_err(), ShareError::InvalidSecret);
    let refused = service.sync("abc123", "wrong", vec![item(r#"{"_key": "b"}"#)]);
    assert_eq!(refused.unwrap_err(), ShareError::InvalidSecret);
    let refused = service.remove("abc123", "wrong");
    assert_eq!(refused.unwrap_err(), ShareError::InvalidSecret);

    assert_eq!(service.get_data("abc123").unwrap(), before);
    assert_eq!(service.read_since("abc123", None).unwrap().len(), 1);
    assert_eq!(service.get("abc123").unwrap().unwrap().updated_at, 11);

    assert!(service.sync("abc123", "s3cret", vec![item(r#"{"_key": "b"}"#)]).is_ok());
    assert!(service.remove("abc123", "s3cret").is_ok());
}

#[test]
fn sync_and_get_data_on_a_missing_share_fail_not_found() {
    let mut service = ShareService::new();
    assert_eq!(
        service.sync("nobody", "x", vec![]).unwrap_err(),
        ShareError::NotFound
    );
    assert_eq!(service.get_data("nobody").unwrap_err(), ShareError::NotFound);
}

#[test]
fn remove_takes_the_history_along() {
    let mut service = ShareService::new();
    service
        .create_with("abc123".to_string(), "s3cret".to_string(), 10)
        .unwrap();
    service
        .sync_at("abc123", "s3cret", vec![item(r#"{"_key": "a"}"#)], 11)
        .unwrap();
    service.get_data("abc123").unwrap();
    service
        .create_with("other".to_string(), "s".to_string(), 10)
        .unwrap();
    service
        .sync_at("other", "s", vec![item(r#"{"_key": "kept"}"#)], 11)
        .unwrap();

    service.remove("abc123", "s3cret").unwrap();

    assert!(service.get("abc123").unwrap().is_none());
    assert_eq!(service.get_data("abc123").unwrap_err(), ShareError::NotFound);
    assert_eq!(
        service.read_since("abc123", None).unwrap_err(),
        ShareError::StorageError
    );
    assert_eq!(
        service.materialize("abc123").unwrap_err(),
        ShareError::StorageError
    );
    assert_eq!(
        service.remove("abc123", "s3cret").unwrap_err(),
        ShareError::NotFound
    );
    assert_eq!(service.get_data("other").unwrap().len(), 1);

    // Published again, the session starts with an empty history.
    service
        .create_with("abc123".to_string(), "new".to_string(), 20)
        .unwrap();
    assert!(service.get_data("abc123").unwrap().is_empty());
    assert!(service.read_since("abc123", None).unwrap().is_empty());
    assert_eq!(service.append("abc123", vec![], 21).unwrap(), 1);
}

#[test]
fn append_numbers_the_batches_of_each_share() {
    let mut service = ShareService::new();
    service
        .create_with("a".to_string(), "s".to_string(), 1)
        .unwrap();
    service
        .create_with("b".to_string(), "s".to_string(), 1)
        .unwrap();
    assert_eq!(service.append("a", vec![item(r#"{"_key": "x"}"#)], 2).unwrap(), 1);
    assert_eq!(service.append("a", vec![], 3).unwrap(), 2);
    assert_eq!(service.append("b", vec![], 3).unwrap(), 1);
    assert_eq!(service.append("a", vec![item(r#"{"_key": "y"}"#)], 4).unwrap(), 3);
    assert_eq!(
        service.append("missing", vec![], 5).unwrap_err(),
        ShareError::StorageError
    );

    let all = service.read_since("a", None).unwrap();
    assert_eq!(
        all.iter().map(|e| e.sequence).collect::<Vec<u64>>(),
        vec![1, 2, 3]
    );
    assert_eq!(all[0].share_id, "a");
    assert_eq!(all[0].created_at, 2);
    assert_eq!(all[0].payload.len(), 1);
    let later = service.read_since("a", Some(1)).unwrap();
    assert_eq!(
        later.iter().map(|e| e.sequence).collect::<Vec<u64>>(),
        vec![2, 3]
    );
    assert!(service.read_since("a", Some(3)).unwrap().is_empty());
    assert_eq!(service.read_since("a", Some(0)).unwrap().len(), 3);
}

#[test]
fn reading_twice_gives_the_same_answer() {
    let mut service = ShareService::new();
    service
        .create_with("abc123".to_string(), "s3cret".to_string(), 10)
        .unwrap();
    service
        .sync_at(
            "abc123",
            "s3cret",
            vec![
                item(r#"{"type": "session", "data": {"model": "gpt-4"}}"#),
                item(r#"{"type": "message", "data": {"id": "m1", "text": "a"}}"#),
            ],
            11,
        )
        .unwrap();
    service
        .sync_at(
            "abc123",
            "s3cret",
            vec![item(r#"{"type": "message", "data": {"id": "m1", "text": "b"}}"#)],
            12,
        )
        .unwrap();
    let first = service.get_data("abc123").unwrap();
    let second = service.get_data("abc123").unwrap();
    let third = service.materialize("abc123").unwrap();
    assert_eq!(first, second);
    assert_eq!(second, third);
    let written: Vec<String> = first
        .iter()
        .map(|i| opencode_share::codec::encode_item(i).to_string())
        .collect();
    let written_again: Vec<String> = second
        .iter()
        .map(|i| opencode_share::codec::encode_item(i).to_string())
        .collect();
    assert_eq!(written, written_again);
    assert_eq!(
        written,
        vec![
            r#"{"data":{"model":"gpt-4"},"type":"session"}"#.to_string(),
            r#"{"data":{"id":"m1","text":"b"},"type":"message"}"#.to_string(),
        ]
    );
}

#[test]
fn a_read_after_a_write_sees_the_write() {
    let mut service = ShareService::new();
    service
        .create_with("abc123".to_string(), "s3cret".to_string(), 10)
        .unwrap();
    service
        .sync_at("abc123", "s3cret", vec![item(r#"{"_key": "a", "v": "1"}"#)], 11)
        .unwrap();
    assert_eq!(service.get_data("abc123").unwrap().len(), 1);
    service
        .sync_at(
            "abc123",
            "s3cret",
            vec![
                item(r#"{"_key": "b", "v": "2"}"#),
                item(r#"{"_key": "a", "v": "3"}"#),
            ],
            12,
        )
        .unwrap();
    let data = service.get_data("abc123").unwrap();
    assert_eq!(data.len(), 2);
    assert_eq!(text_of(&data[0], "_key"), Some("a"));
    assert_eq!(text_of(&data[0], "v"), Some("3"));
    assert_eq!(text_of(&data[1], "_key"), Some("b"));
    assert_eq!(text_of(&data[1], "v"), Some("2"));
}

#[test]
fn three_syncs_leave_two_items_in_first_seen_order() {
    let mut service = ShareService::new();
    let share = service.create("abc123".to_string()).unwrap();
    service
        .sync("abc123", &share.secret, vec![item(r#"{"key": "session", "model": "gpt-4"}"#)])
        .unwrap();
    service
        .sync("abc123", &share.secret, vec![item(r#"{"key": "message/1", "role": "user"}"#)])
        .unwrap();
    service
        .sync(
            "abc123",
            &share.secret,
            vec![item(r#"{"key": "session", "model": "gpt-4-turbo"}"#)],
        )
        .unwrap();
    let data = service.get_data("abc123").unwrap();
    assert_eq!(data.len(), 2);
    assert_eq!(text_of(&data[0], "key"), Some("session"));
    assert_eq!(text_of(&data[0], "model"), Some("gpt-4-turbo"));
    assert_eq!(text_of(&data[1], "key"), Some("message/1"));
    assert_eq!(text_of(&data[1], "role"), Some("user"));
}

#[test]
fn three_syncs_with_underscore_keys_leave_two_items() {
    let mut service = ShareService::new();
    let share = service.create("abc123".to_string()).unwrap();
    service
        .sync("abc123", &share.secret, vec![item(r#"{"_key": "session", "model": "gpt-4"}"#)])
        .unwrap();
    service
        .sync("abc123", &share.secret, vec![item(r#"{"_key": "message/1", "role": "user"}"#)])
        .unwrap();
    service
        .sync(
            "abc123",
            &share.secret,
            vec![item(r#"{"_key": "session", "model": "gpt-4-turbo"}"#)],
        )
        .unwrap();
    let data = service.get_data("abc123").unwrap();
    assert_eq!(data.len(), 2);
    assert_eq!(text_of(&data[0], "model"), Some("gpt-4-turbo"));
    assert_eq!(text_of(&data[1], "_key"), Some("message/1"));
}

#[test]
fn two_syncs_of_one_key_leave_one_item_whichever_comes_last() {
    for (first, second) in [("1", "2"), ("2", "1")] {
        let mut service = ShareService::new();
        let share = service.create("abc123".to_string()).unwrap();
        let one = item(&format!(r#"{{"_key": "k", "v": "{}"}}"#, first));
        let two = item(&format!(r#"{{"_key": "k", "v": "{}"}}"#, second));
        service.sync("abc123", &share.secret, vec![one]).unwrap();
        service.sync("abc123", &share.secret, vec![two]).unwrap();
        let data = service.get_data("abc123").unwrap();
        assert_eq!(data.len(), 1);
        assert_eq!(text_of(&data[0], "v"), Some(second));
    }
}
