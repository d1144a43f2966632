// The flows of the JSON interface, on the library: what a handler does
// between reading a request and writing the answer.

use opencode_share::codec::{decode_items, encode_items};
use opencode_share::error::ShareError;
use opencode_share::models::{CreateShareRequest, CreateShareResponse, RemoveShareRequest};
use opencode_share::request::share_url;
use opencode_share::share::ShareService;
use serde_json::Value;

fn value(text: &str) -> Value {
    serde_json::from_str(text).expect("test JSON must parse")
}

fn publish(service: &mut ShareService, session: &str, host: &str) -> CreateShareResponse {
    let request = CreateShareRequest { session_id: session.to_string() };
    let share = service.create(request.session_id).expect("Failed to create share");
    let url = share_url(None, Some(host), &share.id);
    CreateShareResponse { id: share.id, secret: share.secret, url }
}

#[test]
fn test_create_share_endpoint() {
    let mut service = ShareService::new();
    let response = publish(&mut service, "test-session-api-create", "localhost:3006");

    assert!(!response.id.is_empty());
    assert!(!response.secret.is_empty());
    assert!(!response.url.is_empty());
    assert_eq!(response.id, "test-session-api-create");
    assert!(response.url.contains("/share/test-session-api-create"));
    assert_eq!(
        response.url,
        "https://localhost:3006/share/test-session-api-create"
    );
}

#[test]
fn test_create_share_with_custom_host() {
    let mut service = ShareService::new();
    let response = publish(&mut service, "test-session-custom-host", "example.com:8080");

    assert!(response.url.contains("example.com:8080"));
}

#[test]
fn test_create_share_duplicate() {
    let mut service = ShareService::new();
    publish(&mut service, "test-session-duplicate-api", "localhost:3006");

    let second = service.create("test-session-duplicate-api".to_string());
    assert_eq!(second.unwrap_err(), ShareError::AlreadyExists);
}

#[test]
fn test_sync_share_endpoint() {
    let mut service = ShareService::new();
    let created = publish(&mut service, "test-session-api-sync", "localhost:3006");

    let data = value(
        r#"[
            {"type": "session", "data": {"model": "gpt-4", "messages": []}},
            {"type": "message", "data": {"id": "msg-1", "role": "user", "content": "Hello"}}
        ]"#,
    );
    let items = decode_items(data.as_array().unwrap());
    assert_eq!(items.len(), 2);

    assert_eq!(service.sync(&created.id, &created.secret, items), Ok(()));
    assert_eq!(service.read_since(&created.id, None).unwrap().len(), 1);
}

#[test]
fn test_sync_share_with_invalid_secret() {
    let mut service = ShareService::new();
    let created = publish(&mut service, "test-session-invalid-secret", "localhost:3006");

    let data = value(r#"[{"type": "session", "data": {"model": "gpt-4"}}]"#);
    let items = decode_items(data.as_array().unwrap());

    let refused = service.sync(&created.id, "invalid-secret", items);
    assert_eq!(refused, Err(ShareError::InvalidSecret));
    assert!(service.get_data(&created.id).unwrap().is_empty());
}

#[test]
fn test_get_share_data_endpoint() {
    let mut service = ShareService::new();
    let created = publish(&mut service, "test-session-api-get", "localhost:3006");

    let data = value(r#"[{"type": "session", "data": {"model": "gpt-4", "messages": []}}]"#);
    service
        .sync(&created.id, &created.secret, decode_items(data.as_array().unwrap()))
        .expect("Failed to sync data");

    let state = service.get_data(&created.id).expect("Failed to get data");
    let data_array = encode_items(&state);

    assert_eq!(data_array.len(), 1);
    assert_eq!(data_array[0]["type"], "session");
    assert_eq!(data_array[0]["data"]["model"], "gpt-4");
    assert_eq!(Value::Array(data_array), data);
}

#[test]
fn test_get_nonexistent_share_data() {
    let mut service = ShareService::new();
    assert_eq!(
        service.get_data("nonexistent-id"),
        Err(ShareError::NotFound)
    );
}

#[test]
fn test_remove_share_endpoint() {
    let mut service = ShareService::new();
    let created = publish(&mut service, "test-session-api-remove", "localhost:3006");

    let request = RemoveShareRequest { secret: created.secret.clone() };
    assert_eq!(service.remove(&created.id, &request.secret), Ok(()));

    assert_eq!(service.get_data(&created.id), Err(ShareError::NotFound));
}

#[test]
fn api_test_test_remove_share_with_invalid_secret() {
    let mut service = ShareService::new();
    let created = publish(&mut service, "test-session-api-invalid-remove", "localhost:3006");

    let request = RemoveShareRequest { secret: "invalid-secret".to_string() };
    assert_eq!(
        service.remove(&created.id, &request.secret),
        Err(ShareError::InvalidSecret)
    );
    assert!(service.get(&created.id).unwrap().is_some());
}
