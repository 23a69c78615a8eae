use rushsocket::webhook::{after_attempt, retry_delay_secs, wants_subscription_count_webhook, webhook_body, webhook_signature, DeliveryStep, WebhookEvent};

fn event_json(event: &WebhookEvent) -> serde_json::Value {
    let body = webhook_body(0, &vec![event.clone()]);
    let v: serde_json::Value = serde_json::from_str(&body).unwrap();
    v["events"][0].clone()
}

#[test]
fn test_webhook_event_serialization() {
    let event = WebhookEvent::channel_occupied("test-channel");
    let json = event_json(&event);
    assert_eq!(json["name"], "channel_occupied");
    assert_eq!(json["channel"], "test-channel");
    assert!(json.get("user_id").is_none());
    assert!(json.get("data").is_none());
}

#[test]
fn test_member_added_serialization() {
    let event = WebhookEvent::member_added("presence-chat", "user-123");
    let json = event_json(&event);
    assert_eq!(json["name"], "member_added");
    assert_eq!(json["channel"], "presence-chat");
    assert_eq!(json["user_id"], "user-123");
}

#[test]
fn test_client_event_serialization() {
    let data = serde_json::from_str::<serde_json::Value>(r#"{"msg": "hello"}"#).unwrap().to_string();
    let event = WebhookEvent::client_event("private-chat", "client-typing", &data, "sock-1", Some("user-1"));
    let json = event_json(&event);
    assert_eq!(json["name"], "client_event");
    assert_eq!(json["event"], "client-typing");
    assert_eq!(json["user_id"], "user-1");
    assert_eq!(json["socket_id"], "sock-1");
    assert!(json["data"].is_string());
}

#[test]
fn test_cache_miss_serialization() {
    let event = WebhookEvent::cache_miss("cache-my-channel");
    let json = event_json(&event);
    assert_eq!(json["name"], "cache_miss");
    assert_eq!(json["channel"], "cache-my-channel");
    assert!(json.get("user_id").is_none());
}

#[test]
fn test_subscription_count_serialization() {
    let event = WebhookEvent::subscription_count("my-channel", 42);
    let json = event_json(&event);
    assert_eq!(json["name"], "subscription_count");
    assert_eq!(json["channel"], "my-channel");
    assert_eq!(json["subscription_count"], 42);
    assert!(json.get("user_id").is_none());
}

#[test]
fn test_payload_structure() {
    let events = vec![WebhookEvent::channel_occupied("ch1"), WebhookEvent::channel_vacated("ch2")];
    let body = webhook_body(1700000000000, &events);
    let json: serde_json::Value = serde_json::from_str(&body).unwrap();
    assert_eq!(json["time_ms"], 1700000000000u64);
    assert_eq!(json["events"].as_array().unwrap().len(), 2);
}

#[test]
fn payload_text_is_exact() {
    let body = webhook_body(5, &vec![WebhookEvent::member_removed("presence-a", "u")]);
    assert_eq!(body, r#"{"time_ms":5,"events":[{"name":"member_removed","channel":"presence-a","user_id":"u"}]}"#);
    assert_eq!(webhook_body(1, &vec![]), r#"{"time_ms":1,"events":[]}"#);
}

#[test]
fn test_hmac_signature() {
    let secret = "test-secret";
    let body = r#"{"time_ms":1700000000000,"events":[{"name":"channel_occupied","channel":"ch1"}]}"#;
    let sig = webhook_signature(secret, body);
    assert_eq!(sig.len(), 64);
    assert!(sig.chars().all(|c| c.is_ascii_hexdigit()));
}

#[test]
fn retry_schedule_and_subscription_count_rule() {
    assert_eq!(retry_delay_secs(0), 0);
    assert_eq!(retry_delay_secs(1), 2);
    assert_eq!(retry_delay_secs(2), 4);
    assert_eq!(retry_delay_secs(3), 8);
    assert_eq!(rushsocket::webhook::WEBHOOK_ATTEMPTS, 4);
    assert!(wants_subscription_count_webhook(true, "my-channel"));
    assert!(!wants_subscription_count_webhook(true, "presence-room"));
    assert!(!wants_subscription_count_webhook(false, "my-channel"));
}

#[test]
fn delivery_retries_then_gives_up() {
    assert_eq!(after_attempt(0, Some(200)), DeliveryStep::Delivered);
    assert_eq!(after_attempt(2, Some(204)), DeliveryStep::Delivered);
    assert_eq!(after_attempt(0, Some(500)), DeliveryStep::Retry { attempt: 1, delay_secs: 2 });
    assert_eq!(after_attempt(1, None), DeliveryStep::Retry { attempt: 2, delay_secs: 4 });
    assert_eq!(after_attempt(2, Some(302)), DeliveryStep::Retry { attempt: 3, delay_secs: 8 });
    assert_eq!(after_attempt(3, Some(404)), DeliveryStep::GiveUp);
    assert_eq!(after_attempt(3, Some(299)), DeliveryStep::Delivered);
}
