use rushsocket::json::{JsonNumber, JsonValue};
use rushsocket::protocol::messages::{presence_succeeded, ClientMessage, ServerMessage, PING_JSON, PONG_JSON};

fn to_value(v: &serde_json::Value) -> JsonValue {
    match v {
        serde_json::Value::Null => JsonValue::Null,
        serde_json::Value::Bool(b) => JsonValue::Bool(*b),
        serde_json::Value::Number(n) => {
            if let Some(u) = n.as_u64() {
                JsonValue::Number(JsonNumber::PosInt(u))
            } else if let Some(i) = n.as_i64() {
                JsonValue::Number(JsonNumber::NegInt(i))
            } else {
                JsonValue::Number(JsonNumber::Float(n.to_string()))
            }
        }
        serde_json::Value::String(s) => JsonValue::Str(s.clone()),
        serde_json::Value::Array(a) => JsonValue::Array(a.iter().map(to_value).collect()),
        serde_json::Value::Object(m) => JsonValue::Object(m.iter().map(|(k, v)| (k.clone(), to_value(v))).collect()),
    }
}

fn decode(raw: &str) -> ClientMessage {
    let v: serde_json::Value = serde_json::from_str(raw).unwrap();
    ClientMessage {
        event: v["event"].as_str().unwrap().to_string(),
        data: v.get("data").map(to_value).unwrap_or(JsonValue::Null),
        channel: v.get("channel").and_then(|c| c.as_str()).map(|c| c.to_string()),
    }
}

fn parse(msg: &ServerMessage) -> serde_json::Value {
    serde_json::from_str(&msg.to_json()).unwrap()
}

#[test]
fn test_connection_established_double_serialized() {
    let msg = ServerMessage::connection_established("123.456", 30);
    assert_eq!(msg.event, "pusher:connection_established");
    let json = parse(&msg);
    let data_str = json["data"].as_str().unwrap();
    let inner: serde_json::Value = serde_json::from_str(data_str).unwrap();
    assert_eq!(inner["socket_id"], "123.456");
    assert_eq!(inner["activity_timeout"], 30);
}

#[test]
fn test_pong() {
    let msg = ServerMessage::pong();
    assert_eq!(msg.event, "pusher:pong");
    let json = parse(&msg);
    assert!(json.get("data").is_none());
    assert_eq!(msg.to_json(), PONG_JSON);
    assert_eq!(ServerMessage::ping().to_json(), PING_JSON);
}

#[test]
fn test_error_with_code() {
    let msg = ServerMessage::error("Something went wrong", Some(4001));
    let json = parse(&msg);
    assert_eq!(json["event"], "pusher:error");
    let data_str = json["data"].as_str().unwrap();
    let inner: serde_json::Value = serde_json::from_str(data_str).unwrap();
    assert_eq!(inner["message"], "Something went wrong");
    assert_eq!(inner["code"], 4001);
}

#[test]
fn test_error_without_code() {
    let msg = ServerMessage::error("Oops", None);
    let json = parse(&msg);
    let data_str = json["data"].as_str().unwrap();
    let inner: serde_json::Value = serde_json::from_str(data_str).unwrap();
    assert_eq!(inner["message"], "Oops");
    assert!(inner.get("code").is_none());
}

#[test]
fn error_text_is_exact() {
    let msg = ServerMessage::error("a\"b", Some(4009));
    assert_eq!(msg.to_json(), r#"{"event":"pusher:error","data":"{\"code\":4009,\"message\":\"a\\\"b\"}"}"#);
}

#[test]
fn test_subscription_succeeded() {
    let msg = ServerMessage::subscription_succeeded("my-channel");
    let json = parse(&msg);
    assert_eq!(json["event"], "pusher_internal:subscription_succeeded");
    assert_eq!(json["channel"], "my-channel");
    assert_eq!(json["data"], "{}");
}

#[test]
fn test_presence_subscription_succeeded_double_serialized() {
    let ids = vec!["user1".to_string(), "user2".to_string()];
    let hash = r#"{"user1":{"name":"Alice"},"user2":{"name":"Bob"}}"#;
    let msg = ServerMessage::presence_subscription_succeeded("presence-room", &ids, hash, 2);
    let json = parse(&msg);
    assert_eq!(json["event"], "pusher_internal:subscription_succeeded");
    assert_eq!(json["channel"], "presence-room");
    let data_str = json["data"].as_str().unwrap();
    let inner: serde_json::Value = serde_json::from_str(data_str).unwrap();
    assert_eq!(inner["presence"]["count"], 2);
    assert!(inner["presence"]["ids"].is_array());
    assert!(inner["presence"]["hash"].is_object());
}

#[test]
fn presence_succeeded_sorts_hash_keys() {
    let (b, bi, a, ai) = ("b".to_string(), "{}".to_string(), "a".to_string(), "1".to_string());
    let members = vec![(&b, &bi), (&a, &ai)];
    let msg = presence_succeeded("presence-x", &members);
    let json = parse(&msg);
    let data = json["data"].as_str().unwrap();
    assert_eq!(data, r#"{"presence":{"count":2,"hash":{"a":1,"b":{}},"ids":["b","a"]}}"#);
}

#[test]
fn test_member_added() {
    let msg = ServerMessage::member_added("presence-room", "user1", r#"{"name":"Alice"}"#);
    let json = parse(&msg);
    assert_eq!(json["event"], "pusher_internal:member_added");
    assert_eq!(json["channel"], "presence-room");
    let data_str = json["data"].as_str().unwrap();
    let inner: serde_json::Value = serde_json::from_str(data_str).unwrap();
    assert_eq!(inner["user_id"], "user1");
    assert_eq!(inner["user_info"]["name"], "Alice");
}

#[test]
fn test_member_removed() {
    let msg = ServerMessage::member_removed("presence-room", "user1");
    let json = parse(&msg);
    assert_eq!(json["event"], "pusher_internal:member_removed");
    let data_str = json["data"].as_str().unwrap();
    let inner: serde_json::Value = serde_json::from_str(data_str).unwrap();
    assert_eq!(inner["user_id"], "user1");
}

#[test]
fn test_channel_event() {
    let msg = ServerMessage::channel_event("my-event", "my-channel", "\"hello\"".to_string(), Some("user1".to_string()));
    let json = parse(&msg);
    assert_eq!(json["event"], "my-event");
    assert_eq!(json["channel"], "my-channel");
    assert_eq!(json["data"], "hello");
    assert_eq!(json["user_id"], "user1");
}

#[test]
fn test_channel_event_no_user_id_omitted() {
    let msg = ServerMessage::channel_event("ev", "ch", "\"x\"".to_string(), None);
    let json = parse(&msg);
    assert!(json.get("user_id").is_none());
}

#[test]
fn test_cache_miss() {
    let msg = ServerMessage::cache_miss("cache-my-channel");
    let json = parse(&msg);
    assert_eq!(json["event"], "pusher:cache_miss");
    assert_eq!(json["channel"], "cache-my-channel");
}

#[test]
fn test_signin_success() {
    let msg = ServerMessage::signin_success(r#"{"id":"user1"}"#);
    let json = parse(&msg);
    assert_eq!(json["event"], "pusher:signin_success");
    let data_str = json["data"].as_str().unwrap();
    let inner: serde_json::Value = serde_json::from_str(data_str).unwrap();
    assert_eq!(inner["user_data"], r#"{"id":"user1"}"#);
}

#[test]
fn test_client_message_deserialize() {
    let raw = r#"{"event":"pusher:subscribe","data":{"channel":"my-ch"}}"#;
    let msg = decode(raw);
    assert_eq!(msg.event, "pusher:subscribe");
    let data = msg.extract_data(None).unwrap();
    assert!(matches!(rushsocket::json::get_field(data, "channel"), Some(JsonValue::Str(s)) if s == "my-ch"));
    assert!(msg.channel.is_none());
}

#[test]
fn test_client_message_with_channel() {
    let raw = r#"{"event":"client-msg","data":"hello","channel":"private-chat"}"#;
    let msg = decode(raw);
    assert_eq!(msg.event, "client-msg");
    assert_eq!(msg.channel.as_deref(), Some("private-chat"));
}

#[test]
fn extract_data_uses_decoded_text_of_string_data() {
    let msg = decode(r#"{"event":"pusher:subscribe","data":"{\"channel\":\"x\"}"}"#);
    assert!(msg.extract_data(None).is_none());
    let decoded = to_value(&serde_json::from_str::<serde_json::Value>(r#"{"channel": "x"}"#).unwrap());
    assert!(msg.extract_data(Some(&decoded)).is_some());
    let not_object = JsonValue::Null;
    assert!(msg.extract_data(Some(&not_object)).is_none());
}
