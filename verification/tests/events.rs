use rushsocket::app::App;
use rushsocket::auth::sign;
use rushsocket::config::AppConfig;
use rushsocket::json::{JsonNumber, JsonValue};
use rushsocket::protocol::channels::ChannelKind;
use rushsocket::protocol::messages::ClientMessage;
use rushsocket::rate_limit::LocalRateLimiter;
use rushsocket::websocket::connection::WsConnection;
use rushsocket::websocket::events::{
    admission, begin_subscribe, begin_unsubscribe, cache_replay, client_event_effects, closing_leaves, error_effects, finish_join,
    finish_presence_join, handle_client_event, invalid_json_effects, leave_effects, on_activity_timeout,
    on_data_frame, pong_effects, presence_limit_effects, route, signin, unknown_event_effects, Admission, Effect,
    Route, SubscribeStart, TimerAction,
};

fn test_app() -> App {
    let mut c = AppConfig::default();
    c.id = "app-1".to_string();
    c.key = "app-key".to_string();
    c.secret = "app-secret".to_string();
    App::from(c)
}

fn obj(fields: Vec<(&str, JsonValue)>) -> Vec<(String, JsonValue)> {
    fields.into_iter().map(|(k, v)| (k.to_string(), v)).collect()
}

fn s(t: &str) -> JsonValue {
    JsonValue::Str(t.to_string())
}

fn error_text(e: &Effect) -> String {
    match e {
        Effect::Send(m) => {
            assert_eq!(m.event, "pusher:error");
            let inner: serde_json::Value = serde_json::from_str(
                serde_json::from_str::<serde_json::Value>(m.data.as_ref().unwrap()).unwrap().as_str().unwrap(),
            )
            .unwrap();
            inner["message"].as_str().unwrap().to_string()
        }
        _ => panic!("not an error"),
    }
}

fn rejected(r: &SubscribeStart) -> Option<String> {
    match r {
        SubscribeStart::Reject(t) => Some(t.clone()),
        _ => None,
    }
}

#[test]
fn routes_by_event_name() {
    assert_eq!(route("pusher:ping"), Route::Ping);
    assert_eq!(route("pusher:subscribe"), Route::Subscribe);
    assert_eq!(route("pusher:unsubscribe"), Route::Unsubscribe);
    assert_eq!(route("pusher:signin"), Route::Signin);
    assert_eq!(route("client-typing"), Route::ClientEvent);
    assert_eq!(route("pusher:other"), Route::Unknown);
    assert_eq!(error_text(&unknown_event_effects("x")[0]), "Unknown event: x");
    assert_eq!(error_text(&invalid_json_effects()[0]), "Invalid JSON");
    assert!(matches!(&pong_effects()[0], Effect::SendRaw(t) if t == "{\"event\":\"pusher:pong\"}"));
}

#[test]
fn admission_order() {
    let app = test_app();
    assert!(matches!(admission(true, None, None, false), Admission::Ignore));
    assert!(matches!(admission(false, None, None, false), Admission::Refuse(ref m) if m.to_json().contains("Could not find app")));
    let mut disabled = test_app();
    disabled.enabled = false;
    assert!(matches!(admission(false, Some(&disabled), None, false), Admission::Refuse(ref m) if m.to_json().contains("4003")));
    let mut strict = test_app();
    strict.allowed_origins = vec!["https://a.com".to_string()];
    assert!(matches!(admission(false, Some(&strict), Some("https://b.com"), false), Admission::Refuse(ref m) if m.to_json().contains("Origin not allowed")));
    assert!(matches!(admission(false, Some(&app), None, true), Admission::Refuse(ref m) if m.to_json().contains("Memory usage too high")));
    assert!(matches!(admission(false, Some(&app), None, false), Admission::Accept));
}

#[test]
fn subscribe_public_channel() {
    let app = test_app();
    let mut conn = WsConnection::new("1.2");
    let data = obj(vec![("channel", s("my-channel"))]);
    let start = begin_subscribe(&app, &conn, Some(&data), None);
    let (channel, kind) = match start {
        SubscribeStart::Join(c, k) => (c, k),
        _ => panic!("expected a join"),
    };
    assert_eq!(kind, ChannelKind::Public);
    let effects = finish_join(&app, &mut conn, channel, kind, true);
    assert!(conn.is_subscribed("my-channel"));
    assert!(!conn.user_authenticated);
    assert!(matches!(&effects[0], Effect::Send(m) if m.event == "pusher_internal:subscription_succeeded"));
    assert!(matches!(&effects[1], Effect::OccupiedWebhook(c) if c == "my-channel"));
    assert_eq!(effects.len(), 2);
    let again = begin_subscribe(&app, &conn, Some(&data), None);
    assert!(matches!(again, SubscribeStart::Ignore));
}

#[test]
fn subscribe_rejections() {
    let app = test_app();
    let conn = WsConnection::new("1.2");
    assert_eq!(rejected(&begin_subscribe(&app, &conn, None, None)).unwrap(), "Invalid data");
    let no_channel = obj(vec![("channel", JsonValue::Number(JsonNumber::PosInt(1)))]);
    assert_eq!(rejected(&begin_subscribe(&app, &conn, Some(&no_channel), None)).unwrap(), "No channel provided");
    let bad = obj(vec![("channel", s("bad name"))]);
    assert_eq!(rejected(&begin_subscribe(&app, &conn, Some(&bad), None)).unwrap(), "Invalid channel name");
    let private_no_auth = obj(vec![("channel", s("private-a"))]);
    assert_eq!(rejected(&begin_subscribe(&app, &conn, Some(&private_no_auth), None)).unwrap(), "Authorization required");
    let private_bad = obj(vec![("channel", s("private-a")), ("auth", s("app-key:nope"))]);
    assert_eq!(rejected(&begin_subscribe(&app, &conn, Some(&private_bad), None)).unwrap(), "Authorization failed");
    let presence_no_data = obj(vec![("channel", s("presence-a")), ("auth", s("app-key:x"))]);
    assert_eq!(
        rejected(&begin_subscribe(&app, &conn, Some(&presence_no_data), None)).unwrap(),
        "Presence channel requires channel_data"
    );
}

#[test]
fn subscribe_private_channel_authenticates() {
    let app = test_app();
    let mut conn = WsConnection::new("1.2");
    let auth = format!("app-key:{}", sign("app-secret", "1.2:private-a"));
    let data = obj(vec![("channel", s("private-a")), ("auth", s(&auth))]);
    let (channel, kind) = match begin_subscribe(&app, &conn, Some(&data), None) {
        SubscribeStart::Join(c, k) => (c, k),
        _ => panic!("expected a join"),
    };
    let effects = finish_join(&app, &mut conn, channel, kind, false);
    assert!(conn.user_authenticated);
    assert_eq!(effects.len(), 1);
}

#[test]
fn subscribe_presence_channel() {
    let app = test_app();
    let mut conn = WsConnection::new("1.2");
    let cd_text = r#"{"user_id":7,"user_info":{"name":"Al"}}"#;
    let auth = format!("app-key:{}", sign("app-secret", &format!("1.2:presence-a:{}", cd_text)));
    let data = obj(vec![("channel", s("presence-a")), ("auth", s(&auth)), ("channel_data", s(cd_text))]);
    let cd = JsonValue::Object(obj(vec![
        ("user_id", JsonValue::Number(JsonNumber::PosInt(7))),
        ("user_info", JsonValue::Object(obj(vec![("name", s("Al"))]))),
    ]));
    assert_eq!(rejected(&begin_subscribe(&app, &conn, Some(&data), None)).unwrap(), "Invalid channel_data JSON");
    let join = match begin_subscribe(&app, &conn, Some(&data), Some(&cd)) {
        SubscribeStart::JoinPresence(p) => p,
        _ => panic!("expected a presence join"),
    };
    assert_eq!(join.user_id, "7");
    assert_eq!(join.user_info, r#"{"name":"Al"}"#);
    let (uid, info) = (join.user_id.clone(), join.user_info.clone());
    let members = vec![(&uid, &info)];
    let effects = finish_presence_join(&app, &mut conn, join, true, &members, true);
    assert!(matches!(&effects[0], Effect::Webhook(w) if w.name == "channel_occupied"));
    assert!(matches!(&effects[1], Effect::Send(m) if m.event == "pusher_internal:subscription_succeeded"));
    assert!(matches!(&effects[2], Effect::Broadcast(c, m, Some(ex)) if c == "presence-a" && m.event == "pusher_internal:member_added" && ex == "1.2"));
    assert!(matches!(&effects[3], Effect::Webhook(w) if w.name == "member_added"));
    assert_eq!(effects.len(), 4);
    assert!(conn.get_presence("presence-a").is_some());
    assert_eq!(error_text(&presence_limit_effects()[0]), "Over presence member limit");
}

#[test]
fn presence_member_size_and_user_id_checks() {
    let mut app = test_app();
    let conn = WsConnection::new("1.2");
    let cd_text = r#"{"user_info":{}}"#;
    let auth = format!("app-key:{}", sign("app-secret", &format!("1.2:presence-a:{}", cd_text)));
    let data = obj(vec![("channel", s("presence-a")), ("auth", s(&auth)), ("channel_data", s(cd_text))]);
    let cd = JsonValue::Object(obj(vec![("user_info", JsonValue::Object(vec![]))]));
    assert_eq!(rejected(&begin_subscribe(&app, &conn, Some(&data), Some(&cd))).unwrap(), "channel_data must contain user_id");
    let cd2_text = r#"{"user_id":"u"}"#;
    let auth2 = format!("app-key:{}", sign("app-secret", &format!("1.2:presence-a:{}", cd2_text)));
    let data2 = obj(vec![("channel", s("presence-a")), ("auth", s(&auth2)), ("channel_data", s(cd2_text))]);
    let cd2 = JsonValue::Object(obj(vec![("user_id", s("u"))]));
    app.max_presence_member_size_in_kb = 0;
    assert_eq!(rejected(&begin_subscribe(&app, &conn, Some(&data2), Some(&cd2))).unwrap(), "Member data too large");
    app.max_presence_member_size_in_kb = 1;
    match begin_subscribe(&app, &conn, Some(&data2), Some(&cd2)) {
        SubscribeStart::JoinPresence(p) => assert_eq!(p.user_info, "{}"),
        _ => panic!("expected a presence join"),
    }
}

#[test]
fn unsubscribe_and_leave() {
    let app = test_app();
    let mut conn = WsConnection::new("1.2");
    conn.add_channel("presence-a".to_string());
    conn.set_presence("presence-a".to_string(), "u1".to_string(), "{}".to_string());
    let data = obj(vec![("channel", s("presence-a"))]);
    let leave = begin_unsubscribe(&mut conn, Some(&data)).unwrap();
    assert_eq!(leave.user_id.as_deref(), Some("u1"));
    assert!(!conn.is_subscribed("presence-a"));
    assert!(conn.get_presence("presence-a").is_none());
    let effects = leave_effects(&app, "1.2", &leave, true, true);
    assert!(matches!(&effects[0], Effect::Broadcast(_, m, _) if m.event == "pusher_internal:member_removed"));
    assert!(matches!(&effects[1], Effect::Webhook(w) if w.name == "member_removed"));
    assert!(matches!(&effects[2], Effect::VacatedWebhook(c) if c == "presence-a"));
    assert_eq!(effects.len(), 3);
    assert!(begin_unsubscribe(&mut conn, Some(&data)).is_none());
}

#[test]
fn closing_lists_channels_with_presence_users() {
    let mut conn = WsConnection::new("1.2");
    conn.add_channel("a".to_string());
    conn.add_channel("presence-b".to_string());
    conn.set_presence("presence-b".to_string(), "u".to_string(), "{}".to_string());
    let leaves = closing_leaves(&conn);
    assert_eq!(leaves.len(), 2);
    for l in &leaves {
        if l.channel == "presence-b" {
            assert_eq!(l.user_id.as_deref(), Some("u"));
        } else {
            assert!(l.user_id.is_none());
        }
    }
}

#[test]
fn signin_flow() {
    let mut app = test_app();
    let mut conn = WsConnection::new("1.2");
    let ud = r#"{"id":"user1"}"#;
    let auth = format!("app-key:{}", sign("app-secret", &format!("1.2::user::{}", ud)));
    let data = obj(vec![("auth", s(&auth)), ("user_data", s(ud))]);
    let value = JsonValue::Object(obj(vec![("id", s("user1"))]));
    app.enable_user_authentication = false;
    assert_eq!(error_text(&signin(&app, &mut conn, Some(&data), None)[0]), "User authentication is not enabled");
    app.enable_user_authentication = true;
    assert_eq!(error_text(&signin(&app, &mut conn, Some(&data), None)[0]), "Invalid user_data JSON");
    let effects = signin(&app, &mut conn, Some(&data), Some(value));
    assert!(matches!(&effects[0], Effect::AddUser(u) if u == "user1"));
    assert!(matches!(&effects[1], Effect::Send(m) if m.event == "pusher:signin_success"));
    assert_eq!(conn.user.as_ref().unwrap().id, "user1");
    assert!(conn.user_authenticated);
}

#[test]
fn client_events() {
    let mut app = test_app();
    let mut conn = WsConnection::new("1.2");
    conn.add_channel("private-a".to_string());
    let msg = ClientMessage {
        event: "client-typing".to_string(),
        data: JsonValue::Object(obj(vec![("x", JsonValue::Bool(true))])),
        channel: Some("private-a".to_string()),
    };
    let effects = client_event_effects(&app, &conn, &msg, true);
    assert!(matches!(&effects[0], Effect::Webhook(w) if w.data.as_deref() == Some("{\"x\":true}")));
    assert!(matches!(&effects[1], Effect::Broadcast(c, m, Some(ex)) if c == "private-a" && ex == "1.2" && m.to_json() == "{\"event\":\"client-typing\",\"data\":{\"x\":true},\"channel\":\"private-a\"}"));
    assert_eq!(error_text(&client_event_effects(&app, &conn, &msg, false)[0]), "Rate limit exceeded");
    app.client_event_mode = "members".to_string();
    assert_eq!(
        error_text(&client_event_effects(&app, &conn, &msg, true)[0]),
        "Client events require presence channel membership"
    );
    app.client_event_mode = "none".to_string();
    assert_eq!(error_text(&client_event_effects(&app, &conn, &msg, true)[0]), "Client events are not enabled for this app");
    app.client_event_mode = "all".to_string();
    app.max_event_payload_in_kb = 0;
    assert_eq!(error_text(&client_event_effects(&app, &conn, &msg, true)[0]), "Event payload too large");
    let mut limiter = LocalRateLimiter::new();
    app.max_event_payload_in_kb = 10;
    let out = handle_client_event(&app, &conn, &mut limiter, &msg);
    assert_eq!(out.len(), 2);
    assert!(limiter.has_client_limiter("1.2") == (app.max_client_events_per_sec > 0));
}

#[test]
fn frames_and_activity_timer() {
    let mut conn = WsConnection::new("1.2");
    assert!(on_data_frame(&mut conn, 1025, 1).is_some());
    assert!(on_data_frame(&mut conn, 1024, 1).is_none());
    assert!(matches!(on_activity_timeout(&mut conn), TimerAction::Ping));
    assert!(conn.is_stale());
    assert!(matches!(on_activity_timeout(&mut conn), TimerAction::Close(ref m) if m.to_json().contains("4201")));
    assert!(on_data_frame(&mut conn, 10, 1).is_none());
    assert!(!conn.is_stale());
}

#[test]
fn cache_replay_found_and_missing() {
    let hit = cache_replay("cache-a", Some("{\"event\":\"e\"}".to_string()));
    assert!(matches!(&hit[0], Effect::SendRaw(t) if t == "{\"event\":\"e\"}"));
    let miss = cache_replay("cache-a", None);
    assert!(matches!(&miss[0], Effect::Send(m) if m.event == "pusher:cache_miss"));
    assert!(matches!(&miss[1], Effect::Webhook(w) if w.name == "cache_miss"));
}

#[test]
fn refusal_effects() {
    let effects = error_effects("Authorization failed");
    assert_eq!(effects.len(), 1);
    assert_eq!(error_text(&effects[0]), "Authorization failed");
}

#[test]
fn client_event_through_the_limiter() {
    let mut app = test_app();
    let mut conn = WsConnection::new("1.3");
    conn.add_channel("private-b".to_string());
    let msg = ClientMessage {
        event: "client-x".to_string(),
        data: JsonValue::Bool(true),
        channel: Some("private-b".to_string()),
    };
    let mut limiter = LocalRateLimiter::new();
    // unlimited: every event goes through, and no limiter is made
    app.max_client_events_per_sec = -1;
    for _ in 0..5 {
        assert_eq!(handle_client_event(&app, &conn, &mut limiter, &msg).len(), 2);
    }
    assert!(!limiter.has_client_limiter("1.3"));
    // limited: the first event of a socket goes through and makes its limiter
    app.max_client_events_per_sec = 1;
    assert_eq!(handle_client_event(&app, &conn, &mut limiter, &msg).len(), 2);
    assert!(limiter.has_client_limiter("1.3"));
    // the next one at once is refused
    assert_eq!(error_text(&handle_client_event(&app, &conn, &mut limiter, &msg)[0]), "Rate limit exceeded");
}
