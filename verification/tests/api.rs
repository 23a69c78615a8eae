use rushsocket::app::App;
use rushsocket::auth::sign;
use rushsocket::config::AppConfig;
use rushsocket::http::api::{
    api_path, authenticate_request, channel_list_query, channel_listed, info_fields, parse_info, trigger_channels,
    users_channel_check, validate_batch, wanted, batch_response, channel_counts_json, trigger_response, BatchEvent,
    api_event_message, caches_event, channels_response, rate_limit_error, ready_ok, users_response,
    TriggerRequest,
};
use rushsocket::http::auth::body_md5;
use rushsocket::sorted::SortedStrMap;

fn app() -> App {
    let mut c = AppConfig::default();
    c.id = "1".to_string();
    c.secret = "secret".to_string();
    App::from(c)
}

fn signed(method: &str, path: &str, mut params: SortedStrMap) -> SortedStrMap {
    let q = rushsocket::http::auth::signing_query(&params);
    let sig = sign("secret", &format!("{}\n{}\n{}", method, path, q));
    params.insert("auth_signature".to_string(), sig);
    params
}

#[test]
fn authentication_order() {
    let a = app();
    let path = api_path("1", "/events");
    assert_eq!(path, "/apps/1/events");
    let empty = SortedStrMap::new();
    assert_eq!(authenticate_request(None, &empty, "POST", &path, None).unwrap_err().status, 404);
    assert_eq!(authenticate_request(Some(&a), &empty, "POST", &path, None).unwrap_err().message, "Missing auth_signature");
    let mut bad = SortedStrMap::new();
    bad.insert("auth_signature".to_string(), "x".to_string());
    assert_eq!(authenticate_request(Some(&a), &bad, "POST", &path, None).unwrap_err().message, "Invalid signature");
    let mut p = SortedStrMap::new();
    p.insert("body_md5".to_string(), body_md5(b"{}"));
    let p = signed("POST", &path, p);
    assert!(authenticate_request(Some(&a), &p, "POST", &path, Some(b"{}")).is_ok());
    let e = authenticate_request(Some(&a), &p, "POST", &path, Some(b"{ }")).unwrap_err();
    assert_eq!((e.status, e.message.as_str()), (400, "body_md5 mismatch"));
}

#[test]
fn info_parsing() {
    assert_eq!(parse_info(" subscription_count , user_count,"), vec!["subscription_count", "user_count", ""]);
    assert_eq!(parse_info(""), vec![""]);
    assert_eq!(wanted(Some("user_count")), (false, true));
    assert_eq!(wanted(None), (false, false));
    assert_eq!(info_fields(true, true, "my-ch"), (true, false));
    assert_eq!(info_fields(false, true, "presence-x"), (false, true));
}

#[test]
fn trigger_checks() {
    let mut a = app();
    let mut req = TriggerRequest {
        name: "ev".to_string(),
        data: "x".repeat(10),
        channels: None,
        channel: None,
        socket_id: None,
        info: None,
    };
    assert_eq!(trigger_channels(&a, &req).unwrap_err().message, "No channels specified");
    req.channel = Some("c".to_string());
    assert_eq!(trigger_channels(&a, &req).unwrap(), vec!["c".to_string()]);
    req.channels = Some(vec!["a".to_string(), "b".to_string()]);
    assert_eq!(trigger_channels(&a, &req).unwrap().len(), 2);
    a.max_event_channels_at_once = 1;
    assert_eq!(trigger_channels(&a, &req).unwrap_err().message, "Too many channels");
    a.max_event_channels_at_once = 10;
    a.max_event_payload_in_kb = 0;
    let e = trigger_channels(&a, &req).unwrap_err();
    assert_eq!(e.status, 413);
    assert_eq!(e.message, "The data content of this event exceeds the allowed maximum (0)");
}

#[test]
fn batch_checks() {
    let mut a = app();
    let ev = |d: &str| BatchEvent { name: "e".to_string(), data: d.to_string(), channel: "c".to_string(), socket_id: None, info: None };
    assert!(validate_batch(&a, &vec![ev("1"), ev("2")]).is_ok());
    a.max_event_batch_size = 1;
    assert_eq!(validate_batch(&a, &vec![ev("1"), ev("2")]).unwrap_err().message, "Batch too large");
    a.max_event_batch_size = 5;
    a.max_event_payload_in_kb = 1;
    let big = "y".repeat(1025);
    assert_eq!(validate_batch(&a, &vec![ev("1"), ev(&big)]).unwrap_err().status, 413);
}

#[test]
fn channel_listing() {
    let mut p = SortedStrMap::new();
    p.insert("info".to_string(), "user_count".to_string());
    assert_eq!(channel_list_query(&p).unwrap_err().status, 400);
    p.insert("filter_by_prefix".to_string(), "presence-".to_string());
    let q = channel_list_query(&p).unwrap();
    assert!(q.user_count && !q.subscription_count);
    assert_eq!(q.prefix.as_deref(), Some("presence-"));
    assert!(channel_listed("presence-a", Some("presence-")));
    assert!(!channel_listed("a", Some("presence-")));
    assert!(channel_listed("a", None));
    assert!(users_channel_check("presence-a").is_ok());
    assert_eq!(users_channel_check("a").unwrap_err().message, "Not a presence channel");
}

#[test]
fn publish_responses() {
    assert_eq!(channel_counts_json(Some(3), Some(1)), "{\"subscription_count\":3,\"user_count\":1}");
    assert_eq!(channel_counts_json(Some(0), None), "{\"subscription_count\":0}");
    assert_eq!(channel_counts_json(None, Some(2)), "{\"user_count\":2}");
    assert_eq!(channel_counts_json(None, None), "{}");
    let mut infos = SortedStrMap::new();
    assert_eq!(trigger_response(&infos), "{}");
    infos.insert("b".to_string(), channel_counts_json(Some(1), None));
    infos.insert("a".to_string(), channel_counts_json(None, None));
    assert_eq!(trigger_response(&infos), "{\"channels\":{\"a\":{},\"b\":{\"subscription_count\":1}}}");
    assert_eq!(batch_response(&vec![None, None]), "{}");
    assert_eq!(batch_response(&vec![]), "{}");
    assert_eq!(
        batch_response(&vec![None, Some("{\"subscription_count\":2}".to_string())]),
        "{\"batch\":[{},{\"subscription_count\":2}]}"
    );
}

#[test]
fn publish_messages_and_listing() {
    let m = api_event_message("ev", "cache-x", "{\"a\":1}");
    assert_eq!(m.to_json(), "{\"event\":\"ev\",\"data\":\"{\\\"a\\\":1}\",\"channel\":\"cache-x\"}");
    let a = app();
    assert!(caches_event(&a, "cache-x"));
    assert!(caches_event(&a, "cache-private-x"));
    assert!(!caches_event(&a, "private-cache-x"));
    assert!(!caches_event(&a, "news"));
    let e = rate_limit_error();
    assert_eq!((e.status, e.message.as_str()), (429, "Rate limit exceeded"));
    let mut infos = SortedStrMap::new();
    assert_eq!(channels_response(&infos), "{\"channels\":{}}");
    infos.insert("z".to_string(), "{}".to_string());
    infos.insert("m".to_string(), channel_counts_json(Some(2), None));
    assert_eq!(channels_response(&infos), "{\"channels\":{\"m\":{\"subscription_count\":2},\"z\":{}}}");
}

#[test]
fn users_listing() {
    assert_eq!(users_response(&vec![]), "{\"users\":[]}");
    assert_eq!(
        users_response(&vec!["u1".to_string(), "a\"b".to_string()]),
        "{\"users\":[{\"id\":\"u1\"},{\"id\":\"a\\\"b\"}]}"
    );
}

#[test]
fn readiness() {
    assert!(ready_ok(true, false, true));
    assert!(ready_ok(false, true, false));
    assert!(!ready_ok(false, true, true));
    assert!(!ready_ok(false, false, false));
}
