use rushsocket::cache::{cache_key, MemoryCache};
use rushsocket::metrics::{AppMetrics, Metrics};

#[test]
fn counters_and_json() {
    let mut m = Metrics::new();
    m.on_connect("b");
    m.on_connect("a");
    m.on_ws_message_received("a", 10);
    m.on_ws_message_sent("zz", 5);
    m.on_disconnect("b");
    m.on_http_call(3, 4);
    assert_eq!(m.get_connected_for_app("a"), 1);
    assert_eq!(m.get_connected_for_app("b"), 0);
    assert_eq!(m.get_connected_for_app("zz"), 0);
    let v: serde_json::Value = serde_json::from_str(&m.to_json()).unwrap();
    assert_eq!(v["connected"], 1);
    assert_eq!(v["total_connections"], 2);
    assert_eq!(v["ws_bytes_sent"], 5);
    assert_eq!(v["apps"]["a"]["ws_messages_received"], 1);
    assert_eq!(v["apps"]["b"]["total_disconnections"], 1);
    assert!(v["apps"].get("zz").is_none());
    assert_eq!(v.to_string(), m.to_json());
    assert_eq!(
        AppMetrics::new().to_json(),
        r#"{"connected":0,"total_connections":0,"total_disconnections":0,"ws_messages_received":0,"ws_messages_sent":0}"#
    );
}

#[test]
fn disconnect_below_zero() {
    let mut m = Metrics::new();
    m.on_disconnect("a");
    assert_eq!(m.connected, -1);
}

#[test]
fn cache_expiry() {
    let mut c = MemoryCache::new();
    let k = cache_key("app", "cache-x");
    assert_eq!(k, "cache:app:cache-x");
    c.set(&k, "v", 2, 1000);
    assert_eq!(c.get(&k, 2999).as_deref(), Some("v"));
    assert_eq!(c.get(&k, 3000), None);
    c.set("other", "w", 10, 1000);
    c.remove_expired(5000);
    assert_eq!(c.get("other", 5000).as_deref(), Some("w"));
    c.forget("other");
    assert_eq!(c.get("other", 5000), None);
}

#[test]
fn cache_read_after_write_other_keys() {
    let mut c = MemoryCache::new();
    c.set("a", "1", 1, 0);
    c.set("b", "2", 5, 0);
    c.set("a", "3", 2, 0);
    assert_eq!(c.get("a", 1999).as_deref(), Some("3"));
    assert_eq!(c.get("a", 2000), None);
    assert_eq!(c.get("b", 4999).as_deref(), Some("2"));
    c.forget("a");
    assert_eq!(c.get("a", 0), None);
    assert_eq!(c.get("b", 0).as_deref(), Some("2"));
}

#[test]
fn connect_then_disconnect_balances() {
    let mut m = Metrics::new();
    m.on_connect("other");
    let before = m.to_json();
    m.on_connect("app");
    m.on_disconnect("app");
    assert_eq!(m.connected, 1);
    assert_eq!(m.get_connected_for_app("app"), 0);
    assert_eq!(m.get_connected_for_app("other"), 1);
    let v: serde_json::Value = serde_json::from_str(&m.to_json()).unwrap();
    assert_eq!(v["apps"]["app"]["total_connections"], 1);
    assert_eq!(v["apps"]["app"]["total_disconnections"], 1);
    let b: serde_json::Value = serde_json::from_str(&before).unwrap();
    assert_eq!(v["apps"]["other"], b["apps"]["other"]);
}
