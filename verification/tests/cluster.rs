use rushsocket::adapter::merge::{aggregate_metrics, merge_metrics};
use rushsocket::json::{to_json_text, JsonNumber, JsonValue};
use rushsocket::adapter::cluster::{
    broadcast_channel, globally_vacated, node_stats_key, occupancy_key, presence_key, presence_sockets_key,
    request_channel, response_channel, should_handle_broadcast, PeerRegistry, PendingResponses,
};

#[test]
fn keys() {
    assert_eq!(occupancy_key("p", "a", "c"), "p:occupied:a:c");
    assert_eq!(presence_key("p", "a", "c"), "p:presence:a:c");
    assert_eq!(presence_sockets_key("p", "a", "c"), "p:psock:a:c");
    assert_eq!(node_stats_key("p", "n"), "p:node_stats:n");
    assert_eq!(broadcast_channel("p"), "p#broadcast");
    assert_eq!(request_channel("p"), "p#request");
    assert_eq!(response_channel("p", "n"), "p#response:n");
}

#[test]
fn broadcasts_and_vacancy() {
    assert!(!should_handle_broadcast("me", "me"));
    assert!(should_handle_broadcast("other", "me"));
    assert!(globally_vacated(true, 0, None));
    assert!(globally_vacated(true, 0, Some(&vec![0, 0])));
    assert!(!globally_vacated(true, 0, Some(&vec![0, 1])));
    assert!(!globally_vacated(true, 1, None));
    assert!(!globally_vacated(false, 0, None));
}

#[test]
fn pending_responses_deliver_once() {
    let mut p: PendingResponses<u32> = PendingResponses::new(2);
    assert!(!p.add(1));
    assert!(p.add(2));
    assert!(!p.add(3));
    assert_eq!(p.responses, vec![1, 2, 3]);
}

#[test]
fn peers_expire() {
    let mut r = PeerRegistry::new();
    r.record_peer("a", 1_000);
    r.record_peer("b", 50_000);
    let mut live = r.live_peers(61_000);
    live.sort();
    assert_eq!(live, vec!["b".to_string()]);
    assert_eq!(r.live_peers(200_000).len(), 0);
}

fn to_value(v: &serde_json::Value) -> JsonValue {
    match v {
        serde_json::Value::Null => JsonValue::Null,
        serde_json::Value::Bool(b) => JsonValue::Bool(*b),
        serde_json::Value::Number(n) => {
            if let Some(u) = n.as_u64() {
                JsonValue::Number(JsonNumber::PosInt(u))
            } else if let Some(i) = n.as_i64() {
                JsonValue::Number(JsonNumber::NegInt(i))
            } else {
                JsonValue::Number(JsonNumber::Float(n.to_string()))
            }
        }
        serde_json::Value::String(s) => JsonValue::Str(s.clone()),
        serde_json::Value::Array(a) => JsonValue::Array(a.iter().map(to_value).collect()),
        serde_json::Value::Object(m) => JsonValue::Object(m.iter().map(|(k, v)| (k.clone(), to_value(v))).collect()),
    }
}

fn parsed(t: &str) -> JsonValue {
    to_value(&serde_json::from_str::<serde_json::Value>(t).unwrap())
}

#[test]
fn metrics_merge_sums_counters_and_apps() {
    let local = parsed(r#"{"apps":{"a":{"connected":1}},"connected":1,"x":"s"}"#);
    let remote = parsed(r#"{"apps":{"a":{"connected":2},"b":{"connected":5}},"connected":3,"new":7,"x":1}"#);
    let merged = merge_metrics(local, &remote);
    assert_eq!(
        to_json_text(&merged),
        r#"{"apps":{"a":{"connected":3},"b":{"connected":5}},"connected":4,"new":7,"x":"s"}"#
    );
    let none = aggregate_metrics(parsed(r#"{"connected":1}"#), &vec![]);
    assert_eq!(to_json_text(&none), r#"{"connected":1}"#);
    let two = aggregate_metrics(parsed(r#"{"connected":1}"#), &vec![parsed(r#"{"connected":2}"#), parsed(r#"{"connected":-4}"#)]);
    assert_eq!(to_json_text(&two), r#"{"connected":-1}"#);
    let no_apps = merge_metrics(parsed(r#"{}"#), &parsed(r#"{"apps":3}"#));
    assert_eq!(to_json_text(&no_apps), r#"{"apps":{}}"#);
}

#[test]
fn cluster_presence_decisions() {
    assert!(rushsocket::adapter::cluster::presence_admits(true, 5, 5));
    assert!(rushsocket::adapter::cluster::presence_admits(false, 4, 5));
    assert!(!rushsocket::adapter::cluster::presence_admits(false, 5, 5));
    assert!(rushsocket::adapter::cluster::presence_first_socket(1));
    assert!(!rushsocket::adapter::cluster::presence_first_socket(2));
    assert!(rushsocket::adapter::cluster::presence_last_socket(0));
    assert!(rushsocket::adapter::cluster::presence_last_socket(-1));
    assert!(!rushsocket::adapter::cluster::presence_last_socket(1));
}
