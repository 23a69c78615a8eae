use rushsocket::metrics::Metrics;
use rushsocket::stats::{stats_report, AppLive};

#[test]
fn stats_report_totals_and_breakdown() {
    let mut m = Metrics::new();
    m.on_connect("a1");
    m.on_ws_message_received("a1", 10);
    m.on_ws_message_sent("a1", 7);
    m.on_http_call(100, 50);
    let apps = vec![
        AppLive { id: "a2".to_string(), channels: 3, connections: 0 },
        AppLive { id: "a1".to_string(), channels: 2, connections: 1 },
    ];
    let r = stats_report("0.1.0", 42, "local", "full", false, &m, &apps, "{\"pid\":7}", "{}");
    let v: serde_json::Value = serde_json::from_str(&r).unwrap();
    assert_eq!(v["channels"]["total"], 5);
    assert_eq!(v["network"]["total_bytes_in"], 110);
    assert_eq!(v["network"]["total_bytes_out"], 57);
    assert_eq!(v["apps"]["a1"]["channels"], 2);
    assert_eq!(v["apps"]["a1"]["live_connections"], 1);
    assert_eq!(v["apps"]["a1"]["connected"], 1);
    assert_eq!(v["apps"]["a2"].to_string(), "{\"channels\":3,\"live_connections\":0}");
    assert_eq!(v["server"]["uptime_seconds"], 42);
    assert_eq!(v["server"]["closing"], false);
    assert_eq!(v["process"]["pid"], 7);
    // the text is serde's own rendering of the value, keys in order
    assert_eq!(r, v.to_string());
}

#[test]
fn stats_report_without_apps() {
    let m = Metrics::new();
    let r = stats_report("1", 0, "redis", "full", true, &m, &Vec::new(), "{}", "{}");
    assert_eq!(
        r,
        "{\"apps\":{},\"channels\":{\"total\":0},\"connections\":{\"current\":0,\"total\":0,\"total_disconnections\":0},\
\"messages\":{\"http_calls\":0,\"ws_received\":0,\"ws_sent\":0},\"network\":{\"http_bytes_received\":0,\
\"http_bytes_sent\":0,\"total_bytes_in\":0,\"total_bytes_out\":0,\"ws_bytes_received\":0,\"ws_bytes_sent\":0},\
\"process\":{},\"server\":{\"adapter\":\"redis\",\"closing\":true,\"mode\":\"full\",\"uptime_seconds\":0,\
\"version\":\"1\"},\"system\":{}}"
    );
}
