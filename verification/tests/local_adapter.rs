use rushsocket::adapter::cluster::{handle_broadcast, handle_request, BroadcastAction, BroadcastMessage, RequestType, ResponsePayload};
use rushsocket::adapter::local::LocalAdapter;

#[test]
fn apps_are_kept_apart() {
    let mut a: LocalAdapter<String, String> = LocalAdapter::new();
    a.add_socket("app1", "s1", "c1".to_string());
    a.add_socket("app2", "s2", "c2".to_string());
    assert!(a.add_to_channel("app1", "s1", "ch"));
    assert!(a.add_to_channel("app2", "s2", "ch"));
    assert_eq!(a.get_channel_socket_count("app1", "ch"), 1);
    assert_eq!(a.get_connection_count("app1"), 1);
    assert_eq!(a.get_connection_count("nope"), 0);
    let info = a.get_channel_info("app1", "ch");
    assert!(info.occupied);
    assert_eq!(info.subscription_count, 1);
    assert_eq!(info.user_count, None);
    let mut ids = a.get_app_ids();
    ids.sort();
    assert_eq!(ids, vec!["app1".to_string(), "app2".to_string()]);
}

#[test]
fn presence_info_and_requests() {
    let mut a: LocalAdapter<String, String> = LocalAdapter::new();
    a.add_socket("app", "s1", "c1".to_string());
    a.add_to_channel("app", "s1", "presence-r");
    assert!(a.add_presence_member("app", "presence-r", "s1", "u1", "{\"n\":1}".to_string()));
    let info = a.get_channel_info("app", "presence-r");
    assert_eq!(info.user_count, Some(1));
    match handle_request(&a, &RequestType::GetPresenceMembers { app_id: "app".to_string(), channel: "presence-r".to_string() }, None) {
        ResponsePayload::PresenceMembers(ms) => assert_eq!(ms, vec![("u1".to_string(), "{\"n\":1}".to_string())]),
        _ => panic!("wrong payload"),
    }
    match handle_request(&a, &RequestType::GetConnectionCount { app_id: "app".to_string() }, None) {
        ResponsePayload::Count(n) => assert_eq!(n, 1),
        _ => panic!("wrong payload"),
    }
    match handle_request(&a, &RequestType::GetMetrics, None) {
        ResponsePayload::Metrics(t) => assert_eq!(t, "{}"),
        _ => panic!("wrong payload"),
    }
    assert!(matches!(handle_request(&a, &RequestType::DiscoverPeers, None), ResponsePayload::Ack));
    assert!(a.remove_presence_member("app", "presence-r", "s1", "u1"));
    let removed = a.remove_socket("app", "s1");
    assert_eq!(removed, vec!["presence-r".to_string()]);
    assert_eq!(a.get_channels("app").len(), 0);
}

#[test]
fn users_and_recipients() {
    let mut a: LocalAdapter<String, String> = LocalAdapter::new();
    a.add_socket("app", "s1", "c1".to_string());
    a.add_socket("app", "s2", "c2".to_string());
    a.add_user("app", "u", "s1");
    a.add_user("app", "u", "s2");
    assert_eq!(a.get_sockets_for_user("app", "u").len(), 2);
    a.remove_user("app", "u", "s1");
    assert_eq!(a.get_sockets_for_user("app", "u"), vec![&"c2".to_string()]);
    a.add_to_channel("app", "s1", "ch");
    a.add_to_channel("app", "s2", "ch");
    assert_eq!(a.channel_recipients("app", "ch", Some("s2")), vec![&"c1".to_string()]);
    assert_eq!(a.get_socket("app", "s2"), Some(&"c2".to_string()));
    assert!(!a.try_add_socket("app", "s3", "c3".to_string(), 2));
}

#[test]
fn broadcasts_from_peers() {
    let mut a: LocalAdapter<String, String> = LocalAdapter::new();
    a.add_socket("app", "s1", "c1".to_string());
    a.add_socket("app", "s2", "c2".to_string());
    a.add_to_channel("app", "s1", "news");
    a.add_to_channel("app", "s2", "news");
    a.add_user("app", "u1", "s2");
    let msg = BroadcastMessage::ChannelMessage {
        app_id: "app".to_string(),
        channel: "news".to_string(),
        message: "{}".to_string(),
        excepting_id: Some("s1".to_string()),
    };
    match handle_broadcast(&a, "me", "peer", &msg) {
        BroadcastAction::Deliver(v) => assert_eq!(v, vec![&"c2".to_string()]),
        _ => panic!("expected a delivery"),
    }
    assert!(matches!(handle_broadcast(&a, "me", "me", &msg), BroadcastAction::Ignore));
    assert!(matches!(handle_broadcast(&a, "me", "peer", &BroadcastMessage::Heartbeat), BroadcastAction::Ignore));
    let term = BroadcastMessage::TerminateUser { app_id: "app".to_string(), user_id: "u1".to_string() };
    match handle_broadcast(&a, "me", "peer", &term) {
        BroadcastAction::Terminate(v, m) => {
            assert_eq!(v, vec![&"c2".to_string()]);
            assert_eq!(
                m.to_json(),
                "{\"event\":\"pusher:error\",\"data\":\"{\\\"code\\\":4009,\\\"message\\\":\\\"Connection terminated by server\\\"}\"}"
            );
        },
        _ => panic!("expected a termination"),
    }
}

#[test]
fn remove_socket_lists_every_channel_it_was_in() {
    let mut a: LocalAdapter<String, String> = LocalAdapter::new();
    a.add_socket("app", "s1", "c1".to_string());
    a.add_socket("app", "s2", "c2".to_string());
    a.add_to_channel("app", "s1", "shared");
    a.add_to_channel("app", "s2", "shared");
    a.add_to_channel("app", "s1", "own");
    let mut removed = a.remove_socket("app", "s1");
    removed.sort();
    assert_eq!(removed, vec!["own".to_string(), "shared".to_string()]);
    assert_eq!(a.get_connection_count("app"), 1);
    assert_eq!(a.get_channel_sockets("app", "shared"), vec!["s2".to_string()]);
    assert_eq!(a.get_channels("app"), vec!["shared".to_string()]);
    assert!(a.remove_socket("nope", "s1").is_empty());
}

#[test]
fn remove_socket_vacating_lists_only_emptied_channels() {
    let mut a: LocalAdapter<String, String> = LocalAdapter::new();
    a.add_socket("app", "s1", "c1".to_string());
    a.add_socket("app", "s2", "c2".to_string());
    a.add_to_channel("app", "s1", "shared");
    a.add_to_channel("app", "s2", "shared");
    a.add_to_channel("app", "s1", "own");
    assert_eq!(a.remove_socket_vacating("app", "s1"), vec!["own".to_string()]);
    assert_eq!(a.get_connection_count("app"), 1);
    assert_eq!(a.get_channel_socket_count("app", "shared"), 1);
}
