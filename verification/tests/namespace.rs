use rushsocket::adapter::namespace::Namespace;

fn members_info(ns: &Namespace<String, String>, channel: &str, user: &str) -> Option<serde_json::Value> {
    ns.get_presence_members(channel)
        .into_iter()
        .find(|(id, _)| id.as_str() == user)
        .map(|(_, info)| serde_json::from_str(info).unwrap())
}

#[test]
fn test_add_and_remove_socket() {
    let mut ns: Namespace<String, String> = Namespace::new();
    ns.add_socket("1.1", "conn-1.1".to_string());
    assert_eq!(ns.get_connection_count(), 1);
    ns.remove_socket("1.1");
    assert_eq!(ns.get_connection_count(), 0);
}

#[test]
fn test_channel_join_leave() {
    let mut ns: Namespace<String, String> = Namespace::new();
    let occupied = ns.add_to_channel("1.1", "my-channel");
    assert!(occupied);
    assert_eq!(ns.get_channel_socket_count("my-channel"), 1);
    assert_eq!(ns.get_channels().len(), 1);
    let vacated = ns.remove_from_channel("1.1", "my-channel");
    assert!(vacated);
    assert_eq!(ns.get_channel_socket_count("my-channel"), 0);
    assert!(ns.get_channels().is_empty());
}

#[test]
fn test_channel_not_vacated_with_remaining() {
    let mut ns: Namespace<String, String> = Namespace::new();
    let occupied1 = ns.add_to_channel("1.1", "ch");
    let occupied2 = ns.add_to_channel("2.2", "ch");
    assert!(occupied1);
    assert!(!occupied2);
    assert_eq!(ns.get_channel_socket_count("ch"), 2);
    let vacated = ns.remove_from_channel("1.1", "ch");
    assert!(!vacated);
    assert_eq!(ns.get_channel_socket_count("ch"), 1);
}

#[test]
fn test_remove_socket_cleans_channels() {
    let mut ns: Namespace<String, String> = Namespace::new();
    ns.add_socket("1.1", "conn".to_string());
    ns.add_to_channel("1.1", "ch-a");
    ns.add_to_channel("1.1", "ch-b");
    let vacated = ns.remove_socket("1.1");
    assert_eq!(vacated.len(), 2);
    assert!(ns.get_channels().is_empty());
}

#[test]
fn test_presence_add_new_member() {
    let mut ns: Namespace<String, String> = Namespace::new();
    let info = r#"{"name":"Alice"}"#.to_string();
    let is_new = ns.add_presence_member("presence-room", "sock1", "user1", info);
    assert!(is_new);
    assert_eq!(ns.get_presence_user_count("presence-room"), 1);
    let members = ns.get_presence_members("presence-room");
    assert_eq!(members.len(), 1);
    assert_eq!(members_info(&ns, "presence-room", "user1").unwrap()["name"], "Alice");
}

#[test]
fn test_presence_dedup_same_user() {
    let mut ns: Namespace<String, String> = Namespace::new();
    let info = r#"{"name":"Alice"}"#.to_string();
    let is_new1 = ns.add_presence_member("presence-room", "sock1", "user1", info.clone());
    let is_new2 = ns.add_presence_member("presence-room", "sock2", "user1", info);
    assert!(is_new1);
    assert!(!is_new2);
    assert_eq!(ns.get_presence_user_count("presence-room"), 1);
}

#[test]
fn test_presence_remove_last_socket_removes_user() {
    let mut ns: Namespace<String, String> = Namespace::new();
    ns.add_presence_member("ch", "sock1", "user1", "{}".to_string());
    ns.add_presence_member("ch", "sock2", "user1", "{}".to_string());
    let gone1 = ns.remove_presence_member("ch", "sock1", "user1");
    assert!(!gone1);
    let gone2 = ns.remove_presence_member("ch", "sock2", "user1");
    assert!(gone2);
    assert_eq!(ns.get_presence_user_count("ch"), 0);
}

#[test]
fn test_user_tracking() {
    let mut ns: Namespace<String, String> = Namespace::new();
    ns.add_socket("sock1", "sock1".to_string());
    ns.add_user("user1", "sock1");
    let sockets = ns.get_sockets_for_user("user1");
    assert_eq!(sockets.len(), 1);
    assert_eq!(sockets[0].as_str(), "sock1");
    ns.remove_user("user1", "sock1");
    let sockets = ns.get_sockets_for_user("user1");
    assert!(sockets.is_empty());
}

#[test]
fn presence_limit_refuses_new_member_only() {
    let mut ns: Namespace<String, String> = Namespace::new();
    assert!(ns.try_add_presence_member("presence-r", "s1", "u1", "{}".to_string(), 1).is_ok());
    assert!(ns.try_add_presence_member("presence-r", "s2", "u2", "{}".to_string(), 1).is_err());
    let again = ns.try_add_presence_member("presence-r", "s3", "u1", "{}".to_string(), 1);
    assert!(matches!(again, Ok((false, ref ms)) if ms.len() == 1));
}

#[test]
fn connection_limit_kept() {
    let mut ns: Namespace<String, String> = Namespace::new();
    assert!(ns.try_add_socket("a", "a".to_string(), 1));
    assert!(!ns.try_add_socket("b", "b".to_string(), 1));
    assert!(ns.try_add_socket("b", "b".to_string(), -1));
    assert_eq!(ns.get_connection_count(), 2);
}

#[test]
fn channel_recipients_skip_excepted_socket() {
    let mut ns: Namespace<String, String> = Namespace::new();
    ns.add_socket("a", "conn-a".to_string());
    ns.add_socket("b", "conn-b".to_string());
    ns.add_to_channel("a", "ch");
    ns.add_to_channel("b", "ch");
    ns.add_to_channel("ghost", "ch");
    let to = ns.channel_recipients("ch", Some("a"));
    assert_eq!(to.len(), 1);
    assert_eq!(to[0].as_str(), "conn-b");
    assert_eq!(ns.channel_recipients("ch", None).len(), 2);
}

#[test]
fn connection_limit_over_a_run_of_attempts() {
    let mut ns: Namespace<String, String> = Namespace::new();
    ns.add_socket("old", "old".to_string());
    let answers: Vec<bool> = ["a", "b", "c", "d"]
        .iter()
        .map(|id| ns.try_add_socket(id, id.to_string(), 3))
        .collect();
    assert_eq!(answers, vec![true, true, false, false]);
    assert_eq!(ns.get_connection_count(), 3);
    assert!(ns.get_socket("a").is_some());
    assert!(ns.get_socket("b").is_some());
    assert!(ns.get_socket("c").is_none());
    assert!(ns.get_socket("d").is_none());
    assert!(ns.get_socket("old").is_some());
}

#[test]
fn socket_channels_from_the_reverse_index() {
    let mut ns: Namespace<String, String> = Namespace::new();
    ns.add_socket("s", "s".to_string());
    ns.add_to_channel("s", "x");
    ns.add_to_channel("s", "y");
    let mut chans = ns.get_socket_channels("s");
    chans.sort();
    assert_eq!(chans, vec!["x".to_string(), "y".to_string()]);
    assert!(ns.get_socket_channels("other").is_empty());
}

#[test]
fn remove_after_joins_lists_the_joined_channels() {
    let mut ns: Namespace<String, String> = Namespace::new();
    ns.add_socket("other", "o".to_string());
    ns.add_to_channel("other", "busy");
    ns.add_socket("s", "s".to_string());
    ns.add_to_channel("s", "busy");
    ns.add_to_channel("s", "lonely");
    let mut vacated = ns.remove_socket("s");
    vacated.sort();
    assert_eq!(vacated, vec!["lonely".to_string()]);
    assert_eq!(ns.get_connection_count(), 1);
    assert_eq!(ns.get_channels(), vec!["busy".to_string()]);
    assert_eq!(ns.get_channel_sockets("busy"), vec!["other".to_string()]);
}
