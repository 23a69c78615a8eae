use rushsocket::protocol::channels::{is_valid_channel_name, ChannelKind};

#[test]
fn test_channel_kind_public() {
    assert_eq!(ChannelKind::from_name("my-channel"), ChannelKind::Public);
    assert_eq!(ChannelKind::from_name("foo"), ChannelKind::Public);
}

#[test]
fn test_channel_kind_private() {
    assert_eq!(ChannelKind::from_name("private-foo"), ChannelKind::Private);
}

#[test]
fn test_channel_kind_presence() {
    assert_eq!(ChannelKind::from_name("presence-room"), ChannelKind::Presence);
}

#[test]
fn test_channel_kind_encrypted_private() {
    assert_eq!(ChannelKind::from_name("private-encrypted-secret"), ChannelKind::EncryptedPrivate);
}

#[test]
fn test_channel_kind_cache_variants() {
    assert_eq!(ChannelKind::from_name("cache-my-channel"), ChannelKind::CachePublic);
    assert_eq!(ChannelKind::from_name("cache-private-foo"), ChannelKind::CachePrivate);
    assert_eq!(ChannelKind::from_name("cache-presence-room"), ChannelKind::CachePresence);
    assert_eq!(ChannelKind::from_name("cache-private-encrypted-x"), ChannelKind::CacheEncryptedPrivate);
}

#[test]
fn test_is_private() {
    assert!(ChannelKind::Private.is_private());
    assert!(ChannelKind::EncryptedPrivate.is_private());
    assert!(ChannelKind::CachePrivate.is_private());
    assert!(ChannelKind::CacheEncryptedPrivate.is_private());
    assert!(!ChannelKind::Public.is_private());
    assert!(!ChannelKind::Presence.is_private());
}

#[test]
fn test_is_presence() {
    assert!(ChannelKind::Presence.is_presence());
    assert!(ChannelKind::CachePresence.is_presence());
    assert!(!ChannelKind::Public.is_presence());
    assert!(!ChannelKind::Private.is_presence());
}

#[test]
fn test_is_cache() {
    assert!(ChannelKind::CachePublic.is_cache());
    assert!(ChannelKind::CachePrivate.is_cache());
    assert!(ChannelKind::CachePresence.is_cache());
    assert!(ChannelKind::CacheEncryptedPrivate.is_cache());
    assert!(!ChannelKind::Public.is_cache());
    assert!(!ChannelKind::Private.is_cache());
}

#[test]
fn test_requires_auth() {
    assert!(ChannelKind::Private.requires_auth());
    assert!(ChannelKind::Presence.requires_auth());
    assert!(ChannelKind::EncryptedPrivate.requires_auth());
    assert!(ChannelKind::CachePrivate.requires_auth());
    assert!(ChannelKind::CachePresence.requires_auth());
    assert!(!ChannelKind::Public.requires_auth());
    assert!(!ChannelKind::CachePublic.requires_auth());
}

#[test]
fn test_valid_channel_names() {
    assert!(is_valid_channel_name("my-channel"));
    assert!(is_valid_channel_name("private-foo"));
    assert!(is_valid_channel_name("presence-bar"));
    assert!(is_valid_channel_name("a"));
    assert!(is_valid_channel_name("#my-channel"));
    assert!(is_valid_channel_name("chan_with_underscores"));
    assert!(is_valid_channel_name("chan=with@special,.;chars"));
}

#[test]
fn test_invalid_channel_names() {
    assert!(!is_valid_channel_name(""));
    assert!(!is_valid_channel_name("has spaces"));
    assert!(!is_valid_channel_name("has\nnewline"));
    assert!(!is_valid_channel_name(&"a".repeat(201)));
}

#[test]
fn channel_name_limits_and_hash_prefix() {
    assert!(is_valid_channel_name(&"a".repeat(200)));
    assert!(!is_valid_channel_name("#"));
    assert!(!is_valid_channel_name("caf\u{e9}"));
    assert_eq!(ChannelKind::from_name("cache-"), ChannelKind::CachePublic);
    assert_eq!(ChannelKind::from_name("presence"), ChannelKind::Public);
}
