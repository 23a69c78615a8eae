use rushsocket::auth::{sign, sign_http_request, verify_channel_auth, verify_signin_auth};

#[test]
fn test_sign_deterministic() {
    let sig1 = sign("secret", "hello");
    let sig2 = sign("secret", "hello");
    assert_eq!(sig1, sig2);
}

#[test]
fn test_sign_different_messages() {
    let sig1 = sign("secret", "hello");
    let sig2 = sign("secret", "world");
    assert_ne!(sig1, sig2);
}

#[test]
fn test_sign_different_secrets() {
    let sig1 = sign("secret1", "hello");
    let sig2 = sign("secret2", "hello");
    assert_ne!(sig1, sig2);
}

#[test]
fn test_sign_produces_hex() {
    let sig = sign("secret", "hello");
    assert!(sig.chars().all(|c| c.is_ascii_hexdigit()));
    assert_eq!(sig.len(), 64);
}

#[test]
fn sign_known_vector() {
    // RFC 4231 test case 2: key "Jefe", data "what do ya want for nothing?".
    assert_eq!(
        sign("Jefe", "what do ya want for nothing?"),
        "5bdcc146bf60754e6a042426089575c75a003f089d2739839dec58b964ec3843"
    );
}

#[test]
fn test_verify_channel_auth_public() {
    let secret = "app-secret";
    let key = "app-key";
    let socket_id = "123.456";
    let channel = "private-chat";
    let string_to_sign = format!("{}:{}", socket_id, channel);
    let sig = sign(secret, &string_to_sign);
    let auth = format!("{}:{}", key, sig);
    assert!(verify_channel_auth(key, secret, socket_id, channel, None, &auth));
}

#[test]
fn test_verify_channel_auth_with_channel_data() {
    let secret = "app-secret";
    let key = "app-key";
    let socket_id = "123.456";
    let channel = "presence-room";
    let channel_data = r#"{"user_id":"1","user_info":{}}"#;
    let string_to_sign = format!("{}:{}:{}", socket_id, channel, channel_data);
    let sig = sign(secret, &string_to_sign);
    let auth = format!("{}:{}", key, sig);
    assert!(verify_channel_auth(key, secret, socket_id, channel, Some(channel_data), &auth));
}

#[test]
fn test_verify_channel_auth_wrong_signature() {
    assert!(!verify_channel_auth("app-key", "app-secret", "123.456", "private-chat", None, "app-key:wrong_signature"));
}

#[test]
fn test_verify_channel_auth_wrong_key_prefix() {
    let sig = sign("app-secret", "123.456:private-chat");
    let auth = format!("wrong-key:{}", sig);
    assert!(!verify_channel_auth("app-key", "app-secret", "123.456", "private-chat", None, &auth));
}

#[test]
fn test_verify_signin_auth() {
    let secret = "app-secret";
    let key = "app-key";
    let socket_id = "123.456";
    let user_data = r#"{"id":"user1","name":"Test"}"#;
    let string_to_sign = format!("{}::user::{}", socket_id, user_data);
    let sig = sign(secret, &string_to_sign);
    let auth = format!("{}:{}", key, sig);
    assert!(verify_signin_auth(key, secret, socket_id, user_data, &auth));
}

#[test]
fn test_verify_signin_auth_wrong_sig() {
    assert!(!verify_signin_auth("app-key", "app-secret", "123.456", r#"{"id":"user1"}"#, "app-key:bad_signature"));
}

#[test]
fn test_sign_http_request() {
    let sig = sign_http_request("secret", "POST", "/apps/123/events", "auth_key=key&auth_timestamp=1234");
    assert_eq!(sig.len(), 64);
    let expected = sign("secret", "POST\n/apps/123/events\nauth_key=key&auth_timestamp=1234");
    assert_eq!(sig, expected);
}

#[test]
fn channel_auth_rejects_missing_colon_and_trailing_text() {
    let sig = sign("app-secret", "123.456:private-chat");
    assert!(!verify_channel_auth("app-key", "app-secret", "123.456", "private-chat", None, &format!("app-key{}", sig)));
    assert!(!verify_channel_auth("app-key", "app-secret", "123.456", "private-chat", None, &format!("app-key:{}x", sig)));
    assert!(!verify_channel_auth("app-key", "app-secret", "123.456", "private-chat", None, "app-key"));
}
