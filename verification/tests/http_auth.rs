use rushsocket::auth::sign;
use rushsocket::http::auth::{body_md5, signing_query, verify_http_signature};
use rushsocket::sorted::SortedStrMap;

#[test]
fn test_body_md5() {
    let md5 = body_md5(b"hello world");
    assert_eq!(md5.len(), 32);
    assert!(md5.chars().all(|c| c.is_ascii_hexdigit()));
}

#[test]
fn test_body_md5_empty() {
    let md5 = body_md5(b"");
    assert_eq!(md5, "d41d8cd98f00b204e9800998ecf8427e");
}

#[test]
fn body_md5_known_value() {
    assert_eq!(body_md5(b"hello world"), "5eb63bbbe01eeed093cb22bb8f5acdc3");
}

#[test]
fn test_verify_http_signature_valid() {
    let secret = "my-secret";
    let method = "POST";
    let path = "/apps/123/events";
    let mut params = SortedStrMap::new();
    params.insert("auth_key".to_string(), "my-key".to_string());
    params.insert("auth_timestamp".to_string(), "1234567890".to_string());
    params.insert("auth_version".to_string(), "1.0".to_string());
    params.insert("body_md5".to_string(), "abc123".to_string());
    let query_string = "auth_key=my-key&auth_timestamp=1234567890&auth_version=1.0&body_md5=abc123";
    let sig = sign(secret, &format!("{}\n{}\n{}", method, path, query_string));
    params.insert("auth_signature".to_string(), sig.clone());
    assert!(verify_http_signature(secret, method, path, &params, &sig));
}

#[test]
fn test_verify_http_signature_invalid() {
    let mut params = SortedStrMap::new();
    params.insert("auth_key".to_string(), "key".to_string());
    assert!(!verify_http_signature("secret", "GET", "/apps/1/channels", &params, "bad_signature"));
}

#[test]
fn test_verify_http_signature_excludes_auth_signature_from_signing() {
    let secret = "secret";
    let method = "GET";
    let path = "/apps/1/channels";
    let mut params = SortedStrMap::new();
    params.insert("auth_key".to_string(), "key".to_string());
    params.insert("auth_signature".to_string(), "should_be_excluded".to_string());
    let query_string = "auth_key=key";
    let sig = sign(secret, &format!("{}\n{}\n{}", method, path, query_string));
    assert!(verify_http_signature(secret, method, path, &params, &sig));
}

#[test]
fn signing_query_sorts_keys_and_replaces_values() {
    let mut params = SortedStrMap::new();
    params.insert("b".to_string(), "2".to_string());
    params.insert("a".to_string(), "1".to_string());
    params.insert("auth_signature".to_string(), "x".to_string());
    params.insert("B".to_string(), "0".to_string());
    params.insert("a".to_string(), "3".to_string());
    assert_eq!(signing_query(&params), "B=0&a=3&b=2");
    assert_eq!(params.len(), 4);
    assert_eq!(params.get("a").map(|s| s.as_str()), Some("3"));
    assert_eq!(params.get("c"), None);
}

#[test]
fn signing_query_empty() {
    let params = SortedStrMap::new();
    assert_eq!(signing_query(&params), "");
}
