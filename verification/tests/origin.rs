use rushsocket::websocket::{origin_matches, validate_origin};

#[test]
fn test_origin_matches_wildcard() {
    assert!(origin_matches("https://example.com", "*"));
}

#[test]
fn test_origin_matches_exact() {
    assert!(origin_matches("https://example.com", "https://example.com"));
    assert!(!origin_matches("https://other.com", "https://example.com"));
}

#[test]
fn test_origin_matches_case_insensitive() {
    assert!(origin_matches("https://Example.COM", "https://example.com"));
}

#[test]
fn test_validate_origin_empty_allows_all() {
    assert!(validate_origin(None, &vec![]));
    assert!(validate_origin(Some("https://any.com"), &vec![]));
}

#[test]
fn test_validate_origin_rejects_missing() {
    let allowed = vec!["https://example.com".to_string()];
    assert!(!validate_origin(None, &allowed));
}

#[test]
fn test_validate_origin_accepts_listed() {
    let allowed = vec!["https://example.com".to_string(), "https://other.com".to_string()];
    assert!(validate_origin(Some("https://example.com"), &allowed));
    assert!(validate_origin(Some("https://other.com"), &allowed));
    assert!(!validate_origin(Some("https://evil.com"), &allowed));
}

#[test]
fn origin_case_folding_is_ascii_only() {
    assert!(!origin_matches("https://\u{c9}.com", "https://\u{e9}.com"));
    assert!(!origin_matches("https://example.co", "https://example.com"));
}
