use rushsocket::rate_limit::LocalRateLimiter;

#[test]
fn test_unlimited_always_allows() {
    let mut rl = LocalRateLimiter::new();
    for _ in 0..1000 {
        assert!(rl.check_backend_event("app1", -1));
    }
}

#[test]
fn test_rate_limit_enforced() {
    let mut rl = LocalRateLimiter::new();
    let allowed = rl.check_backend_event("app1", 1);
    assert!(allowed);
    let allowed2 = rl.check_backend_event("app1", 1);
    let _ = allowed2;
}

#[test]
fn test_different_apps_independent() {
    let mut rl = LocalRateLimiter::new();
    assert!(rl.check_backend_event("app1", 1));
    assert!(rl.check_backend_event("app2", 1));
}

#[test]
fn test_remove_socket() {
    let mut rl = LocalRateLimiter::new();
    rl.check_client_event("sock1", 10);
    assert!(rl.has_client_limiter("sock1"));
    rl.remove_socket("sock1");
    assert!(!rl.has_client_limiter("sock1"));
}

#[test]
fn burst_then_refused() {
    let mut rl = LocalRateLimiter::new();
    assert!(rl.check_read_request("app", 2));
    assert!(rl.check_read_request("app", 2));
    assert!(!rl.check_read_request("app", 2));
    assert!(rl.check_read_request("app", 0));
}
