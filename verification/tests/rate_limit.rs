use glint::client_ip::ClientIp;
use glint::rate_limit::{
    default_true, layer_is_active, limit_action, retry_after_secs, LimitAction, LimitOutcome,
    RateLimitConfig, TierConfig,
};

/// The client IP the limiter keys on. `accepted` says whether the forwarded
/// candidate is an IP address (the caller checks that with the platform's
/// address parser before handing it on).
fn extract_client_ip(xff: Option<&str>, connect_ip: Option<&str>, hops: u8, accepted: bool) -> String {
    let candidate = xff.and_then(|h| ClientIp::forwarded_candidate(h, hops));
    let forwarded = if accepted { candidate } else { None };
    ClientIp::resolve(forwarded, connect_ip.map(|c| c.to_string())).0
}

#[test]
fn extract_ip_direct_connection() {
    // Peer 192.168.1.1:12345, no headers.
    assert_eq!(extract_client_ip(None, Some("192.168.1.1"), 0, true), "192.168.1.1");
}

#[test]
fn extract_ip_xff_single_proxy() {
    let cand = ClientIp::forwarded_candidate("203.0.113.50, 10.0.0.1", 1);
    assert_eq!(cand.as_deref(), Some("203.0.113.50"));
    assert_eq!(
        extract_client_ip(Some("203.0.113.50, 10.0.0.1"), Some("127.0.0.1"), 1, true),
        "203.0.113.50"
    );
}

#[test]
fn extract_ip_xff_two_proxies() {
    let cand = ClientIp::forwarded_candidate("203.0.113.50, 10.0.0.1, 10.0.0.2", 2);
    assert_eq!(cand.as_deref(), Some("203.0.113.50"));
    assert_eq!(
        extract_client_ip(Some("203.0.113.50, 10.0.0.1, 10.0.0.2"), Some("127.0.0.1"), 2, true),
        "203.0.113.50"
    );
}

#[test]
fn extract_ip_xff_ignored_when_no_trust() {
    assert_eq!(ClientIp::forwarded_candidate("203.0.113.50", 0), None);
    assert_eq!(extract_client_ip(Some("203.0.113.50"), Some("10.0.0.1"), 0, true), "10.0.0.1");
}

#[test]
fn extract_ip_no_connect_info() {
    assert_eq!(extract_client_ip(None, None, 0, true), "unknown");
}

#[test]
fn extract_ip_xff_invalid_ip_falls_back() {
    // The candidate at the client position is "not-an-ip", which is no IP address.
    let cand = ClientIp::forwarded_candidate("not-an-ip, 10.0.0.1", 1);
    assert_eq!(cand.as_deref(), Some("not-an-ip"));
    assert_eq!(
        extract_client_ip(Some("not-an-ip, 10.0.0.1"), Some("127.0.0.1"), 1, false),
        "127.0.0.1"
    );
}

#[test]
fn tier_config_defaults() {
    let global = TierConfig::default_global();
    assert_eq!(global.requests_per_minute, 300);
    assert_eq!(global.burst, 50);

    let auth = TierConfig::default_auth();
    assert_eq!(auth.requests_per_minute, 10);
    assert_eq!(auth.burst, 5);
}

#[test]
fn other_tier_defaults() {
    assert_eq!(TierConfig::default_device(), TierConfig { requests_per_minute: 15, burst: 5 });
    assert_eq!(TierConfig::default_upload(), TierConfig { requests_per_minute: 30, burst: 10 });
    assert_eq!(TierConfig::default_agent(), TierConfig { requests_per_minute: 600, burst: 100 });
}

#[test]
fn config_default_enables_all_tiers() {
    let c = RateLimitConfig::default();
    assert!(c.enabled);
    assert_eq!(c.trusted_proxy_hops, 0);
    assert_eq!(c.global, TierConfig::default_global());
    assert_eq!(c.auth, TierConfig::default_auth());
    assert!(default_true());
}

#[test]
fn tier_new_rejects_zero() {
    assert_eq!(TierConfig::new(0, 5), None);
    assert_eq!(TierConfig::new(5, 0), None);
    assert_eq!(TierConfig::new(7, 3), Some(TierConfig { requests_per_minute: 7, burst: 3 }));
}

#[test]
fn retry_after_is_at_least_one_second() {
    assert_eq!(retry_after_secs(0), 1);
    assert_eq!(retry_after_secs(1), 1);
    assert_eq!(retry_after_secs(42), 42);
    assert!(layer_is_active(true));
    assert!(!layer_is_active(false));
}

#[test]
fn forwarded_candidate_short_header_uses_first_entry() {
    // Fewer entries than trusted hops: the first entry names the client.
    assert_eq!(ClientIp::forwarded_candidate(" 1.2.3.4 ", 3).as_deref(), Some("1.2.3.4"));
    assert_eq!(ClientIp::forwarded_candidate("", 1).as_deref(), Some(""));
}

#[test]
fn limited_requests_are_refused_and_tracked() {
    assert_eq!(limit_action(LimitOutcome::Allowed, true), LimitAction::Forward);
    assert_eq!(limit_action(LimitOutcome::Allowed, false), LimitAction::Forward);
    assert_eq!(
        limit_action(LimitOutcome::Limited { wait_secs: 0 }, true),
        LimitAction::Reject { retry_after_secs: 1, track_hit: true }
    );
    assert_eq!(
        limit_action(LimitOutcome::Limited { wait_secs: 42 }, false),
        LimitAction::Reject { retry_after_secs: 42, track_hit: false }
    );
}
