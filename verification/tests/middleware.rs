use glint::middleware::{
    response_log_level, security_headers, should_set_cache_control, should_track_request,
    AnalyticsLayer, ResponseLogLevel,
};

#[test]
fn cache_control_only_on_fresh_successful_gets() {
    assert!(should_set_cache_control(true, 200, false));
    assert!(should_set_cache_control(true, 204, false));
    assert!(!should_set_cache_control(true, 200, true));
    assert!(!should_set_cache_control(false, 200, false));
    assert!(!should_set_cache_control(true, 304, false));
    assert!(!should_set_cache_control(true, 404, false));
}

#[test]
fn security_header_set() {
    let h = security_headers();
    assert_eq!(
        h,
        vec![
            ("x-content-type-options", "nosniff"),
            ("x-frame-options", "DENY"),
            ("referrer-policy", "strict-origin-when-cross-origin"),
            ("permissions-policy", "camera=(), microphone=(), geolocation=()"),
        ]
    );
}

#[test]
fn tracked_requests() {
    assert!(should_track_request("/api/shaders"));
    assert!(should_track_request("/api"));
    assert!(!should_track_request("/api/health"));
    assert!(!should_track_request("/static/app.js"));
    let layer: AnalyticsLayer<u8> = AnalyticsLayer::new(Some(7));
    assert_eq!(layer.analytics, Some(7));
}

#[test]
fn response_levels() {
    assert_eq!(response_log_level(200), ResponseLogLevel::Debug);
    assert_eq!(response_log_level(399), ResponseLogLevel::Debug);
    assert_eq!(response_log_level(404), ResponseLogLevel::Info);
    assert_eq!(response_log_level(500), ResponseLogLevel::Warn);
    assert_eq!(response_log_level(101), ResponseLogLevel::Warn);
}
