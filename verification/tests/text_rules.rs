use glint::device::{
    generate_device_code, generate_user_code, normalize_user_code, prefixed_user_code,
    user_code_from_draws, DeviceTokenError, USER_CODE_LENGTH,
};
use glint::extraction::{deterministic_profile_id, profile_id_from_digest};
use glint::pagination::{cursor_limit, finish_cursor_page, Page, PageQuery, Paginated};
use glint::session::{generate_session_token, prefix_pattern};
use glint::validation::{search_pattern, validate_slug, validate_weather};

#[test]
fn page_query_normalize_defaults_and_clamps() {
    let p = PageQuery { page: None, page_size: None }.normalize();
    assert_eq!(p, Page { page: 1, page_size: 50, offset: 0 });
    let p = PageQuery { page: Some(0), page_size: Some(0) }.normalize();
    assert_eq!(p, Page { page: 1, page_size: 1, offset: 0 });
    let p = PageQuery { page: Some(3), page_size: Some(1000) }.normalize();
    assert_eq!(p, Page { page: 3, page_size: 250, offset: 500 });
    let p = PageQuery { page: Some(u32::MAX), page_size: Some(250) }.normalize();
    assert_eq!(p.offset, (u32::MAX as u64 - 1) * 250);
}

#[test]
fn normalize_is_idempotent() {
    let p = PageQuery { page: Some(7), page_size: Some(999) }.normalize();
    let q = PageQuery { page: Some(p.page), page_size: Some(p.page_size) }.normalize();
    assert_eq!(p, q);
}

#[test]
fn page_descriptions() {
    assert_eq!(PageQuery { page: None, page_size: None }.describe(), "PageQuery(defaults)");
    assert_eq!(PageQuery { page: Some(2), page_size: None }.describe(), "PageQuery(page=2)");
    assert_eq!(PageQuery { page: None, page_size: Some(10) }.describe(), "PageQuery(size=10)");
    assert_eq!(
        PageQuery { page: Some(2), page_size: Some(10) }.describe(),
        "PageQuery(page=2, size=10)"
    );
    let p = Page { page: 2, page_size: 10, offset: 10 };
    assert_eq!(p.describe(), "2/10");
    assert_eq!(p.summary(), "page 2/10 (offset 10)");
    assert_eq!(p.limit_i64(), 10);
    assert_eq!(p.offset_i64(), 10);
    let env = Paginated::new(vec![1, 2], 12, &p);
    assert_eq!((env.items, env.total, env.page, env.page_size), (vec![1, 2], 12, 2, 10));
}

#[test]
fn cursor_pages() {
    assert_eq!(cursor_limit(0), 1);
    assert_eq!(cursor_limit(-4), 1);
    assert_eq!(cursor_limit(20), 20);
    assert_eq!(cursor_limit(500), 100);
    let page = finish_cursor_page(vec![1, 2, 3], 2, true, 40);
    assert_eq!(page.items, vec![1, 2]);
    assert!(page.has_next_page);
    assert!(page.has_previous_page);
    assert_eq!(page.total_count, 40);
    let page = finish_cursor_page(vec![1, 2], 2, false, 2);
    assert_eq!(page.items, vec![1, 2]);
    assert!(!page.has_next_page);
    assert!(!page.has_previous_page);
}

#[test]
fn slug_and_weather_rules() {
    assert_eq!(validate_slug("hills-2"), Ok(()));
    assert_eq!(validate_slug("Hills"), Err("invalid_slug_format"));
    assert_eq!(validate_slug("a_b"), Err("invalid_slug_format"));
    assert_eq!(validate_slug(""), Ok(()));
    for w in ["clear", "rain", "thunder"] {
        assert_eq!(validate_weather(w), Ok(()));
    }
    assert_eq!(validate_weather("snow"), Err("invalid_weather"));
}

#[test]
fn search_patterns_escape_like_wildcards() {
    assert_eq!(search_pattern(""), None);
    assert_eq!(search_pattern("bsl"), Some("%bsl%".to_string()));
    assert_eq!(search_pattern("50%_off\\"), Some("%50\\%\\_off\\\\%".to_string()));
}

#[test]
fn session_tokens_and_prefixes() {
    let t = generate_session_token();
    assert_eq!(t.len(), 64);
    assert!(t.chars().all(|c| c.is_ascii_hexdigit() && !c.is_ascii_uppercase()));
    assert_ne!(t, generate_session_token());
    assert_eq!(prefix_pattern("abcdef01"), Ok("abcdef01%".to_string()));
    assert_eq!(prefix_pattern("ABCDEF01"), Ok("ABCDEF01%".to_string()));
    let err = Err("Session prefix must be exactly 8 hex characters".to_string());
    assert_eq!(prefix_pattern("abcdef0"), err);
    assert_eq!(prefix_pattern("abcdefg1"), err);
}

#[test]
fn device_codes() {
    let d = generate_device_code();
    assert_eq!(d.len(), 32);
    assert!(d.chars().all(|c| c.is_ascii_hexdigit() && !c.is_ascii_uppercase()));
    let u = generate_user_code();
    assert_eq!(USER_CODE_LENGTH, 6);
    assert_eq!(u.len(), 12);
    assert!(u.starts_with("GLINT-"));
    assert!(u[6..].chars().all(|c| "ABCDEFGHJKMNPQRSTUVWXYZ23456789".contains(c)));
    // A generated code is found again however it is typed.
    assert_eq!(normalize_user_code(&u), u);
    assert_eq!(normalize_user_code(&u[6..].to_lowercase()), u);
}

#[test]
fn user_code_spells_its_draws() {
    assert_eq!(user_code_from_draws(&vec![0, 0, 0, 0, 0, 0]), "GLINT-AAAAAA");
    assert_eq!(user_code_from_draws(&vec![0, 7, 8, 22, 23, 30]), "GLINT-AHJZ29");
    assert_eq!(user_code_from_draws(&vec![30, 29, 28, 27, 26, 25]), "GLINT-987654");
}

#[test]
fn user_code_normalization() {
    assert_eq!(normalize_user_code("abc123"), "GLINT-ABC123");
    assert_eq!(normalize_user_code("glint-xyz789"), "GLINT-XYZ789");
    assert_eq!(normalize_user_code("GLINT-QQ"), "GLINT-QQ");
}

#[test]
fn user_code_prefix() {
    assert_eq!(prefixed_user_code("ABC"), "GLINT-ABC");
    assert_eq!(prefixed_user_code("GLINT-ABC"), "GLINT-ABC");
    assert_eq!(prefixed_user_code("glint-abc"), "GLINT-glint-abc");
}

#[test]
fn profile_ids_from_digests() {
    assert_eq!(profile_id_from_digest(&vec![0x00, 0xff, 0x1a]), "00ff1a");
    assert_eq!(profile_id_from_digest(&vec![]), "");
}

#[test]
fn device_token_errors() {
    let e = DeviceTokenError::authorization_pending();
    assert_eq!(e.error, "authorization_pending");
    assert_eq!(
        e.error_description.as_deref(),
        Some("The user has not yet authorized this device")
    );
    let e = DeviceTokenError::expired_token();
    assert_eq!(e.error, "expired_token");
    assert_eq!(e.error_description.as_deref(), Some("The device code has expired"));
    let e = DeviceTokenError::invalid_grant();
    assert_eq!(e.error, "invalid_grant");
    assert_eq!(
        e.error_description.as_deref(),
        Some("The device code is invalid or has already been used")
    );
}

#[test]
fn profile_ids_are_sha256_hex() {
    assert_eq!(
        deterministic_profile_id("v1", "default"),
        "e28ad1b6a9e5fd9d67d3f1fe52e59929020e29ebd9dcf75ee236ef140975c89f"
    );
    assert_eq!(
        deterministic_profile_id("01ABC", "Ultra é"),
        "ad9364b922af46114c13f9feaecd81e1aaa0fc84a57c86e9bd90db9d82a0a678"
    );
}
