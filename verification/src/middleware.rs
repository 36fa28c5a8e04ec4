//! Decisions of the HTTP middleware layers: which responses get a
//! `Cache-Control` header, which security headers are set, which requests
//! are tracked, and at which level a response is logged.
use vstd::prelude::*;
use vstd::string::*;

use crate::text::{starts_with, str_eq};

verus! {

/// Whether the cache layer adds its directive: only to successful (2xx) GET
/// responses that carry no `Cache-Control` header yet.
pub fn should_set_cache_control(is_get: bool, status: u16, has_cache_control: bool) -> (res: bool)
    ensures
        res == (is_get && 200 <= status <= 299 && !has_cache_control),
{
    is_get && 200 <= status && status <= 299 && !has_cache_control
}

/// The security headers set on every API response, as (name, value) pairs.
pub fn security_headers() -> (res: Vec<(&'static str, &'static str)>)
    ensures
        res@.len() == 4,
        res@[0].0@ == "x-content-type-options"@ && res@[0].1@ == "nosniff"@,
        res@[1].0@ == "x-frame-options"@ && res@[1].1@ == "DENY"@,
        res@[2].0@ == "referrer-policy"@ && res@[2].1@ == "strict-origin-when-cross-origin"@,
        res@[3].0@ == "permissions-policy"@ && res@[3].1@ == "camera=(), microphone=(), geolocation=()"@,
{
    let mut v: Vec<(&'static str, &'static str)> = Vec::new();
    v.push(("x-content-type-options", "nosniff"));
    v.push(("x-frame-options", "DENY"));
    v.push(("referrer-policy", "strict-origin-when-cross-origin"));
    v.push(("permissions-policy", "camera=(), microphone=(), geolocation=()"));
    v
}

/// Whether a request is tracked by analytics: API routes except the health check.
pub fn should_track_request(path: &str) -> (res: bool)
    ensures
        res == ("/api"@.is_prefix_of(path@) && path@ != "/api/health"@),
{
    starts_with(path, "/api") && !str_eq(path, "/api/health")
}

/// Level at which a finished request is logged.
#[derive(Debug, Clone, Copy, PartialEq, Eq, Structural)]
pub enum ResponseLogLevel {
    Debug,
    Info,
    Warn,
}

/// Responses with status 200–399 are logged at debug, 400–499 at info, all others at warn.
pub fn response_log_level(status: u16) -> (res: ResponseLogLevel)
    ensures
        200 <= status <= 399 ==> res == ResponseLogLevel::Debug,
        400 <= status <= 499 ==> res == ResponseLogLevel::Info,
        !(200 <= status <= 499) ==> res == ResponseLogLevel::Warn,
{
    if 200 <= status && status <= 399 {
        ResponseLogLevel::Debug
    } else if 400 <= status && status <= 499 {
        ResponseLogLevel::Info
    } else {
        ResponseLogLevel::Warn
    }
}

/// Layer that records API requests with an analytics sink `A`.
pub struct AnalyticsLayer<A> {
    pub analytics: Option<A>,
}

impl<A> AnalyticsLayer<A> {
    pub fn new(analytics: Option<A>) -> (res: AnalyticsLayer<A>)
        ensures
            res.analytics == analytics,
    {
        AnalyticsLayer { analytics }
    }
}

/// The service that [`AnalyticsLayer`] wraps around an inner service `S`.
pub struct AnalyticsMiddleware<S, A> {
    pub inner: S,
    pub analytics: Option<A>,
}

/// Layer that gives every request a tracing span with a fresh request id.
pub struct RequestIdLayer;

/// The service that [`RequestIdLayer`] wraps around an inner service `S`.
pub struct RequestIdService<S> {
    pub inner: S,
}

/// Layer that sets the security headers on every response.
pub struct SecurityHeadersLayer;

/// The service that [`SecurityHeadersLayer`] wraps around an inner service `S`.
pub struct SecurityHeadersService<S> {
    pub inner: S,
}

} // verus!
