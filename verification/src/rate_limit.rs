//! Rate-limit configuration and the decisions the limiter layer makes.
use vstd::prelude::*;

verus! {

/// Per-tier rate limit settings (both values are positive).
#[derive(Debug, Clone, Copy, PartialEq, Eq, Structural)]
pub struct TierConfig {
    pub requests_per_minute: u32,
    pub burst: u32,
}

impl TierConfig {
    /// Both limits are positive.
    pub open spec fn valid(&self) -> bool {
        self.requests_per_minute > 0 && self.burst > 0
    }

    /// A tier with the given limits; `None` when either is zero.
    pub fn new(requests_per_minute: u32, burst: u32) -> (res: Option<TierConfig>)
        ensures
            res matches Some(t) ==> t.requests_per_minute == requests_per_minute && t.burst == burst
                && t.valid(),
            res is Some <==> (requests_per_minute > 0 && burst > 0),
    {
        if requests_per_minute > 0 && burst > 0 {
            Some(TierConfig { requests_per_minute, burst })
        } else {
            None
        }
    }

    /// Global tier: 300 requests per minute, burst of 50.
    pub fn default_global() -> (res: TierConfig)
        ensures
            res.requests_per_minute == 300 && res.burst == 50,
    {
        TierConfig { requests_per_minute: 300, burst: 50 }
    }

    /// Authentication tier: 10 requests per minute, burst of 5.
    pub fn default_auth() -> (res: TierConfig)
        ensures
            res.requests_per_minute == 10 && res.burst == 5,
    {
        TierConfig { requests_per_minute: 10, burst: 5 }
    }

    /// Device-flow tier: 15 requests per minute, burst of 5.
    pub fn default_device() -> (res: TierConfig)
        ensures
            res.requests_per_minute == 15 && res.burst == 5,
    {
        TierConfig { requests_per_minute: 15, burst: 5 }
    }

    /// Upload tier: 30 requests per minute, burst of 10.
    pub fn default_upload() -> (res: TierConfig)
        ensures
            res.requests_per_minute == 30 && res.burst == 10,
    {
        TierConfig { requests_per_minute: 30, burst: 10 }
    }

    /// Agent tier: 600 requests per minute, burst of 100.
    pub fn default_agent() -> (res: TierConfig)
        ensures
            res.requests_per_minute == 600 && res.burst == 100,
    {
        TierConfig { requests_per_minute: 600, burst: 100 }
    }
}

/// Whether rate limiting is on when the configuration does not say.
pub fn default_true() -> (res: bool)
    ensures
        res,
{
    true
}

/// Top-level rate limiting configuration.
#[derive(Debug, Clone, Copy, PartialEq, Eq, Structural)]
pub struct RateLimitConfig {
    pub enabled: bool,
    pub trusted_proxy_hops: u8,
    pub global: TierConfig,
    pub auth: TierConfig,
    pub device: TierConfig,
    pub upload: TierConfig,
    pub agent: TierConfig,
}

impl Default for RateLimitConfig {
    fn default() -> (res: RateLimitConfig)
        ensures
            res.enabled,
            res.trusted_proxy_hops == 0,
            res.global == (TierConfig { requests_per_minute: 300, burst: 50 }),
            res.auth == (TierConfig { requests_per_minute: 10, burst: 5 }),
            res.device == (TierConfig { requests_per_minute: 15, burst: 5 }),
            res.upload == (TierConfig { requests_per_minute: 30, burst: 10 }),
            res.agent == (TierConfig { requests_per_minute: 600, burst: 100 }),
    {
        RateLimitConfig {
            enabled: true,
            trusted_proxy_hops: 0,
            global: TierConfig::default_global(),
            auth: TierConfig::default_auth(),
            device: TierConfig::default_device(),
            upload: TierConfig::default_upload(),
            agent: TierConfig::default_agent(),
        }
    }
}

/// Seconds a rejected client is told to wait: the limiter's wait, at least one.
pub fn retry_after_secs(wait_secs: u64) -> (res: u64)
    ensures
        res == if wait_secs >= 1 { wait_secs } else { 1 },
{
    if wait_secs >= 1 {
        wait_secs
    } else {
        1
    }
}

/// Whether a layer for a tier limits at all: only when limiting is enabled.
pub fn layer_is_active(enabled: bool) -> (res: bool)
    ensures
        res == enabled,
{
    enabled
}

/// What the limiter said of a client's request.
#[derive(Debug, Clone, Copy, PartialEq, Eq, Structural)]
pub enum LimitOutcome {
    Allowed,
    /// Over the limit; the next request would be allowed after this many
    /// seconds (as the limiter reports it, possibly zero).
    Limited { wait_secs: u64 },
}

/// What the rate-limit service does with a request.
#[derive(Debug, Clone, Copy, PartialEq, Eq, Structural)]
pub enum LimitAction {
    /// Hand the request to the inner service.
    Forward,
    /// Answer 429 with this wait, and record a `rate_limit_hit` event when
    /// `track_hit` is set.
    Reject { retry_after_secs: u64, track_hit: bool },
}

/// The action of an active rate-limit layer for a request: allowed requests
/// go on; limited ones are refused with a wait of at least one second, and
/// tracked when analytics is configured.
pub fn limit_action(outcome: LimitOutcome, analytics: bool) -> (res: LimitAction)
    ensures
        outcome is Allowed ==> res == LimitAction::Forward,
        outcome matches LimitOutcome::Limited { wait_secs } ==> res == (LimitAction::Reject {
            retry_after_secs: if wait_secs >= 1 { wait_secs } else { 1 },
            track_hit: analytics,
        }),
{
    match outcome {
        LimitOutcome::Allowed => LimitAction::Forward,
        LimitOutcome::Limited { wait_secs } => LimitAction::Reject {
            retry_after_secs: retry_after_secs(wait_secs),
            track_hit: analytics,
        },
    }
}

} // verus!
