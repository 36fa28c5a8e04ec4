//! Domain values shared across the catalog: statuses, roles and their stored text.
use vstd::prelude::*;
use vstd::string::*;

use crate::text::str_eq;

pub mod adopt;
pub mod agent;
pub mod background;
pub mod scene;
pub mod shader;
pub mod storage;
pub mod taxonomy;
pub mod user;
pub mod work;
pub mod world;

verus! {

/// User roles. Stored as lowercase text (`user`, `admin`, `agent`).
#[derive(Debug, Clone, Copy, PartialEq, Eq, Structural)]
pub enum Role {
    User,
    Admin,
    Agent,
}

/// The text of each [`Role`], as displayed and stored.
pub open spec fn role_text(r: Role) -> Seq<char> {
    match r {
        Role::User => "user"@,
        Role::Admin => "admin"@,
        Role::Agent => "agent"@,
    }
}

impl Role {
    /// The role's text: `user`, `admin` or `agent`.
    pub fn as_str(self) -> (res: &'static str)
        ensures
            res@ == role_text(self),
    {
        match self {
            Role::User => "user",
            Role::Admin => "admin",
            Role::Agent => "agent",
        }
    }

    /// Whether this role grants admin privileges.
    pub fn is_admin(self) -> (res: bool)
        ensures
            res <==> self == Role::Admin,
    {
        matches!(self, Role::Admin)
    }

    /// Whether this role grants agent-level access (agents and admins).
    pub fn has_agent_access(self) -> (res: bool)
        ensures
            res <==> (self == Role::Agent || self == Role::Admin),
    {
        matches!(self, Role::Agent | Role::Admin)
    }
}

/// Which theme(s) a background image appears in.
#[derive(Debug, Clone, Copy, PartialEq, Eq, Structural)]
pub enum ThemeMode {
    Light,
    Dark,
    Both,
}

/// The stored text of each [`ThemeMode`] value.
pub open spec fn theme_mode_text(v: ThemeMode) -> Seq<char> {
    match v {
        ThemeMode::Light => "light"@,
        ThemeMode::Dark => "dark"@,
        ThemeMode::Both => "both"@,
    }
}

impl ThemeMode {
    /// The stored text of this value.
    pub fn as_str(&self) -> (res: &'static str)
        ensures
            res@ == theme_mode_text(*self),
    {
        match self {
            ThemeMode::Light => "light",
            ThemeMode::Dark => "dark",
            ThemeMode::Both => "both",
        }
    }

    /// Decode the stored text; any other text is an error naming it.
    pub fn decode(s: &str) -> (res: Result<ThemeMode, String>)
        ensures
            res matches Ok(v) ==> theme_mode_text(v) == s@,
            res is Err <==> forall|v: ThemeMode| #[trigger] theme_mode_text(v) != s@,
            res matches Err(e) ==> e@ == "unknown theme mode: "@ + s@,
    {
        proof {
            reveal_strlit("light");
            reveal_strlit("dark");
            reveal_strlit("both");
        }
        if str_eq(s, "light") {
            assert(theme_mode_text(ThemeMode::Light) == s@);
            return Ok(ThemeMode::Light);
        }
        if str_eq(s, "dark") {
            assert(theme_mode_text(ThemeMode::Dark) == s@);
            return Ok(ThemeMode::Dark);
        }
        if str_eq(s, "both") {
            assert(theme_mode_text(ThemeMode::Both) == s@);
            return Ok(ThemeMode::Both);
        }
        assert forall|v: ThemeMode| #[trigger] theme_mode_text(v) != s@ by {
            match v {
                ThemeMode::Light => {},
                ThemeMode::Dark => {},
                ThemeMode::Both => {},
            }
        }
        Err(String::from_str("unknown theme mode: ").concat(s))
    }
}

/// Lifecycle status of a capture.
#[derive(Debug, Clone, Copy, PartialEq, Eq, Structural)]
pub enum CaptureStatus {
    Uploading,
    Completed,
    Failed,
}

/// The stored text of each [`CaptureStatus`] value.
pub open spec fn capture_status_text(v: CaptureStatus) -> Seq<char> {
    match v {
        CaptureStatus::Uploading => "uploading"@,
        CaptureStatus::Completed => "completed"@,
        CaptureStatus::Failed => "failed"@,
    }
}

impl CaptureStatus {
    /// The stored text of this value.
    pub fn as_str(&self) -> (res: &'static str)
        ensures
            res@ == capture_status_text(*self),
    {
        match self {
            CaptureStatus::Uploading => "uploading",
            CaptureStatus::Completed => "completed",
            CaptureStatus::Failed => "failed",
        }
    }

    /// Decode the stored text; any other text is an error naming it.
    pub fn decode(s: &str) -> (res: Result<CaptureStatus, String>)
        ensures
            res matches Ok(v) ==> capture_status_text(v) == s@,
            res is Err <==> forall|v: CaptureStatus| #[trigger] capture_status_text(v) != s@,
            res matches Err(e) ==> e@ == "unknown capture status: "@ + s@,
    {
        proof {
            reveal_strlit("uploading");
            reveal_strlit("completed");
            reveal_strlit("failed");
        }
        if str_eq(s, "uploading") {
            assert(capture_status_text(CaptureStatus::Uploading) == s@);
            return Ok(CaptureStatus::Uploading);
        }
        if str_eq(s, "completed") {
            assert(capture_status_text(CaptureStatus::Completed) == s@);
            return Ok(CaptureStatus::Completed);
        }
        if str_eq(s, "failed") {
            assert(capture_status_text(CaptureStatus::Failed) == s@);
            return Ok(CaptureStatus::Failed);
        }
        assert forall|v: CaptureStatus| #[trigger] capture_status_text(v) != s@ by {
            match v {
                CaptureStatus::Uploading => {},
                CaptureStatus::Completed => {},
                CaptureStatus::Failed => {},
            }
        }
        Err(String::from_str("unknown capture status: ").concat(s))
    }
}

/// Status of a capture run.
#[derive(Debug, Clone, Copy, PartialEq, Eq, Structural)]
pub enum CaptureRunStatus {
    Running,
    Completed,
    Partial,
    Failed,
    TimedOut,
}

/// The stored text of each [`CaptureRunStatus`] value.
pub open spec fn capture_run_status_text(v: CaptureRunStatus) -> Seq<char> {
    match v {
        CaptureRunStatus::Running => "running"@,
        CaptureRunStatus::Completed => "completed"@,
        CaptureRunStatus::Partial => "partial"@,
        CaptureRunStatus::Failed => "failed"@,
        CaptureRunStatus::TimedOut => "timed_out"@,
    }
}

impl CaptureRunStatus {
    /// The stored text of this value.
    pub fn as_str(&self) -> (res: &'static str)
        ensures
            res@ == capture_run_status_text(*self),
    {
        match self {
            CaptureRunStatus::Running => "running",
            CaptureRunStatus::Completed => "completed",
            CaptureRunStatus::Partial => "partial",
            CaptureRunStatus::Failed => "failed",
            CaptureRunStatus::TimedOut => "timed_out",
        }
    }

    /// Decode the stored text; any other text is an error naming it.
    pub fn decode(s: &str) -> (res: Result<CaptureRunStatus, String>)
        ensures
            res matches Ok(v) ==> capture_run_status_text(v) == s@,
            res is Err <==> forall|v: CaptureRunStatus| #[trigger] capture_run_status_text(v) != s@,
            res matches Err(e) ==> e@ == "unknown capture run status: "@ + s@,
    {
        proof {
            reveal_strlit("running");
            reveal_strlit("completed");
            reveal_strlit("partial");
            reveal_strlit("failed");
            reveal_strlit("timed_out");
        }
        if str_eq(s, "running") {
            assert(capture_run_status_text(CaptureRunStatus::Running) == s@);
            return Ok(CaptureRunStatus::Running);
        }
        if str_eq(s, "completed") {
            assert(capture_run_status_text(CaptureRunStatus::Completed) == s@);
            return Ok(CaptureRunStatus::Completed);
        }
        if str_eq(s, "partial") {
            assert(capture_run_status_text(CaptureRunStatus::Partial) == s@);
            return Ok(CaptureRunStatus::Partial);
        }
        if str_eq(s, "failed") {
            assert(capture_run_status_text(CaptureRunStatus::Failed) == s@);
            return Ok(CaptureRunStatus::Failed);
        }
        if str_eq(s, "timed_out") {
            assert(capture_run_status_text(CaptureRunStatus::TimedOut) == s@);
            return Ok(CaptureRunStatus::TimedOut);
        }
        assert forall|v: CaptureRunStatus| #[trigger] capture_run_status_text(v) != s@ by {
            match v {
                CaptureRunStatus::Running => {},
                CaptureRunStatus::Completed => {},
                CaptureRunStatus::Partial => {},
                CaptureRunStatus::Failed => {},
                CaptureRunStatus::TimedOut => {},
            }
        }
        Err(String::from_str("unknown capture run status: ").concat(s))
    }
}

/// Status of one item of a capture run.
#[derive(Debug, Clone, Copy, PartialEq, Eq, Structural)]
pub enum CaptureRunItemStatus {
    Pending,
    Running,
    Completed,
    Failed,
    Skipped,
}

/// The stored text of each [`CaptureRunItemStatus`] value.
pub open spec fn capture_run_item_status_text(v: CaptureRunItemStatus) -> Seq<char> {
    match v {
        CaptureRunItemStatus::Pending => "pending"@,
        CaptureRunItemStatus::Running => "running"@,
        CaptureRunItemStatus::Completed => "completed"@,
        CaptureRunItemStatus::Failed => "failed"@,
        CaptureRunItemStatus::Skipped => "skipped"@,
    }
}

impl CaptureRunItemStatus {
    /// The stored text of this value.
    pub fn as_str(&self) -> (res: &'static str)
        ensures
            res@ == capture_run_item_status_text(*self),
    {
        match self {
            CaptureRunItemStatus::Pending => "pending",
            CaptureRunItemStatus::Running => "running",
            CaptureRunItemStatus::Completed => "completed",
            CaptureRunItemStatus::Failed => "failed",
            CaptureRunItemStatus::Skipped => "skipped",
        }
    }

    /// Decode the stored text; any other text is an error naming it.
    pub fn decode(s: &str) -> (res: Result<CaptureRunItemStatus, String>)
        ensures
            res matches Ok(v) ==> capture_run_item_status_text(v) == s@,
            res is Err <==> forall|v: CaptureRunItemStatus| #[trigger] capture_run_item_status_text(v) != s@,
            res matches Err(e) ==> e@ == "unknown capture run item status: "@ + s@,
    {
        proof {
            reveal_strlit("pending");
            reveal_strlit("running");
            reveal_strlit("completed");
            reveal_strlit("failed");
            reveal_strlit("skipped");
        }
        if str_eq(s, "pending") {
            assert(capture_run_item_status_text(CaptureRunItemStatus::Pending) == s@);
            return Ok(CaptureRunItemStatus::Pending);
        }
        if str_eq(s, "running") {
            assert(capture_run_item_status_text(CaptureRunItemStatus::Running) == s@);
            return Ok(CaptureRunItemStatus::Running);
        }
        if str_eq(s, "completed") {
            assert(capture_run_item_status_text(CaptureRunItemStatus::Completed) == s@);
            return Ok(CaptureRunItemStatus::Completed);
        }
        if str_eq(s, "failed") {
            assert(capture_run_item_status_text(CaptureRunItemStatus::Failed) == s@);
            return Ok(CaptureRunItemStatus::Failed);
        }
        if str_eq(s, "skipped") {
            assert(capture_run_item_status_text(CaptureRunItemStatus::Skipped) == s@);
            return Ok(CaptureRunItemStatus::Skipped);
        }
        assert forall|v: CaptureRunItemStatus| #[trigger] capture_run_item_status_text(v) != s@ by {
            match v {
                CaptureRunItemStatus::Pending => {},
                CaptureRunItemStatus::Running => {},
                CaptureRunItemStatus::Completed => {},
                CaptureRunItemStatus::Failed => {},
                CaptureRunItemStatus::Skipped => {},
            }
        }
        Err(String::from_str("unknown capture run item status: ").concat(s))
    }
}

/// Extraction pipeline status for a shader version.
#[derive(Debug, Clone, Copy, PartialEq, Eq, Structural)]
pub enum ExtractionStatus {
    Pending,
    Completed,
    Failed,
    Skipped,
}

/// The stored text of each [`ExtractionStatus`] value.
pub open spec fn extraction_status_text(v: ExtractionStatus) -> Seq<char> {
    match v {
        ExtractionStatus::Pending => "pending"@,
        ExtractionStatus::Completed => "completed"@,
        ExtractionStatus::Failed => "failed"@,
        ExtractionStatus::Skipped => "skipped"@,
    }
}

impl ExtractionStatus {
    /// The stored text of this value.
    pub fn as_str(&self) -> (res: &'static str)
        ensures
            res@ == extraction_status_text(*self),
    {
        match self {
            ExtractionStatus::Pending => "pending",
            ExtractionStatus::Completed => "completed",
            ExtractionStatus::Failed => "failed",
            ExtractionStatus::Skipped => "skipped",
        }
    }

    /// Decode the stored text; any other text is an error naming it.
    pub fn decode(s: &str) -> (res: Result<ExtractionStatus, String>)
        ensures
            res matches Ok(v) ==> extraction_status_text(v) == s@,
            res is Err <==> forall|v: ExtractionStatus| #[trigger] extraction_status_text(v) != s@,
            res matches Err(e) ==> e@ == "unknown extraction status: "@ + s@,
    {
        proof {
            reveal_strlit("pending");
            reveal_strlit("completed");
            reveal_strlit("failed");
            reveal_strlit("skipped");
        }
        if str_eq(s, "pending") {
            assert(extraction_status_text(ExtractionStatus::Pending) == s@);
            return Ok(ExtractionStatus::Pending);
        }
        if str_eq(s, "completed") {
            assert(extraction_status_text(ExtractionStatus::Completed) == s@);
            return Ok(ExtractionStatus::Completed);
        }
        if str_eq(s, "failed") {
            assert(extraction_status_text(ExtractionStatus::Failed) == s@);
            return Ok(ExtractionStatus::Failed);
        }
        if str_eq(s, "skipped") {
            assert(extraction_status_text(ExtractionStatus::Skipped) == s@);
            return Ok(ExtractionStatus::Skipped);
        }
        assert forall|v: ExtractionStatus| #[trigger] extraction_status_text(v) != s@ by {
            match v {
                ExtractionStatus::Pending => {},
                ExtractionStatus::Completed => {},
                ExtractionStatus::Failed => {},
                ExtractionStatus::Skipped => {},
            }
        }
        Err(String::from_str("unknown extraction status: ").concat(s))
    }
}

/// Freshness of a capture relative to current versions and newer captures.
#[derive(Debug, Clone, Copy, PartialEq, Eq, Structural)]
pub enum CaptureFreshness {
    Fresh,
    Stale,
    Superseded,
}

/// The stored text of each [`CaptureFreshness`] value.
pub open spec fn capture_freshness_text(v: CaptureFreshness) -> Seq<char> {
    match v {
        CaptureFreshness::Fresh => "fresh"@,
        CaptureFreshness::Stale => "stale"@,
        CaptureFreshness::Superseded => "superseded"@,
    }
}

impl CaptureFreshness {
    /// Decode the stored text; any other text is an error naming it.
    pub fn decode(s: &str) -> (res: Result<CaptureFreshness, String>)
        ensures
            res matches Ok(v) ==> capture_freshness_text(v) == s@,
            res is Err <==> forall|v: CaptureFreshness| #[trigger] capture_freshness_text(v) != s@,
            res matches Err(e) ==> e@ == "unknown freshness value: "@ + s@,
    {
        proof {
            reveal_strlit("fresh");
            reveal_strlit("stale");
            reveal_strlit("superseded");
        }
        if str_eq(s, "fresh") {
            assert(capture_freshness_text(CaptureFreshness::Fresh) == s@);
            return Ok(CaptureFreshness::Fresh);
        }
        if str_eq(s, "stale") {
            assert(capture_freshness_text(CaptureFreshness::Stale) == s@);
            return Ok(CaptureFreshness::Stale);
        }
        if str_eq(s, "superseded") {
            assert(capture_freshness_text(CaptureFreshness::Superseded) == s@);
            return Ok(CaptureFreshness::Superseded);
        }
        assert forall|v: CaptureFreshness| #[trigger] capture_freshness_text(v) != s@ by {
            match v {
                CaptureFreshness::Fresh => {},
                CaptureFreshness::Stale => {},
                CaptureFreshness::Superseded => {},
            }
        }
        Err(String::from_str("unknown freshness value: ").concat(s))
    }
}

/// Health status of a single capture target.
#[derive(Debug, Clone, Copy, PartialEq, Eq, Structural)]
pub enum TargetHealth {
    Missing,
    Stale,
    Completed,
    Failed,
}

/// The stored text of each [`TargetHealth`] value.
pub open spec fn target_health_text(v: TargetHealth) -> Seq<char> {
    match v {
        TargetHealth::Missing => "missing"@,
        TargetHealth::Stale => "stale"@,
        TargetHealth::Completed => "completed"@,
        TargetHealth::Failed => "failed"@,
    }
}

impl TargetHealth {
    /// Decode the stored text; any other text is an error naming it.
    pub fn decode(s: &str) -> (res: Result<TargetHealth, String>)
        ensures
            res matches Ok(v) ==> target_health_text(v) == s@,
            res is Err <==> forall|v: TargetHealth| #[trigger] target_health_text(v) != s@,
            res matches Err(e) ==> e@ == "unknown target health value: "@ + s@,
    {
        proof {
            reveal_strlit("missing");
            reveal_strlit("stale");
            reveal_strlit("completed");
            reveal_strlit("failed");
        }
        if str_eq(s, "missing") {
            assert(target_health_text(TargetHealth::Missing) == s@);
            return Ok(TargetHealth::Missing);
        }
        if str_eq(s, "stale") {
            assert(target_health_text(TargetHealth::Stale) == s@);
            return Ok(TargetHealth::Stale);
        }
        if str_eq(s, "completed") {
            assert(target_health_text(TargetHealth::Completed) == s@);
            return Ok(TargetHealth::Completed);
        }
        if str_eq(s, "failed") {
            assert(target_health_text(TargetHealth::Failed) == s@);
            return Ok(TargetHealth::Failed);
        }
        assert forall|v: TargetHealth| #[trigger] target_health_text(v) != s@ by {
            match v {
                TargetHealth::Missing => {},
                TargetHealth::Stale => {},
                TargetHealth::Completed => {},
                TargetHealth::Failed => {},
            }
        }
        Err(String::from_str("unknown target health value: ").concat(s))
    }
}


// ---------------------------------------------------------------------------
// Stored text round trips
// ---------------------------------------------------------------------------

/// Distinct [`ThemeMode`] values have distinct stored text, so decoding the text
/// of a value gives back that value.
pub proof fn lemma_theme_mode_round_trip(v: ThemeMode, w: ThemeMode)
    requires
        theme_mode_text(w) == theme_mode_text(v),
    ensures
        w == v,
{
    reveal_strlit("light");
    reveal_strlit("dark");
    reveal_strlit("both");
    let c = theme_mode_text(w)[0];
    assert(theme_mode_text(ThemeMode::Light)[0] == 'l');
    assert(theme_mode_text(ThemeMode::Dark)[0] == 'd');
    assert(theme_mode_text(ThemeMode::Both)[0] == 'b');
    assert(c == theme_mode_text(v)[0]);
}

/// Distinct [`CaptureStatus`] values have distinct stored text, so decoding the text
/// of a value gives back that value.
pub proof fn lemma_capture_status_round_trip(v: CaptureStatus, w: CaptureStatus)
    requires
        capture_status_text(w) == capture_status_text(v),
    ensures
        w == v,
{
    reveal_strlit("uploading");
    reveal_strlit("completed");
    reveal_strlit("failed");
    let c = capture_status_text(w)[0];
    assert(capture_status_text(CaptureStatus::Uploading)[0] == 'u');
    assert(capture_status_text(CaptureStatus::Completed)[0] == 'c');
    assert(capture_status_text(CaptureStatus::Failed)[0] == 'f');
    assert(c == capture_status_text(v)[0]);
}

/// Distinct [`CaptureRunStatus`] values have distinct stored text, so decoding the text
/// of a value gives back that value.
pub proof fn lemma_capture_run_status_round_trip(v: CaptureRunStatus, w: CaptureRunStatus)
    requires
        capture_run_status_text(w) == capture_run_status_text(v),
    ensures
        w == v,
{
    reveal_strlit("running");
    reveal_strlit("completed");
    reveal_strlit("partial");
    reveal_strlit("failed");
    reveal_strlit("timed_out");
    let c = capture_run_status_text(w)[0];
    assert(capture_run_status_text(CaptureRunStatus::Running)[0] == 'r');
    assert(capture_run_status_text(CaptureRunStatus::Completed)[0] == 'c');
    assert(capture_run_status_text(CaptureRunStatus::Partial)[0] == 'p');
    assert(capture_run_status_text(CaptureRunStatus::Failed)[0] == 'f');
    assert(capture_run_status_text(CaptureRunStatus::TimedOut)[0] == 't');
    assert(c == capture_run_status_text(v)[0]);
}

/// Distinct [`CaptureRunItemStatus`] values have distinct stored text, so decoding the text
/// of a value gives back that value.
pub proof fn lemma_capture_run_item_status_round_trip(v: CaptureRunItemStatus, w: CaptureRunItemStatus)
    requires
        capture_run_item_status_text(w) == capture_run_item_status_text(v),
    ensures
        w == v,
{
    reveal_strlit("pending");
    reveal_strlit("running");
    reveal_strlit("completed");
    reveal_strlit("failed");
    reveal_strlit("skipped");
    let c = capture_run_item_status_text(w)[0];
    assert(capture_run_item_status_text(CaptureRunItemStatus::Pending)[0] == 'p');
    assert(capture_run_item_status_text(CaptureRunItemStatus::Running)[0] == 'r');
    assert(capture_run_item_status_text(CaptureRunItemStatus::Completed)[0] == 'c');
    assert(capture_run_item_status_text(CaptureRunItemStatus::Failed)[0] == 'f');
    assert(capture_run_item_status_text(CaptureRunItemStatus::Skipped)[0] == 's');
    assert(c == capture_run_item_status_text(v)[0]);
}

/// Distinct [`ExtractionStatus`] values have distinct stored text, so decoding the text
/// of a value gives back that value.
pub proof fn lemma_extraction_status_round_trip(v: ExtractionStatus, w: ExtractionStatus)
    requires
        extraction_status_text(w) == extraction_status_text(v),
    ensures
        w == v,
{
    reveal_strlit("pending");
    reveal_strlit("completed");
    reveal_strlit("failed");
    reveal_strlit("skipped");
    let c = extraction_status_text(w)[0];
    assert(extraction_status_text(ExtractionStatus::Pending)[0] == 'p');
    assert(extraction_status_text(ExtractionStatus::Completed)[0] == 'c');
    assert(extraction_status_text(ExtractionStatus::Failed)[0] == 'f');
    assert(extraction_status_text(ExtractionStatus::Skipped)[0] == 's');
    assert(c == extraction_status_text(v)[0]);
}

/// Distinct [`CaptureFreshness`] values have distinct stored text, so a decoded value is
/// the only one with that text.
pub proof fn lemma_capture_freshness_text_distinct(v: CaptureFreshness, w: CaptureFreshness)
    requires
        capture_freshness_text(w) == capture_freshness_text(v),
    ensures
        w == v,
{
    reveal_strlit("fresh");
    reveal_strlit("stale");
    reveal_strlit("superseded");
    let c = capture_freshness_text(w)[0];
    assert(capture_freshness_text(CaptureFreshness::Fresh)[0] == 'f');
    assert(capture_freshness_text(CaptureFreshness::Stale)[0] == 's');
    assert(capture_freshness_text(CaptureFreshness::Superseded)[0] == 's');
    assert(c == capture_freshness_text(v)[0]);
    assert(capture_freshness_text(w).len() == capture_freshness_text(v).len());
    assert(capture_freshness_text(CaptureFreshness::Stale).len() == 5);
    assert(capture_freshness_text(CaptureFreshness::Superseded).len() == 10);
}

/// Distinct [`TargetHealth`] values have distinct stored text, so a decoded value is
/// the only one with that text.
pub proof fn lemma_target_health_text_distinct(v: TargetHealth, w: TargetHealth)
    requires
        target_health_text(w) == target_health_text(v),
    ensures
        w == v,
{
    reveal_strlit("missing");
    reveal_strlit("stale");
    reveal_strlit("completed");
    reveal_strlit("failed");
    let c = target_health_text(w)[0];
    assert(target_health_text(TargetHealth::Missing)[0] == 'm');
    assert(target_health_text(TargetHealth::Stale)[0] == 's');
    assert(target_health_text(TargetHealth::Completed)[0] == 'c');
    assert(target_health_text(TargetHealth::Failed)[0] == 'f');
    assert(c == target_health_text(v)[0]);
}

} // verus!
