//! Capture health matrix: per-target status, stale reasons and summary counts.
use vstd::prelude::*;

use crate::models::TargetHealth;

verus! {

/// Why a capture target is stale (only present when its status is `Stale`).
#[derive(Debug, Clone, Copy, PartialEq, Eq, Structural)]
pub enum StaleReason {
    WorldUpdated,
    SceneUpdated,
    BothUpdated,
}

/// One row of the capture-health query. Timestamps are Unix microseconds.
pub struct CaptureHealthRow {
    pub shader_id: String,
    pub shader_name: String,
    pub shader_slug: String,
    pub shader_version_id: String,
    pub version: String,
    pub scene_id: String,
    pub scene_name: String,
    pub scene_slug: String,
    pub profile_id: Option<String>,
    pub profile_name: Option<String>,
    pub capture_failure_count: i32,
    pub last_capture_at: Option<i64>,
    pub status: TargetHealth,
    pub world_outdated: bool,
    pub scene_outdated: bool,
}

/// A single capture target with its health status.
pub struct CaptureTargetHealth {
    pub shader_id: String,
    pub shader_name: String,
    pub shader_slug: String,
    pub shader_version_id: String,
    pub version: String,
    pub scene_id: String,
    pub scene_name: String,
    pub scene_slug: String,
    pub profile_id: Option<String>,
    pub profile_name: Option<String>,
    pub status: TargetHealth,
    pub stale_reason: Option<StaleReason>,
    pub last_capture_at: Option<i64>,
    pub failure_count: i32,
}

/// Summary counts for the capture health matrix.
#[derive(Debug, Clone, Copy, PartialEq, Eq, Structural)]
pub struct CaptureHealthSummary {
    pub total_targets: i32,
    pub completed: i32,
    pub missing: i32,
    pub stale: i32,
    pub failed: i32,
}

/// Full capture health response.
pub struct CaptureHealthResponse {
    pub targets: Vec<CaptureTargetHealth>,
    pub summary: CaptureHealthSummary,
}

/// The stale reason of a target: only stale targets have one; it names what
/// was updated, and falls back to `WorldUpdated` when neither flag is set.
pub open spec fn spec_stale_reason(status: TargetHealth, world: bool, scene: bool) -> Option<
    StaleReason,
> {
    if status == TargetHealth::Stale {
        Some(
            if world && scene {
                StaleReason::BothUpdated
            } else if world {
                StaleReason::WorldUpdated
            } else if scene {
                StaleReason::SceneUpdated
            } else {
                StaleReason::WorldUpdated
            },
        )
    } else {
        None
    }
}

pub fn stale_reason(status: TargetHealth, world_outdated: bool, scene_outdated: bool) -> (res:
    Option<StaleReason>)
    ensures
        res == spec_stale_reason(status, world_outdated, scene_outdated),
{
    if status == TargetHealth::Stale {
        Some(
            match (world_outdated, scene_outdated) {
                (true, true) => StaleReason::BothUpdated,
                (true, false) => StaleReason::WorldUpdated,
                (false, true) => StaleReason::SceneUpdated,
                (false, false) => StaleReason::WorldUpdated,
            },
        )
    } else {
        None
    }
}

/// Number of entries of `s` with status `st`.
pub open spec fn count_status(s: Seq<TargetHealth>, st: TargetHealth) -> int
    decreases s.len(),
{
    if s.len() == 0 {
        0
    } else {
        count_status(s.drop_last(), st) + if s.last() == st {
            1int
        } else {
            0int
        }
    }
}

proof fn lemma_count_status_le(s: Seq<TargetHealth>, st: TargetHealth)
    ensures
        0 <= count_status(s, st) <= s.len(),
    decreases s.len(),
{
    if s.len() > 0 {
        lemma_count_status_le(s.drop_last(), st);
    }
}

/// Every target is counted under exactly one status: the four counts add up
/// to the number of targets.
pub proof fn lemma_status_counts_partition(s: Seq<TargetHealth>)
    ensures
        count_status(s, TargetHealth::Completed) + count_status(s, TargetHealth::Missing)
            + count_status(s, TargetHealth::Stale) + count_status(s, TargetHealth::Failed)
            == s.len(),
    decreases s.len(),
{
    if s.len() > 0 {
        lemma_status_counts_partition(s.drop_last());
    }
}

/// Statuses of a list of targets.
pub open spec fn statuses(ts: Seq<CaptureTargetHealth>) -> Seq<TargetHealth> {
    ts.map_values(|t: CaptureTargetHealth| t.status)
}

fn count_with_status(ts: &Vec<CaptureTargetHealth>, st: TargetHealth) -> (res: usize)
    ensures
        res == count_status(statuses(ts@), st),
{
    let ghost s = statuses(ts@);
    let mut c: usize = 0;
    let mut i: usize = 0;
    while i < ts.len()
        invariant
            s == statuses(ts@),
            0 <= i <= ts@.len(),
            c == count_status(s.take(i as int), st),
            c <= i,
        decreases ts@.len() - i,
    {
        assert(s.take(i as int + 1).drop_last() =~= s.take(i as int));
        if ts[i].status == st {
            c = c + 1;
        }
        i = i + 1;
    }
    assert(s.take(i as int) =~= s);
    c
}

/// Summarise targets: the total and the number in each status (as `i32`,
/// converted with `as`).
pub fn summarize(targets: &Vec<CaptureTargetHealth>) -> (res: CaptureHealthSummary)
    ensures
        res.total_targets == targets@.len() as i32,
        res.completed == count_status(statuses(targets@), TargetHealth::Completed) as i32,
        res.missing == count_status(statuses(targets@), TargetHealth::Missing) as i32,
        res.stale == count_status(statuses(targets@), TargetHealth::Stale) as i32,
        res.failed == count_status(statuses(targets@), TargetHealth::Failed) as i32,
{
    let total = targets.len();
    let completed = count_with_status(targets, TargetHealth::Completed);
    let missing = count_with_status(targets, TargetHealth::Missing);
    let stale = count_with_status(targets, TargetHealth::Stale);
    let failed = count_with_status(targets, TargetHealth::Failed);
    CaptureHealthSummary {
        total_targets: total as i32,
        completed: completed as i32,
        missing: missing as i32,
        stale: stale as i32,
        failed: failed as i32,
    }
}

/// The target reported for a query row: the row's fields, with the stale
/// reason derived from its status and outdated flags.
pub open spec fn target_of(row: CaptureHealthRow) -> CaptureTargetHealth {
    CaptureTargetHealth {
        shader_id: row.shader_id,
        shader_name: row.shader_name,
        shader_slug: row.shader_slug,
        shader_version_id: row.shader_version_id,
        version: row.version,
        scene_id: row.scene_id,
        scene_name: row.scene_name,
        scene_slug: row.scene_slug,
        profile_id: row.profile_id,
        profile_name: row.profile_name,
        status: row.status,
        stale_reason: spec_stale_reason(row.status, row.world_outdated, row.scene_outdated),
        last_capture_at: row.last_capture_at,
        failure_count: row.capture_failure_count,
    }
}

/// The target reported for a query row.
pub fn target_from_row(row: CaptureHealthRow) -> (res: CaptureTargetHealth)
    ensures
        res == target_of(row),
{
    let reason = stale_reason(row.status, row.world_outdated, row.scene_outdated);
    CaptureTargetHealth {
        shader_id: row.shader_id,
        shader_name: row.shader_name,
        shader_slug: row.shader_slug,
        shader_version_id: row.shader_version_id,
        version: row.version,
        scene_id: row.scene_id,
        scene_name: row.scene_name,
        scene_slug: row.scene_slug,
        profile_id: row.profile_id,
        profile_name: row.profile_name,
        status: row.status,
        stale_reason: reason,
        last_capture_at: row.last_capture_at,
        failure_count: row.capture_failure_count,
    }
}

/// Build the health response from the query rows, in row order, with its summary.
pub fn build_health_response(rows: Vec<CaptureHealthRow>) -> (res: CaptureHealthResponse)
    ensures
        res.targets@ == rows@.map_values(|r: CaptureHealthRow| target_of(r)),
        res.summary.total_targets == rows@.len() as i32,
        res.summary.completed == count_status(statuses(res.targets@), TargetHealth::Completed) as i32,
        res.summary.missing == count_status(statuses(res.targets@), TargetHealth::Missing) as i32,
        res.summary.stale == count_status(statuses(res.targets@), TargetHealth::Stale) as i32,
        res.summary.failed == count_status(statuses(res.targets@), TargetHealth::Failed) as i32,
{
    let ghost rv = rows@;
    let mut rows = rows;
    let mut targets: Vec<CaptureTargetHealth> = Vec::new();
    let n = rows.len();
    let mut taken: usize = 0;
    while taken < n
        invariant
            0 <= taken <= n,
            n == rv.len(),
            rows@ == rv.subrange(taken as int, n as int),
            targets@ == rv.take(taken as int).map_values(|r: CaptureHealthRow| target_of(r)),
        decreases n - taken,
    {
        let row = rows.remove(0);
        assert(row == rv[taken as int]);
        let t = target_from_row(row);
        targets.push(t);
        assert(rv.take(taken as int + 1).map_values(|r: CaptureHealthRow| target_of(r)) =~= rv.take(
            taken as int,
        ).map_values(|r: CaptureHealthRow| target_of(r)).push(target_of(rv[taken as int])));
        taken = taken + 1;
    }
    assert(rv.take(n as int) =~= rv);
    let summary = summarize(&targets);
    CaptureHealthResponse { targets, summary }
}

} // verus!
