use glint::capture_health::{
    build_health_response, stale_reason, summarize, CaptureHealthRow, StaleReason,
};
use glint::models::TargetHealth;

fn row(scene: &str, status: TargetHealth, world: bool, scene_outdated: bool) -> CaptureHealthRow {
    CaptureHealthRow {
        shader_id: "sh1".to_string(),
        shader_name: "BSL".to_string(),
        shader_slug: "bsl".to_string(),
        shader_version_id: "sv1".to_string(),
        version: "8.4".to_string(),
        scene_id: scene.to_string(),
        scene_name: scene.to_uppercase(),
        scene_slug: scene.to_string(),
        profile_id: None,
        profile_name: None,
        capture_failure_count: 2,
        last_capture_at: Some(1_700_000_000_000_000),
        status,
        world_outdated: world,
        scene_outdated,
    }
}

#[test]
fn stale_reasons() {
    assert_eq!(stale_reason(TargetHealth::Stale, true, true), Some(StaleReason::BothUpdated));
    assert_eq!(stale_reason(TargetHealth::Stale, true, false), Some(StaleReason::WorldUpdated));
    assert_eq!(stale_reason(TargetHealth::Stale, false, true), Some(StaleReason::SceneUpdated));
    assert_eq!(stale_reason(TargetHealth::Stale, false, false), Some(StaleReason::WorldUpdated));
    assert_eq!(stale_reason(TargetHealth::Completed, true, true), None);
    assert_eq!(stale_reason(TargetHealth::Missing, false, false), None);
}

#[test]
fn health_response() {
    let rows = vec![
        row("a", TargetHealth::Completed, true, false),
        row("b", TargetHealth::Stale, false, true),
        row("c", TargetHealth::Missing, false, false),
        row("d", TargetHealth::Stale, true, true),
        row("e", TargetHealth::Failed, false, false),
    ];
    let res = build_health_response(rows);
    assert_eq!(res.targets.len(), 5);
    let scenes: Vec<&str> = res.targets.iter().map(|t| t.scene_id.as_str()).collect();
    assert_eq!(scenes, vec!["a", "b", "c", "d", "e"]);
    assert_eq!(res.targets[0].stale_reason, None);
    assert_eq!(res.targets[1].stale_reason, Some(StaleReason::SceneUpdated));
    assert_eq!(res.targets[3].stale_reason, Some(StaleReason::BothUpdated));
    assert_eq!(res.targets[1].scene_name, "B");
    assert_eq!(res.targets[2].failure_count, 2);
    let s = res.summary;
    assert_eq!((s.total_targets, s.completed, s.missing, s.stale, s.failed), (5, 1, 1, 2, 1));
    // Every target is counted under exactly one status.
    assert_eq!(s.completed + s.missing + s.stale + s.failed, s.total_targets);
    let again = summarize(&res.targets);
    assert_eq!(again, s);
}

#[test]
fn empty_health_response() {
    let res = build_health_response(vec![]);
    assert!(res.targets.is_empty());
    assert_eq!(res.summary.total_targets, 0);
    assert_eq!(res.summary.completed, 0);
}
