use glint::models::scene::{
    listed_version_fields,
    InitiateNewSceneUploadRequest, InitiateVersionUploadRequest, ReorderPresetsRequest,
};
use glint::models::shader::ShaderSearchSort;
use glint::models::work::{work_package, work_preset_identity};
use glint::models::{
    CaptureFreshness, CaptureRunItemStatus, CaptureRunStatus, CaptureStatus, ExtractionStatus,
    Role, TargetHealth, ThemeMode,
};

#[test]
fn role_access() {
    assert!(Role::Admin.is_admin());
    assert!(!Role::Agent.is_admin());
    assert!(!Role::User.is_admin());
    assert!(Role::Admin.has_agent_access());
    assert!(Role::Agent.has_agent_access());
    assert!(!Role::User.has_agent_access());
    assert_eq!(Role::User.as_str(), "user");
    assert_eq!(Role::Admin.as_str(), "admin");
    assert_eq!(Role::Agent.as_str(), "agent");
}

#[test]
fn theme_mode_text_round_trips() {
    for m in [ThemeMode::Light, ThemeMode::Dark, ThemeMode::Both] {
        assert_eq!(ThemeMode::decode(m.as_str()), Ok(m));
    }
    assert_eq!(ThemeMode::Dark.as_str(), "dark");
    assert_eq!(ThemeMode::decode("Dark"), Err("unknown theme mode: Dark".to_string()));
}

#[test]
fn capture_status_text_round_trips() {
    for s in [CaptureStatus::Uploading, CaptureStatus::Completed, CaptureStatus::Failed] {
        assert_eq!(CaptureStatus::decode(s.as_str()), Ok(s));
    }
    assert_eq!(CaptureStatus::Uploading.as_str(), "uploading");
    assert!(CaptureStatus::decode("done").is_err());
}

#[test]
fn capture_run_status_text_round_trips() {
    for s in [
        CaptureRunStatus::Running,
        CaptureRunStatus::Completed,
        CaptureRunStatus::Partial,
        CaptureRunStatus::Failed,
        CaptureRunStatus::TimedOut,
    ] {
        assert_eq!(CaptureRunStatus::decode(s.as_str()), Ok(s));
    }
    assert_eq!(CaptureRunStatus::TimedOut.as_str(), "timed_out");
    assert!(CaptureRunStatus::decode("timedout").is_err());
}

#[test]
fn capture_run_item_status_text_round_trips() {
    for s in [
        CaptureRunItemStatus::Pending,
        CaptureRunItemStatus::Running,
        CaptureRunItemStatus::Completed,
        CaptureRunItemStatus::Failed,
        CaptureRunItemStatus::Skipped,
    ] {
        assert_eq!(CaptureRunItemStatus::decode(s.as_str()), Ok(s));
    }
    assert_eq!(CaptureRunItemStatus::Skipped.as_str(), "skipped");
}

#[test]
fn extraction_status_text_round_trips() {
    for s in [
        ExtractionStatus::Pending,
        ExtractionStatus::Completed,
        ExtractionStatus::Failed,
        ExtractionStatus::Skipped,
    ] {
        assert_eq!(ExtractionStatus::decode(s.as_str()), Ok(s));
    }
    assert!(ExtractionStatus::decode("").is_err());
}

#[test]
fn decode_only_enums() {
    assert_eq!(TargetHealth::decode("stale"), Ok(TargetHealth::Stale));
    assert_eq!(TargetHealth::decode("missing"), Ok(TargetHealth::Missing));
    assert!(TargetHealth::decode("STALE").is_err());
    assert!(CaptureFreshness::decode("nonsense").is_err());
}

#[test]
fn shader_search_sort_defaults_to_popular() {
    assert_eq!(ShaderSearchSort::default(), ShaderSearchSort::Popular);
}

fn new_scene_request() -> InitiateNewSceneUploadRequest {
    InitiateNewSceneUploadRequest {
        name: "Hills".to_string(),
        slug: "hills-at-dawn".to_string(),
        description: None,
        dimension: "overworld".to_string(),
        minecraft_version: "1.21.4".to_string(),
        file_hash: "sha256:abc".to_string(),
        size_bytes: 1024,
    }
}

#[test]
fn new_scene_upload_rules() {
    assert_eq!(new_scene_request().validate(), Ok(()));

    let mut r = new_scene_request();
    r.slug = "Hills At Dawn".to_string();
    r.size_bytes = 0;
    assert_eq!(r.validate(), Err(vec!["slug", "size_bytes"]));

    let mut r = new_scene_request();
    r.name = String::new();
    r.minecraft_version = "x".repeat(21);
    r.file_hash = String::new();
    assert_eq!(r.validate(), Err(vec!["name", "minecraft_version", "file_hash"]));

    // Lengths count characters, not bytes.
    let mut r = new_scene_request();
    r.name = "é".repeat(100);
    r.dimension = "d".repeat(51);
    assert_eq!(r.validate(), Err(vec!["dimension"]));
}

#[test]
fn version_upload_rules() {
    let ok = InitiateVersionUploadRequest {
        file_hash: "h".to_string(),
        size_bytes: 1,
        minecraft_version: "1.21".to_string(),
    };
    assert_eq!(ok.validate(), Ok(()));
    let bad = InitiateVersionUploadRequest {
        file_hash: String::new(),
        size_bytes: -5,
        minecraft_version: String::new(),
    };
    assert_eq!(bad.validate(), Err(vec!["file_hash", "size_bytes", "minecraft_version"]));
}

#[test]
fn reorder_rules() {
    assert_eq!(ReorderPresetsRequest { preset_ids: vec![] }.validate(), Err(vec!["preset_ids"]));
    assert_eq!(ReorderPresetsRequest { preset_ids: vec!["a".to_string()] }.validate(), Ok(()));
    let many: Vec<String> = (0..101).map(|i| i.to_string()).collect();
    assert_eq!(ReorderPresetsRequest { preset_ids: many }.validate(), Err(vec!["preset_ids"]));
}

#[test]
fn work_package_follows_its_url() {
    assert!(work_package(None, None, Some(10)).is_none());
    assert!(work_package(None, Some("abc".to_string()), None).is_none());
    let p = work_package(
        Some("https://cdn.example/scene.zip".to_string()),
        Some("deadbeef".to_string()),
        Some(4096),
    )
    .unwrap();
    assert_eq!(p.url, "https://cdn.example/scene.zip");
    assert_eq!(p.hash, "deadbeef");
    assert_eq!(p.size_bytes, Some(4096));
}

#[test]
fn work_preset_follows_its_id() {
    assert!(work_preset_identity(None, Some("Noon".to_string()), Some("noon".to_string())).is_none());
    assert!(work_preset_identity(None, None, None).is_none());
    let (id, name, slug) = work_preset_identity(
        Some("p1".to_string()),
        Some("Golden Hour".to_string()),
        Some("golden-hour".to_string()),
    )
    .unwrap();
    assert_eq!(id, "p1");
    assert_eq!(name, "Golden Hour");
    assert_eq!(slug, "golden-hour");
}

#[test]
fn listed_scene_version_defaults() {
    let e = listed_version_fields::<i64>("s1", None, Some(5), None, None, None, None, 100);
    assert_eq!(e.err().unwrap(), "scene 's1' has no version (post-migration invariant violated)");
    let f = listed_version_fields::<i64>("s1", Some("v1".to_string()), None, None, None, None, None, 100)
        .ok()
        .unwrap();
    assert_eq!(f.version_id, "v1");
    assert_eq!(f.time_of_day_ticks, 0);
    assert_eq!(f.weather, "");
    assert_eq!(f.fov, 70);
    assert_eq!(f.render_distance, 16);
    assert_eq!(f.created_at, 100);
    let g = listed_version_fields::<i64>(
        "s1",
        Some("v2".to_string()),
        Some(18000),
        Some("rain".to_string()),
        Some(90),
        Some(32),
        Some(250),
        100,
    )
    .ok()
    .unwrap();
    assert_eq!(
        (g.time_of_day_ticks, g.weather.as_str(), g.fov, g.render_distance, g.created_at),
        (18000, "rain", 90, 32, 250)
    );
}
