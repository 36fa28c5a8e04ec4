use glint::work_ordering::{
    cluster_scenes, optimize_execution_order, xz_distance_squared, WorkEntry,
};

/// Test items named by strings, as the catalog names worlds, shaders and scenes.
struct Names {
    names: Vec<String>,
    items: usize,
}

impl Names {
    fn new() -> Names {
        Names { names: Vec::new(), items: 0 }
    }

    fn id(&mut self, name: &str) -> u64 {
        match self.names.iter().position(|n| n == name) {
            Some(i) => i as u64,
            None => {
                self.names.push(name.to_string());
                (self.names.len() - 1) as u64
            }
        }
    }

    fn name(&self, id: u64) -> &str {
        &self.names[id as usize]
    }
}

/// Positions are given in blocks, as in the catalog, and stored in thousandths.
fn make_item(
    names: &mut Names,
    world_id: &str,
    shader_version_id: &str,
    profile_id: Option<&str>,
    scene_id: &str,
    x: f64,
    z: f64,
    time_of_day: i32,
) -> WorkEntry {
    let tag = names.items;
    names.items += 1;
    WorkEntry {
        world: names.id(world_id),
        shader_version: names.id(shader_version_id),
        profile: profile_id.map(|p| names.id(p)),
        scene: names.id(scene_id),
        x: (x * 1000.0).round() as i64,
        z: (z * 1000.0).round() as i64,
        time_of_day,
        tag,
    }
}

fn scene_ids<'a>(names: &'a Names, items: &[WorkEntry]) -> Vec<&'a str> {
    items.iter().map(|i| names.name(i.scene)).collect()
}

fn item_keys<'a>(
    names: &'a Names,
    items: &[WorkEntry],
) -> Vec<(&'a str, &'a str, Option<&'a str>, &'a str)> {
    items
        .iter()
        .map(|i| {
            (
                names.name(i.world),
                names.name(i.shader_version),
                i.profile.map(|p| names.name(p)),
                names.name(i.scene),
            )
        })
        .collect()
}

#[test]
fn test_empty_input() {
    let result = optimize_execution_order(vec![]);
    assert!(result.is_empty());
}

#[test]
fn test_single_item_passthrough() {
    let mut n = Names::new();
    let items = vec![make_item(&mut n, "w1", "sv1", None, "s1", 0.0, 0.0, 6000)];
    let result = optimize_execution_order(items);
    assert_eq!(result.len(), 1);
    assert_eq!(n.name(result[0].scene), "s1");
}

#[test]
fn test_derived_scenes_clustered_by_time() {
    let mut n = Names::new();
    let items = vec![
        make_item(&mut n, "w1", "sv1", None, "hills_night", 100.0, 200.0, 13000),
        make_item(&mut n, "w1", "sv1", None, "hills_sunset", 100.0, 200.0, 18000),
        make_item(&mut n, "w1", "sv1", None, "hills", 100.0, 200.0, 1500),
    ];
    let result = optimize_execution_order(items);
    assert_eq!(scene_ids(&n, &result), vec!["hills", "hills_night", "hills_sunset"]);
}

#[test]
fn test_hierarchy_preserved() {
    let mut n = Names::new();
    let items = vec![
        make_item(&mut n, "w1", "sv1", Some("low"), "s1", 0.0, 0.0, 6000),
        make_item(&mut n, "w1", "sv1", Some("low"), "s2", 100.0, 100.0, 6000),
        make_item(&mut n, "w1", "sv1", Some("high"), "s1", 0.0, 0.0, 6000),
        make_item(&mut n, "w1", "sv1", Some("high"), "s2", 100.0, 100.0, 6000),
        make_item(&mut n, "w2", "sv2", None, "s3", 50.0, 50.0, 6000),
    ];
    let result = optimize_execution_order(items);
    let keys = item_keys(&n, &result);

    let w1_end = keys.iter().rposition(|(w, _, _, _)| *w == "w1").unwrap();
    let w2_start = keys.iter().position(|(w, _, _, _)| *w == "w2").unwrap();
    assert!(w1_end < w2_start, "world grouping broken");

    let low_end = keys.iter().rposition(|(_, _, p, _)| *p == Some("low")).unwrap();
    let high_start = keys.iter().position(|(_, _, p, _)| *p == Some("high")).unwrap();
    assert!(low_end < high_start, "profile grouping broken");
}

#[test]
fn test_proximity_cluster_ordering() {
    let mut n = Names::new();
    let items = vec![
        make_item(&mut n, "w1", "sv1", None, "a", 0.0, 0.0, 6000),
        make_item(&mut n, "w1", "sv1", None, "c", 2000.0, 0.0, 6000),
        make_item(&mut n, "w1", "sv1", None, "b", 100.0, 0.0, 6000),
    ];
    let result = optimize_execution_order(items);
    let ids = scene_ids(&n, &result);

    let a_pos = ids.iter().position(|s| *s == "a").unwrap();
    let b_pos = ids.iter().position(|s| *s == "b").unwrap();
    let c_pos = ids.iter().position(|s| *s == "c").unwrap();

    assert!(
        (a_pos as i64 - b_pos as i64).abs() == 1,
        "proximity scenes a and b should be adjacent, got a={a_pos}, b={b_pos}"
    );
    assert!(c_pos > a_pos && c_pos > b_pos, "distant scene c should come last");
}

#[test]
fn test_profile_scene_ordering_repeated() {
    let mut n = Names::new();
    let items = vec![
        make_item(&mut n, "w1", "sv1", Some("low"), "hills_night", 100.0, 200.0, 13000),
        make_item(&mut n, "w1", "sv1", Some("low"), "hills", 100.0, 200.0, 1500),
        make_item(&mut n, "w1", "sv1", Some("low"), "hills_sunset", 100.0, 200.0, 18000),
        make_item(&mut n, "w1", "sv1", Some("high"), "hills_night", 100.0, 200.0, 13000),
        make_item(&mut n, "w1", "sv1", Some("high"), "hills", 100.0, 200.0, 1500),
        make_item(&mut n, "w1", "sv1", Some("high"), "hills_sunset", 100.0, 200.0, 18000),
    ];
    let result = optimize_execution_order(items);

    let low_scenes: Vec<&str> = result[..3].iter().map(|i| n.name(i.scene)).collect();
    let high_scenes: Vec<&str> = result[3..].iter().map(|i| n.name(i.scene)).collect();

    assert_eq!(low_scenes, vec!["hills", "hills_night", "hills_sunset"]);
    assert_eq!(high_scenes, vec!["hills", "hills_night", "hills_sunset"]);
}

#[test]
fn test_xz_distance_ignores_y() {
    // (0, 0) to (3, 4) blocks; the distance is the square root of the squared one.
    let d2 = xz_distance_squared(0, 0, 3000, 4000);
    let d = (d2 as f64).sqrt() / 1000.0;
    assert!((d - 5.0).abs() < 0.001, "expected 5.0, got {d}");
}

#[test]
fn test_derived_threshold_boundary() {
    let mut n = Names::new();
    let items = vec![
        make_item(&mut n, "w1", "sv1", None, "s1", 0.0, 0.0, 6000),
        make_item(&mut n, "w1", "sv1", None, "s2", 1.9, 0.0, 12000),
    ];
    let clusters = cluster_scenes(items);
    assert_eq!(clusters.len(), 1, "should be one proximity cluster");
    assert_eq!(
        clusters[0].derived_subclusters.len(),
        1,
        "should be one derived subcluster (both scenes within 2 blocks)"
    );
    assert_eq!(clusters[0].derived_subclusters[0].len(), 2);
    assert_eq!(clusters[0].derived_subclusters[0][0].time_of_day, 6000);
    assert_eq!(clusters[0].derived_subclusters[0][1].time_of_day, 12000);
}

#[test]
fn test_derived_threshold_exceeded() {
    let mut n = Names::new();
    let items = vec![
        make_item(&mut n, "w1", "sv1", None, "s1", 0.0, 0.0, 6000),
        make_item(&mut n, "w1", "sv1", None, "s2", 3.0, 0.0, 12000),
    ];
    let clusters = cluster_scenes(items);
    assert_eq!(clusters.len(), 1, "should be one proximity cluster");
    assert_eq!(
        clusters[0].derived_subclusters.len(),
        2,
        "should be two derived subclusters (scenes > 2 blocks apart)"
    );
}

#[test]
fn test_real_world_glint_scenario() {
    let mut n = Names::new();
    let items = vec![
        make_item(&mut n, "glint", "sv1", None, "hills", 100.0, 200.0, 1500),
        make_item(&mut n, "glint", "sv1", None, "hills_night", 100.0, 200.0, 13000),
        make_item(&mut n, "glint", "sv1", None, "hills_sunset", 100.0, 200.0, 18000),
        make_item(&mut n, "glint", "sv1", None, "mountain_lake", 250.0, 150.0, 6000),
        make_item(&mut n, "glint", "sv1", None, "mesa", 5000.0, 3000.0, 6000),
    ];
    let result = optimize_execution_order(items);
    let ids = scene_ids(&n, &result);

    let hills_idx = ids.iter().position(|s| *s == "hills").unwrap();
    let night_idx = ids.iter().position(|s| *s == "hills_night").unwrap();
    let sunset_idx = ids.iter().position(|s| *s == "hills_sunset").unwrap();
    assert_eq!(night_idx, hills_idx + 1);
    assert_eq!(sunset_idx, hills_idx + 2);

    let lake_idx = ids.iter().position(|s| *s == "mountain_lake").unwrap();
    let mesa_idx = ids.iter().position(|s| *s == "mesa").unwrap();
    assert!(lake_idx < mesa_idx, "mountain_lake should come before mesa");
}

// ---------------------------------------------------------------------------
// Laws on concrete values
// ---------------------------------------------------------------------------

fn sorted_tags(items: &[WorkEntry]) -> Vec<usize> {
    let mut t: Vec<usize> = items.iter().map(|i| i.tag).collect();
    t.sort();
    t
}

fn pass_key(e: &WorkEntry) -> (u64, u64, Option<u64>) {
    (e.world, e.shader_version, e.profile)
}

#[test]
fn reorder_is_a_permutation_and_keeps_passes() {
    let mut n = Names::new();
    let items = vec![
        make_item(&mut n, "w1", "sv1", Some("low"), "a", 0.0, 0.0, 6000),
        make_item(&mut n, "w1", "sv1", Some("low"), "far", 9000.0, 0.0, 6000),
        make_item(&mut n, "w1", "sv1", Some("low"), "b", 1.0, 0.0, 1000),
        make_item(&mut n, "w1", "sv1", Some("high"), "far", 9000.0, 0.0, 6000),
        make_item(&mut n, "w1", "sv1", Some("high"), "a", 0.0, 0.0, 6000),
        make_item(&mut n, "w2", "sv1", Some("high"), "c", 300.0, 300.0, 0),
        make_item(&mut n, "w2", "sv1", Some("high"), "a", 0.0, 0.0, 24000),
    ];
    let result = optimize_execution_order(items.clone());
    assert_eq!(result.len(), items.len());
    assert_eq!(sorted_tags(&result), sorted_tags(&items));
    for k in 0..items.len() {
        assert_eq!(pass_key(&result[k]), pass_key(&items[k]));
    }
}

#[test]
fn largest_cluster_is_visited_first() {
    let mut n = Names::new();
    let items = vec![
        make_item(&mut n, "w1", "sv1", None, "lone", 0.0, 0.0, 6000),
        make_item(&mut n, "w1", "sv1", None, "p1", 4000.0, 0.0, 6000),
        make_item(&mut n, "w1", "sv1", None, "p2", 4100.0, 0.0, 6000),
    ];
    let result = optimize_execution_order(items);
    let ids = scene_ids(&n, &result);
    assert_eq!(ids, vec!["p1", "p2", "lone"]);
}

#[test]
fn cluster_centroid_is_the_floor_average() {
    let mut n = Names::new();
    let items = vec![
        make_item(&mut n, "w1", "sv1", None, "a", 0.0, 0.0, 0),
        make_item(&mut n, "w1", "sv1", None, "b", 0.003, -0.001, 0),
    ];
    let clusters = cluster_scenes(items);
    assert_eq!(clusters.len(), 1);
    assert_eq!(clusters[0].derived_subclusters.len(), 1);
    assert_eq!(clusters[0].centroid_x, 1);
    assert_eq!(clusters[0].centroid_z, -1);
}

#[test]
fn xz_distance_squared_exact() {
    assert_eq!(xz_distance_squared(-1000, 2000, 2000, -2000), 25_000_000);
    assert_eq!(xz_distance_squared(7, 7, 7, 7), 0);
}

#[test]
fn each_pass_keeps_its_items_in_place() {
    let mut n = Names::new();
    let items = vec![
        make_item(&mut n, "w1", "sv1", Some("low"), "a", 0.0, 0.0, 6000),
        make_item(&mut n, "w1", "sv1", Some("low"), "far", 9000.0, 0.0, 6000),
        make_item(&mut n, "w1", "sv1", Some("low"), "b", 1.0, 0.0, 1000),
        make_item(&mut n, "w1", "sv1", Some("high"), "far", 9000.0, 0.0, 6000),
        make_item(&mut n, "w1", "sv1", Some("high"), "a", 0.0, 0.0, 6000),
        make_item(&mut n, "w2", "sv1", Some("high"), "c", 300.0, 300.0, 0),
        make_item(&mut n, "w2", "sv1", Some("high"), "a", 0.0, 0.0, 24000),
    ];
    let result = optimize_execution_order(items.clone());
    for (lo, hi) in [(0, 3), (3, 5), (5, 7)] {
        assert_eq!(sorted_tags(&result[lo..hi]), sorted_tags(&items[lo..hi]));
    }
    assert_eq!(scene_ids(&n, &result[0..3]), vec!["b", "a", "far"]);
}

#[test]
fn coordinates_up_to_the_limit_are_exact() {
    let lim = glint::work_ordering::COORD_LIMIT;
    assert_eq!(lim, 1i64 << 61);
    assert_eq!(xz_distance_squared(lim, lim, -lim, -lim), 1i128 << 125);
}
