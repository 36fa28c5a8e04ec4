use glint::featured::{candidate_pairs, make_pair, random_pairs, select_featured, CandidateRow};

fn cand(scene: &str, slug: &str) -> CandidateRow {
    CandidateRow {
        image_path: format!("captures/{scene}/{slug}.webp"),
        thumbhash: None,
        shader_name: slug.to_uppercase(),
        shader_slug: slug.to_string(),
        shader_author: Some("someone".to_string()),
        shader_version: "1".to_string(),
        scene_name: scene.to_string(),
        scene_id: scene.to_string(),
    }
}

fn candidates() -> Vec<CandidateRow> {
    vec![
        cand("hills", "vanilla"),
        cand("hills", "bsl"),
        cand("hills", "seus"),
        cand("mesa", "vanilla"),
        cand("mesa", "bsl"),
        cand("lake", "bsl"),
    ]
}

#[test]
fn pair_pools() {
    let (va, sh) = candidate_pairs(&candidates());
    assert_eq!(va, vec![(0, 1), (0, 2), (3, 4)]);
    assert_eq!(sh, vec![(1, 2)]);
}

#[test]
fn selection_takes_half_from_vanilla() {
    assert_eq!(select_featured(vec![1, 2, 3], vec![10, 20, 30], 4), vec![1, 2, 10, 20]);
    assert_eq!(select_featured(vec![1], vec![10, 20, 30], 4), vec![1, 10, 20, 30]);
    assert_eq!(select_featured(vec![1, 2, 3], vec![10], 5), vec![1, 2, 10]);
    assert_eq!(select_featured(vec![1, 2, 3], vec![10], 1), vec![10]);
    assert_eq!(select_featured::<i32>(vec![], vec![], 3), Vec::<i32>::new());
}

#[test]
fn pairs_show_their_candidates() {
    let c = candidates();
    let p = make_pair(&c[0], &c[1]);
    assert_eq!(p.left.shader_slug, "vanilla");
    assert_eq!(p.right.shader_slug, "bsl");
    assert_eq!(p.right.image_path, "captures/hills/bsl.webp");
    assert_eq!(p.left.scene_name, "hills");
}

#[test]
fn random_pairs_come_from_the_pools() {
    let c = candidates();
    let pairs = random_pairs(&c, 4);
    // Up to two vanilla pairs, then shader pairs as far as there are any.
    assert_eq!(pairs.len(), 3);
    let vanilla_left = pairs.iter().filter(|p| p.left.shader_slug == "vanilla").count();
    assert_eq!(vanilla_left, 2);
    for p in &pairs {
        assert_eq!(p.left.scene_name, p.right.scene_name);
        assert_ne!(p.right.shader_slug, "vanilla");
    }
    assert!(random_pairs(&c, 0).is_empty());
}
