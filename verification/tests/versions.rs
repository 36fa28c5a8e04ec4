use glint::adoption::{adopted_by_platform_id, AdoptedShaderRow};
use glint::platform::{unique_version_indices, PlatformVersion};

fn version(number: &str) -> PlatformVersion {
    PlatformVersion {
        version_number: number.to_string(),
        modrinth_version_id: None,
        curseforge_file_id: None,
        download_url: None,
        file_hash: None,
        file_size: None,
        game_versions: None,
        release_channel: None,
        published_at: None,
    }
}

#[test]
fn duplicate_version_numbers_keep_the_first() {
    let vs = vec![version("1.0"), version("1.1"), version("1.0"), version("2.0"), version("1.1")];
    assert_eq!(unique_version_indices(&vs), vec![0, 1, 3]);
    assert_eq!(unique_version_indices(&vec![]), Vec::<usize>::new());
    let kept: Vec<&str> = unique_version_indices(&vs).into_iter().map(|i| vs[i].version_number.as_str()).collect();
    let mut distinct = kept.clone();
    distinct.dedup();
    assert_eq!(kept, distinct);
}

fn row(id: &str, m: Option<&str>, c: Option<&str>) -> AdoptedShaderRow {
    AdoptedShaderRow {
        id: id.to_string(),
        slug: format!("{id}-slug"),
        modrinth_id: m.map(|s| s.to_string()),
        curseforge_id: c.map(|s| s.to_string()),
    }
}

#[test]
fn adopted_index_later_rows_win() {
    let idx = adopted_by_platform_id(vec![
        row("a", Some("MR1"), Some("101")),
        row("b", None, Some("202")),
        row("c", Some("MR1"), None),
    ]);
    let get = |k: &str| idx.iter().find(|(key, _)| key == k).map(|(_, v)| (v.id.as_str(), v.slug.as_str()));
    assert_eq!(idx.len(), 3);
    assert_eq!(get("MR1"), Some(("c", "c-slug")));
    assert_eq!(get("101"), Some(("a", "a-slug")));
    assert_eq!(get("202"), Some(("b", "b-slug")));
    assert_eq!(get("303"), None);
    assert!(adopted_by_platform_id(vec![]).is_empty());
}
