use glint::platform::curseforge::{
    self as cf, mod_lookup, sha1_of, version_number_of, CfFile, CfFileHash, CfHashAlgo, CfMod,
    CfModAsset, CfModAuthor, CfModLinks, CfReleaseType, ClassId, ModLookup,
};
use glint::platform::modrinth::{
    self as mr, optional_url, primary_file, version_type_name, Facet, FileHashes, License,
    Project, ProjectType, TeamMember, TeamUser, Version, VersionFile, VersionType,
};
use glint::platform::{classify_platform_url, classify_response, parse_platform_url, Platform, PlatformRef, ResponseOutcome};

fn parsed(input: &str) -> Option<(Platform, String)> {
    match parse_platform_url(input) {
        Some(PlatformRef::Modrinth { id_or_slug }) => Some((Platform::Modrinth, id_or_slug)),
        Some(PlatformRef::CurseForge { slug }) => Some((Platform::CurseForge, slug)),
        None => None,
    }
}

#[test]
fn platform_urls() {
    assert_eq!(
        parsed("https://modrinth.com/shader/complementary-reimagined"),
        Some((Platform::Modrinth, "complementary-reimagined".to_string()))
    );
    assert_eq!(
        parsed("  https://www.modrinth.com/shader/bsl/versions  "),
        Some((Platform::Modrinth, "bsl".to_string()))
    );
    assert_eq!(
        parsed("https://www.curseforge.com/minecraft/shaders/sildurs-vibrant-shaders"),
        Some((Platform::CurseForge, "sildurs-vibrant-shaders".to_string()))
    );
    assert_eq!(
        parsed("https://curseforge.com//minecraft//shaders/x/files"),
        Some((Platform::CurseForge, "x".to_string()))
    );
    assert_eq!(parsed("https://modrinth.com/mod/sodium"), None);
    assert_eq!(parsed("https://example.com/shader/bsl"), None);
    assert_eq!(parsed("not a url"), None);
    assert_eq!(parsed("modrinth.com/shader/bsl"), None);
    assert!(classify_platform_url(None, Some(vec!["shader".to_string(), "x".to_string()])).is_none());
    assert_eq!(Platform::Modrinth.as_str(), "modrinth");
    assert_eq!(Platform::CurseForge.as_str(), "curseforge");
}

#[test]
fn response_statuses() {
    assert_eq!(classify_response(200, None), ResponseOutcome::Success);
    assert_eq!(classify_response(404, None), ResponseOutcome::NotFound);
    assert_eq!(
        classify_response(429, Some("17")),
        ResponseOutcome::RateLimited { retry_after_secs: 17 }
    );
    assert_eq!(
        classify_response(429, Some("+5")),
        ResponseOutcome::RateLimited { retry_after_secs: 5 }
    );
    assert_eq!(
        classify_response(429, Some("soon")),
        ResponseOutcome::RateLimited { retry_after_secs: 60 }
    );
    assert_eq!(classify_response(429, None), ResponseOutcome::RateLimited { retry_after_secs: 60 });
    assert_eq!(classify_response(503, None), ResponseOutcome::BadStatus { status: 503 });
    assert_eq!(classify_response(302, None), ResponseOutcome::BadStatus { status: 302 });
}

#[test]
fn modrinth_bits() {
    assert_eq!(mr::base_url(), "https://api.modrinth.com/v2");
    assert_eq!(Facet::ProjectType(ProjectType::Shader).to_facet_string(), "project_type:shader");
    assert_eq!(Facet::Versions("1.21.4".to_string()).to_facet_string(), "versions:1.21.4");
    assert_eq!(Facet::Categories("iris".to_string()).to_facet_string(), "categories:iris");
    assert_eq!(Facet::License("mit".to_string()).to_facet_string(), "license:mit");
    assert_eq!(ProjectType::ResourcePack.as_str(), "resourcepack");
    assert_eq!(version_type_name(VersionType::Beta), "beta");
    assert_eq!(optional_url(Some(String::new())), None);
    assert_eq!(optional_url(Some("https://x".to_string())), Some("https://x".to_string()));
    assert_eq!(optional_url(None), None);
}

fn file(url: &str, primary: bool) -> VersionFile {
    VersionFile {
        hashes: FileHashes { sha512: "s512".to_string(), sha1: format!("sha1-{url}"), others: vec![] },
        url: url.to_string(),
        filename: format!("{url}.zip"),
        primary,
        size: 100,
    }
}

fn version(files: Vec<VersionFile>, game_versions: Vec<String>) -> Version {
    Version {
        id: "ver1".to_string(),
        project_id: "p1".to_string(),
        name: "v1".to_string(),
        version_number: "1.0.0".to_string(),
        changelog: None,
        game_versions,
        loaders: vec!["iris".to_string()],
        version_type: VersionType::Release,
        featured: false,
        downloads: 3,
        files,
        date_published: 1_700_000_000,
    }
}

#[test]
fn modrinth_versions() {
    assert_eq!(primary_file(&vec![]), None);
    assert_eq!(primary_file(&vec![file("a", false), file("b", true), file("c", true)]), Some(1));
    assert_eq!(primary_file(&vec![file("a", false), file("b", false)]), Some(0));

    let v = mr::platform_version(version(vec![file("a", false), file("b", true)], vec!["1.21".to_string()]));
    assert_eq!(v.version_number, "1.0.0");
    assert_eq!(v.modrinth_version_id.as_deref(), Some("ver1"));
    assert_eq!(v.curseforge_file_id, None);
    assert_eq!(v.download_url.as_deref(), Some("b"));
    assert_eq!(v.file_hash.as_deref(), Some("sha1-b"));
    assert_eq!(v.file_size, Some(100));
    assert_eq!(v.game_versions, Some(vec!["1.21".to_string()]));
    assert_eq!(v.release_channel.as_deref(), Some("release"));
    assert_eq!(v.published_at, Some(1_700_000_000));

    let v = mr::platform_version(version(vec![], vec![]));
    assert_eq!(v.download_url, None);
    assert_eq!(v.file_hash, None);
    assert_eq!(v.file_size, None);
    assert_eq!(v.game_versions, None);
}

#[test]
fn modrinth_project_data() {
    let project = Project {
        id: "AANobbMI".to_string(),
        slug: "bsl".to_string(),
        title: "BSL".to_string(),
        description: "Bright".to_string(),
        body: String::new(),
        categories: vec![],
        game_versions: vec![],
        loaders: vec![],
        downloads: 99,
        followers: 1,
        icon_url: None,
        license: Some(License { id: "LicenseRef-Custom".to_string(), name: "c".to_string(), url: None }),
        source_url: Some("https://git".to_string()),
        issues_url: None,
        wiki_url: None,
        discord_url: None,
        published: 1,
        updated: 2,
        gallery: vec![],
    };
    let members = vec![TeamMember {
        user: TeamUser { id: "u".to_string(), username: "capttatsu".to_string(), avatar_url: None },
        role: "Owner".to_string(),
    }];
    let d = mr::project_data(project, members);
    assert_eq!(d.metadata.platform_id, "AANobbMI");
    assert_eq!(d.metadata.name, "BSL");
    assert_eq!(d.metadata.description.as_deref(), Some("Bright"));
    assert_eq!(d.metadata.website_url.as_deref(), Some("https://git"));
    assert_eq!(d.metadata.source_url.as_deref(), Some("https://git"));
    assert_eq!(d.metadata.license_id.as_deref(), Some("LicenseRef-Custom"));
    assert_eq!(d.metadata.downloads, 99);
    assert_eq!(d.metadata.updated_at, Some(2));
    assert_eq!(d.authors.len(), 1);
    assert_eq!(d.authors[0].name, "capttatsu");
    assert_eq!(d.authors[0].url.as_deref(), Some("https://modrinth.com/user/capttatsu"));
}

#[test]
fn curseforge_bits() {
    assert_eq!(cf::base_url(), "https://api.curseforge.com/v1");
    assert_eq!(cf::MINECRAFT_GAME_ID, 432);
    assert_eq!(ClassId::Shaders.id(), 6552);
    assert_eq!(ClassId::Mods.id(), 6);
    assert_eq!(CfReleaseType::from_code(2), Some(CfReleaseType::Beta));
    assert_eq!(CfReleaseType::from_code(4), None);
    assert_eq!(CfReleaseType::Alpha.name(), "alpha");
    assert_eq!(CfHashAlgo::from_code(1), Some(CfHashAlgo::Sha1));
    assert_eq!(CfHashAlgo::from_code(0), None);
    assert!(matches!(mod_lookup("12345"), ModLookup::ById(12345)));
    assert!(matches!(mod_lookup("-7"), ModLookup::ById(-7)));
    assert!(matches!(mod_lookup("bsl-shaders"), ModLookup::BySlug(s) if s == "bsl-shaders"));
    assert!(matches!(mod_lookup("99999999999"), ModLookup::BySlug(_)));
    assert_eq!(version_number_of("BSL_v8.4.zip"), "BSL_v8.4");
    assert_eq!(version_number_of("pack.jar"), "pack");
    assert_eq!(version_number_of("pack.tar"), "pack.tar");
    assert_eq!(version_number_of(".zip"), "");
}

fn hash(value: &str, algo: CfHashAlgo) -> CfFileHash {
    CfFileHash { value: value.to_string(), algo }
}

#[test]
fn curseforge_files() {
    assert_eq!(sha1_of(&vec![hash("m", CfHashAlgo::Md5), hash("s", CfHashAlgo::Sha1), hash("t", CfHashAlgo::Sha1)]), Some("s".to_string()));
    assert_eq!(sha1_of(&vec![hash("m", CfHashAlgo::Md5)]), None);
    let f = CfFile {
        id: 42,
        mod_id: 7,
        display_name: "Shader 1.2".to_string(),
        file_name: "shader-1.2.zip".to_string(),
        file_length: 2048,
        download_url: Some("https://edge/x.zip".to_string()),
        game_versions: vec!["1.21.4".to_string(), "Iris".to_string()],
        release_type: CfReleaseType::Beta,
        file_date: "2024-01-01T00:00:00Z".to_string(),
        hashes: vec![hash("abc", CfHashAlgo::Sha1)],
    };
    let v = cf::platform_version(f);
    assert_eq!(v.version_number, "shader-1.2");
    assert_eq!(v.curseforge_file_id, Some(42));
    assert_eq!(v.modrinth_version_id, None);
    assert_eq!(v.download_url.as_deref(), Some("https://edge/x.zip"));
    assert_eq!(v.file_hash.as_deref(), Some("abc"));
    assert_eq!(v.file_size, Some(2048));
    assert_eq!(v.game_versions, Some(vec!["1.21.4".to_string(), "Iris".to_string()]));
    assert_eq!(v.release_channel.as_deref(), Some("beta"));
    assert_eq!(v.published_at, None);
}

fn cf_mod(id: i32, slug: &str) -> CfMod {
    CfMod {
        id,
        name: format!("Mod {slug}"),
        slug: slug.to_string(),
        summary: "sum".to_string(),
        class_id: Some(6552),
        authors: vec![CfModAuthor { id: 1, name: "sildur".to_string(), url: "https://cf/a".to_string() }],
        logo: Some(CfModAsset { id: 1, mod_id: id, title: "l".to_string(), description: String::new(), url: "https://cf/logo.png".to_string() }),
        screenshots: vec![],
        main_file_id: 1,
        latest_files: vec![],
        date_created: String::new(),
        date_modified: String::new(),
        date_released: String::new(),
        download_count: 5,
        is_available: true,
        links: Some(CfModLinks { website_url: Some("https://cf/w".to_string()), wiki_url: None, issues_url: None, source_url: None }),
        categories: vec![],
    }
}

#[test]
fn curseforge_mods() {
    let found = cf::find_mod_by_slug(vec![cf_mod(1, "a"), cf_mod(2, "b"), cf_mod(3, "b")], "b");
    assert_eq!(found.map(|m| m.id), Some(2));
    assert!(cf::find_mod_by_slug(vec![cf_mod(1, "a")], "z").is_none());
    let d = cf::project_data(cf_mod(-15, "vibrant"));
    assert_eq!(d.metadata.platform_id, "-15");
    assert_eq!(d.metadata.name, "Mod vibrant");
    assert_eq!(d.metadata.description.as_deref(), Some("sum"));
    assert_eq!(d.metadata.icon_url.as_deref(), Some("https://cf/logo.png"));
    assert_eq!(d.metadata.website_url.as_deref(), Some("https://cf/w"));
    assert_eq!(d.metadata.source_url, None);
    assert_eq!(d.metadata.license_id, None);
    assert_eq!(d.metadata.updated_at, None);
    assert_eq!(d.metadata.downloads, 5);
    assert_eq!(d.authors[0].name, "sildur");
    assert_eq!(d.authors[0].url.as_deref(), Some("https://cf/a"));
}

#[test]
fn number_texts_parse_as_std_does() {
    assert_eq!(
        classify_response(429, Some("+30")),
        ResponseOutcome::RateLimited { retry_after_secs: 30 }
    );
    assert_eq!(
        classify_response(429, Some("18446744073709551615")),
        ResponseOutcome::RateLimited { retry_after_secs: u64::MAX }
    );
    for bad in ["18446744073709551616", "-1", "+", "", " 5", "5s"] {
        assert_eq!(
            classify_response(429, Some(bad)),
            ResponseOutcome::RateLimited { retry_after_secs: 60 }
        );
    }
    assert!(matches!(mod_lookup("-2147483648"), ModLookup::ById(-2147483648)));
    assert!(matches!(mod_lookup("2147483647"), ModLookup::ById(2147483647)));
    assert!(matches!(mod_lookup("+007"), ModLookup::ById(7)));
    assert!(matches!(mod_lookup("-0"), ModLookup::ById(0)));
    for slug in ["2147483648", "-2147483649", "-", "+", "", "12a", "99999999999999999999999"] {
        match mod_lookup(slug) {
            ModLookup::BySlug(s) => assert_eq!(s, slug),
            ModLookup::ById(n) => panic!("{slug} parsed as {n}"),
        }
    }
}
