//! Modrinth API records and their mapping to platform-agnostic records.
use vstd::prelude::*;
use vstd::string::*;

use super::{clone_opt, opt_text, PlatformAuthor, PlatformMetadata, PlatformVersion, ProjectData};
use crate::text::str_eq;

verus! {

/// Base URL of the Modrinth API.
pub fn base_url() -> (res: &'static str)
    ensures
        res@ == "https://api.modrinth.com/v2"@,
{
    "https://api.modrinth.com/v2"
}

/// Search facet kinds.
#[derive(Debug, Clone, Copy, PartialEq, Eq, Structural)]
pub enum ProjectType {
    Mod,
    Modpack,
    ResourcePack,
    Shader,
}

pub open spec fn project_type_text(p: ProjectType) -> Seq<char> {
    match p {
        ProjectType::Mod => "mod"@,
        ProjectType::Modpack => "modpack"@,
        ProjectType::ResourcePack => "resourcepack"@,
        ProjectType::Shader => "shader"@,
    }
}

impl ProjectType {
    pub fn as_str(&self) -> (res: &'static str)
        ensures
            res@ == project_type_text(*self),
    {
        match self {
            ProjectType::Mod => "mod",
            ProjectType::Modpack => "modpack",
            ProjectType::ResourcePack => "resourcepack",
            ProjectType::Shader => "shader",
        }
    }
}

/// A search facet.
#[derive(Debug, Clone)]
pub enum Facet {
    ProjectType(ProjectType),
    Categories(String),
    Versions(String),
    License(String),
}

/// The text a facet is sent as, `kind:value`.
pub open spec fn facet_text(f: Facet) -> Seq<char> {
    match f {
        Facet::ProjectType(pt) => "project_type:"@ + project_type_text(pt),
        Facet::Categories(c) => "categories:"@ + c@,
        Facet::Versions(v) => "versions:"@ + v@,
        Facet::License(l) => "license:"@ + l@,
    }
}

impl Facet {
    pub fn to_facet_string(&self) -> (res: String)
        ensures
            res@ == facet_text(*self),
    {
        match self {
            Facet::ProjectType(pt) => String::from_str("project_type:").concat(pt.as_str()),
            Facet::Categories(c) => String::from_str("categories:").concat(c.as_str()),
            Facet::Versions(v) => String::from_str("versions:").concat(v.as_str()),
            Facet::License(l) => String::from_str("license:").concat(l.as_str()),
        }
    }
}

/// A search result page.
pub struct SearchResponse {
    pub hits: Vec<SearchHit>,
    pub offset: u32,
    pub limit: u32,
    pub total_hits: u32,
}

/// One search hit. Dates are Unix seconds.
pub struct SearchHit {
    pub slug: Option<String>,
    pub title: String,
    pub description: String,
    pub project_id: String,
    pub author: String,
    pub categories: Vec<String>,
    pub downloads: u64,
    pub icon_url: Option<String>,
    pub versions: Vec<String>,
    pub date_created: i64,
    pub date_modified: i64,
    pub license: String,
}

/// A project. Dates are Unix seconds.
pub struct Project {
    pub id: String,
    pub slug: String,
    pub title: String,
    pub description: String,
    pub body: String,
    pub categories: Vec<String>,
    pub game_versions: Vec<String>,
    pub loaders: Vec<String>,
    pub downloads: u64,
    pub followers: u64,
    pub icon_url: Option<String>,
    pub license: Option<License>,
    pub source_url: Option<String>,
    pub issues_url: Option<String>,
    pub wiki_url: Option<String>,
    pub discord_url: Option<String>,
    pub published: i64,
    pub updated: i64,
    pub gallery: Vec<GalleryImage>,
}

pub struct License {
    pub id: String,
    pub name: String,
    pub url: Option<String>,
}

#[derive(Debug, Clone, Copy, PartialEq, Eq, Structural)]
pub enum VersionType {
    Release,
    Beta,
    Alpha,
}

/// Lower-case name of a version type.
pub open spec fn version_type_text(t: VersionType) -> Seq<char> {
    match t {
        VersionType::Release => "release"@,
        VersionType::Beta => "beta"@,
        VersionType::Alpha => "alpha"@,
    }
}

pub fn version_type_name(t: VersionType) -> (res: String)
    ensures
        res@ == version_type_text(t),
{
    match t {
        VersionType::Release => String::from_str("release"),
        VersionType::Beta => String::from_str("beta"),
        VersionType::Alpha => String::from_str("alpha"),
    }
}

/// A version. `date_published` is Unix seconds.
pub struct Version {
    pub id: String,
    pub project_id: String,
    pub name: String,
    pub version_number: String,
    pub changelog: Option<String>,
    pub game_versions: Vec<String>,
    pub loaders: Vec<String>,
    pub version_type: VersionType,
    pub featured: bool,
    pub downloads: u64,
    pub files: Vec<VersionFile>,
    pub date_published: i64,
}

pub struct VersionFile {
    pub hashes: FileHashes,
    pub url: String,
    pub filename: String,
    pub primary: bool,
    pub size: u64,
}

/// File hashes (other algorithms are kept as name/value pairs).
pub struct FileHashes {
    pub sha512: String,
    pub sha1: String,
    pub others: Vec<(String, String)>,
}

pub struct TeamMember {
    pub user: TeamUser,
    pub role: String,
}

pub struct TeamUser {
    pub id: String,
    pub username: String,
    pub avatar_url: Option<String>,
}

pub struct GalleryImage {
    pub url: String,
    pub title: Option<String>,
    pub description: Option<String>,
    pub ordering: i32,
}

/// An empty URL field counts as absent.
pub fn optional_url(s: Option<String>) -> (res: Option<String>)
    ensures
        opt_text(res) == match s {
            Some(u) => if u@.len() == 0 {
                None
            } else {
                Some(u@)
            },
            None => None,
        },
{
    proof {
        reveal_strlit("");
    }
    match s {
        Some(u) => {
            if str_eq(u.as_str(), "") {
                None
            } else {
                assert(u@.len() != 0) by {
                    if u@.len() == 0 {
                        assert(u@ =~= ""@);
                    }
                }
                Some(u)
            }
        },
        None => None,
    }
}

/// Index of the file a version is downloaded from: the first primary file,
/// else the first file; `None` when there are no files.
pub open spec fn primary_index(files: Seq<VersionFile>) -> Option<int> {
    let k = crate::work_ordering::first_from(
        0,
        files.len() as int,
        |k: int| files[k].primary,
    );
    if k < files.len() {
        Some(k)
    } else if files.len() > 0 {
        Some(0)
    } else {
        None
    }
}

pub fn primary_file(files: &Vec<VersionFile>) -> (res: Option<usize>)
    ensures
        match res {
            Some(k) => primary_index(files@) == Some(k as int),
            None => primary_index(files@) is None,
        },
{
    let ghost p = |k: int| files@[k].primary;
    let mut k: usize = 0;
    while k < files.len()
        invariant
            p == (|k: int| files@[k].primary),
            0 <= k <= files@.len(),
            forall|j: int| 0 <= j < k ==> !#[trigger] p(j),
        decreases files@.len() - k,
    {
        if files[k].primary {
            proof {
                crate::work_ordering::lemma_first_from_skip(k as int, files@.len() as int, p);
            }
            return Some(k);
        }
        k = k + 1;
    }
    proof {
        crate::work_ordering::lemma_first_from_skip(k as int, files@.len() as int, p);
    }
    if files.len() > 0 {
        Some(0)
    } else {
        None
    }
}

/// Profile URL of a Modrinth user.
pub open spec fn user_url(username: Seq<char>) -> Seq<char> {
    "https://modrinth.com/user/"@ + username
}

/// Project metadata and authors from a project and its team members: the
/// author URL is the member's profile URL; the project's source URL is also
/// its website URL; description and update time are always present.
pub fn project_data(project: Project, members: Vec<TeamMember>) -> (res: ProjectData)
    ensures
        res.metadata.platform_id@ == project.id@,
        res.metadata.name@ == project.title@,
        res.metadata.slug@ == project.slug@,
        opt_text(res.metadata.description) == Some(project.description@),
        opt_text(res.metadata.icon_url) == opt_text(project.icon_url),
        opt_text(res.metadata.source_url) == opt_text(project.source_url),
        opt_text(res.metadata.website_url) == opt_text(project.source_url),
        opt_text(res.metadata.license_id) == match project.license {
            Some(l) => Some(l.id@),
            None => None,
        },
        res.metadata.downloads == project.downloads,
        res.metadata.updated_at == Some(project.updated),
        res.authors@.len() == members@.len(),
        forall|k: int|
            0 <= k < members@.len() ==> (#[trigger] res.authors@[k]).name@ == members@[k].user.username@
                && opt_text(res.authors@[k].url) == Some(user_url(members@[k].user.username@)),
{
    let mut authors: Vec<PlatformAuthor> = Vec::new();
    let mut k: usize = 0;
    while k < members.len()
        invariant
            0 <= k <= members@.len(),
            authors@.len() == k,
            forall|j: int|
                0 <= j < k ==> (#[trigger] authors@[j]).name@ == members@[j].user.username@
                    && opt_text(authors@[j].url) == Some(user_url(members@[j].user.username@)),
        decreases members@.len() - k,
    {
        let name = members[k].user.username.clone();
        let url = String::from_str("https://modrinth.com/user/").concat(
            members[k].user.username.as_str(),
        );
        authors.push(PlatformAuthor { name, url: Some(url) });
        k = k + 1;
    }
    let license_id = match &project.license {
        Some(l) => Some(l.id.clone()),
        None => None,
    };
    let source = clone_opt(&project.source_url);
    ProjectData {
        metadata: PlatformMetadata {
            platform_id: project.id,
            name: project.title,
            slug: project.slug,
            description: Some(project.description),
            icon_url: project.icon_url,
            source_url: source,
            website_url: project.source_url,
            license_id,
            downloads: project.downloads,
            updated_at: Some(project.updated),
        },
        authors,
    }
}

/// A version in common form: downloaded from its [`primary_index`] file
/// (URL, SHA-1 and size), game versions only when there are any, release
/// channel named after the version type.
pub fn platform_version(v: Version) -> (res: PlatformVersion)
    ensures
        res.version_number@ == v.version_number@,
        opt_text(res.modrinth_version_id) == Some(v.id@),
        res.curseforge_file_id is None,
        match primary_index(v.files@) {
            Some(k) => opt_text(res.download_url) == Some(v.files@[k].url@) && opt_text(
                res.file_hash,
            ) == Some(v.files@[k].hashes.sha1@) && res.file_size == Some(
                v.files@[k].size as i64,
            ),
            None => res.download_url is None && res.file_hash is None && res.file_size is None,
        },
        v.game_versions@.len() == 0 ==> res.game_versions is None,
        v.game_versions@.len() > 0 ==> (res.game_versions matches Some(g) && g@ == v.game_versions@),
        opt_text(res.release_channel) == Some(version_type_text(v.version_type)),
        res.published_at == Some(v.date_published),
{
    let pk = primary_file(&v.files);
    let (download_url, file_hash, file_size) = match pk {
        Some(k) => (
            Some(v.files[k].url.clone()),
            Some(v.files[k].hashes.sha1.clone()),
            Some(v.files[k].size as i64),
        ),
        None => (None, None, None),
    };
    let game_versions = if v.game_versions.len() == 0 {
        None
    } else {
        Some(v.game_versions)
    };
    PlatformVersion {
        version_number: v.version_number,
        modrinth_version_id: Some(v.id),
        curseforge_file_id: None,
        download_url,
        file_hash,
        file_size,
        game_versions,
        release_channel: Some(version_type_name(v.version_type)),
        published_at: Some(v.date_published),
    }
}

} // verus!
