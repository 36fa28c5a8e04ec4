//! CurseForge API records and their mapping to platform-agnostic records.
use vstd::prelude::*;
use vstd::string::*;

use super::{
    all_digits, clone_opt, digits_u64, digits_value, opt_text, PlatformAuthor, PlatformMetadata,
    PlatformVersion, ProjectData,
};
use crate::text::{chars_of, i32_string, signed_decimal, str_eq, string_of};

verus! {

/// Minecraft's game id on CurseForge.
pub const MINECRAFT_GAME_ID: i32 = 432;

/// Base URL of the CurseForge API.
pub fn base_url() -> (res: &'static str)
    ensures
        res@ == "https://api.curseforge.com/v1"@,
{
    "https://api.curseforge.com/v1"
}

/// CurseForge class ids of Minecraft content types.
#[derive(Debug, Clone, Copy, PartialEq, Eq, Structural)]
pub enum ClassId {
    BukkitPlugins,
    Mods,
    ResourcePacks,
    Worlds,
    Modpacks,
    Customizations,
    Shaders,
    Datapacks,
}

pub open spec fn class_id_value(c: ClassId) -> u16 {
    match c {
        ClassId::BukkitPlugins => 5,
        ClassId::Mods => 6,
        ClassId::ResourcePacks => 12,
        ClassId::Worlds => 17,
        ClassId::Modpacks => 4471,
        ClassId::Customizations => 4546,
        ClassId::Shaders => 6552,
        ClassId::Datapacks => 6945,
    }
}

impl ClassId {
    /// The numeric class id.
    pub fn id(&self) -> (res: u16)
        ensures
            res == class_id_value(*self),
    {
        match self {
            ClassId::BukkitPlugins => 5,
            ClassId::Mods => 6,
            ClassId::ResourcePacks => 12,
            ClassId::Worlds => 17,
            ClassId::Modpacks => 4471,
            ClassId::Customizations => 4546,
            ClassId::Shaders => 6552,
            ClassId::Datapacks => 6945,
        }
    }
}

/// Marker for a client that carries an API key.
pub struct Authenticated;

/// Generic response wrapper.
pub struct CfResponse<T> {
    pub data: T,
    pub pagination: Option<CfPagination>,
}

pub struct CfPagination {
    pub index: u32,
    pub page_size: u32,
    pub result_count: u32,
    pub total_count: u32,
}

/// Mod metadata. Dates are kept as the API's text.
pub struct CfMod {
    pub id: i32,
    pub name: String,
    pub slug: String,
    pub summary: String,
    pub class_id: Option<i32>,
    pub authors: Vec<CfModAuthor>,
    pub logo: Option<CfModAsset>,
    pub screenshots: Vec<CfModAsset>,
    pub main_file_id: i32,
    pub latest_files: Vec<CfFile>,
    pub date_created: String,
    pub date_modified: String,
    pub date_released: String,
    pub download_count: u64,
    pub is_available: bool,
    pub links: Option<CfModLinks>,
    pub categories: Vec<CfCategory>,
}

pub struct CfModLinks {
    pub website_url: Option<String>,
    pub wiki_url: Option<String>,
    pub issues_url: Option<String>,
    pub source_url: Option<String>,
}

pub struct CfModAuthor {
    pub id: i32,
    pub name: String,
    pub url: String,
}

pub struct CfModAsset {
    pub id: i32,
    pub mod_id: i32,
    pub title: String,
    pub description: String,
    pub url: String,
}

pub struct CfFile {
    pub id: i32,
    pub mod_id: i32,
    pub display_name: String,
    pub file_name: String,
    pub file_length: u64,
    pub download_url: Option<String>,
    pub game_versions: Vec<String>,
    pub release_type: CfReleaseType,
    pub file_date: String,
    pub hashes: Vec<CfFileHash>,
}

/// Release type of a file (numbered 1, 2, 3 by the API).
#[derive(Debug, Clone, Copy, PartialEq, Eq, Structural)]
pub enum CfReleaseType {
    Release,
    Beta,
    Alpha,
}

pub open spec fn release_type_text(t: CfReleaseType) -> Seq<char> {
    match t {
        CfReleaseType::Release => "release"@,
        CfReleaseType::Beta => "beta"@,
        CfReleaseType::Alpha => "alpha"@,
    }
}

impl CfReleaseType {
    /// The release type with the API's number.
    pub fn from_code(code: u8) -> (res: Option<CfReleaseType>)
        ensures
            res == (if code == 1 {
                Some(CfReleaseType::Release)
            } else if code == 2 {
                Some(CfReleaseType::Beta)
            } else if code == 3 {
                Some(CfReleaseType::Alpha)
            } else {
                None
            }),
    {
        if code == 1 {
            Some(CfReleaseType::Release)
        } else if code == 2 {
            Some(CfReleaseType::Beta)
        } else if code == 3 {
            Some(CfReleaseType::Alpha)
        } else {
            None
        }
    }

    /// Lower-case name.
    pub fn name(&self) -> (res: String)
        ensures
            res@ == release_type_text(*self),
    {
        match self {
            CfReleaseType::Release => String::from_str("release"),
            CfReleaseType::Beta => String::from_str("beta"),
            CfReleaseType::Alpha => String::from_str("alpha"),
        }
    }
}

pub struct CfFileHash {
    pub value: String,
    pub algo: CfHashAlgo,
}

/// Hash algorithm (numbered 1, 2 by the API).
#[derive(Debug, Clone, Copy, PartialEq, Eq, Structural)]
pub enum CfHashAlgo {
    Sha1,
    Md5,
}

impl CfHashAlgo {
    /// The algorithm with the API's number.
    pub fn from_code(code: u8) -> (res: Option<CfHashAlgo>)
        ensures
            res == (if code == 1 {
                Some(CfHashAlgo::Sha1)
            } else if code == 2 {
                Some(CfHashAlgo::Md5)
            } else {
                None
            }),
    {
        if code == 1 {
            Some(CfHashAlgo::Sha1)
        } else if code == 2 {
            Some(CfHashAlgo::Md5)
        } else {
            None
        }
    }
}

pub struct CfCategory {
    pub id: i32,
    pub name: String,
    pub slug: String,
    pub class_id: Option<i32>,
}

/// What `str::parse::<i32>` accepts: an optional sign and at least one
/// decimal digit, with a value in range.
pub open spec fn spec_parse_i32(s: Seq<char>) -> Option<i32> {
    let neg = s.len() > 0 && s[0] == '-';
    let body = if s.len() > 0 && (s[0] == '+' || s[0] == '-') {
        s.drop_first()
    } else {
        s
    };
    let v = if neg {
        -digits_value(body)
    } else {
        digits_value(body)
    };
    if body.len() > 0 && all_digits(body) && i32::MIN <= v <= i32::MAX {
        Some(v as i32)
    } else {
        None
    }
}

/// `str::parse::<i32>`: decimal text with an optional sign.
pub(crate) fn parse_i32(s: &str) -> (res: Option<i32>)
    ensures
        res == spec_parse_i32(s@),
{
    let cs = chars_of(s);
    if cs.len() == 0 {
        return None;
    }
    let neg = cs[0] == '-';
    let start: usize = if cs[0] == '+' || cs[0] == '-' {
        1
    } else {
        0
    };
    let ghost body = cs@.subrange(start as int, cs@.len() as int);
    assert(body =~= if s@.len() > 0 && (s@[0] == '+' || s@[0] == '-') {
        s@.drop_first()
    } else {
        s@
    });
    if start == cs.len() {
        return None;
    }
    match digits_u64(&cs, start) {
        None => None,
        Some(v) => {
            if neg {
                if v <= 2147483648 {
                    Some((0i64 - v as i64) as i32)
                } else {
                    None
                }
            } else if v <= 2147483647 {
                Some(v as i32)
            } else {
                None
            }
        },
    }
}

/// How a mod is looked up from an id-or-slug text.
pub enum ModLookup {
    /// The text is a number: fetch the mod by id.
    ById(i32),
    /// Otherwise: search and pick the exact slug.
    BySlug(String),
}

pub fn mod_lookup(id_or_slug: &str) -> (res: ModLookup)
    ensures
        match spec_parse_i32(id_or_slug@) {
            Some(n) => res == ModLookup::ById(n),
            None => res matches ModLookup::BySlug(s) && s@ == id_or_slug@,
        },
{
    match parse_i32(id_or_slug) {
        Some(n) => ModLookup::ById(n),
        None => ModLookup::BySlug(String::from_str(id_or_slug)),
    }
}

/// The first search result whose slug is exactly `slug`.
pub fn find_mod_by_slug(mods: Vec<CfMod>, slug: &str) -> (res: Option<CfMod>)
    ensures
        match res {
            Some(m) => exists|k: int|
                0 <= k < mods@.len() && #[trigger] mods@[k] == m && m.slug@ == slug@ && forall|j: int|
                    0 <= j < k ==> (#[trigger] mods@[j]).slug@ != slug@,
            None => forall|j: int| 0 <= j < mods@.len() ==> (#[trigger] mods@[j]).slug@ != slug@,
        },
{
    let mut list = mods;
    let mut k: usize = 0;
    while k < list.len()
        invariant
            list@ == mods@,
            0 <= k <= list@.len(),
            forall|j: int| 0 <= j < k ==> (#[trigger] list@[j]).slug@ != slug@,
        decreases list@.len() - k,
    {
        if str_eq(list[k].slug.as_str(), slug) {
            let m = list.remove(k);
            assert(mods@[k as int] == m);
            return Some(m);
        }
        k = k + 1;
    }
    None
}

/// Project metadata and authors of a mod: the id as decimal text, the
/// summary as description, the logo URL as icon, links from the mod's links,
/// no license and no update time.
pub fn project_data(m: CfMod) -> (res: ProjectData)
    ensures
        res.metadata.platform_id@ == signed_decimal(m.id as int),
        res.metadata.name@ == m.name@,
        res.metadata.slug@ == m.slug@,
        opt_text(res.metadata.description) == Some(m.summary@),
        opt_text(res.metadata.icon_url) == match m.logo {
            Some(l) => Some(l.url@),
            None => None,
        },
        opt_text(res.metadata.source_url) == match m.links {
            Some(l) => opt_text(l.source_url),
            None => None,
        },
        opt_text(res.metadata.website_url) == match m.links {
            Some(l) => opt_text(l.website_url),
            None => None,
        },
        res.metadata.license_id is None,
        res.metadata.downloads == m.download_count,
        res.metadata.updated_at is None,
        res.authors@.len() == m.authors@.len(),
        forall|k: int|
            0 <= k < m.authors@.len() ==> (#[trigger] res.authors@[k]).name@ == m.authors@[k].name@
                && opt_text(res.authors@[k].url) == Some(m.authors@[k].url@),
{
    let (source_url, website_url) = match &m.links {
        Some(l) => (clone_opt(&l.source_url), clone_opt(&l.website_url)),
        None => (None, None),
    };
    let icon_url = match &m.logo {
        Some(l) => Some(l.url.clone()),
        None => None,
    };
    let mut authors: Vec<PlatformAuthor> = Vec::new();
    let mut k: usize = 0;
    while k < m.authors.len()
        invariant
            0 <= k <= m.authors@.len(),
            authors@.len() == k,
            forall|j: int|
                0 <= j < k ==> (#[trigger] authors@[j]).name@ == m.authors@[j].name@ && opt_text(
                    authors@[j].url,
                ) == Some(m.authors@[j].url@),
        decreases m.authors@.len() - k,
    {
        authors.push(
            PlatformAuthor { name: m.authors[k].name.clone(), url: Some(m.authors[k].url.clone()) },
        );
        k = k + 1;
    }
    ProjectData {
        metadata: PlatformMetadata {
            platform_id: i32_string(m.id),
            name: m.name,
            slug: m.slug,
            description: Some(m.summary),
            icon_url,
            source_url,
            website_url,
            license_id: None,
            downloads: m.download_count,
            updated_at: None,
        },
        authors,
    }
}

/// A file name without a `.zip` suffix, else without a `.jar` suffix.
pub open spec fn strip_archive_suffix(name: Seq<char>) -> Seq<char> {
    if ".zip"@.is_suffix_of(name) {
        name.take(name.len() - 4)
    } else if ".jar"@.is_suffix_of(name) {
        name.take(name.len() - 4)
    } else {
        name
    }
}

fn ends_with(cs: &Vec<char>, suffix: &str) -> (res: bool)
    ensures
        res == suffix@.is_suffix_of(cs@),
{
    let sc = chars_of(suffix);
    if sc.len() > cs.len() {
        return false;
    }
    let cl = cs.len();
    let off = cl - sc.len();
    let mut i: usize = 0;
    while i < sc.len()
        invariant
            sc@ == suffix@,
            cl == cs@.len(),
            off + sc@.len() == cl,
            0 <= i <= sc@.len(),
            forall|j: int| 0 <= j < i ==> sc@[j] == cs@[off + j],
        decreases sc@.len() - i,
    {
        if sc[i] != cs[off + i] {
            assert(suffix@[i as int] != cs@.subrange(off as int, cs@.len() as int)[i as int]);
            return false;
        }
        i = i + 1;
    }
    assert(suffix@ =~= cs@.subrange(off as int, cs@.len() as int));
    true
}

/// The version number shown for a file: its name without the archive suffix.
pub fn version_number_of(file_name: &str) -> (res: String)
    ensures
        res@ == strip_archive_suffix(file_name@),
{
    proof {
        reveal_strlit(".zip");
        reveal_strlit(".jar");
    }
    let cs = chars_of(file_name);
    if ends_with(&cs, ".zip") || ends_with(&cs, ".jar") {
        let mut out: Vec<char> = Vec::new();
        let keep = cs.len() - 4;
        let mut i: usize = 0;
        while i < keep
            invariant
                keep <= cs@.len(),
                0 <= i <= keep,
                out@ == cs@.take(i as int),
            decreases keep - i,
        {
            out.push(cs[i]);
            assert(cs@.take(i as int + 1) =~= cs@.take(i as int).push(cs@[i as int]));
            i = i + 1;
        }
        string_of(&out)
    } else {
        String::from_str(file_name)
    }
}

/// The SHA-1 value among a file's hashes: the first one.
pub fn sha1_of(hashes: &Vec<CfFileHash>) -> (res: Option<String>)
    ensures
        match res {
            Some(h) => exists|k: int|
                0 <= k < hashes@.len() && hashes@[k].algo == CfHashAlgo::Sha1 && hashes@[k].value@
                    == h@ && forall|j: int|
                    0 <= j < k ==> (#[trigger] hashes@[j]).algo != CfHashAlgo::Sha1,
            None => forall|j: int|
                0 <= j < hashes@.len() ==> (#[trigger] hashes@[j]).algo != CfHashAlgo::Sha1,
        },
{
    let mut k: usize = 0;
    while k < hashes.len()
        invariant
            0 <= k <= hashes@.len(),
            forall|j: int| 0 <= j < k ==> (#[trigger] hashes@[j]).algo != CfHashAlgo::Sha1,
        decreases hashes@.len() - k,
    {
        if hashes[k].algo == CfHashAlgo::Sha1 {
            return Some(hashes[k].value.clone());
        }
        k = k + 1;
    }
    None
}

/// A file in common form: the name without archive suffix as version
/// number, the file id, its download URL, its SHA-1, its size, its game
/// versions and its release type; no publication time.
pub fn platform_version(f: CfFile) -> (res: PlatformVersion)
    ensures
        res.version_number@ == strip_archive_suffix(f.file_name@),
        res.modrinth_version_id is None,
        res.curseforge_file_id == Some(f.id),
        opt_text(res.download_url) == opt_text(f.download_url),
        match res.file_hash {
            Some(h) => exists|k: int|
                0 <= k < f.hashes@.len() && f.hashes@[k].algo == CfHashAlgo::Sha1
                    && f.hashes@[k].value@ == h@ && forall|j: int|
                    0 <= j < k ==> (#[trigger] f.hashes@[j]).algo != CfHashAlgo::Sha1,
            None => forall|j: int|
                0 <= j < f.hashes@.len() ==> (#[trigger] f.hashes@[j]).algo != CfHashAlgo::Sha1,
        },
        res.file_size == Some(f.file_length as i64),
        res.game_versions matches Some(g) && g@ == f.game_versions@,
        opt_text(res.release_channel) == Some(release_type_text(f.release_type)),
        res.published_at is None,
{
    let version_number = version_number_of(f.file_name.as_str());
    let file_hash = sha1_of(&f.hashes);
    PlatformVersion {
        version_number,
        modrinth_version_id: None,
        curseforge_file_id: Some(f.id),
        download_url: f.download_url,
        file_hash,
        file_size: Some(f.file_length as i64),
        game_versions: Some(f.game_versions),
        release_channel: Some(f.release_type.name()),
        published_at: None,
    }
}

} // verus!
