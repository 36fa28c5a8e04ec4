//! Parts of a capture work item that carry no scene geometry.
use vstd::prelude::*;

verus! {

/// The shader side of a work item: which version to load, and with which profile.
#[derive(Debug, Clone)]
pub struct WorkShader {
    pub version_id: String,
    pub id: String,
    pub slug: String,
    pub name: String,
    pub version: String,
    pub download_url: Option<String>,
    pub file_hash: Option<String>,
    pub profile_id: Option<String>,
    pub profile_name: Option<String>,
}

/// The packaged world a scene is captured in.
#[derive(Debug, Clone)]
pub struct WorkPackage {
    pub url: String,
    pub hash: String,
    pub size_bytes: Option<i64>,
}

/// The scene package of a work row: present when the row has a package
/// URL, which always comes with its hash.
pub fn work_package(url: Option<String>, hash: Option<String>, size_bytes: Option<i64>) -> (res: Option<
    WorkPackage,
>)
    requires
        url is Some ==> hash is Some,
    ensures
        url is None ==> res is None,
        url matches Some(u) ==> (res matches Some(p) && p.url == u && Some(p.hash) == hash
            && p.size_bytes == size_bytes),
{
    match url {
        Some(u) => match hash {
            Some(h) => Some(WorkPackage { url: u, hash: h, size_bytes }),
            None => None,
        },
        None => None,
    }
}

/// The id, name and slug of a work row's scene preset: present when the
/// row has a preset id, which always comes with its name and slug.
pub fn work_preset_identity(id: Option<String>, name: Option<String>, slug: Option<String>) -> (res:
    Option<(String, String, String)>)
    requires
        id is Some ==> name is Some && slug is Some,
    ensures
        id is None ==> res is None,
        id matches Some(i) ==> (res matches Some(t) && t.0 == i && Some(t.1) == name && Some(t.2)
            == slug),
{
    match id {
        Some(i) => match (name, slug) {
            (Some(n), Some(s)) => Some((i, n, s)),
            _ => None,
        },
        None => None,
    }
}

} // verus!
