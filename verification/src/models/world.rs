//! World uploads and updates.
use vstd::prelude::*;

verus! {

/// The preview capture of a world.
#[derive(Debug, Clone)]
pub struct WorldPreviewCapture {
    pub image_url: Option<String>,
    pub thumbhash: Option<String>,
}

/// Request to upload a new world; `file_hash` carries its algorithm prefix (`sha256:...`).
#[derive(Debug, Clone)]
pub struct CreateWorldUploadRequest {
    pub name: String,
    pub slug: String,
    pub description: Option<String>,
    pub minecraft_version: String,
    pub file_hash: String,
    pub file_size_bytes: i64,
}

/// Request to upload a new version of a world.
#[derive(Debug, Clone)]
pub struct CreateWorldVersionUploadRequest {
    pub file_hash: String,
    pub file_size_bytes: i64,
}

/// The fields of a world record to create.
#[derive(Debug, Clone, Copy)]
pub struct CreateWorldRequest<'a> {
    pub name: &'a str,
    pub slug: &'a str,
    pub description: Option<&'a str>,
    pub minecraft_version: &'a str,
}

/// Partial update of a world; absent fields are left as they are.
#[derive(Debug, Clone)]
pub struct UpdateWorldRequest {
    pub name: Option<String>,
    pub description: Option<String>,
}

} // verus!
