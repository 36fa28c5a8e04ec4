//! Shader records and the requests that create, update and search them.
use vstd::prelude::*;

verus! {

/// Counts of a shader's extraction outcomes.
#[derive(Debug, Clone, Copy, PartialEq, Eq, Structural)]
pub struct ExtractionSummary {
    pub completed: i64,
    pub failed: i64,
    pub pending: i64,
    pub skipped: i64,
    pub total: i64,
}

/// An author of a shader, as listed on a platform.
#[derive(Debug, Clone)]
pub struct ShaderAuthor {
    pub id: String,
    pub shader_id: String,
    pub name: String,
    pub url: Option<String>,
    pub platform: String,
}

/// A reference to an already adopted shader.
#[derive(Debug, Clone)]
pub struct ShaderAdopted {
    pub id: String,
    pub slug: String,
}

/// Sort order of the browse listing.
#[derive(Debug, Clone, Copy, PartialEq, Eq, Structural)]
pub enum ShaderSearchSort {
    Popular,
    Recent,
}

impl Default for ShaderSearchSort {
    /// Popular shaders first.
    fn default() -> (res: ShaderSearchSort)
        ensures
            res == ShaderSearchSort::Popular,
    {
        ShaderSearchSort::Popular
    }
}

/// Request to create a shader record.
#[derive(Debug, Clone)]
pub struct CreateShaderRequest {
    pub name: String,
    pub slug: Option<String>,
    pub description: Option<String>,
    pub modrinth_id: Option<String>,
    pub curseforge_id: Option<String>,
    pub website_url: Option<String>,
}

/// Request to add a version to a shader.
#[derive(Debug, Clone)]
pub struct CreateShaderVersionRequest {
    pub version: String,
    pub modrinth_version_id: Option<String>,
    pub download_url: Option<String>,
    pub file_hash: Option<String>,
}

/// Partial update of a shader; absent fields are left as they are.
#[derive(Debug, Clone)]
pub struct UpdateShaderRequest {
    pub name: Option<String>,
    pub slug: Option<String>,
    pub description: Option<String>,
    pub modrinth_id: Option<String>,
    pub curseforge_id: Option<String>,
    pub website_url: Option<String>,
}

} // verus!
