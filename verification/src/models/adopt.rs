//! Adopting a shader from a mod platform: the request and the preview shown before it.
use vstd::prelude::*;

verus! {

/// Request to adopt a shader from its platform page URL.
#[derive(Debug, Clone)]
pub struct AdoptShaderRequest {
    pub url: String,
}

/// Request to link an existing shader to another platform's page.
#[derive(Debug, Clone)]
pub struct LinkShaderRequest {
    pub url: String,
}

/// What adopting a shader would create, shown before confirming.
#[derive(Debug, Clone)]
pub struct AdoptPreviewResponse {
    pub platform: String,
    pub name: String,
    pub slug: String,
    pub description: String,
    pub icon_url: Option<String>,
    pub downloads: u64,
    pub version_count: usize,
    pub authors: Vec<AdoptPreviewAuthor>,
}

/// An author listed in an adoption preview.
#[derive(Debug, Clone)]
pub struct AdoptPreviewAuthor {
    pub name: String,
    pub url: Option<String>,
}

} // verus!
