//! Capture agent exchange: upload preparation and the orchestration manifest.
use std::collections::HashMap;

use vstd::prelude::*;

verus! {

/// A captured file the agent is about to upload.
#[derive(Debug, Clone)]
pub struct PrepareUploadFile {
    pub local_path: String,
    pub scene_id: String,
    pub profile_id: Option<String>,
}

/// Request for upload targets, one per captured file.
#[derive(Debug, Clone)]
pub struct PrepareUploadRequest {
    pub files: Vec<PrepareUploadFile>,
}

/// Where one file goes: a presigned URL, its storage key and the capture it becomes.
#[derive(Debug, Clone)]
pub struct UploadTarget {
    pub presigned_url: String,
    pub r2_key: String,
    pub capture_id: String,
}

/// Upload targets keyed by the files' local paths.
#[derive(Debug, Clone)]
pub struct PrepareUploadResponse {
    pub uploads: HashMap<String, UploadTarget>,
}

/// Outcome of an orchestration run.
#[derive(Debug, Clone, Copy, PartialEq, Eq, Structural)]
pub enum OrchestrationStatus {
    Complete,
    Partial,
    Failed,
}

/// Header of an orchestration manifest.
#[derive(Debug, Clone)]
pub struct OrchestrationInfo {
    pub id: String,
    pub run_id: Option<String>,
    pub started_at: String,
    pub completed_at: String,
    pub total_sessions: u32,
    pub status: OrchestrationStatus,
}

/// One captured screenshot of a session.
#[derive(Debug, Clone)]
pub struct CaptureEntry {
    pub file: String,
    pub timestamp: String,
    pub shader: Option<ShaderMetadata>,
    pub resolution: Resolution,
}

/// The shader a screenshot was taken with.
#[derive(Debug, Clone)]
pub struct ShaderMetadata {
    pub filename: String,
    pub id: String,
    pub version: String,
    pub profile_id: Option<String>,
}

/// Screenshot size in pixels.
#[derive(Debug, Clone, Copy, PartialEq, Eq, Structural)]
pub struct Resolution {
    pub width: u32,
    pub height: u32,
}

} // verus!
