//! Site background images: admin updates and the upload handshake.
use vstd::prelude::*;

use crate::models::ThemeMode;

verus! {

/// Partial update of a background; absent fields are left as they are.
#[derive(Debug, Clone, Copy)]
pub struct UpdateBackgroundRequest {
    pub enabled: Option<bool>,
    pub theme_mode: Option<ThemeMode>,
    pub sort_order: Option<i32>,
}

/// Where to upload a new background image, and where it will be served.
#[derive(Debug, Clone)]
pub struct BackgroundUploadResponse {
    pub id: String,
    pub presigned_url: String,
    pub image_url: String,
    pub image_path: String,
}

/// Metadata sent once a background image has been uploaded.
#[derive(Debug, Clone)]
pub struct ConfirmBackgroundUploadRequest {
    pub thumbhash: Option<String>,
    pub width: Option<i32>,
    pub height: Option<i32>,
    pub file_size_bytes: Option<i64>,
    pub content_type: Option<String>,
}

} // verus!
