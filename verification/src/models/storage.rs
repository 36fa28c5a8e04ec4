//! Object-storage statistics, audits and cleanup.
use vstd::prelude::*;

verus! {

/// Totals over the stored captures.
#[derive(Debug, Clone, Copy, PartialEq, Eq, Structural)]
pub struct StorageStats {
    pub total_bytes: i64,
    pub capture_count: i64,
    pub avg_bytes: i64,
    pub missing_count: i64,
}

/// A database row that refers to a stored object.
#[derive(Debug, Clone)]
pub struct AuditReference {
    pub table: String,
    pub row_id: String,
    pub stored_url: String,
    pub expected_url: Option<String>,
}

/// Counts of a storage audit.
#[derive(Debug, Clone, Copy, PartialEq, Eq, Structural)]
pub struct AuditSummary {
    pub total_r2_objects: i64,
    pub total_r2_bytes: i64,
    pub total_db_references: i64,
    pub orphaned_count: i64,
    pub orphaned_bytes: i64,
    pub stale_staging_count: i64,
    pub missing_count: i64,
    pub unknown_prefix_count: i64,
    pub url_mismatch_count: i64,
}

/// Storage keys an admin asks to delete.
#[derive(Debug, Clone)]
pub struct StorageCleanupRequest {
    pub keys: Vec<String>,
}

/// What happened to one key of a cleanup.
#[derive(Debug, Clone)]
pub struct CleanupKeyResult {
    pub key: String,
    pub status: CleanupKeyStatus,
    pub reason: Option<String>,
}

/// Outcome for one key of a cleanup.
#[derive(Debug, Clone, Copy, PartialEq, Eq, Structural)]
pub enum CleanupKeyStatus {
    Deleted,
    Skipped,
    Failed,
}

/// Result of a cleanup: each key's outcome and the totals.
#[derive(Debug, Clone)]
pub struct StorageCleanupResult {
    pub results: Vec<CleanupKeyResult>,
    pub deleted_count: i64,
    pub skipped_count: i64,
    pub failed_count: i64,
    pub freed_bytes: i64,
}

} // verus!
