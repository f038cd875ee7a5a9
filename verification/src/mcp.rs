//! Input records of the MCP tools.
use vstd::prelude::*;

verus! {

/// Input of the sync-status tool.
#[derive(Debug, Clone)]
pub struct SyncStatusInput {
    /// File or directory path to check sync state for
    pub path: String,
}

/// Input of the pull tool.
#[derive(Debug, Clone)]
pub struct PullInput {
    /// Remote path (S3 key) to download
    pub remote_path: String,
    /// Local filesystem path to save the downloaded file
    pub local_path: String,
}

/// Input of the push tool.
#[derive(Debug, Clone)]
pub struct PushInput {
    /// Local file path to upload to remote storage
    pub local_path: String,
}

/// Input of the conflict-resolution tool.
#[derive(Debug, Clone)]
pub struct ResolveConflictInput {
    /// Relative path of the conflicting file
    pub rel_path: String,
    /// Resolution: 'keep_local', 'keep_remote', 'keep_both', or 'defer'
    pub resolution: String,
}

} // verus!
