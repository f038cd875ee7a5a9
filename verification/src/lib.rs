//! Verified core of the TCFS encrypted, remote-first filesystem client.
use vstd::prelude::*;

pub mod text;
pub mod paths;
pub mod stub;
pub mod cliscan;
pub mod cli;
pub mod negative_cache;
pub mod cache;
pub mod names;
pub mod hash;
pub mod chunks;
pub mod seekable;
pub mod config;
pub mod types;
pub mod cloudfilter;
pub mod provider;
pub mod mcp;
pub mod nfs;
pub mod fuse_dir;
pub mod enumerate;
pub mod upload;
pub mod fetch;
pub mod keys;
pub mod chunk_crypto;
pub mod manifest;
pub mod recovery;
pub mod age_keys;
pub mod storage_bounds;
pub mod device_ctx;
pub mod rotation;
pub mod cli_util;
pub mod master_key;

verus! {
}
