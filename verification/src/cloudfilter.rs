//! Windows Cloud Files (CFAPI) provider types: the sync root configuration,
//! its hydration and population policies, and placeholder metadata. The
//! calls into the Cloud Filter API are not made yet; on every platform the
//! provider reports that no path is a sync root.
use vstd::prelude::*;
use std::time::SystemTime;
use crate::hash::{blake3_digest, hash_bytes, hash_to_hex};
use crate::names::hex_encode_spec;
use crate::text::{chars_eq, chars_of, string_of};

verus! {

#[verifier::external_type_specification]
#[verifier::external_body]
pub struct ExSystemTime(SystemTime);

/// `SystemTime::clone`: `SystemTime` is `Copy`, so the clone is the same
/// instant.
pub assume_specification[ <SystemTime as Clone>::clone ](t: &SystemTime) -> (r: SystemTime)
    ensures
        r == *t,
;

/// Controls when files are hydrated (downloaded).
#[derive(Debug, Clone, Copy, PartialEq, Eq, Structural)]
pub enum HydrationPolicy {
    /// Files are hydrated only when explicitly opened by the user or an app
    Full,
    /// Files are progressively hydrated (streaming)
    Progressive,
    /// Files are always kept fully hydrated locally
    AlwaysLocal,
}

impl Default for HydrationPolicy {
    fn default() -> (r: Self)
        ensures
            r == HydrationPolicy::Full,
    {
        HydrationPolicy::Full
    }
}

/// Controls how placeholders are populated in the sync root.
#[derive(Debug, Clone, Copy, PartialEq, Eq, Structural)]
pub enum PopulationPolicy {
    /// Populate the full namespace on sync root connect
    Full,
    /// Populate lazily as directories are enumerated
    Lazy,
}

impl Default for PopulationPolicy {
    fn default() -> (r: Self)
        ensures
            r == PopulationPolicy::Full,
    {
        PopulationPolicy::Full
    }
}

/// Configuration for the Cloud Files sync root.
#[derive(Debug, Clone)]
pub struct SyncRootConfig {
    /// Display name shown in Explorer navigation pane (e.g. "TummyCrypt")
    pub display_name: String,
    /// Local path to register as sync root
    pub root_path: String,
    /// Provider name (e.g. "tummycrypt")
    pub provider_name: String,
    /// Provider version string
    pub provider_version: String,
    /// SeaweedFS S3 endpoint
    pub s3_endpoint: String,
    /// S3 bucket
    pub s3_bucket: String,
    /// Remote prefix within the bucket
    pub remote_prefix: String,
    /// Hydration policy
    pub hydration_policy: HydrationPolicy,
    /// Population policy
    pub population_policy: PopulationPolicy,
}

/// Placeholder file metadata for CFAPI registration.
#[derive(Debug, Clone)]
pub struct PlaceholderInfo {
    /// Relative path within the sync root
    pub relative_path: String,
    /// File size in bytes (shown in Explorer even when dehydrated)
    pub file_size: u64,
    /// Last modified timestamp
    pub modified: SystemTime,
    /// BLAKE3 hash of the file content (stored as file identity)
    pub content_hash: String,
    /// Manifest path for hydration
    pub manifest_path: String,
    /// Whether this is a directory placeholder
    pub is_directory: bool,
}

/// An active connection to a registered sync root. Dropping it disconnects
/// but leaves the files as placeholders.
pub struct SyncRootConnection {
    config: SyncRootConfig,
}

impl SyncRootConnection {
    /// The connection for a sync root whose directory now exists.
    pub fn established(config: SyncRootConfig) -> (r: Self)
        ensures
            r.config_spec() == config,
    {
        SyncRootConnection { config }
    }

    /// The configuration the sync root was connected with.
    pub closed spec fn config_spec(&self) -> SyncRootConfig {
        self.config
    }

    /// The configuration the sync root was connected with.
    pub fn config(&self) -> (r: &SyncRootConfig)
        ensures
            *r == self.config_spec(),
    {
        &self.config
    }
}

/// Whether `root_path` is registered as a Cloud Files sync root. No path is
/// registered until the Cloud Filter API is called.
pub fn is_sync_root(root_path: &str) -> (r: bool)
    ensures
        !r,
{
    false
}

/// Reports hydration progress (`completed` of `total` bytes) to Explorer.
/// No progress is shown until the Cloud Filter API is called.
pub fn report_progress(total: u64, completed: u64) {
}

// ── Hydration ────────────────────────────────────────────────────────────────

/// Why a placeholder could not be hydrated from its stored chunks.
#[derive(Debug, Clone, PartialEq, Eq)]
pub enum HydrationError {
    /// The manifest lists no chunks.
    EmptyManifest,
    /// Chunk `index` does not have the hash the manifest lists.
    ChunkIntegrity { index: usize, expected: String, actual: String },
    /// The assembled file does not have the hash the manifest lists.
    FileIntegrity { expected: String, actual: String },
}

/// The hexadecimal BLAKE3 hash of some bytes.
pub open spec fn hex_hash(b: Seq<u8>) -> Seq<char> {
    hex_encode_spec(blake3_digest(b))
}

/// The position of the first stored chunk whose hash is not the listed one.
pub open spec fn first_bad_chunk(hashes: Seq<String>, stored: Seq<Vec<u8>>) -> Option<int>
    decreases stored.len(),
{
    if stored.len() == 0 {
        None
    } else {
        match first_bad_chunk(hashes.drop_last(), stored.drop_last()) {
            Some(i) => Some(i),
            None => if hex_hash(stored.last()@) != hashes[stored.len() - 1]@ {
                Some(stored.len() - 1)
            } else {
                None
            },
        }
    }
}

/// The stored chunks laid end to end.
pub open spec fn joined(stored: Seq<Vec<u8>>) -> Seq<u8> {
    stored.map_values(|v: Vec<u8>| v@).flatten()
}

/// Assembles a placeholder's content from its stored chunks (plaintext),
/// `chunk_hashes` as the manifest lists them and `stored` the bytes read
/// for each: every chunk must have its listed hash, and the whole file the
/// manifest's file hash where it gives one.
pub fn hydrate_from_chunks(chunk_hashes: &[String], stored: &[Vec<u8>], file_hash: &str) -> (r: Result<Vec<u8>, HydrationError>)
    requires
        chunk_hashes@.len() == stored@.len(),
    ensures
        stored@.len() == 0 ==> r == Err::<Vec<u8>, HydrationError>(HydrationError::EmptyManifest),
        stored@.len() > 0 ==> match first_bad_chunk(chunk_hashes@, stored@) {
            Some(i) => r matches Err(HydrationError::ChunkIntegrity { index, expected, actual }) && index == i
                && expected@ == chunk_hashes@[i]@ && actual@ == hex_hash(stored@[i]@),
            None => if file_hash@.len() > 0 && hex_hash(joined(stored@)) != file_hash@ {
                r matches Err(HydrationError::FileIntegrity { expected, actual }) && expected@ == file_hash@ && actual@
                    == hex_hash(joined(stored@))
            } else {
                r matches Ok(v) && v@ == joined(stored@)
            },
        },
{
    if stored.len() == 0 {
        return Err(HydrationError::EmptyManifest);
    }
    let mut out: Vec<u8> = Vec::new();
    let mut i: usize = 0;
    while i < stored.len()
        invariant
            i <= stored@.len(),
            chunk_hashes@.len() == stored@.len(),
            first_bad_chunk(chunk_hashes@.take(i as int), stored@.take(i as int)) is None,
            out@ == joined(stored@.take(i as int)),
        decreases stored@.len() - i,
    {
        assert(stored@.take(i + 1).drop_last() =~= stored@.take(i as int));
        assert(chunk_hashes@.take(i + 1).drop_last() =~= chunk_hashes@.take(i as int));
        let actual = hash_to_hex(&hash_bytes(stored[i].as_slice()));
        if !chars_eq(chars_of(actual.as_str()).as_slice(), chars_of(chunk_hashes[i].as_str()).as_slice()) {
            proof {
                lemma_first_bad_extends(chunk_hashes@, stored@, i as int);
            }
            let expected = string_of(chars_of(chunk_hashes[i].as_str()).as_slice());
            return Err(HydrationError::ChunkIntegrity { index: i, expected, actual });
        }
        let mut piece = vstd::slice::slice_to_vec(stored[i].as_slice());
        out.append(&mut piece);
        proof {
            let vs = stored@.take(i + 1).map_values(|v: Vec<u8>| v@);
            assert(vs =~= stored@.take(i as int).map_values(|v: Vec<u8>| v@).push(stored@[i as int]@));
            stored@.take(i as int).map_values(|v: Vec<u8>| v@).lemma_flatten_push(stored@[i as int]@);
        }
        i = i + 1;
    }
    assert(stored@.take(i as int) =~= stored@);
    assert(chunk_hashes@.take(i as int) =~= chunk_hashes@);
    if !file_hash.is_empty() {
        let actual = hash_to_hex(&hash_bytes(out.as_slice()));
        if !chars_eq(chars_of(actual.as_str()).as_slice(), chars_of(file_hash).as_slice()) {
            let expected = string_of(chars_of(file_hash).as_slice());
            return Err(HydrationError::FileIntegrity { expected, actual });
        }
    }
    Ok(out)
}

/// Where every stored chunk has its listed hash, none is bad.
pub proof fn lemma_no_bad_chunk(hashes: Seq<String>, stored: Seq<Vec<u8>>)
    requires
        hashes.len() == stored.len(),
        forall|i: int| 0 <= i < stored.len() ==> hex_hash((#[trigger] stored[i])@) == hashes[i]@,
    ensures
        first_bad_chunk(hashes, stored) is None,
    decreases stored.len(),
{
    if stored.len() > 0 {
        let hs = hashes.drop_last();
        let st = stored.drop_last();
        assert forall|i: int| 0 <= i < st.len() implies hex_hash((#[trigger] st[i])@) == hs[i]@ by {
            assert(st[i] == stored[i]);
        }
        lemma_no_bad_chunk(hs, st);
        assert(hex_hash(stored[stored.len() - 1]@) == hashes[stored.len() - 1]@);
    }
}

proof fn lemma_first_bad_extends(hashes: Seq<String>, stored: Seq<Vec<u8>>, i: int)
    requires
        0 <= i < stored.len(),
        hashes.len() == stored.len(),
        first_bad_chunk(hashes.take(i), stored.take(i)) is None,
        hex_hash(stored[i]@) != hashes[i]@,
    ensures
        first_bad_chunk(hashes, stored) == Some(i),
    decreases stored.len() - i,
{
    assert(stored.take(i + 1).drop_last() =~= stored.take(i));
    assert(hashes.take(i + 1).drop_last() =~= hashes.take(i));
    assert(first_bad_chunk(hashes.take(i + 1), stored.take(i + 1)) == Some(i));
    lemma_first_bad_prefix(hashes, stored, i + 1, i);
}

proof fn lemma_first_bad_prefix(hashes: Seq<String>, stored: Seq<Vec<u8>>, m: int, i: int)
    requires
        0 <= m <= stored.len(),
        hashes.len() == stored.len(),
        first_bad_chunk(hashes.take(m), stored.take(m)) == Some(i),
    ensures
        first_bad_chunk(hashes, stored) == Some(i),
    decreases stored.len() - m,
{
    if m == stored.len() {
        assert(stored.take(m) =~= stored);
        assert(hashes.take(m) =~= hashes);
    } else {
        assert(stored.take(m + 1).drop_last() =~= stored.take(m));
        assert(hashes.take(m + 1).drop_last() =~= hashes.take(m));
        lemma_first_bad_prefix(hashes, stored, m + 1, i);
    }
}

} // verus!
