//! Master key rotation with resume.
//!
//! Rotation rewrites the wrapped file key of every encrypted manifest from
//! the old master key to the new one, recording its progress in a state file
//! so that an interrupted rotation can resume: manifests already under the
//! new key are counted as such, plaintext manifests are skipped, and any
//! manifest that cannot be read, parsed or unwrapped is counted as an error
//! that keeps the rotation from completing. Listing, reading and writing
//! manifests and the state file is the caller's; the decisions are here.
use vstd::prelude::*;
use crate::keys::{is_wrap_of, unwrap_key, unwrap_key_spec, wrap_key, CryptoError, MasterKey};
use crate::manifest::{base64_decode, base64_encode, base64_standard, base64_standard_decoded};

verus! {

/// Where a rotation stands.
#[derive(Debug, Clone, Copy, PartialEq, Eq, Structural)]
pub enum KeyRotationStatus {
    /// Manifests are being rewritten.
    RewritingManifests,
    /// Every manifest is under the new key; the key file can be swapped.
    ReadyToSwap,
}

/// The resumable state of a rotation.
#[derive(Debug, Clone)]
pub struct KeyRotationState {
    pub version: u32,
    pub started_at: u64,
    pub manifest_prefix: String,
    pub pending_key_path: String,
    pub status: KeyRotationStatus,
    pub rotated_manifests: u64,
    pub already_rotated_manifests: u64,
    pub skipped_plaintext_manifests: u64,
    pub error_count: u64,
    pub last_manifest_path: Option<String>,
}

/// What became of one manifest in a scan.
#[derive(Debug, Clone, Copy, PartialEq, Eq, Structural)]
pub enum ManifestOutcome {
    /// Its file key was rewrapped under the new key and written back.
    Rotated,
    /// Its file key was already under the new key.
    AlreadyRotated,
    /// It has no wrapped file key (plaintext content).
    Plaintext,
    /// It could not be read, parsed, decoded, unwrapped or written back.
    Failed,
}

/// The scan counters are all zero and no manifest has been seen.
pub open spec fn scan_reset(s: KeyRotationState) -> bool {
    &&& s.status == KeyRotationStatus::RewritingManifests
    &&& s.rotated_manifests == 0
    &&& s.already_rotated_manifests == 0
    &&& s.skipped_plaintext_manifests == 0
    &&& s.error_count == 0
    &&& s.last_manifest_path is None
}

/// `b` is `a` with the counter of `outcome` one higher and `path` as the
/// last manifest seen.
pub open spec fn recorded(a: KeyRotationState, b: KeyRotationState, path: Seq<char>, outcome: ManifestOutcome) -> bool {
    &&& b.version == a.version
    &&& b.started_at == a.started_at
    &&& b.manifest_prefix@ == a.manifest_prefix@
    &&& b.pending_key_path@ == a.pending_key_path@
    &&& b.status == a.status
    &&& b.rotated_manifests == a.rotated_manifests + (if outcome == ManifestOutcome::Rotated { 1int } else { 0 })
    &&& b.already_rotated_manifests == a.already_rotated_manifests + (if outcome == ManifestOutcome::AlreadyRotated {
        1int
    } else {
        0
    })
    &&& b.skipped_plaintext_manifests == a.skipped_plaintext_manifests + (if outcome == ManifestOutcome::Plaintext {
        1int
    } else {
        0
    })
    &&& b.error_count == a.error_count + (if outcome == ManifestOutcome::Failed { 1int } else { 0 })
    &&& b.last_manifest_path matches Some(p) && p@ == path
}

impl KeyRotationState {
    /// A fresh rotation of the manifests under `manifest_prefix` to the key
    /// pending at `pending_key_path`, started at `started_at`.
    pub fn new(manifest_prefix: &str, pending_key_path: &str, started_at: u64) -> (r: Self)
        ensures
            r.version == 1,
            r.started_at == started_at,
            r.manifest_prefix@ == manifest_prefix@,
            r.pending_key_path@ == pending_key_path@,
            scan_reset(r),
    {
        KeyRotationState {
            version: 1,
            started_at,
            manifest_prefix: manifest_prefix.to_owned(),
            pending_key_path: pending_key_path.to_owned(),
            status: KeyRotationStatus::RewritingManifests,
            rotated_manifests: 0,
            already_rotated_manifests: 0,
            skipped_plaintext_manifests: 0,
            error_count: 0,
            last_manifest_path: None,
        }
    }

    /// Starts the scan over: counters to zero, no manifest seen, rewriting.
    pub fn reset_scan_progress(&mut self)
        ensures
            scan_reset(*final(self)),
            final(self).version == old(self).version,
            final(self).started_at == old(self).started_at,
            final(self).manifest_prefix@ == old(self).manifest_prefix@,
            final(self).pending_key_path@ == old(self).pending_key_path@,
    {
        self.status = KeyRotationStatus::RewritingManifests;
        self.rotated_manifests = 0;
        self.already_rotated_manifests = 0;
        self.skipped_plaintext_manifests = 0;
        self.error_count = 0;
        self.last_manifest_path = None;
    }

    /// Counts what became of the manifest at `path`.
    pub fn record(&mut self, path: &str, outcome: ManifestOutcome)
        requires
            old(self).rotated_manifests < u64::MAX,
            old(self).already_rotated_manifests < u64::MAX,
            old(self).skipped_plaintext_manifests < u64::MAX,
            old(self).error_count < u64::MAX,
        ensures
            recorded(*old(self), *final(self), path@, outcome),
    {
        match outcome {
            ManifestOutcome::Rotated => self.rotated_manifests = self.rotated_manifests + 1,
            ManifestOutcome::AlreadyRotated => self.already_rotated_manifests = self.already_rotated_manifests + 1,
            ManifestOutcome::Plaintext => self.skipped_plaintext_manifests = self.skipped_plaintext_manifests + 1,
            ManifestOutcome::Failed => self.error_count = self.error_count + 1,
        }
        self.last_manifest_path = Some(path.to_owned());
    }

    /// Whether a test limit on rotations has been reached (the scan then
    /// stops as if interrupted).
    pub fn interrupted(&self, max_rotations: Option<u64>) -> (r: bool)
        ensures
            r == (max_rotations matches Some(limit) && self.rotated_manifests >= limit),
    {
        match max_rotations {
            Some(limit) => self.rotated_manifests >= limit,
            None => false,
        }
    }

    /// Ends a scan: with errors the rotation stays incomplete and reports
    /// how many; without, it is ready to swap keys.
    pub fn finish_scan(&mut self) -> (r: Result<(), u64>)
        ensures
            old(self).error_count > 0 ==> r == Err::<(), u64>(old(self).error_count) && final(self).status
                == old(self).status,
            old(self).error_count == 0 ==> r is Ok && final(self).status == KeyRotationStatus::ReadyToSwap,
            final(self).rotated_manifests == old(self).rotated_manifests,
            final(self).already_rotated_manifests == old(self).already_rotated_manifests,
            final(self).skipped_plaintext_manifests == old(self).skipped_plaintext_manifests,
            final(self).error_count == old(self).error_count,
    {
        if self.error_count > 0 {
            return Err(self.error_count);
        }
        self.status = KeyRotationStatus::ReadyToSwap;
        Ok(())
    }
}

/// What to do with one manifest's wrapped file key.
#[derive(Debug)]
pub enum Rewrap {
    /// The key is not base64.
    NotBase64,
    /// Neither the old nor the new master key unwraps it.
    Unwrappable,
    /// The new master key already unwraps it.
    AlreadyRotated,
    /// The old master key unwraps it; this is its wrap under the new key, as
    /// base64.
    Rotated(String),
}

/// Decides what to do with a manifest's wrapped file key (base64): unwrap it
/// with the old master key and wrap it again with the new one; where the old
/// key does not unwrap it, see whether the new one does. Wrapping under the
/// new key does not fail, so the decision is always given.
pub fn rewrap_file_key(old_master: &MasterKey, new_master: &MasterKey, wrapped_b64: &str) -> (r: Result<
    Rewrap,
    CryptoError,
>)
    ensures
        r is Ok,
        match base64_standard_decoded(wrapped_b64@) {
            None => r matches Ok(Rewrap::NotBase64),
            Some(w) => match unwrap_key_spec(old_master@, w) {
                Ok(k) => match r {
                    Ok(Rewrap::Rotated(t)) => exists|nw: Seq<u8>| is_wrap_of(nw, new_master@, k) && t@ == base64_standard(nw),
                    _ => false,
                },
                Err(_) => match unwrap_key_spec(new_master@, w) {
                    Ok(_) => r matches Ok(Rewrap::AlreadyRotated),
                    Err(_) => r matches Ok(Rewrap::Unwrappable),
                },
            },
        },
{
    let wrapped = match base64_decode(wrapped_b64) {
        Some(w) => w,
        None => {
            return Ok(Rewrap::NotBase64);
        },
    };
    match unwrap_key(old_master, wrapped.as_slice()) {
        Ok(file_key) => {
            let new_wrapped = match wrap_key(new_master, &file_key) {
                Ok(w) => w,
                Err(e) => {
                    return Err(e);
                },
            };
            let text = base64_encode(new_wrapped.as_slice());
            assert(is_wrap_of(new_wrapped@, new_master@, file_key@));
            Ok(Rewrap::Rotated(text))
        },
        Err(_) => match unwrap_key(new_master, wrapped.as_slice()) {
            Ok(_) => Ok(Rewrap::AlreadyRotated),
            Err(_) => Ok(Rewrap::Unwrappable),
        },
    }
}

/// What reading one listed manifest gave the scan.
#[derive(Debug)]
pub enum ManifestRead {
    /// A directory entry, not a manifest.
    Directory,
    /// It could not be read or parsed.
    Unreadable,
    /// A manifest without a wrapped file key (plaintext content).
    NoFileKey,
    /// A manifest whose file key is wrapped, as this base64 text.
    WrappedKey(String),
}

impl KeyRotationState {
    /// Decides for one listed manifest of a scan. A directory is passed
    /// over; a manifest that cannot be read or parsed, or whose key is not
    /// base64 or unwraps under neither master key, counts as an error; one
    /// without a key as plaintext; one whose key the new master key unwraps
    /// as already rotated. Where the old master key unwraps it, nothing is
    /// counted yet and the key wrapped under the new master key is returned,
    /// to be written back (`record` then counts the write as rotated, or its
    /// failure as an error).
    pub fn scan_manifest(&mut self, path: &str, read: ManifestRead, old_master: &MasterKey, new_master: &MasterKey) -> (r:
        Option<String>)
        requires
            old(self).already_rotated_manifests < u64::MAX,
            old(self).skipped_plaintext_manifests < u64::MAX,
            old(self).error_count < u64::MAX,
            old(self).rotated_manifests < u64::MAX,
        ensures
            match read {
                ManifestRead::Directory => r is None && *final(self) == *old(self),
                ManifestRead::Unreadable => r is None && recorded(*old(self), *final(self), path@, ManifestOutcome::Failed),
                ManifestRead::NoFileKey => r is None && recorded(
                    *old(self),
                    *final(self),
                    path@,
                    ManifestOutcome::Plaintext,
                ),
                ManifestRead::WrappedKey(t) => match base64_standard_decoded(t@) {
                    None => r is None && recorded(*old(self), *final(self), path@, ManifestOutcome::Failed),
                    Some(w) => match unwrap_key_spec(old_master@, w) {
                        Ok(k) => *final(self) == *old(self) && (r matches Some(nt) && exists|nw: Seq<u8>|
                            is_wrap_of(nw, new_master@, k) && nt@ == base64_standard(nw)),
                        Err(_) => r is None && match unwrap_key_spec(new_master@, w) {
                            Ok(_) => recorded(*old(self), *final(self), path@, ManifestOutcome::AlreadyRotated),
                            Err(_) => recorded(*old(self), *final(self), path@, ManifestOutcome::Failed),
                        },
                    },
                },
            },
    {
        match read {
            ManifestRead::Directory => None,
            ManifestRead::Unreadable => {
                self.record(path, ManifestOutcome::Failed);
                None
            },
            ManifestRead::NoFileKey => {
                self.record(path, ManifestOutcome::Plaintext);
                None
            },
            ManifestRead::WrappedKey(t) => match rewrap_file_key(old_master, new_master, t.as_str()) {
                Ok(Rewrap::Rotated(nt)) => Some(nt),
                Ok(Rewrap::AlreadyRotated) => {
                    self.record(path, ManifestOutcome::AlreadyRotated);
                    None
                },
                Ok(Rewrap::NotBase64) => {
                    self.record(path, ManifestOutcome::Failed);
                    None
                },
                Ok(Rewrap::Unwrappable) => {
                    self.record(path, ManifestOutcome::Failed);
                    None
                },
                Err(_) => {
                    self.record(path, ManifestOutcome::Failed);
                    None
                },
            },
        }
    }
}

/// What a rotation resumed from a state file does.
#[derive(Debug, Clone, Copy, PartialEq, Eq, Structural)]
pub enum ResumeDecision {
    /// The state is for other manifests than the configuration names.
    PrefixMismatch,
    /// The key file already holds the pending key: the rotation was
    /// finalized and only its leftovers remain.
    AlreadyFinalized,
    /// Rewrite the manifests again, from the start of the scan.
    Resume,
}

/// Decides how to resume from a state file: it must target the same
/// manifests; a key file that already holds the pending key means the swap
/// happened.
pub fn resume_decision(state_prefix: &str, manifest_prefix: &str, current_key: &MasterKey, pending_key: &MasterKey) -> (r:
    ResumeDecision)
    ensures
        state_prefix@ != manifest_prefix@ <==> r == ResumeDecision::PrefixMismatch,
        state_prefix@ == manifest_prefix@ ==> (r == ResumeDecision::AlreadyFinalized <==> current_key@ == pending_key@),
{
    let a = crate::text::chars_of(state_prefix);
    let b = crate::text::chars_of(manifest_prefix);
    if !crate::text::chars_eq(a.as_slice(), b.as_slice()) {
        return ResumeDecision::PrefixMismatch;
    }
    let x = current_key.as_bytes();
    let y = pending_key.as_bytes();
    let mut i: usize = 0;
    while i < 32
        invariant
            i <= 32,
            state_prefix@ == manifest_prefix@,
            x@ == current_key@,
            y@ == pending_key@,
            x@.len() == 32,
            y@.len() == 32,
            forall|k: int| 0 <= k < i ==> x@[k] == y@[k],
        decreases 32 - i,
    {
        if x[i] != y[i] {
            assert(current_key@[i as int] != pending_key@[i as int]);
            return ResumeDecision::Resume;
        }
        i = i + 1;
    }
    assert(current_key@ =~= pending_key@);
    ResumeDecision::AlreadyFinalized
}

// ── Laws ─────────────────────────────────────────────────────────────────────

/// Recording counts each manifest under exactly one outcome: the four
/// counters together grow by one.
pub proof fn lemma_record_counts_once(a: KeyRotationState, b: KeyRotationState, path: Seq<char>, outcome: ManifestOutcome)
    requires
        recorded(a, b, path, outcome),
    ensures
        b.rotated_manifests + b.already_rotated_manifests + b.skipped_plaintext_manifests + b.error_count
            == a.rotated_manifests + a.already_rotated_manifests + a.skipped_plaintext_manifests + a.error_count + 1,
{
}

} // verus!
