//! Records exchanged with the iOS FileProvider extension: provider
//! configuration, enumerated items, sync status, authentication and
//! enrollment results, and the errors of provider operations.
use vstd::prelude::*;
use vstd::string::StringSliceAdditionalSpecFns;
use crate::names::{hex_encode_spec, hex_val, hex_val_exec};
use crate::text::push_str_chars;

verus! {

/// Configuration for the TCFS provider (on iOS it comes from the Keychain).
#[derive(Debug, Clone)]
pub struct ProviderConfig {
    pub s3_endpoint: String,
    pub s3_bucket: String,
    pub access_key: String,
    pub s3_secret: String,
    pub remote_prefix: String,
    pub device_id: String,
    /// Passphrase for E2EE (empty string = plaintext mode).
    pub encryption_passphrase: String,
    /// Salt for Argon2id key derivation.
    pub encryption_salt: String,
}

impl ProviderConfig {
    /// Whether contents are encrypted: an empty passphrase means plaintext.
    pub fn encrypted(&self) -> (r: bool)
        ensures
            r == (self.encryption_passphrase@.len() > 0),
    {
        !self.encryption_passphrase.as_str().is_empty()
    }
}

/// A file item returned by directory enumeration.
#[derive(Debug, Clone)]
pub struct FileItem {
    pub item_id: String,
    pub filename: String,
    pub file_size: u64,
    pub modified_timestamp: i64,
    pub is_directory: bool,
    pub content_hash: String,
    /// If non-empty, this file has a conflict with the named device.
    pub conflict_with: String,
}

/// Sync status summary.
#[derive(Debug, Clone)]
pub struct SyncStatus {
    pub connected: bool,
    pub files_synced: u64,
    pub files_pending: u64,
    pub last_error: Option<String>,
}

/// Progress callback for hydration and upload operations, implemented by
/// the host application.
pub trait ProgressCallback {
    /// Called when progress updates (completed out of total bytes).
    fn on_progress(&self, completed: u64, total: u64);
}

/// Result of a TOTP enrollment.
#[derive(Debug, Clone)]
pub struct TotpEnrollment {
    /// Base32-encoded shared secret.
    pub secret: String,
    /// otpauth:// URI for authenticator apps.
    pub qr_uri: String,
    /// Human-readable instructions.
    pub instructions: String,
}

/// Result of an authentication attempt.
#[derive(Debug, Clone)]
pub struct AuthResult {
    pub success: bool,
    pub session_token: String,
    pub error_message: String,
}

/// Result of a device enrollment via invite: the credentials the new
/// device needs.
#[derive(Debug, Clone)]
pub struct EnrollmentResult {
    pub success: bool,
    pub error_message: String,
    pub device_id: String,
    pub storage_endpoint: String,
    pub storage_bucket: String,
    pub access_key: String,
    pub s3_secret: String,
    pub remote_prefix: String,
    pub encryption_passphrase: String,
    pub encryption_salt: String,
    pub session_token: String,
}

/// Errors returned by provider operations.
#[derive(Debug, Clone)]
pub enum ProviderError {
    Storage { message: String },
    Decryption { message: String },
    Network { message: String },
    NotFound { path: String },
    InvalidArgument { message: String },
    Conflict { path: String },
    Auth { message: String },
}

/// The text of a provider error: its kind, a colon, and its detail.
pub open spec fn provider_error_text(e: ProviderError) -> Seq<char> {
    match e {
        ProviderError::Storage { message } => "Storage error: "@ + message@,
        ProviderError::Decryption { message } => "Decryption error: "@ + message@,
        ProviderError::Network { message } => "Network error: "@ + message@,
        ProviderError::NotFound { path } => "Not found: "@ + path@,
        ProviderError::InvalidArgument { message } => "Invalid argument: "@ + message@,
        ProviderError::Conflict { path } => "Conflict detected: "@ + path@,
        ProviderError::Auth { message } => "Authentication error: "@ + message@,
    }
}

impl ProviderError {
    /// The error's message.
    pub fn message(&self) -> (r: String)
        ensures
            r@ == provider_error_text(*self),
    {
        let (head, detail) = match self {
            ProviderError::Storage { message } => ("Storage error: ", message),
            ProviderError::Decryption { message } => ("Decryption error: ", message),
            ProviderError::Network { message } => ("Network error: ", message),
            ProviderError::NotFound { path } => ("Not found: ", path),
            ProviderError::InvalidArgument { message } => ("Invalid argument: ", message),
            ProviderError::Conflict { path } => ("Conflict detected: ", path),
            ProviderError::Auth { message } => ("Authentication error: ", message),
        };
        let mut r = head.to_owned();
        push_str_chars(&mut r, detail.as_str());
        r
    }
}

// ── Enrollment ───────────────────────────────────────────────────────────────

/// The answer to an enrollment invite on this device: a refusal, since an
/// invite's signature cannot be checked here; an expired invite is refused
/// as such. No credential is handed out either way.
pub fn enrollment_refusal(expired: bool) -> (r: EnrollmentResult)
    ensures
        !r.success,
        r.error_message@ == (if expired {
            "invite has expired"@
        } else {
            "enrollment invite signature cannot be verified on this device yet; use daemon-mediated enrollment or a trusted operator bootstrap config"@
        }),
        r.device_id@.len() == 0 && r.storage_endpoint@.len() == 0 && r.storage_bucket@.len() == 0,
        r.access_key@.len() == 0 && r.s3_secret@.len() == 0 && r.remote_prefix@.len() == 0,
        r.encryption_passphrase@.len() == 0 && r.encryption_salt@.len() == 0 && r.session_token@.len() == 0,
{
    let message = if expired {
        "invite has expired".to_owned()
    } else {
        "enrollment invite signature cannot be verified on this device yet; use daemon-mediated enrollment or a trusted operator bootstrap config".to_owned()
    };
    EnrollmentResult {
        success: false,
        error_message: message,
        device_id: String::new(),
        storage_endpoint: String::new(),
        storage_bucket: String::new(),
        access_key: String::new(),
        s3_secret: String::new(),
        remote_prefix: String::new(),
        encryption_passphrase: String::new(),
        encryption_salt: String::new(),
        session_token: String::new(),
    }
}

/// What BLAKE3 in keyed mode (`blake3::keyed_hash`) gives for a 32-byte key
/// and an input.
pub uninterp spec fn blake3_keyed_digest(key: Seq<u8>, data: Seq<u8>) -> Seq<u8>;

/// `blake3::keyed_hash(key, data)`, the bytes of the digest.
#[verifier::external_body]
fn blake3_keyed(key: &[u8; 32], data: &[u8]) -> (r: [u8; 32])
    ensures
        r@ == blake3_keyed_digest(key@, data@),
{
    *blake3::keyed_hash(key, data).as_bytes()
}

/// The byte that a two-byte piece of hexadecimal text stands for: two
/// hexadecimal digits (either case); `None` where either byte is not one.
pub open spec fn hex_pair(a: u8, b: u8) -> Option<u8> {
    match (hex_val(a), hex_val(b)) {
        (Some(x), Some(y)) => Some((16 * x + y) as u8),
        _ => None,
    }
}

/// The bytes that hexadecimal text stands for, pair by pair; `None` where a
/// pair is not two hexadecimal digits or a byte is left over.
pub open spec fn hex_pairs(b: Seq<u8>) -> Option<Seq<u8>>
    decreases b.len(),
{
    if b.len() == 0 {
        Some(seq![])
    } else if b.len() == 1 {
        None
    } else {
        match (hex_pair(b[0], b[1]), hex_pairs(b.skip(2))) {
            (Some(v), Some(rest)) => Some(seq![v] + rest),
            _ => None,
        }
    }
}

/// Why a bootstrap signing key is refused.
#[derive(Debug, Clone, Copy, PartialEq, Eq, Structural)]
pub enum SigningKeyError {
    /// A pair of its hexadecimal text is not a number.
    InvalidHex,
    /// It does not have 32 bytes (64 hexadecimal characters).
    WrongLength,
}

/// Checks the signature of a bootstrap payload: the hexadecimal text of the
/// keyed BLAKE3 hash of the payload under the 32-byte signing key given in
/// hexadecimal (text that is not pairs of hexadecimal digits is refused).
/// The comparison takes the same time wherever the texts differ.
pub fn verify_bootstrap_signature(payload: &str, signature: &str, signing_key_hex: &str) -> (r: Result<bool, SigningKeyError>)
    ensures
        hex_pairs(signing_key_hex.spec_bytes()) is None <==> r == Err::<bool, SigningKeyError>(SigningKeyError::InvalidHex),
        hex_pairs(signing_key_hex.spec_bytes()) matches Some(k) ==> (k.len() != 32 <==> r == Err::<bool, SigningKeyError>(
            SigningKeyError::WrongLength,
        )),
        hex_pairs(signing_key_hex.spec_bytes()) matches Some(k) ==> (k.len() == 32 ==> r == Ok::<bool, SigningKeyError>(
            signature.spec_bytes() == vstd::utf8::encode_utf8(hex_encode_spec(blake3_keyed_digest(k, payload.spec_bytes()))),
        )),
{
    let hb = signing_key_hex.as_bytes();
    let n = hb.len();
    let mut key: Vec<u8> = Vec::new();
    let mut i: usize = 0;
    assert(hb@.skip(0) =~= hb@);
    proof {
        if let Some(rest) = hex_pairs(hb@) {
            assert(key@ + rest =~= rest);
        }
    }
    while i < n
        invariant
            hb@ == signing_key_hex.spec_bytes(),
            n == hb@.len(),
            i <= n,
            hex_pairs(hb@.skip(i as int)) matches Some(rest) ==> hex_pairs(hb@) == Some(key@ + rest),
            hex_pairs(hb@.skip(i as int)) is None ==> hex_pairs(hb@) is None,
        decreases n - i,
    {
        if i + 1 == n {
            assert(hb@.skip(i as int).len() == 1);
            return Err(SigningKeyError::InvalidHex);
        }
        let a = hb[i];
        let b = hb[i + 1];
        let ghost t = hb@.skip(i as int);
        assert(t[0] == a && t[1] == b);
        assert(t.skip(2) =~= hb@.skip(i + 2));
        let v = match (hex_val_exec(a), hex_val_exec(b)) {
            (Some(x), Some(y)) => 16 * x + y,
            _ => {
                return Err(SigningKeyError::InvalidHex);
            },
        };
        let ghost before = key@;
        key.push(v);
        proof {
            if let Some(rest) = hex_pairs(hb@.skip(i + 2)) {
                assert(before + (seq![v] + rest) =~= key@ + rest);
            }
        }
        i = i + 2;
    }
    assert(hb@.skip(n as int) =~= Seq::<u8>::empty());
    assert(key@ =~= key@ + Seq::<u8>::empty());
    if key.len() != 32 {
        return Err(SigningKeyError::WrongLength);
    }
    let k = crate::keys::array32(key.as_slice());
    let mac = blake3_keyed(&k, payload.as_bytes());
    let expected = crate::hash::hash_to_hex(&crate::hash::Hash::from_bytes(mac));
    let sig = signature.as_bytes();
    let exp = expected.as_str().as_bytes();
    if sig.len() != exp.len() {
        proof {
            assert(sig@ != exp@);
        }
        return Ok(false);
    }
    let mut diff: u8 = 0;
    let mut j: usize = 0;
    assert(sig@.take(0) =~= exp@.take(0));
    while j < sig.len()
        invariant
            sig@.len() == exp@.len(),
            j <= sig@.len(),
            (diff == 0) == (sig@.take(j as int) == exp@.take(j as int)),
        decreases sig@.len() - j,
    {
        let x = sig[j];
        let y = exp[j];
        let d = x ^ y;
        assert((d == 0) == (x == y)) by (bit_vector)
            requires
                d == x ^ y,
        ;
        let nd = diff | d;
        assert((nd == 0) == (diff == 0 && d == 0)) by (bit_vector)
            requires
                nd == diff | d,
        ;
        assert(sig@.take(j + 1) =~= sig@.take(j as int).push(x));
        assert(exp@.take(j + 1) =~= exp@.take(j as int).push(y));
        proof {
            if sig@.take(j + 1) == exp@.take(j + 1) {
                assert(sig@.take(j + 1).drop_last() =~= sig@.take(j as int));
                assert(exp@.take(j + 1).drop_last() =~= exp@.take(j as int));
                assert(sig@.take(j + 1)[j as int] == x);
                assert(exp@.take(j + 1)[j as int] == y);
            }
            if diff == 0 && d == 0 {
                assert(sig@.take(j + 1) =~= exp@.take(j + 1));
            }
        }
        diff = nd;
        j = j + 1;
    }
    assert(sig@.take(j as int) =~= sig@);
    assert(exp@.take(j as int) =~= exp@);
    Ok(diff == 0)
}

// ── Sync status and conflicts ────────────────────────────────────────────────

/// The key names a file rather than a directory marker (a trailing `/`).
pub open spec fn names_file(key: Seq<char>) -> bool {
    !(key.len() > 0 && key.last() == '/')
}

/// The number of listed keys that name files.
pub open spec fn file_count(keys: Seq<Seq<char>>) -> nat
    decreases keys.len(),
{
    if keys.len() == 0 {
        0
    } else {
        file_count(keys.drop_last()) + if names_file(keys.last()) { 1nat } else { 0nat }
    }
}

/// The views of listed keys.
pub open spec fn key_views(keys: Seq<String>) -> Seq<Seq<char>> {
    keys.map_values(|k: String| k@)
}

/// The sync status that a listing of the index gives: connected, with the
/// number of files listed, when the listing succeeded; else disconnected,
/// with the listing's error.
pub fn sync_status_from_listing(listing: Result<&[String], String>) -> (r: SyncStatus)
    ensures
        r.files_pending == 0,
        match listing {
            Ok(keys) => r.connected && r.files_synced == file_count(key_views(keys@)) && r.last_error is None,
            Err(e) => !r.connected && r.files_synced == 0 && (r.last_error matches Some(m) && m@ == e@),
        },
{
    match listing {
        Ok(keys) => {
            let mut n: u64 = 0;
            let mut i: usize = 0;
            while i < keys.len()
                invariant
                    i <= keys@.len(),
                    n == file_count(key_views(keys@.take(i as int))),
                    n <= i,
                decreases keys@.len() - i,
            {
                let k = crate::text::chars_of(keys[i].as_str());
                let is_file = !(k.len() > 0 && k[k.len() - 1] == '/');
                proof {
                    assert(key_views(keys@.take(i + 1)).drop_last() =~= key_views(keys@.take(i as int)));
                    assert(key_views(keys@.take(i + 1)).last() == keys@[i as int]@);
                }
                if is_file {
                    n = n + 1;
                }
                i = i + 1;
            }
            assert(keys@.take(keys@.len() as int) =~= keys@);
            SyncStatus { connected: true, files_synced: n, files_pending: 0, last_error: None }
        },
        Err(e) => SyncStatus { connected: false, files_synced: 0, files_pending: 0, last_error: Some(e) },
    }
}

/// The device that a file is in conflict with: the device that wrote the
/// remote version, where that is another device and this device's clock is
/// not in the version's vector clock.
pub open spec fn conflict_writer_spec(written_by: Seq<char>, clock_devices: Seq<Seq<char>>, device_id: Seq<char>) -> Option<
    Seq<char>,
> {
    if written_by != device_id && !clock_devices.contains(device_id) {
        Some(written_by)
    } else {
        None
    }
}

/// Checks a remote version for a conflict with this device.
pub fn conflicting_writer(written_by: &str, clock_devices: &[String], device_id: &str) -> (r: Option<String>)
    ensures
        match r {
            Some(w) => conflict_writer_spec(written_by@, key_views(clock_devices@), device_id@) == Some(w@),
            None => conflict_writer_spec(written_by@, key_views(clock_devices@), device_id@) is None,
        },
{
    let me = crate::text::chars_of(device_id);
    let writer = crate::text::chars_of(written_by);
    if crate::text::chars_eq(writer.as_slice(), me.as_slice()) {
        return None;
    }
    let mut i: usize = 0;
    while i < clock_devices.len()
        invariant
            me@ == device_id@,
            i <= clock_devices@.len(),
            forall|j: int| 0 <= j < i ==> (#[trigger] clock_devices@[j])@ != device_id@,
        decreases clock_devices@.len() - i,
    {
        if crate::text::chars_eq(crate::text::chars_of(clock_devices[i].as_str()).as_slice(), me.as_slice()) {
            assert(key_views(clock_devices@)[i as int] == device_id@);
            return None;
        }
        i = i + 1;
    }
    proof {
        if key_views(clock_devices@).contains(device_id@) {
            let j = choose|j: int| 0 <= j < key_views(clock_devices@).len() && key_views(clock_devices@)[j] == device_id@;
            assert(clock_devices@[j]@ == device_id@);
        }
    }
    Some(written_by.to_owned())
}

} // verus!
