//! The key hierarchy of client-side encryption.
//!
//! ```text
//! Master Key (256-bit, Argon2id from passphrase)
//!   ├── File Encryption Key (per-file, 256-bit random, wrapped by master key)
//!   │   └── Chunk AEAD: XChaCha20-Poly1305 (key=file_key, nonce=random_192bit, AAD=chunk_idx||file_id)
//!   ├── Manifest Encryption Key (HKDF from master key, domain="tcfs-manifest")
//!   └── Name Encryption Key (HKDF from master key, domain="tcfs-names", AES-SIV)
//! ```
//!
//! The primitives (Argon2id, HKDF-SHA256, XChaCha20-Poly1305, age) are the
//! outside crates'; what each returns is named here, and the library's own
//! logic (framing, length checks, which error comes out) is stated over those
//! names.
use vstd::prelude::*;
use vstd::string::StringSliceAdditionalSpecFns;
use rand::RngCore;
use chacha20poly1305::aead::{Aead, KeyInit, Payload};

verus! {

/// Size of a master or file key in bytes (256-bit).
pub const KEY_SIZE: usize = 32;

/// Size of an XChaCha20-Poly1305 nonce (192-bit).
pub const NONCE_SIZE: usize = 24;

/// Size of a Poly1305 authentication tag.
pub const TAG_SIZE: usize = 16;

/// Algorithm marker for file keys wrapped to age X25519 device recipients.
pub const AGE_X25519_FILE_KEY_ALGORITHM: &'static str = "age-x25519-v1";

/// Why a cryptographic operation failed.
#[derive(Debug, Clone, PartialEq, Eq)]
pub enum CryptoError {
    /// Argon2id refused the cost parameters.
    InvalidKdfParams,
    /// Argon2id failed while hashing.
    KdfFailed,
    /// HKDF could not expand to the length asked for.
    HkdfExpand,
    /// The AEAD refused to encrypt a key.
    KeyWrap,
    /// A wrapped key did not decrypt (wrong master key or corrupted data).
    KeyUnwrap,
    /// A wrapped key shorter than nonce, key and tag; its length.
    WrappedKeyTooShort(usize),
    /// A wrapped key decrypted to this many bytes instead of 32.
    UnwrappedKeyWrongSize(usize),
    /// The AEAD refused to encrypt a chunk.
    ChunkEncrypt,
    /// A chunk did not decrypt (wrong key, corrupted data, or wrong index or file id).
    ChunkDecrypt,
    /// An encrypted chunk shorter than nonce and tag; its length.
    EncryptedChunkTooShort(usize),
    /// Text that is not base64.
    Base64Decode,
    /// AES-SIV refused to encrypt a name.
    NameEncrypt,
    /// An encrypted name did not decrypt.
    NameDecrypt,
    /// An encrypted name that is not hexadecimal; the decoder's message.
    NameHex(String),
    /// A decrypted name that is not UTF-8.
    NameNotUtf8,
    /// Text that is not a BIP-39 mnemonic.
    InvalidMnemonic,
    /// No mnemonic could be made from the entropy.
    MnemonicGeneration,
    /// No recipient to wrap a file key to.
    NoRecipients,
    /// The recipient of this device is not an age X25519 recipient.
    InvalidRecipient(String),
    /// age could not wrap the file key for this device.
    AgeWrap(String),
    /// The identity is not an age X25519 identity.
    InvalidIdentity,
    /// The age-wrapped key of this device decrypted to this many bytes.
    AgeKeyWrongSize(String, usize),
    /// Wraps were meant for the identity but none decrypted.
    NoDecryptableAgeKey,
    /// No supported wrap for this device.
    NoAgeKeyForDevice(String),
    /// No supported wrap at all.
    NoAgeKeys,
}

// ── Keys ─────────────────────────────────────────────────────────────────────

/// A 256-bit master key derived from a passphrase via Argon2id.
#[derive(Clone)]
pub struct MasterKey {
    bytes: [u8; 32],
}

impl View for MasterKey {
    type V = Seq<u8>;

    closed spec fn view(&self) -> Seq<u8> {
        self.bytes@
    }
}

impl MasterKey {
    /// The master key with these bytes.
    pub fn from_bytes(bytes: [u8; 32]) -> (k: MasterKey)
        ensures
            k@ == bytes@,
    {
        MasterKey { bytes }
    }

    /// The bytes of the key.
    pub fn as_bytes(&self) -> (b: &[u8; 32])
        ensures
            b@ == self@,
    {
        &self.bytes
    }

    /// A key has 32 bytes.
    pub proof fn lemma_len(&self)
        ensures
            self@.len() == 32,
    {
    }
}

/// A per-file 256-bit encryption key.
#[derive(Clone)]
pub struct FileKey {
    bytes: [u8; 32],
}

impl View for FileKey {
    type V = Seq<u8>;

    closed spec fn view(&self) -> Seq<u8> {
        self.bytes@
    }
}

impl FileKey {
    /// The file key with these bytes.
    pub fn from_bytes(bytes: [u8; 32]) -> (k: FileKey)
        ensures
            k@ == bytes@,
    {
        FileKey { bytes }
    }

    /// The bytes of the key.
    pub fn as_bytes(&self) -> (b: &[u8; 32])
        ensures
            b@ == self@,
    {
        &self.bytes
    }

    /// A key has 32 bytes.
    pub proof fn lemma_len(&self)
        ensures
            self@.len() == 32,
    {
    }
}

/// The bytes of `v` as a 32-byte array.
pub(crate) fn array32(v: &[u8]) -> (a: [u8; 32])
    requires
        v@.len() == 32,
    ensures
        a@ == v@,
{
    let mut a = [0u8; 32];
    let mut i: usize = 0;
    while i < 32
        invariant
            i <= 32,
            v@.len() == 32,
            a@.len() == 32,
            forall|k: int| 0 <= k < i ==> a@[k] == v@[k],
        decreases 32 - i,
    {
        a[i] = v[i];
        i = i + 1;
    }
    assert(a@ =~= v@);
    a
}

// ── Randomness ───────────────────────────────────────────────────────────────

/// 24 bytes from `rand::thread_rng()` (`RngCore::fill_bytes`). Nothing is
/// promised of their value.
#[verifier::external_body]
pub(crate) fn random_24() -> [u8; 24] {
    let mut b = [0u8; 24];
    rand::thread_rng().fill_bytes(&mut b);
    b
}

/// 32 bytes from `rand::thread_rng()` (`RngCore::fill_bytes`). Nothing is
/// promised of their value.
#[verifier::external_body]
pub(crate) fn random_32() -> [u8; 32] {
    let mut b = [0u8; 32];
    rand::thread_rng().fill_bytes(&mut b);
    b
}

/// A random 256-bit file encryption key.
pub fn generate_file_key() -> (k: FileKey)
    ensures
        k@.len() == 32,
{
    FileKey::from_bytes(random_32())
}

// ── Argon2id ─────────────────────────────────────────────────────────────────

/// Argon2id parameters for key derivation.
#[derive(Debug, Clone)]
pub struct KdfParams {
    /// Memory cost in KiB (default: 65536 = 64 MiB)
    pub mem_cost_kib: u32,
    /// Time cost / iterations (default: 3)
    pub time_cost: u32,
    /// Parallelism (default: 4)
    pub parallelism: u32,
}

impl Default for KdfParams {
    fn default() -> (r: Self)
        ensures
            r.mem_cost_kib == 65536,
            r.time_cost == 3,
            r.parallelism == 4,
    {
        KdfParams { mem_cost_kib: 65536, time_cost: 3, parallelism: 4 }
    }
}

/// The cost parameters that `argon2::Params::new` accepts (with a 32-byte
/// output): at least 8 KiB and 8 KiB per lane, at least one pass, and 1 to
/// 2^24 - 1 lanes.
pub open spec fn argon2_params_valid(m_cost: u32, t_cost: u32, p_cost: u32) -> bool {
    &&& m_cost >= 8
    &&& m_cost >= 8 * p_cost
    &&& t_cost >= 1
    &&& 1 <= p_cost <= 0xffffff
}

/// What Argon2id (version 0x13, 32-byte output) gives for a password, salt
/// and costs.
pub uninterp spec fn argon2id_key(password: Seq<u8>, salt: Seq<u8>, m_cost: u32, t_cost: u32, p_cost: u32) -> Seq<u8>;

/// `argon2::Params::new(m, t, p, Some(32))` succeeds. It computes `8 * p`
/// in `u32`, so `p` is kept below 2^29.
#[verifier::external_body]
fn argon2_accepts(m_cost: u32, t_cost: u32, p_cost: u32) -> (r: bool)
    requires
        p_cost < 0x2000_0000,
    ensures
        r == argon2_params_valid(m_cost, t_cost, p_cost),
{
    argon2::Params::new(m_cost, t_cost, p_cost, Some(32)).is_ok()
}

/// Argon2id (`Argon2::new(Argon2id, V0x13, params).hash_password_into`)
/// into a 32-byte key, `None` where it fails. With valid costs, a 32-byte
/// output and a 16-byte salt, `hash_password_into` refuses only a password
/// longer than `MAX_PWD_LEN` (2^32 - 1 bytes); the memory it fills is the
/// block count it allocates itself.
#[verifier::external_body]
fn argon2id_hash(password: &[u8], salt: &[u8; 16], m_cost: u32, t_cost: u32, p_cost: u32) -> (r: Option<[u8; 32]>)
    requires
        argon2_params_valid(m_cost, t_cost, p_cost),
    ensures
        r is Some <==> password@.len() <= 0xffff_ffff,
        r matches Some(k) ==> k@ == argon2id_key(password@, salt@, m_cost, t_cost, p_cost),
{
    let params = argon2::Params::new(m_cost, t_cost, p_cost, Some(32)).ok()?;
    let argon2 = argon2::Argon2::new(argon2::Algorithm::Argon2id, argon2::Version::V0x13, params);
    let mut key = [0u8; 32];
    argon2.hash_password_into(password, salt, &mut key).ok()?;
    Some(key)
}

/// Derives a 256-bit master key from a passphrase and a 16-byte salt with
/// Argon2id.
pub fn derive_master_key(passphrase: &str, salt: &[u8; 16], params: &KdfParams) -> (r: Result<MasterKey, CryptoError>)
    requires
        params.parallelism < 0x2000_0000,
    ensures
        !argon2_params_valid(params.mem_cost_kib, params.time_cost, params.parallelism) <==> r == Err::<
            MasterKey,
            CryptoError,
        >(CryptoError::InvalidKdfParams),
        r matches Ok(k) ==> k@ == argon2id_key(
            passphrase.spec_bytes(),
            salt@,
            params.mem_cost_kib,
            params.time_cost,
            params.parallelism,
        ),
        r == Err::<MasterKey, CryptoError>(CryptoError::KdfFailed) <==> argon2_params_valid(
            params.mem_cost_kib,
            params.time_cost,
            params.parallelism,
        ) && passphrase.spec_bytes().len() > 0xffff_ffff,
        r matches Err(e) ==> e == CryptoError::InvalidKdfParams || e == CryptoError::KdfFailed,
{
    if !argon2_accepts(params.mem_cost_kib, params.time_cost, params.parallelism) {
        return Err(CryptoError::InvalidKdfParams);
    }
    match argon2id_hash(passphrase.as_bytes(), salt, params.mem_cost_kib, params.time_cost, params.parallelism) {
        Some(k) => Ok(MasterKey::from_bytes(k)),
        None => Err(CryptoError::KdfFailed),
    }
}

// ── HKDF ─────────────────────────────────────────────────────────────────────

/// What HKDF-SHA256 with no salt gives for `ikm` and `info`: `len` bytes of
/// output key material.
pub uninterp spec fn hkdf_sha256_okm(ikm: Seq<u8>, info: Seq<u8>, len: nat) -> Seq<u8>;

/// `Hkdf::<Sha256>::new(None, ikm).expand(info, okm)` into `out_len` bytes.
/// It refuses only lengths above 255 blocks of 32 bytes.
#[verifier::external_body]
pub(crate) fn hkdf_sha256_expand(ikm: &[u8], info: &[u8], out_len: usize) -> (r: Option<Vec<u8>>)
    ensures
        r is Some <==> out_len <= 8160,
        r matches Some(v) ==> v@ == hkdf_sha256_okm(ikm@, info@, out_len as nat) && v@.len() == out_len,
{
    let mut okm = vec![0u8; out_len];
    match hkdf::Hkdf::<sha2::Sha256>::new(None, ikm).expand(info, &mut okm) {
        Ok(()) => Some(okm),
        Err(_) => None,
    }
}

/// `tcfs-manifest` in ASCII: the HKDF domain of the manifest key.
pub open spec fn manifest_domain() -> Seq<u8> {
    seq![0x74u8, 0x63, 0x66, 0x73, 0x2d, 0x6d, 0x61, 0x6e, 0x69, 0x66, 0x65, 0x73, 0x74]
}

/// `tcfs-names` in ASCII: the HKDF domain of the name key.
pub open spec fn names_domain() -> Seq<u8> {
    seq![0x74u8, 0x63, 0x66, 0x73, 0x2d, 0x6e, 0x61, 0x6d, 0x65, 0x73]
}

fn hkdf_derive(ikm: &[u8; 32], info: &[u8]) -> (r: Result<[u8; 32], CryptoError>)
    ensures
        r matches Ok(k) && k@ == hkdf_sha256_okm(ikm@, info@, 32),
{
    match hkdf_sha256_expand(ikm.as_slice(), info, 32) {
        Some(v) => Ok(array32(v.as_slice())),
        None => Err(CryptoError::HkdfExpand),
    }
}

/// The manifest encryption key: HKDF-SHA256 of the master key in the
/// domain `tcfs-manifest`.
pub fn derive_manifest_key(master: &MasterKey) -> (r: Result<[u8; 32], CryptoError>)
    ensures
        r matches Ok(k) && k@ == hkdf_sha256_okm(master@, manifest_domain(), 32),
{
    let info: [u8; 13] = [0x74, 0x63, 0x66, 0x73, 0x2d, 0x6d, 0x61, 0x6e, 0x69, 0x66, 0x65, 0x73, 0x74];
    assert(info@ =~= manifest_domain());
    hkdf_derive(master.as_bytes(), info.as_slice())
}

/// The filename encryption key: HKDF-SHA256 of the master key in the
/// domain `tcfs-names`.
pub fn derive_name_key(master: &MasterKey) -> (r: Result<[u8; 32], CryptoError>)
    ensures
        r matches Ok(k) && k@ == hkdf_sha256_okm(master@, names_domain(), 32),
{
    let info: [u8; 10] = [0x74, 0x63, 0x66, 0x73, 0x2d, 0x6e, 0x61, 0x6d, 0x65, 0x73];
    assert(info@ =~= names_domain());
    hkdf_derive(master.as_bytes(), info.as_slice())
}

// ── XChaCha20-Poly1305 ───────────────────────────────────────────────────────

/// What XChaCha20-Poly1305 encryption gives: the ciphertext followed by the
/// 16-byte tag.
pub uninterp spec fn xchacha_seal(key: Seq<u8>, nonce: Seq<u8>, aad: Seq<u8>, msg: Seq<u8>) -> Seq<u8>;

/// What XChaCha20-Poly1305 decryption gives: the plaintext, or `None` where
/// the tag does not verify.
pub uninterp spec fn xchacha_open(key: Seq<u8>, nonce: Seq<u8>, aad: Seq<u8>, ct: Seq<u8>) -> Option<Seq<u8>>;

/// `XChaCha20Poly1305::new(key).encrypt(nonce, Payload { msg, aad })`. The
/// output is as long as the message plus the tag. The cipher refuses a
/// message of `u32::MAX` 64-byte blocks or more (`encrypt_in_place_detached`),
/// and nothing else: the lengths it authenticates always fit in a `u64`.
#[verifier::external_body]
pub(crate) fn xchacha_encrypt(key: &[u8; 32], nonce: &[u8; 24], aad: &[u8], msg: &[u8]) -> (r: Option<Vec<u8>>)
    ensures
        r is Some <==> msg@.len() / 64 < 0xffff_ffff,
        r matches Some(c) ==> c@ == xchacha_seal(key@, nonce@, aad@, msg@) && c@.len() == msg@.len() + 16,
{
    let cipher = chacha20poly1305::XChaCha20Poly1305::new(key.into());
    cipher.encrypt(chacha20poly1305::XNonce::from_slice(nonce), Payload { msg, aad }).ok()
}

/// `XChaCha20Poly1305::new(key).decrypt(nonce, Payload { msg: ct, aad })`.
/// An authenticated cipher: a ciphertext that encryption made with the same
/// key, nonce and associated data decrypts, to what was encrypted (the
/// length limits of both directions are the same, and the tag that
/// encryption computed verifies).
#[verifier::external_body]
pub(crate) fn xchacha_decrypt(key: &[u8; 32], nonce: &[u8], aad: &[u8], ct: &[u8]) -> (r: Option<Vec<u8>>)
    requires
        nonce@.len() == 24,
    ensures
        r matches Some(p) ==> xchacha_open(key@, nonce@, aad@, ct@) == Some(p@),
        r is None ==> xchacha_open(key@, nonce@, aad@, ct@) is None,
        forall|msg: Seq<u8>|
            #[trigger] xchacha_seal(key@, nonce@, aad@, msg) == ct@ ==> r is Some && r.unwrap()@ == msg,
{
    let cipher = chacha20poly1305::XChaCha20Poly1305::new(key.into());
    cipher.decrypt(chacha20poly1305::XNonce::from_slice(nonce), Payload { msg: ct, aad }).ok()
}

/// `a` followed by `b`, in a new vector.
pub(crate) fn concat_bytes(a: &[u8], b: &[u8]) -> (r: Vec<u8>)
    ensures
        r@ == a@ + b@,
{
    let mut r = vstd::slice::slice_to_vec(a);
    let mut t = vstd::slice::slice_to_vec(b);
    r.append(&mut t);
    r
}

/// `w` is a wrap of `file_key` under `master`, as `wrap_key` makes it: a
/// nonce, then the file key sealed under the master key with that nonce.
pub open spec fn is_wrap_of(w: Seq<u8>, master: Seq<u8>, file_key: Seq<u8>) -> bool {
    w.len() == 72 && w == w.take(24) + xchacha_seal(master, w.take(24), seq![], file_key)
}

/// Wraps (encrypts) a file key under the master key with XChaCha20-Poly1305
/// and a random nonce: `[24-byte nonce][ciphertext + 16-byte tag]`.
pub fn wrap_key(master: &MasterKey, file_key: &FileKey) -> (r: Result<Vec<u8>, CryptoError>)
    ensures
        r matches Ok(w) ==> is_wrap_of(w@, master@, file_key@),
        r is Ok,
{
    let nonce = random_24();
    let empty: [u8; 0] = [];
    match xchacha_encrypt(master.as_bytes(), &nonce, empty.as_slice(), file_key.as_bytes().as_slice()) {
        Some(ct) => {
            assert(empty@ =~= Seq::<u8>::empty());
            let w = concat_bytes(nonce.as_slice(), ct.as_slice());
            assert(w@.take(24) =~= nonce@);
            Ok(w)
        },
        None => Err(CryptoError::KeyWrap),
    }
}

/// What unwrapping `wrapped` under `master` gives.
pub open spec fn unwrap_key_spec(master: Seq<u8>, wrapped: Seq<u8>) -> Result<Seq<u8>, CryptoError> {
    if wrapped.len() < 72 {
        Err(CryptoError::WrappedKeyTooShort(wrapped.len() as usize))
    } else {
        match xchacha_open(master, wrapped.take(24), seq![], wrapped.skip(24)) {
            None => Err(CryptoError::KeyUnwrap),
            Some(p) => if p.len() != 32 {
                Err(CryptoError::UnwrappedKeyWrongSize(p.len() as usize))
            } else {
                Ok(p)
            },
        }
    }
}

/// Unwraps (decrypts) a file key: the inverse of `wrap_key`. A key that
/// `wrap_key` wrapped under the same master key comes back unchanged.
pub fn unwrap_key(master: &MasterKey, wrapped: &[u8]) -> (r: Result<FileKey, CryptoError>)
    ensures
        match r {
            Ok(k) => unwrap_key_spec(master@, wrapped@) == Ok::<Seq<u8>, CryptoError>(k@),
            Err(e) => unwrap_key_spec(master@, wrapped@) == Err::<Seq<u8>, CryptoError>(e),
        },
        forall|k: Seq<u8>|
            #[trigger] xchacha_seal(master@, wrapped@.take(24), seq![], k) == wrapped@.skip(24) && k.len()
                == 32 ==> (r matches Ok(fk) ==> fk@ == k),
        forall|k: Seq<u8>|
            #[trigger] xchacha_seal(master@, wrapped@.take(24), seq![], k) == wrapped@.skip(24) && k.len() == 32
                && wrapped@.len() >= 72 ==> (r matches Ok(fk) && fk@ == k),
{
    let n = wrapped.len();
    if n < 72 {
        return Err(CryptoError::WrappedKeyTooShort(n));
    }
    let nonce = vstd::slice::slice_subrange(wrapped, 0, 24);
    let ct = vstd::slice::slice_subrange(wrapped, 24, n);
    assert(nonce@ =~= wrapped@.take(24));
    assert(ct@ =~= wrapped@.skip(24));
    let empty: [u8; 0] = [];
    assert(empty@ =~= Seq::<u8>::empty());
    match xchacha_decrypt(master.as_bytes(), nonce, empty.as_slice(), ct) {
        None => Err(CryptoError::KeyUnwrap),
        Some(p) => {
            if p.len() != 32 {
                Err(CryptoError::UnwrappedKeyWrongSize(p.len()))
            } else {
                Ok(FileKey::from_bytes(array32(p.as_slice())))
            }
        },
    }
}

// ── Laws ─────────────────────────────────────────────────────────────────────

/// A wrapped key splits back into the nonce it was made with and the sealed
/// file key, which is what `unwrap_key` decrypts.
pub proof fn lemma_wrap_layout(master: Seq<u8>, nonce: Seq<u8>, file_key: Seq<u8>)
    requires
        nonce.len() == 24,
        (nonce + xchacha_seal(master, nonce, seq![], file_key)).len() == 72,
    ensures
        (nonce + xchacha_seal(master, nonce, seq![], file_key)).take(24) == nonce,
        (nonce + xchacha_seal(master, nonce, seq![], file_key)).skip(24) == xchacha_seal(
            master,
            nonce,
            seq![],
            file_key,
        ),
{
    let w = nonce + xchacha_seal(master, nonce, seq![], file_key);
    assert(w.take(24) =~= nonce);
    assert(w.skip(24) =~= xchacha_seal(master, nonce, seq![], file_key));
}

/// What `wrap_key` makes of a file key, `unwrap_key` under the same master
/// key gives back: a wrap is long enough, and after its nonce holds the
/// file key, of 32 bytes, sealed under that nonce, which is what unwrapping
/// opens (the premise of `unwrap_key`'s success clause).
pub proof fn lemma_wrap_unwrap(master: &MasterKey, file_key: &FileKey, w: Seq<u8>)
    requires
        is_wrap_of(w, master@, file_key@),
    ensures
        w.len() >= 72,
        file_key@.len() == 32,
        xchacha_seal(master@, w.take(24), seq![], file_key@) == w.skip(24),
{
    file_key.lemma_len();
    assert(w.skip(24) =~= xchacha_seal(master@, w.take(24), seq![], file_key@));
}

} // verus!
