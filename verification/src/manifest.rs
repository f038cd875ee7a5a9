//! Encrypted file manifests: the list of a file's encrypted chunks and its
//! file key, wrapped under the master key and stored as base64 text.
//!
//! Serialization of a manifest to and from JSON is the caller's.
use vstd::prelude::*;
use base64::Engine;
use crate::keys::{is_wrap_of, unwrap_key, unwrap_key_spec, wrap_key, xchacha_seal, CryptoError, FileKey, MasterKey};

verus! {

/// The character of the standard base64 alphabet for a six-bit value:
/// `A`-`Z`, `a`-`z`, `0`-`9`, `+`, `/`.
pub open spec fn base64_char(v: int) -> char {
    if v < 26 {
        (('A' as int) + v) as char
    } else if v < 52 {
        (('a' as int) + (v - 26)) as char
    } else if v < 62 {
        (('0' as int) + (v - 52)) as char
    } else if v == 62 {
        '+'
    } else {
        '/'
    }
}

/// Base64 with the standard alphabet and padding
/// (`general_purpose::STANDARD`): each three bytes become four characters
/// of six bits each, high bits first; a final one or two bytes become two
/// or three characters padded with `=` to four.
pub open spec fn base64_standard(data: Seq<u8>) -> Seq<char>
    decreases data.len(),
{
    if data.len() == 0 {
        seq![]
    } else if data.len() == 1 {
        seq![base64_char((data[0] / 4) as int), base64_char(((data[0] % 4) * 16) as int), '=', '=']
    } else if data.len() == 2 {
        seq![
            base64_char((data[0] / 4) as int),
            base64_char((data[0] % 4) * 16 + data[1] / 16),
            base64_char((data[1] % 16) * 4),
            '=',
        ]
    } else {
        seq![
            base64_char((data[0] / 4) as int),
            base64_char((data[0] % 4) * 16 + data[1] / 16),
            base64_char((data[1] % 16) * 4 + data[2] / 64),
            base64_char((data[2] % 64) as int),
        ] + base64_standard(data.skip(3))
    }
}

/// Base64 text has four characters for every three bytes begun.
pub proof fn lemma_base64_len(data: Seq<u8>)
    ensures
        base64_standard(data).len() == 4 * ((data.len() + 2) / 3),
    decreases data.len(),
{
    if data.len() > 2 {
        lemma_base64_len(data.skip(3));
    }
}

/// What base64 decoding with the standard alphabet and padding gives for
/// `text`: the bytes whose encoding `text` is, or `None` where it is the
/// encoding of no bytes.
pub open spec fn base64_standard_decoded(text: Seq<char>) -> Option<Seq<u8>> {
    if exists|d: Seq<u8>| base64_standard(d) == text {
        Some(choose|d: Seq<u8>| base64_standard(d) == text)
    } else {
        None
    }
}

/// `STANDARD.encode(data)`.
#[verifier::external_body]
pub(crate) fn base64_encode(data: &[u8]) -> (s: String)
    ensures
        s@ == base64_standard(data@),
{
    base64::engine::general_purpose::STANDARD.encode(data)
}

/// `STANDARD.decode(s)`. The engine's configuration
/// (`GeneralPurposeConfig::new`) requires canonical padding and refuses set
/// trailing bits, and bytes outside the alphabet are refused, so it accepts
/// exactly the texts that `STANDARD.encode` makes, and gives back the bytes
/// each was made from.
#[verifier::external_body]
fn standard_decode(s: &str) -> (r: Option<Vec<u8>>)
    ensures
        r matches Some(v) ==> base64_standard(v@) == s@,
        forall|data: Seq<u8>| #[trigger] base64_standard(data) == s@ ==> r is Some,
        forall|data: Seq<u8>| #[trigger] base64_standard(data) == s@ ==> (r matches Some(v) ==> v@ == data),
{
    base64::engine::general_purpose::STANDARD.decode(s).ok()
}

/// Decodes standard base64 text: the bytes it encodes, `None` where it is
/// not such base64. Text that `base64_encode` made decodes back to the
/// bytes it was made from.
pub(crate) fn base64_decode(s: &str) -> (r: Option<Vec<u8>>)
    ensures
        r matches Some(v) ==> base64_standard_decoded(s@) == Some(v@),
        r is None ==> base64_standard_decoded(s@) is None,
        forall|data: Seq<u8>| #[trigger] base64_standard(data) == s@ ==> r is Some,
        forall|data: Seq<u8>| #[trigger] base64_standard(data) == s@ ==> (r matches Some(v) ==> v@ == data),
{
    let r = standard_decode(s);
    proof {
        if r is Some {
            let d = choose|d: Seq<u8>| base64_standard(d) == s@;
            assert(base64_standard(r->0@) == s@);
            assert(base64_standard(d) == s@);
        }
    }
    r
}

/// One encrypted chunk of a file.
#[derive(Debug, Clone)]
pub struct ManifestEntry {
    /// Content address of the encrypted chunk
    pub hash: String,
    /// Position of the chunk in the file
    pub index: u64,
    /// Size of the encrypted chunk
    pub encrypted_size: u64,
}

/// A file's manifest: its chunks and its wrapped file key.
#[derive(Debug, Clone)]
pub struct EncryptedManifest {
    /// Manifest format version
    pub version: u32,
    /// File identifier
    pub file_id: String,
    /// Size of the plaintext file
    pub original_size: u64,
    /// The file key wrapped under the master key, as base64
    pub wrapped_file_key: String,
    /// The encrypted chunks, in order
    pub chunks: Vec<ManifestEntry>,
}

impl EncryptedManifest {
    /// A version 1 manifest whose file key is wrapped under the master key.
    pub fn new(
        file_id: String,
        original_size: u64,
        master_key: &MasterKey,
        file_key: &FileKey,
        chunks: Vec<ManifestEntry>,
    ) -> (r: Result<Self, CryptoError>)
        ensures
            r matches Ok(m) ==> {
                &&& m.version == 1
                &&& m.file_id@ == file_id@
                &&& m.original_size == original_size
                &&& m.chunks@ == chunks@
                &&& exists|w: Seq<u8>| is_wrap_of(w, master_key@, file_key@) && m.wrapped_file_key@ == base64_standard(w)
                &&& m.wrapped_file_key@.len() == 96
            },
            r is Ok,
    {
        let wrapped = match wrap_key(master_key, file_key) {
            Ok(w) => w,
            Err(e) => {
                return Err(e);
            },
        };
        let wrapped_b64 = base64_encode(wrapped.as_slice());
        proof {
            lemma_base64_len(wrapped@);
        }
        assert(is_wrap_of(wrapped@, master_key@, file_key@));
        Ok(EncryptedManifest { version: 1, file_id, original_size, wrapped_file_key: wrapped_b64, chunks })
    }

    /// Unwraps the file key with the master key. A manifest that `new` made
    /// under the same master key gives back the file key it was made with.
    pub fn unwrap_file_key(&self, master_key: &MasterKey) -> (r: Result<FileKey, CryptoError>)
        ensures
            match base64_standard_decoded(self.wrapped_file_key@) {
                None => r == Err::<FileKey, CryptoError>(CryptoError::Base64Decode),
                Some(w) => match r {
                    Ok(k) => unwrap_key_spec(master_key@, w) == Ok::<Seq<u8>, CryptoError>(k@),
                    Err(e) => unwrap_key_spec(master_key@, w) == Err::<Seq<u8>, CryptoError>(e),
                },
            },
            forall|w: Seq<u8>, k: Seq<u8>|
                #![trigger base64_standard(w), xchacha_seal(master_key@, w.take(24), seq![], k)]
                base64_standard(w) == self.wrapped_file_key@ && k.len() == 32 && is_wrap_of(w, master_key@, k) ==> r is Ok
                    && r->Ok_0@ == k,
    {
        let wrapped = match base64_decode(self.wrapped_file_key.as_str()) {
            Some(w) => w,
            None => {
                proof {
                    assert forall|w: Seq<u8>, k: Seq<u8>|
                        #![trigger base64_standard(w), xchacha_seal(master_key@, w.take(24), seq![], k)]
                        base64_standard(w) == self.wrapped_file_key@ && k.len() == 32 && is_wrap_of(w, master_key@, k)
                            implies false by {
                    }
                }
                return Err(CryptoError::Base64Decode);
            },
        };
        let r = unwrap_key(master_key, wrapped.as_slice());
        proof {
            assert forall|w: Seq<u8>, k: Seq<u8>|
                #![trigger base64_standard(w), xchacha_seal(master_key@, w.take(24), seq![], k)]
                base64_standard(w) == self.wrapped_file_key@ && k.len() == 32 && is_wrap_of(w, master_key@, k) implies r is Ok
                    && r->Ok_0@ == k by {
                assert(wrapped@ == w);
                assert(w.skip(24) =~= xchacha_seal(master_key@, w.take(24), seq![], k));
            }
        }
        r
    }
}

/// A manifest that `new` made gives its file key back to the same master
/// key: its base64 text is that of a wrap of the file key, of 32 bytes,
/// under the master key, the premise of `unwrap_file_key`'s success clause.
pub proof fn lemma_manifest_unwrap(m: EncryptedManifest, master_key: &MasterKey, file_key: &FileKey)
    requires
        exists|w: Seq<u8>| is_wrap_of(w, master_key@, file_key@) && m.wrapped_file_key@ == base64_standard(w),
    ensures
        exists|w: Seq<u8>|
            #![trigger base64_standard(w), xchacha_seal(master_key@, w.take(24), seq![], file_key@)]
            base64_standard(w) == m.wrapped_file_key@ && file_key@.len() == 32 && is_wrap_of(w, master_key@, file_key@),
{
    file_key.lemma_len();
}

} // verus!
