//! Chunk encryption with XChaCha20-Poly1305.
//!
//! Each chunk is sealed under the file key with a fresh random 192-bit
//! nonce, and with the chunk's index and the file's id as associated data,
//! so that chunks cannot be swapped between positions or files.
//!
//! Output: `[24-byte nonce][ciphertext + 16-byte tag]`.
use vstd::prelude::*;
use crate::keys::{concat_bytes, random_24, xchacha_decrypt, xchacha_encrypt, xchacha_open, xchacha_seal, CryptoError, FileKey};

verus! {

/// The eight bytes of `x`, most significant first (`u64::to_be_bytes`).
pub open spec fn be_bytes(x: u64) -> Seq<u8> {
    seq![
        (x >> 56) as u8,
        (x >> 48) as u8,
        (x >> 40) as u8,
        (x >> 32) as u8,
        (x >> 24) as u8,
        (x >> 16) as u8,
        (x >> 8) as u8,
        x as u8,
    ]
}

/// The associated data of a chunk: its index (big-endian) then the file id.
pub open spec fn chunk_aad(chunk_index: u64, file_id: Seq<u8>) -> Seq<u8> {
    be_bytes(chunk_index) + file_id
}

/// Builds the associated data `chunk_index (8 bytes, big-endian) || file_id`.
pub fn build_aad(chunk_index: u64, file_id: &[u8; 32]) -> (aad: Vec<u8>)
    ensures
        aad@ == chunk_aad(chunk_index, file_id@),
        aad@.len() == 40,
{
    let be: [u8; 8] = [
        (chunk_index >> 56) as u8,
        (chunk_index >> 48) as u8,
        (chunk_index >> 40) as u8,
        (chunk_index >> 32) as u8,
        (chunk_index >> 24) as u8,
        (chunk_index >> 16) as u8,
        (chunk_index >> 8) as u8,
        chunk_index as u8,
    ];
    assert(be@ =~= be_bytes(chunk_index));
    concat_bytes(be.as_slice(), file_id.as_slice())
}

/// Encrypts one chunk under the file key, bound to its index and file id:
/// `[24-byte nonce][ciphertext + 16-byte tag]`. Every chunk below 256 GiB
/// (`u32::MAX` blocks of 64 bytes) is encrypted.
pub fn encrypt_chunk(file_key: &FileKey, chunk_index: u64, file_id: &[u8; 32], plaintext: &[u8]) -> (r: Result<
    Vec<u8>,
    CryptoError,
>)
    ensures
        r matches Ok(c) ==> c@.len() == 24 + plaintext@.len() + 16 && c@ == c@.take(24) + xchacha_seal(
            file_key@,
            c@.take(24),
            chunk_aad(chunk_index, file_id@),
            plaintext@,
        ),
        r is Ok <==> plaintext@.len() / 64 < 0xffff_ffff,
        r matches Err(e) ==> e == CryptoError::ChunkEncrypt,
{
    let nonce = random_24();
    let aad = build_aad(chunk_index, file_id);
    match xchacha_encrypt(file_key.as_bytes(), &nonce, aad.as_slice(), plaintext) {
        Some(ct) => {
            let c = concat_bytes(nonce.as_slice(), ct.as_slice());
            assert(c@.take(24) =~= nonce@);
            Ok(c)
        },
        None => Err(CryptoError::ChunkEncrypt),
    }
}

/// What decrypting `encrypted` as chunk `chunk_index` of `file_id` gives.
pub open spec fn decrypt_chunk_spec(key: Seq<u8>, chunk_index: u64, file_id: Seq<u8>, encrypted: Seq<u8>) -> Result<
    Seq<u8>,
    CryptoError,
> {
    if encrypted.len() < 40 {
        Err(CryptoError::EncryptedChunkTooShort(encrypted.len() as usize))
    } else {
        match xchacha_open(key, encrypted.take(24), chunk_aad(chunk_index, file_id), encrypted.skip(24)) {
            Some(p) => Ok(p),
            None => Err(CryptoError::ChunkDecrypt),
        }
    }
}

/// Decrypts one chunk: the inverse of `encrypt_chunk` for the same key,
/// index and file id.
pub fn decrypt_chunk(file_key: &FileKey, chunk_index: u64, file_id: &[u8; 32], encrypted: &[u8]) -> (r: Result<
    Vec<u8>,
    CryptoError,
>)
    ensures
        match r {
            Ok(p) => decrypt_chunk_spec(file_key@, chunk_index, file_id@, encrypted@) == Ok::<
                Seq<u8>,
                CryptoError,
            >(p@),
            Err(e) => decrypt_chunk_spec(file_key@, chunk_index, file_id@, encrypted@) == Err::<
                Seq<u8>,
                CryptoError,
            >(e),
        },
        forall|msg: Seq<u8>|
            #[trigger] xchacha_seal(file_key@, encrypted@.take(24), chunk_aad(chunk_index, file_id@), msg)
                == encrypted@.skip(24) ==> (r matches Ok(p) ==> p@ == msg),
        forall|msg: Seq<u8>|
            #[trigger] xchacha_seal(file_key@, encrypted@.take(24), chunk_aad(chunk_index, file_id@), msg)
                == encrypted@.skip(24) && encrypted@.len() >= 40 ==> (r matches Ok(p) && p@ == msg),
{
    let n = encrypted.len();
    if n < 40 {
        return Err(CryptoError::EncryptedChunkTooShort(n));
    }
    let nonce = vstd::slice::slice_subrange(encrypted, 0, 24);
    let ct = vstd::slice::slice_subrange(encrypted, 24, n);
    assert(nonce@ =~= encrypted@.take(24));
    assert(ct@ =~= encrypted@.skip(24));
    let aad = build_aad(chunk_index, file_id);
    match xchacha_decrypt(file_key.as_bytes(), nonce, aad.as_slice(), ct) {
        Some(p) => Ok(p),
        None => Err(CryptoError::ChunkDecrypt),
    }
}

// ── Laws ─────────────────────────────────────────────────────────────────────

/// Different chunk indices give different associated data, so a chunk moved
/// to another position does not verify.
pub proof fn lemma_aad_distinguishes_index(a: u64, b: u64, file_id: Seq<u8>)
    requires
        a != b,
    ensures
        chunk_aad(a, file_id) != chunk_aad(b, file_id),
{
    if chunk_aad(a, file_id) == chunk_aad(b, file_id) {
        assert(chunk_aad(a, file_id).take(8) =~= be_bytes(a));
        assert(chunk_aad(b, file_id).take(8) =~= be_bytes(b));
        assert(be_bytes(a) == be_bytes(b));
        assert(be_bytes(a)[0] == be_bytes(b)[0]);
        assert(be_bytes(a)[1] == be_bytes(b)[1]);
        assert(be_bytes(a)[2] == be_bytes(b)[2]);
        assert(be_bytes(a)[3] == be_bytes(b)[3]);
        assert(be_bytes(a)[4] == be_bytes(b)[4]);
        assert(be_bytes(a)[5] == be_bytes(b)[5]);
        assert(be_bytes(a)[6] == be_bytes(b)[6]);
        assert(be_bytes(a)[7] == be_bytes(b)[7]);
        assert(a == b) by (bit_vector)
            requires
                (a >> 56) as u8 == (b >> 56) as u8,
                (a >> 48) as u8 == (b >> 48) as u8,
                (a >> 40) as u8 == (b >> 40) as u8,
                (a >> 32) as u8 == (b >> 32) as u8,
                (a >> 24) as u8 == (b >> 24) as u8,
                (a >> 16) as u8 == (b >> 16) as u8,
                (a >> 8) as u8 == (b >> 8) as u8,
                a as u8 == b as u8,
        ;
    }
}

/// Different file ids give different associated data, so a chunk moved to
/// another file does not verify.
pub proof fn lemma_aad_distinguishes_file(index: u64, a: Seq<u8>, b: Seq<u8>)
    requires
        a != b,
    ensures
        chunk_aad(index, a) != chunk_aad(index, b),
{
    if chunk_aad(index, a) == chunk_aad(index, b) {
        assert(chunk_aad(index, a).skip(8) =~= a);
        assert(chunk_aad(index, b).skip(8) =~= b);
    }
}

} // verus!
