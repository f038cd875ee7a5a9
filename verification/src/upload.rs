//! What the FileProvider backends store when a file is uploaded: the
//! file's content-defined chunks (encrypted under a fresh file key when a
//! master key is set), each under the key of its hash, the file key
//! wrapped under the master key, and the keys of the manifest and of the
//! index entry. Writing them, and the manifest's version clock, are the
//! caller's.
use vstd::prelude::*;
use crate::chunk_crypto::{chunk_aad, encrypt_chunk};
use crate::chunks::{chunk_data, chunks_match, fastcdc_lengths, lemma_sum_take_step, sum_lengths, Chunk, ChunkSizes};
use crate::enumerate::trim_start_char;
use crate::hash::{blake3_digest, hash_bytes, hash_to_hex};
use crate::keys::{generate_file_key, is_wrap_of, wrap_key, xchacha_seal, CryptoError, FileKey, MasterKey};
use crate::manifest::{base64_encode, base64_standard};
use crate::names::hex_encode_spec;
use crate::stub::{trim_end_char, trim_end_chars};
use crate::text::{chars_of, push_str_chars, string_of};

verus! {

/// The chunk lengths of an upload: those of the small chunk sizes, none for
/// an empty file.
pub open spec fn upload_lens(data: Seq<u8>) -> Seq<usize> {
    if data.len() == 0 {
        seq![]
    } else {
        fastcdc_lengths(data, 2048, 4096, 16384)
    }
}

/// The bytes of chunk `i` of `data` cut at `lens`.
pub open spec fn piece(data: Seq<u8>, lens: Seq<usize>, i: int) -> Seq<u8> {
    data.subrange(sum_lengths(lens.take(i)) as int, sum_lengths(lens.take(i + 1)) as int)
}

/// The storage key of an object under a remote prefix:
/// `{prefix}/{kind}/{name}`, the prefix's trailing slashes dropped.
pub open spec fn object_key(prefix: Seq<char>, kind: Seq<char>, name: Seq<char>) -> Seq<char> {
    trim_end_char(prefix, '/') + "/"@ + kind + "/"@ + name
}

/// A chunk ready to be stored.
#[derive(Debug, Clone)]
pub struct UploadChunk {
    /// Where it is stored: `{prefix}/chunks/{hash}`.
    pub key: String,
    /// The hexadecimal BLAKE3 hash of the stored bytes.
    pub hash: String,
    /// The stored bytes: the plaintext chunk, or its encryption.
    pub bytes: Vec<u8>,
}

/// Everything an upload stores but the manifest's version clock.
#[derive(Debug, Clone)]
pub struct PreparedUpload {
    /// The hexadecimal BLAKE3 hash of the whole file.
    pub file_hash: String,
    pub file_size: u64,
    pub chunks: Vec<UploadChunk>,
    /// The file key wrapped under the master key, as base64; none for
    /// plaintext uploads.
    pub encrypted_file_key: Option<String>,
    /// Where the manifest is stored: `{prefix}/manifests/{file_hash}`.
    pub manifest_key: String,
    /// Where the index entry is stored: `{prefix}/index/{remote_path}`.
    pub index_key: String,
}

/// The storage key `{prefix}/{kind}/{name}` (the prefix's trailing slashes
/// dropped).
pub fn storage_key(prefix: &str, kind: &str, name: &str) -> (r: String)
    ensures
        r@ == object_key(prefix@, kind@, name@),
{
    let mut r = string_of(trim_end_chars(chars_of(prefix).as_slice(), '/').as_slice());
    push_str_chars(&mut r, "/");
    push_str_chars(&mut r, kind);
    push_str_chars(&mut r, "/");
    push_str_chars(&mut r, name);
    r
}

fn copy_range(data: &[u8], from: usize, to: usize) -> (v: Vec<u8>)
    requires
        from <= to <= data@.len(),
    ensures
        v@ == data@.subrange(from as int, to as int),
{
    let mut v: Vec<u8> = Vec::new();
    let mut i = from;
    while i < to
        invariant
            from <= i <= to <= data@.len(),
            v@ == data@.subrange(from as int, i as int),
        decreases to - i,
    {
        v.push(data[i]);
        assert(v@ =~= data@.subrange(from as int, i + 1));
        i = i + 1;
    }
    v
}

proof fn lemma_sum_take_le(lens: Seq<usize>, j: int)
    requires
        0 <= j <= lens.len(),
    ensures
        sum_lengths(lens.take(j)) <= sum_lengths(lens),
    decreases lens.len() - j,
{
    if j < lens.len() {
        lemma_sum_take_step(lens, j);
        lemma_sum_take_le(lens, j + 1);
    } else {
        assert(lens.take(j) =~= lens);
    }
}

/// The chunks are stored as given or encrypted under file key `k` with
/// their position and the file's digest as associated data.
pub open spec fn chunks_sealed(data: Seq<u8>, chunks: Seq<UploadChunk>, k: Option<Seq<u8>>) -> bool {
    forall|i: int|
        0 <= i < chunks.len() ==> {
            let plain = piece(data, upload_lens(data), i);
            let b = (#[trigger] chunks[i]).bytes@;
            match k {
                None => b == plain,
                Some(k) => b.len() == 24 + plain.len() + 16 && b == b.take(24) + xchacha_seal(
                    k,
                    b.take(24),
                    chunk_aad(i as u64, blake3_digest(data)),
                    plain,
                ),
            }
        }
}

/// The facts of an upload of `data` that every stored object bears out:
/// the file hash, the chunks cut at the upload lengths (which cover the
/// file), each under the key of the hash of its stored bytes.
pub open spec fn upload_layout(data: Seq<u8>, remote_prefix: Seq<char>, remote_path: Seq<char>, u: PreparedUpload) -> bool {
    &&& u.file_hash@ == hex_encode_spec(blake3_digest(data))
    &&& blake3_digest(data).len() == 32
    &&& sum_lengths(upload_lens(data)) == data.len()
    &&& u.file_size == data.len()
    &&& u.chunks@.len() == upload_lens(data).len()
    &&& forall|i: int|
        0 <= i < u.chunks@.len() ==> {
            &&& (#[trigger] u.chunks@[i]).hash@ == hex_encode_spec(blake3_digest(u.chunks@[i].bytes@))
            &&& u.chunks@[i].key@ == object_key(remote_prefix, "chunks"@, u.chunks@[i].hash@)
        }
    &&& u.manifest_key@ == object_key(remote_prefix, "manifests"@, u.file_hash@)
    &&& u.index_key@ == object_key(remote_prefix, "index"@, trim_start_char(remote_path, '/'))
}

/// An encrypted upload of `data` under master key `mk` with file key `k`:
/// every chunk sealed under `k`, and `k` stored wrapped under `mk`.
pub open spec fn encrypted_under(data: Seq<u8>, mk: Seq<u8>, k: Seq<u8>, u: PreparedUpload) -> bool {
    &&& k.len() == 32
    &&& chunks_sealed(data, u.chunks@, Some(k))
    &&& u.encrypted_file_key matches Some(t) && exists|w: Seq<u8>|
        is_wrap_of(w, mk, k) && #[trigger] base64_standard(w) == t@
}

/// Prepares the upload of `data` to `remote_path` under `remote_prefix`:
/// chunked with the small chunk sizes; with a master key, a fresh file key
/// encrypts every chunk (its position and the file's digest bound in) and
/// is itself wrapped under the master key.
pub fn prepare_upload(data: &[u8], master_key: Option<&MasterKey>, remote_prefix: &str, remote_path: &str) -> (r: Result<
    PreparedUpload,
    CryptoError,
>)
    ensures
        r is Ok,
        r matches Ok(u) ==> upload_layout(data@, remote_prefix@, remote_path@, u),
        r matches Ok(u) ==> master_key is None ==> u.encrypted_file_key is None && chunks_sealed(
            data@,
            u.chunks@,
            None,
        ),
        r matches Ok(u) ==> master_key matches Some(mk) ==> exists|k: Seq<u8>| #[trigger] encrypted_under(data@, mk@, k, u),
{
    let digest = hash_bytes(data);
    proof {
        digest.lemma_len();
    }
    let file_hash = hash_to_hex(&digest);
    let file_id: [u8; 32] = *digest.as_bytes();
    let file_key: Option<FileKey> = match master_key {
        Some(_) => Some(generate_file_key()),
        None => None,
    };
    let sizes = ChunkSizes::small();
    let pieces = chunk_data(data, sizes);
    let ghost lens = upload_lens(data@);
    proof {
        if data@.len() > 0 {
            assert(pieces@.map_values(|c: Chunk| c.length) =~= lens);
        } else {
            assert(lens.len() == 0);
        }
    }
    let ghost key_view: Option<Seq<u8>> = match &file_key {
        Some(k) => Some(k@),
        None => None,
    };
    let mut chunks: Vec<UploadChunk> = Vec::new();
    let dl = data.len();
    let mut offset: usize = 0;
    let mut i: usize = 0;
    while i < pieces.len()
        invariant
            pieces@.len() == lens.len(),
            lens == upload_lens(data@),
            data@.len() > 0 ==> chunks_match(data@, lens, pieces@),
            data@.len() == 0 ==> lens.len() == 0,
            forall|k: int| 0 <= k < pieces@.len() ==> #[trigger] pieces@[k].length <= 16384,
            sum_lengths(lens) == data@.len(),
            dl == data@.len(),
            i <= lens.len(),
            offset == sum_lengths(lens.take(i as int)),
            chunks@.len() == i,
            file_id@ == blake3_digest(data@),
            file_key is Some <==> master_key is Some,
            key_view == (match file_key {
                Some(k) => Some(k@),
                None => None::<Seq<u8>>,
            }),
            chunks_sealed(data@, chunks@, key_view),
            forall|j: int|
                0 <= j < chunks@.len() ==> {
                    &&& (#[trigger] chunks@[j]).hash@ == hex_encode_spec(blake3_digest(chunks@[j].bytes@))
                    &&& chunks@[j].key@ == object_key(remote_prefix@, "chunks"@, chunks@[j].hash@)
                },
        decreases lens.len() - i,
    {
        proof {
            lemma_sum_take_step(lens, i as int);
            lemma_sum_take_le(lens, i + 1);
        }
        let len = pieces[i].length;
        assert(len == lens[i as int]);
        assert(len <= 16384);
        assert(offset + len <= dl);
        let end = offset + len;
        let plain = copy_range(data, offset, end);
        assert(plain@ == piece(data@, lens, i as int));
        let bytes = match &file_key {
            Some(fk) => match encrypt_chunk(fk, i as u64, &file_id, plain.as_slice()) {
                Ok(c) => c,
                Err(e) => {
                    return Err(e);
                },
            },
            None => plain,
        };
        let h = hash_to_hex(&hash_bytes(bytes.as_slice()));
        let key = storage_key(remote_prefix, "chunks", h.as_str());
        let ghost before = chunks@;
        chunks.push(UploadChunk { key, hash: h, bytes });
        proof {
            assert forall|j: int| 0 <= j < chunks@.len() implies {
                let p = piece(data@, upload_lens(data@), j);
                let b = (#[trigger] chunks@[j]).bytes@;
                match key_view {
                    None => b == p,
                    Some(k) => b.len() == 24 + p.len() + 16 && b == b.take(24) + xchacha_seal(
                        k,
                        b.take(24),
                        chunk_aad(j as u64, blake3_digest(data@)),
                        p,
                    ),
                }
            } by {
                if j < before.len() {
                    assert(chunks@[j] == before[j]);
                }
            }
        }
        offset = end;
        i = i + 1;
    }
    let encrypted_file_key = match (master_key, &file_key) {
        (Some(mk), Some(fk)) => match wrap_key(mk, fk) {
            Ok(w) => {
                let t = base64_encode(w.as_slice());
                assert(is_wrap_of(w@, mk@, fk@));
                Some(t)
            },
            Err(e) => {
                return Err(e);
            },
        },
        _ => None,
    };
    let manifest_key = storage_key(remote_prefix, "manifests", file_hash.as_str());
    let rel: Vec<char> = crate::enumerate::trim_start_chars(chars_of(remote_path).as_slice(), '/');
    let rel_text = string_of(rel.as_slice());
    let index_key = storage_key(remote_prefix, "index", rel_text.as_str());
    let u = PreparedUpload {
        file_hash,
        file_size: data.len() as u64,
        chunks,
        encrypted_file_key,
        manifest_key,
        index_key,
    };
    proof {
        if data@.len() == 0 {
            assert(sum_lengths(upload_lens(data@)) == 0);
        }
        if let Some(mk) = master_key {
            let k = key_view->0;
            assert(k.len() == 32);
            assert(chunks_sealed(data@, u.chunks@, Some(k)));
            assert(encrypted_under(data@, mk@, k, u));
        }
    }
    Ok(u)
}

} // verus!
