//! Reading back what an upload stored: the file key unwrapped with the
//! master key, then each chunk checked against the hash the manifest lists
//! and decrypted at its position, the plaintexts laid end to end. Reading
//! the manifest and the chunks is the caller's.
use vstd::prelude::*;
use crate::chunk_crypto::{chunk_aad, decrypt_chunk, decrypt_chunk_spec};
use crate::hash::{blake3_digest, hash_bytes, hash_from_hex, hash_hex_parse, hash_to_hex, lemma_hash_hex_roundtrip};
use crate::keys::{is_wrap_of, unwrap_key, unwrap_key_spec, xchacha_seal, CryptoError, FileKey, MasterKey};
use crate::manifest::{base64_decode, base64_standard, base64_standard_decoded};
use crate::names::hex_encode_spec;
use crate::text::{chars_eq, chars_of};
use crate::upload::{chunks_sealed, encrypted_under, piece, upload_layout, upload_lens, PreparedUpload, UploadChunk};

verus! {

/// Why a file could not be read back.
#[derive(Debug, Clone, PartialEq, Eq)]
pub enum FetchError {
    /// The wrapped file key is not base64.
    KeyNotBase64,
    /// The file key did not unwrap under the master key.
    KeyUnwrap(CryptoError),
    /// The file is encrypted but no master key is configured.
    NoMasterKey,
    /// A stored chunk does not have the hash that the manifest lists.
    ChunkIntegrity { expected: String, actual: String },
    /// A chunk did not decrypt.
    ChunkDecrypt(CryptoError),
}

/// The file key of a manifest: unwrapped with the master key where the
/// manifest holds a wrapped key; an error where it does and no master key
/// is configured; none for plaintext files.
pub open spec fn fetch_key_spec(master: Option<Seq<u8>>, wrapped: Option<Seq<char>>) -> Result<Option<Seq<u8>>, FetchError> {
    match (master, wrapped) {
        (Some(mk), Some(t)) => match base64_standard_decoded(t) {
            None => Err(FetchError::KeyNotBase64),
            Some(w) => match unwrap_key_spec(mk, w) {
                Ok(k) => Ok(Some(k)),
                Err(e) => Err(FetchError::KeyUnwrap(e)),
            },
        },
        (None, Some(_)) => Err(FetchError::NoMasterKey),
        _ => Ok(None),
    }
}

/// The file key is wrapped under `mk` in the base64 text `t`.
pub open spec fn key_wrapped_in(mk: Seq<u8>, t: Seq<char>, k: Seq<u8>) -> bool {
    k.len() == 32 && exists|w: Seq<u8>| is_wrap_of(w, mk, k) && #[trigger] base64_standard(w) == t
}

/// The bytes of a master key that may be missing.
pub open spec fn master_view(master: Option<&MasterKey>) -> Option<Seq<u8>> {
    match master {
        Some(m) => Some(m@),
        None => None,
    }
}

/// The text of a string that may be missing.
pub open spec fn text_view(t: Option<&str>) -> Option<Seq<char>> {
    match t {
        Some(t) => Some(t@),
        None => None,
    }
}

/// Both the master key and the wrapped key are there, and the text is a
/// wrap of `k` under the master key.
pub open spec fn wraps_key(master: Option<Seq<u8>>, wrapped: Option<Seq<char>>, k: Seq<u8>) -> bool {
    match (master, wrapped) {
        (Some(mk), Some(t)) => key_wrapped_in(mk, t, k),
        _ => false,
    }
}

/// The file key of a manifest (`encrypted_file_key`) under the configured
/// master key.
pub fn fetch_file_key(master: Option<&MasterKey>, wrapped: Option<&str>) -> (r: Result<Option<FileKey>, FetchError>)
    ensures
        ({
            let mv = match master {
                Some(m) => Some(m@),
                None => None::<Seq<u8>>,
            };
            let wv = match wrapped {
                Some(t) => Some(t@),
                None => None::<Seq<char>>,
            };
            match r {
                Ok(Some(k)) => fetch_key_spec(mv, wv) == Ok::<Option<Seq<u8>>, FetchError>(Some(k@)),
                Ok(None) => fetch_key_spec(mv, wv) == Ok::<Option<Seq<u8>>, FetchError>(None),
                Err(e) => fetch_key_spec(mv, wv) == Err::<Option<Seq<u8>>, FetchError>(e),
            }
        }),
        forall|k: Seq<u8>|
            #[trigger] wraps_key(master_view(master), text_view(wrapped), k) ==> r is Ok && r->Ok_0 is Some
                && (r->Ok_0)->Some_0@ == k,
{
    match (master, wrapped) {
        (Some(mk), Some(t)) => {
            let w = match base64_decode(t) {
                Some(w) => w,
                None => {
                    return Err(FetchError::KeyNotBase64);
                },
            };
            let r = unwrap_key(mk, w.as_slice());
            proof {
                assert forall|k: Seq<u8>| #[trigger] key_wrapped_in(mk@, t@, k) implies (r is Ok && r->Ok_0@ == k) by {
                    let wv = choose|wv: Seq<u8>| is_wrap_of(wv, mk@, k) && #[trigger] base64_standard(wv) == t@;
                    assert(w@ == wv);
                    assert(wv.skip(24) =~= xchacha_seal(mk@, wv.take(24), seq![], k));
                }
            }
            match r {
                Ok(k) => Ok(Some(k)),
                Err(e) => Err(FetchError::KeyUnwrap(e)),
            }
        },
        (None, Some(_)) => Err(FetchError::NoMasterKey),
        _ => Ok(None),
    }
}

/// The file id that chunks were bound to: the digest that the manifest's
/// file hash reads as, all zeros where it does not read as one.
pub open spec fn file_id_spec(file_hash: Seq<char>) -> Seq<u8> {
    match hash_hex_parse(vstd::utf8::encode_utf8(file_hash)) {
        Ok(d) => d,
        Err(_) => Seq::new(32, |i: int| 0u8),
    }
}

/// The file id of a manifest's file hash.
pub fn file_id_from_hash(file_hash: &str) -> (r: [u8; 32])
    ensures
        r@ == file_id_spec(file_hash@),
{
    match hash_from_hex(file_hash) {
        Ok(h) => *h.as_bytes(),
        Err(_) => {
            let z = [0u8; 32];
            assert(z@ =~= Seq::new(32, |i: int| 0u8));
            z
        },
    }
}

/// Stored chunk `stored` at position `index` gives `msg`: the chunk itself
/// without a file key, else the sealing of `msg` under the key with the
/// chunk's position and the file id bound in.
pub open spec fn chunk_gives(key: Option<Seq<u8>>, index: int, file_id: Seq<u8>, stored: Seq<u8>, msg: Seq<u8>) -> bool {
    match key {
        None => msg == stored,
        Some(k) => stored.len() >= 40 && stored.skip(24) == xchacha_seal(
            k,
            stored.take(24),
            chunk_aad(index as u64, file_id),
            msg,
        ),
    }
}

/// The bytes of a file key that may be missing.
pub open spec fn file_key_view(k: Option<FileKey>) -> Option<Seq<u8>> {
    match k {
        Some(k) => Some(k@),
        None => None,
    }
}

/// What opening a stored chunk gives, where its hash is the expected one.
pub open spec fn open_spec(key: Option<Seq<u8>>, index: u64, file_id: Seq<u8>, stored: Seq<u8>) -> Result<Seq<u8>, CryptoError> {
    match key {
        None => Ok(stored),
        Some(k) => decrypt_chunk_spec(k, index, file_id, stored),
    }
}

/// Checks a stored chunk against the hash the manifest lists for it and
/// decrypts it with the file key (if any) at its position.
pub fn open_chunk(expected_hash: &str, stored: &[u8], file_key: &Option<FileKey>, index: u64, file_id: &[u8; 32]) -> (r: Result<
    Vec<u8>,
    FetchError,
>)
    ensures
        ({
            let kv = file_key_view(*file_key);
            let actual = hex_encode_spec(blake3_digest(stored@));
            &&& actual != expected_hash@ <==> r is Err && r->Err_0 is ChunkIntegrity
            &&& r matches Err(FetchError::ChunkIntegrity { expected, actual: a }) ==> expected@ == expected_hash@ && a@
                == actual
            &&& actual == expected_hash@ ==> match open_spec(kv, index, file_id@, stored@) {
                Ok(p) => r matches Ok(q) && q@ == p,
                Err(e) => r == Err::<Vec<u8>, FetchError>(FetchError::ChunkDecrypt(e)),
            }
        }),
        forall|msg: Seq<u8>|
            hex_encode_spec(blake3_digest(stored@)) == expected_hash@ && #[trigger] chunk_gives(
                file_key_view(*file_key),
                index as int,
                file_id@,
                stored@,
                msg,
            ) ==> r is Ok && r->Ok_0@ == msg,
{
    let actual = hash_to_hex(&hash_bytes(stored));
    if !chars_eq(chars_of(actual.as_str()).as_slice(), chars_of(expected_hash).as_slice()) {
        let expected = crate::text::string_of(chars_of(expected_hash).as_slice());
        return Err(FetchError::ChunkIntegrity { expected, actual });
    }
    match file_key {
        Some(fk) => match decrypt_chunk(fk, index, file_id, stored) {
            Ok(p) => Ok(p),
            Err(e) => Err(FetchError::ChunkDecrypt(e)),
        },
        None => Ok(vstd::slice::slice_to_vec(stored)),
    }
}

/// Every stored chunk has the hash that the manifest lists for it and
/// gives the corresponding message.
pub open spec fn chunks_give(
    key: Option<Seq<u8>>,
    file_id: Seq<u8>,
    hashes: Seq<String>,
    stored: Seq<Vec<u8>>,
    msgs: Seq<Seq<u8>>,
) -> bool {
    &&& hashes.len() == stored.len()
    &&& msgs.len() == stored.len()
    &&& forall|i: int|
        0 <= i < stored.len() ==> {
            &&& hex_encode_spec(blake3_digest((#[trigger] stored[i])@)) == hashes[i]@
            &&& chunk_gives(key, i, file_id, stored[i]@, msgs[i])
        }
}

/// What the chunks of a file give, read back in order with the file key
/// (if any): the first failure, else the plaintexts laid end to end.
pub open spec fn chunks_open(
    key: Option<Seq<u8>>,
    file_id: Seq<u8>,
    hashes: Seq<String>,
    stored: Seq<Vec<u8>>,
) -> Option<Seq<u8>>
    decreases stored.len(),
{
    if stored.len() == 0 {
        Some(seq![])
    } else {
        let n = stored.len() - 1;
        match chunks_open(key, file_id, hashes.take(n), stored.take(n)) {
            None => None,
            Some(head) => if hex_encode_spec(blake3_digest(stored[n]@)) != hashes[n]@ {
                None
            } else {
                match open_spec(key, n as u64, file_id, stored[n]@) {
                    Ok(p) => Some(head + p),
                    Err(_) => None,
                }
            },
        }
    }
}

proof fn lemma_chunks_open_extends_none(
    key: Option<Seq<u8>>,
    file_id: Seq<u8>,
    hashes: Seq<String>,
    stored: Seq<Vec<u8>>,
    m: int,
)
    requires
        0 <= m <= stored.len(),
        hashes.len() == stored.len(),
        chunks_open(key, file_id, hashes.take(m), stored.take(m)) is None,
    ensures
        chunks_open(key, file_id, hashes, stored) is None,
    decreases stored.len() - m,
{
    if m == stored.len() {
        assert(hashes.take(m) =~= hashes);
        assert(stored.take(m) =~= stored);
    } else {
        let n = m + 1;
        assert(stored.take(n).take(m) =~= stored.take(m));
        assert(hashes.take(n).take(m) =~= hashes.take(m));
        assert(chunks_open(key, file_id, hashes.take(n), stored.take(n)) is None);
        lemma_chunks_open_extends_none(key, file_id, hashes, stored, n);
    }
}

proof fn lemma_chunks_give_take(
    key: Option<Seq<u8>>,
    file_id: Seq<u8>,
    hashes: Seq<String>,
    stored: Seq<Vec<u8>>,
    msgs: Seq<Seq<u8>>,
    n: int,
)
    requires
        chunks_give(key, file_id, hashes, stored, msgs),
        0 <= n <= stored.len(),
    ensures
        chunks_give(key, file_id, hashes.take(n), stored.take(n), msgs.take(n)),
{
    assert forall|i: int| 0 <= i < n implies {
        &&& hex_encode_spec(blake3_digest((#[trigger] stored.take(n)[i])@)) == hashes.take(n)[i]@
        &&& chunk_gives(key, i, file_id, stored.take(n)[i]@, msgs.take(n)[i])
    } by {
        assert(stored.take(n)[i] == stored[i]);
    }
}

/// What `reassemble` gives where the chunks are known to hold messages: the
/// messages laid end to end, where the file key is wrapped under the master
/// key (or there is none) and every stored chunk has its listed hash and
/// opens to its message.
pub open spec fn reassembled_from(
    master: Option<Seq<u8>>,
    wrapped: Option<Seq<char>>,
    file_hash: Seq<char>,
    hashes: Seq<String>,
    stored: Seq<Vec<u8>>,
    r: Result<Vec<u8>, FetchError>,
) -> bool {
    &&& forall|k: Seq<u8>, msgs: Seq<Seq<u8>>|
        #[trigger] wraps_key(master, wrapped, k) && #[trigger] chunks_give(
            Some(k),
            file_id_spec(file_hash),
            hashes,
            stored,
            msgs,
        ) ==> r is Ok && r->Ok_0@ == msgs.flatten()
    &&& forall|msgs: Seq<Seq<u8>>|
        wrapped is None && #[trigger] chunks_give(None, file_id_spec(file_hash), hashes, stored, msgs) ==> r is Ok
            && r->Ok_0@ == msgs.flatten()
}

/// Reads a file back from its stored chunks: `chunk_hashes` as the
/// manifest lists them, `stored` the bytes read for each, `file_hash` and
/// `wrapped_key` the manifest's.
pub fn reassemble(
    master: Option<&MasterKey>,
    wrapped_key: Option<&str>,
    file_hash: &str,
    chunk_hashes: &[String],
    stored: &[Vec<u8>],
) -> (r: Result<Vec<u8>, FetchError>)
    requires
        chunk_hashes@.len() == stored@.len(),
    ensures
        ({
            match fetch_key_spec(master_view(master), text_view(wrapped_key)) {
                Err(e) => r == Err::<Vec<u8>, FetchError>(e),
                Ok(kv) => match chunks_open(kv, file_id_spec(file_hash@), chunk_hashes@, stored@) {
                    Some(out) => r matches Ok(v) && v@ == out,
                    None => r is Err,
                },
            }
        }),
        r matches Ok(v) ==> (wrapped_key is Some ==> master is Some),
        reassembled_from(master_view(master), text_view(wrapped_key), file_hash@, chunk_hashes@, stored@, r),
{
    let file_key = match fetch_file_key(master, wrapped_key) {
        Ok(k) => k,
        Err(e) => {
            return Err(e);
        },
    };
    let file_id = file_id_from_hash(file_hash);
    let ghost kv: Option<Seq<u8>> = file_key_view(file_key);
    assert(fetch_key_spec(master_view(master), text_view(wrapped_key)) == Ok::<Option<Seq<u8>>, FetchError>(kv));
    let mut out: Vec<u8> = Vec::new();
    let mut i: usize = 0;
    assert(stored@.take(0) =~= Seq::<Vec<u8>>::empty());
    while i < stored.len()
        invariant
            i <= stored@.len(),
            chunk_hashes@.len() == stored@.len(),
            file_id@ == file_id_spec(file_hash@),
            kv == file_key_view(file_key),
            fetch_key_spec(master_view(master), text_view(wrapped_key)) == Ok::<Option<Seq<u8>>, FetchError>(kv),
            forall|k: Seq<u8>| #[trigger] wraps_key(master_view(master), text_view(wrapped_key), k) ==> kv == Some(k),
            wrapped_key is None ==> kv is None,
            chunks_open(kv, file_id@, chunk_hashes@.take(i as int), stored@.take(i as int)) == Some(out@),
            forall|msgs: Seq<Seq<u8>>|
                #[trigger] chunks_give(kv, file_id@, chunk_hashes@, stored@, msgs) ==> out@ == msgs.take(
                    i as int,
                ).flatten(),
        decreases stored@.len() - i,
    {
        let ghost before = out@;
        assert(stored@.take(i + 1).take(i as int) =~= stored@.take(i as int));
        assert(chunk_hashes@.take(i + 1).take(i as int) =~= chunk_hashes@.take(i as int));
        assert(stored@.take(i + 1)[i as int] == stored@[i as int]);
        assert(chunk_hashes@.take(i + 1)[i as int] == chunk_hashes@[i as int]);
        let idx: u64 = i as u64;
        let opened = open_chunk(chunk_hashes[i].as_str(), stored[i].as_slice(), &file_key, idx, &file_id);
        let p = match opened {
            Ok(p) => p,
            Err(e) => {
                proof {
                    assert forall|msgs: Seq<Seq<u8>>| #[trigger] chunks_give(kv, file_id@, chunk_hashes@, stored@, msgs) implies false by {
                        assert(hex_encode_spec(blake3_digest(stored@[i as int]@)) == chunk_hashes@[i as int]@);
                        assert(chunk_gives(kv, i as int, file_id@, stored@[i as int]@, msgs[i as int]));
                        assert(idx as int == i as int);
                        assert(chunk_gives(file_key_view(file_key), idx as int, file_id@, stored@[i as int]@, msgs[i as int]));
                    }
                    lemma_chunks_open_extends_none(kv, file_id@, chunk_hashes@, stored@, i as int + 1);
                }
                return Err(e);
            },
        };
        let mut pv = p;
        out.append(&mut pv);
        proof {
            assert forall|msgs: Seq<Seq<u8>>| #[trigger] chunks_give(kv, file_id@, chunk_hashes@, stored@, msgs) implies out@
                == msgs.take(i + 1).flatten() by {
                assert(chunk_gives(kv, i as int, file_id@, stored@[i as int]@, msgs[i as int]));
                assert(idx as int == i as int);
                assert(chunk_gives(file_key_view(file_key), idx as int, file_id@, stored@[i as int]@, msgs[i as int]));
                assert(msgs.take(i + 1) =~= msgs.take(i as int).push(msgs[i as int]));
                msgs.take(i as int).lemma_flatten_push(msgs[i as int]);
            }
        }
        i = i + 1;
    }
    assert(stored@.take(i as int) =~= stored@);
    assert(chunk_hashes@.take(i as int) =~= chunk_hashes@);
    proof {
        assert forall|msgs: Seq<Seq<u8>>| #[trigger] chunks_give(kv, file_id@, chunk_hashes@, stored@, msgs) implies out@
            == msgs.flatten() by {
            assert(msgs.take(stored@.len() as int) =~= msgs);
        }
    }
    Ok(out)
}

// ── Laws ─────────────────────────────────────────────────────────────────────

proof fn lemma_pieces_prefix(data: Seq<u8>, lens: Seq<usize>, k: int)
    requires
        crate::chunks::sum_lengths(lens) == data.len(),
        0 <= k <= lens.len(),
    ensures
        crate::chunks::sum_lengths(lens.take(k)) <= data.len(),
        Seq::new(k as nat, |i: int| piece(data, lens, i)).flatten() == data.subrange(
            0,
            crate::chunks::sum_lengths(lens.take(k)) as int,
        ),
    decreases k,
{
    if k == 0 {
        assert(lens.take(0) =~= Seq::<usize>::empty());
        assert(data.subrange(0, 0) =~= Seq::<u8>::empty());
    } else {
        lemma_pieces_prefix(data, lens, k - 1);
        crate::chunks::lemma_sum_take_step(lens, k - 1);
        lemma_sum_take_bound(lens, k);
        let f = |i: int| piece(data, lens, i);
        let prev = Seq::new((k - 1) as nat, f);
        assert(Seq::new(k as nat, f) =~= prev.push(f(k - 1)));
        prev.lemma_flatten_push(f(k - 1));
        let a = crate::chunks::sum_lengths(lens.take(k - 1)) as int;
        let b = crate::chunks::sum_lengths(lens.take(k)) as int;
        assert(data.subrange(0, a) + data.subrange(a, b) =~= data.subrange(0, b));
    }
}

proof fn lemma_sum_take_bound(lens: Seq<usize>, j: int)
    requires
        0 <= j <= lens.len(),
    ensures
        crate::chunks::sum_lengths(lens.take(j)) <= crate::chunks::sum_lengths(lens),
    decreases lens.len() - j,
{
    if j < lens.len() {
        crate::chunks::lemma_sum_take_step(lens, j);
        lemma_sum_take_bound(lens, j + 1);
    } else {
        assert(lens.take(j) =~= lens);
    }
}

/// The pieces that chunking cut a file into, laid end to end, give the
/// file back.
pub proof fn lemma_pieces_flatten(data: Seq<u8>, lens: Seq<usize>)
    requires
        crate::chunks::sum_lengths(lens) == data.len(),
    ensures
        Seq::new(lens.len(), |i: int| piece(data, lens, i)).flatten() == data,
{
    lemma_pieces_prefix(data, lens, lens.len() as int);
    assert(lens.take(lens.len() as int) =~= lens);
    assert(data.subrange(0, data.len() as int) =~= data);
}

/// The hashes under which an upload's chunks are stored, in order.
pub open spec fn stored_hashes(chunks: Seq<UploadChunk>) -> Seq<String> {
    chunks.map_values(|c: UploadChunk| c.hash)
}

/// The bytes an upload stores for its chunks, in order.
pub open spec fn stored_bytes(chunks: Seq<UploadChunk>) -> Seq<Vec<u8>> {
    chunks.map_values(|c: UploadChunk| c.bytes)
}

/// The plaintext pieces of an upload of `data`, in order.
pub open spec fn upload_pieces(data: Seq<u8>) -> Seq<Seq<u8>> {
    Seq::new(upload_lens(data).len(), |i: int| piece(data, upload_lens(data), i))
}

/// Reading back what an encrypted upload stored gives the file back: the
/// wrapped key is a wrap of the file key under the master key, every stored
/// chunk has its listed hash and opens to its piece of the file, and the
/// pieces laid end to end are the file. (These are the conditions under
/// which `reassemble` returns what they give.)
pub proof fn lemma_upload_then_fetch(
    data: Seq<u8>,
    prefix: Seq<char>,
    path: Seq<char>,
    mk: Seq<u8>,
    k: Seq<u8>,
    u: PreparedUpload,
)
    requires
        upload_layout(data, prefix, path, u),
        encrypted_under(data, mk, k, u),
    ensures
        wraps_key(Some(mk), Some(u.encrypted_file_key->0@), k),
        chunks_give(
            Some(k),
            file_id_spec(u.file_hash@),
            stored_hashes(u.chunks@),
            stored_bytes(u.chunks@),
            upload_pieces(data),
        ),
        upload_pieces(data).flatten() == data,
{
    lemma_hash_hex_roundtrip(blake3_digest(data));
    assert(file_id_spec(u.file_hash@) == blake3_digest(data));
    let fid = blake3_digest(data);
    let hashes = stored_hashes(u.chunks@);
    let bytes = stored_bytes(u.chunks@);
    let msgs = upload_pieces(data);
    assert forall|i: int| 0 <= i < bytes.len() implies {
        &&& hex_encode_spec(blake3_digest((#[trigger] bytes[i])@)) == hashes[i]@
        &&& chunk_gives(Some(k), i, fid, bytes[i]@, msgs[i])
    } by {
        let c = u.chunks@[i];
        assert(bytes[i] == c.bytes);
        assert(hashes[i] == c.hash);
        let b = c.bytes@;
        let p = piece(data, upload_lens(data), i);
        assert(b == b.take(24) + xchacha_seal(k, b.take(24), chunk_aad(i as u64, fid), p));
        assert(b.skip(24) =~= xchacha_seal(k, b.take(24), chunk_aad(i as u64, fid), p));
    }
    lemma_pieces_flatten(data, upload_lens(data));
}

/// Reading back a plaintext upload gives the file back: every stored chunk
/// has its listed hash and is its piece of the file.
pub proof fn lemma_plain_upload_then_fetch(data: Seq<u8>, prefix: Seq<char>, path: Seq<char>, u: PreparedUpload)
    requires
        upload_layout(data, prefix, path, u),
        chunks_sealed(data, u.chunks@, None),
    ensures
        chunks_give(None, file_id_spec(u.file_hash@), stored_hashes(u.chunks@), stored_bytes(u.chunks@), upload_pieces(data)),
        upload_pieces(data).flatten() == data,
{
    let bytes = stored_bytes(u.chunks@);
    let hashes = stored_hashes(u.chunks@);
    assert forall|i: int| 0 <= i < bytes.len() implies {
        &&& hex_encode_spec(blake3_digest((#[trigger] bytes[i])@)) == hashes[i]@
        &&& chunk_gives(None, i, file_id_spec(u.file_hash@), bytes[i]@, upload_pieces(data)[i])
    } by {
        assert(bytes[i] == u.chunks@[i].bytes);
        assert(hashes[i] == u.chunks@[i].hash);
    }
    lemma_pieces_flatten(data, upload_lens(data));
}

/// A placeholder backed by a plaintext upload of non-empty `data`
/// hydrates back to `data`: no stored chunk is bad, the chunks laid end to
/// end are the file, and the file has the hash the upload recorded.
pub proof fn lemma_plain_upload_then_hydrate(data: Seq<u8>, prefix: Seq<char>, path: Seq<char>, u: PreparedUpload)
    requires
        upload_layout(data, prefix, path, u),
        chunks_sealed(data, u.chunks@, None),
        data.len() > 0,
    ensures
        stored_bytes(u.chunks@).len() > 0,
        crate::cloudfilter::first_bad_chunk(stored_hashes(u.chunks@), stored_bytes(u.chunks@)) is None,
        crate::cloudfilter::joined(stored_bytes(u.chunks@)) == data,
        crate::cloudfilter::hex_hash(crate::cloudfilter::joined(stored_bytes(u.chunks@))) == u.file_hash@,
{
    let bytes = stored_bytes(u.chunks@);
    let hashes = stored_hashes(u.chunks@);
    assert forall|i: int| 0 <= i < bytes.len() implies crate::cloudfilter::hex_hash((#[trigger] bytes[i])@) == hashes[i]@ by {
        assert(bytes[i] == u.chunks@[i].bytes);
        assert(hashes[i] == u.chunks@[i].hash);
    }
    crate::cloudfilter::lemma_no_bad_chunk(hashes, bytes);
    lemma_pieces_flatten(data, upload_lens(data));
    assert(bytes.map_values(|v: Vec<u8>| v@) =~= upload_pieces(data));
    if bytes.len() == 0 {
        assert(upload_pieces(data).flatten() =~= Seq::<u8>::empty());
    }
}

/// Uploading a file and reading back what the upload stored gives the file
/// back: for an encrypted upload under master key `mk` (with file key `k`),
/// every result that `reassemble` may give for the stored hashes, bytes,
/// wrapped key and file hash is `Ok` of the file.
pub proof fn lemma_upload_fetch_roundtrip(
    data: Seq<u8>,
    prefix: Seq<char>,
    path: Seq<char>,
    mk: Seq<u8>,
    k: Seq<u8>,
    u: PreparedUpload,
    r: Result<Vec<u8>, FetchError>,
)
    requires
        upload_layout(data, prefix, path, u),
        encrypted_under(data, mk, k, u),
        reassembled_from(
            Some(mk),
            Some(u.encrypted_file_key->0@),
            u.file_hash@,
            stored_hashes(u.chunks@),
            stored_bytes(u.chunks@),
            r,
        ),
    ensures
        r is Ok && r->Ok_0@ == data,
{
    lemma_upload_then_fetch(data, prefix, path, mk, k, u);
    assert(wraps_key(Some(mk), Some(u.encrypted_file_key->0@), k));
    assert(chunks_give(
        Some(k),
        file_id_spec(u.file_hash@),
        stored_hashes(u.chunks@),
        stored_bytes(u.chunks@),
        upload_pieces(data),
    ));
}

/// The same for a plaintext upload: reading back what it stored, with no
/// wrapped key, gives the file.
pub proof fn lemma_plain_upload_fetch_roundtrip(
    data: Seq<u8>,
    prefix: Seq<char>,
    path: Seq<char>,
    master: Option<Seq<u8>>,
    u: PreparedUpload,
    r: Result<Vec<u8>, FetchError>,
)
    requires
        upload_layout(data, prefix, path, u),
        chunks_sealed(data, u.chunks@, None),
        reassembled_from(master, None, u.file_hash@, stored_hashes(u.chunks@), stored_bytes(u.chunks@), r),
    ensures
        r is Ok && r->Ok_0@ == data,
{
    lemma_plain_upload_then_fetch(data, prefix, path, u);
    assert(chunks_give(
        None,
        file_id_spec(u.file_hash@),
        stored_hashes(u.chunks@),
        stored_bytes(u.chunks@),
        upload_pieces(data),
    ));
}

} // verus!
