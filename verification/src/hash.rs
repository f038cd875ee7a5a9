//! BLAKE3 content hashes: the digest of a byte string (the content
//! identifier used for deduplication) and its 64-character hexadecimal form.
use vstd::prelude::*;
use vstd::string::StringSliceAdditionalSpecFns;
use crate::names::{encode, hex_encode_spec, hex_val, hex_val_exec};

verus! {

/// What `blake3::hash` gives for `data`: its 32-byte BLAKE3 digest.
pub uninterp spec fn blake3_digest(data: Seq<u8>) -> Seq<u8>;

/// `blake3::hash`, the bytes of the digest taken out of `blake3::Hash`.
#[verifier::external_body]
fn blake3_hash(data: &[u8]) -> (r: [u8; 32])
    ensures
        r@ == blake3_digest(data@),
{
    *blake3::hash(data).as_bytes()
}

/// A BLAKE3 digest (32 bytes), written as 64 hexadecimal characters.
#[derive(Clone, Copy, Debug, Hash)]
pub struct Hash {
    bytes: [u8; 32],
}

impl PartialEq for Hash {
    fn eq(&self, other: &Self) -> (r: bool) {
        let mut i: usize = 0;
        while i < 32
            invariant
                i <= 32,
                self.bytes@.len() == 32,
                other.bytes@.len() == 32,
                forall|k: int| 0 <= k < i ==> self.bytes@[k] == other.bytes@[k],
            decreases 32 - i,
        {
            if self.bytes[i] != other.bytes[i] {
                return false;
            }
            i = i + 1;
        }
        assert(self.bytes@ =~= other.bytes@);
        true
    }
}

impl vstd::std_specs::cmp::PartialEqSpecImpl for Hash {
    open spec fn obeys_eq_spec() -> bool {
        true
    }

    open spec fn eq_spec(&self, other: &Self) -> bool {
        self@ == other@
    }
}

impl Eq for Hash {
}

impl View for Hash {
    type V = Seq<u8>;

    /// The 32 bytes of the digest.
    closed spec fn view(&self) -> Seq<u8> {
        self.bytes@
    }
}

impl Hash {
    /// The digest with these bytes.
    pub fn from_bytes(bytes: [u8; 32]) -> (h: Hash)
        ensures
            h@ == bytes@,
    {
        Hash { bytes }
    }

    /// The bytes of the digest.
    pub fn as_bytes(&self) -> (b: &[u8; 32])
        ensures
            b@ == self@,
    {
        &self.bytes
    }

    /// A digest has 32 bytes.
    pub proof fn lemma_len(&self)
        ensures
            self@.len() == 32,
    {
    }
}

/// Hashes a byte slice in memory.
pub fn hash_bytes(data: &[u8]) -> (h: Hash)
    ensures
        h@ == blake3_digest(data@),
{
    Hash { bytes: blake3_hash(data) }
}

// ── Incremental hashing ──────────────────────────────────────────────────────

#[verifier::external_type_specification]
#[verifier::external_body]
pub struct ExBlake3Hasher(blake3::Hasher);

/// The bytes that a `blake3::Hasher` has been fed since `Hasher::new`.
pub uninterp spec fn hasher_input(h: blake3::Hasher) -> Seq<u8>;

/// `blake3::Hasher::new()`: a hasher that has been fed nothing.
#[verifier::external_body]
fn hasher_new() -> (r: blake3::Hasher)
    ensures
        hasher_input(r) == Seq::<u8>::empty(),
{
    blake3::Hasher::new()
}

/// `Hasher::update`: feeds `data` after what the hasher was fed before.
#[verifier::external_body]
fn hasher_update(h: &mut blake3::Hasher, data: &[u8])
    ensures
        hasher_input(*final(h)) == hasher_input(*old(h)) + data@,
{
    h.update(data);
}

/// `Hasher::finalize`: the digest of all the input fed so far, the same as
/// `blake3::hash` of it (for a hasher made by `Hasher::new`).
#[verifier::external_body]
fn hasher_finalize(h: &blake3::Hasher) -> (r: [u8; 32])
    ensures
        r@ == blake3_digest(hasher_input(*h)),
{
    *h.finalize().as_bytes()
}

/// A BLAKE3 hash computed over input given piece by piece.
pub struct StreamHash {
    inner: blake3::Hasher,
}

impl StreamHash {
    /// All the input given so far, in order.
    pub closed spec fn input(&self) -> Seq<u8> {
        hasher_input(self.inner)
    }

    /// A hash over no input yet.
    pub fn new() -> (r: StreamHash)
        ensures
            r.input() == Seq::<u8>::empty(),
    {
        StreamHash { inner: hasher_new() }
    }

    /// Adds `data` to the input.
    pub fn update(&mut self, data: &[u8])
        ensures
            final(self).input() == old(self).input() + data@,
    {
        hasher_update(&mut self.inner, data);
    }

    /// The digest of all the input given so far.
    pub fn finalize(&self) -> (h: Hash)
        ensures
            h@ == blake3_digest(self.input()),
    {
        Hash { bytes: hasher_finalize(&self.inner) }
    }
}

/// The digest as 64 lowercase hexadecimal characters (`Hash::to_hex`).
pub fn hash_to_hex(hash: &Hash) -> (s: String)
    ensures
        s@ == hex_encode_spec(hash@),
{
    encode(hash.bytes.as_slice())
}

/// Why hexadecimal text is not a digest (`blake3::HexError`).
#[derive(Clone, Copy, Debug, PartialEq, Eq, Structural)]
pub enum HexError {
    /// The text does not have 64 bytes; this many it has.
    InvalidLen(usize),
    /// This byte, the first one met, is not a hexadecimal digit.
    InvalidByte(u8),
}

/// Position of the first byte of `b` that is not a hexadecimal digit.
pub open spec fn first_non_hex(b: Seq<u8>) -> Option<int>
    decreases b.len(),
{
    if b.len() == 0 {
        None
    } else if hex_val(b[0]) is None {
        Some(0)
    } else {
        match first_non_hex(b.drop_first()) {
            Some(i) => Some(i + 1),
            None => None,
        }
    }
}

proof fn lemma_first_non_hex(b: Seq<u8>, k: int)
    requires
        0 <= k <= b.len(),
        forall|i: int| 0 <= i < k ==> hex_val(#[trigger] b[i]) is Some,
    ensures
        k < b.len() && hex_val(b[k]) is None ==> first_non_hex(b) == Some(k),
        k == b.len() ==> first_non_hex(b) is None,
    decreases k,
{
    if k > 0 {
        let t = b.drop_first();
        assert forall|i: int| 0 <= i < k - 1 implies hex_val(#[trigger] t[i]) is Some by {
            assert(t[i] == b[i + 1]);
        }
        lemma_first_non_hex(t, k - 1);
        assert(hex_val(b[0]) is Some);
    }
}

/// The digest that 64 bytes of hexadecimal text stand for: each byte from
/// two digits, high nibble first.
pub open spec fn hex_digest_bytes(b: Seq<u8>) -> Seq<u8> {
    Seq::new(32, |j: int| (16 * hex_val(b[2 * j])->0 + hex_val(b[2 * j + 1])->0) as u8)
}

/// What `Hash::from_hex` gives for the bytes `b` of its text.
pub open spec fn hash_hex_parse(b: Seq<u8>) -> Result<Seq<u8>, HexError> {
    if b.len() != 64 {
        Err(HexError::InvalidLen(b.len() as usize))
    } else {
        match first_non_hex(b) {
            Some(i) => Err(HexError::InvalidByte(b[i])),
            None => Ok(hex_digest_bytes(b)),
        }
    }
}

/// Reads a digest from 64 hexadecimal characters, either case.
pub fn hash_from_hex(hex: &str) -> (r: Result<Hash, HexError>)
    ensures
        match r {
            Ok(h) => hash_hex_parse(hex.spec_bytes()) == Ok::<Seq<u8>, HexError>(h@),
            Err(e) => hash_hex_parse(hex.spec_bytes()) == Err::<Seq<u8>, HexError>(e),
        },
{
    let b = hex.as_bytes();
    if b.len() != 64 {
        return Err(HexError::InvalidLen(b.len()));
    }
    let mut out = [0u8; 32];
    let mut j: usize = 0;
    while j < 32
        invariant
            b@ == hex.spec_bytes(),
            b@.len() == 64,
            j <= 32,
            forall|i: int| 0 <= i < 2 * j ==> hex_val(#[trigger] b@[i]) is Some,
            forall|i: int| 0 <= i < j ==> out@[i] == hex_digest_bytes(b@)[i],
            out@.len() == 32,
        decreases 32 - j,
    {
        let hi = match hex_val_exec(b[2 * j]) {
            Some(v) => v,
            None => {
                proof {
                    lemma_first_non_hex(b@, 2 * j as int);
                }
                return Err(HexError::InvalidByte(b[2 * j]));
            },
        };
        let lo = match hex_val_exec(b[2 * j + 1]) {
            Some(v) => v,
            None => {
                proof {
                    assert forall|i: int| 0 <= i < 2 * j + 1 implies hex_val(#[trigger] b@[i]) is Some by {
                        if i == 2 * j {
                            assert(hex_val(b@[2 * j as int]) is Some);
                        }
                    }
                    lemma_first_non_hex(b@, 2 * j as int + 1);
                }
                return Err(HexError::InvalidByte(b[2 * j + 1]));
            },
        };
        out[j] = 16 * hi + lo;
        assert forall|i: int| 0 <= i < 2 * j + 2 implies hex_val(#[trigger] b@[i]) is Some by {
            if i == 2 * j {
                assert(hex_val(b@[2 * j as int]) is Some);
            } else if i == 2 * j + 1 {
                assert(hex_val(b@[2 * j + 1]) is Some);
            }
        }
        j = j + 1;
    }
    proof {
        lemma_first_non_hex(b@, 64);
    }
    assert(out@ =~= hex_digest_bytes(b@));
    Ok(Hash { bytes: out })
}

// ── Laws ─────────────────────────────────────────────────────────────────────

/// The hexadecimal form of a digest reads back as the same digest.
pub proof fn lemma_hash_hex_roundtrip(h: Seq<u8>)
    requires
        h.len() == 32,
    ensures
        hash_hex_parse(vstd::utf8::encode_utf8(hex_encode_spec(h))) == Ok::<Seq<u8>, HexError>(h),
{
    let t = hex_encode_spec(h);
    crate::names::lemma_hex_ascii(h);
    vstd::utf8::is_ascii_chars_encode_utf8(t);
    let b = vstd::utf8::encode_utf8(t);
    crate::names::lemma_hex_encode_layout(h);
    assert forall|i: int| 0 <= i < b.len() implies hex_val(#[trigger] b[i]) is Some by {
        let j = i / 2;
        assert(hex_encode_spec(h)[2 * j] == crate::names::hex_digit(h[j] as nat / 16));
        crate::names::lemma_hex_digit_value(h[j] as nat / 16);
        crate::names::lemma_hex_digit_value(h[j] as nat % 16);
        assert(b[i] == t[i] as u8);
        if i % 2 == 0 {
            assert(i == 2 * j);
        } else {
            assert(i == 2 * j + 1);
        }
    }
    lemma_first_non_hex(b, b.len() as int);
    assert forall|j: int| 0 <= j < 32 implies #[trigger] hex_digest_bytes(b)[j] == h[j] by {
        assert(hex_encode_spec(h)[2 * j] == crate::names::hex_digit(h[j] as nat / 16));
        crate::names::lemma_hex_digit_value(h[j] as nat / 16);
        crate::names::lemma_hex_digit_value(h[j] as nat % 16);
        assert(b[2 * j] == t[2 * j] as u8);
        assert(b[2 * j + 1] == t[2 * j + 1] as u8);
    }
    assert(hex_digest_bytes(b) =~= h);
}

} // verus!
