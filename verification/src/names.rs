//! Filename encryption with AES-256-SIV, and the hexadecimal text it is
//! stored as.
//!
//! Encryption is deterministic (the same name and key give the same
//! ciphertext): object lookups need a predictable key path. AES-SIV gives
//! that with authentication. The name key is stretched to the 64 bytes that
//! AES-256-SIV takes with HKDF, and a zero nonce is used.
//!
//! The hexadecimal text is lowercase, two digits per byte; decoding reads
//! each two-byte piece as two hexadecimal digits (either case) and refuses
//! any other byte.
use vstd::prelude::*;
use vstd::string::StringSliceAdditionalSpecFns;
use vstd::utf8::{decode_utf8, encode_utf8, encode_utf8_decode_utf8, is_ascii_chars, is_ascii_chars_encode_utf8, valid_utf8};
use aes_siv::aead::{Aead, KeyInit};
use crate::keys::{hkdf_sha256_expand, hkdf_sha256_okm, CryptoError};

verus! {

/// The lowercase hexadecimal digit for `v` (below 16).
pub open spec fn hex_digit(v: nat) -> char {
    if v < 10 {
        (('0' as nat) + v) as char
    } else {
        (('a' as nat) + (v - 10)) as char
    }
}

/// Two lowercase hexadecimal digits per byte, high nibble first (`{:02x}`).
pub open spec fn hex_encode_spec(d: Seq<u8>) -> Seq<char>
    decreases d.len(),
{
    if d.len() == 0 {
        seq![]
    } else {
        hex_encode_spec(d.drop_last()) + seq![hex_digit(d.last() as nat / 16), hex_digit(d.last() as nat % 16)]
    }
}

/// The value of an ASCII hexadecimal digit byte, either case.
pub open spec fn hex_val(b: u8) -> Option<nat> {
    if 0x30 <= b <= 0x39 {
        Some((b - 0x30) as nat)
    } else if 0x61 <= b <= 0x66 {
        Some((b - 0x61 + 10) as nat)
    } else if 0x41 <= b <= 0x46 {
        Some((b - 0x41 + 10) as nat)
    } else {
        None
    }
}

/// The byte that a two-byte piece stands for: two hexadecimal digits,
/// high nibble first; `None` where either byte is not a digit.
pub open spec fn pair_value(b0: u8, b1: u8) -> Option<u8> {
    match (hex_val(b0), hex_val(b1)) {
        (Some(h), Some(l)) => Some((16 * h + l) as u8),
        _ => None,
    }
}

/// Whether the `j`-th two-byte piece of `b` is a valid number.
pub open spec fn pair_ok(b: Seq<u8>, j: int) -> bool {
    pair_value(b[2 * j], b[2 * j + 1]) is Some
}

/// The error for text of odd length.
pub open spec fn odd_length_message() -> Seq<char> {
    "odd-length hex string"@
}

/// The error for a piece that is not a number.
pub open spec fn invalid_digit_message() -> Seq<char> {
    "invalid hex: invalid digit found in string"@
}

/// Decoding of the UTF-8 text `b`: the byte of each two-byte piece, or the
/// first error met.
pub open spec fn hex_decode_spec(b: Seq<u8>) -> Result<Seq<u8>, Seq<char>> {
    if b.len() % 2 == 1 {
        Err(odd_length_message())
    } else if forall|j: int| 0 <= j < b.len() / 2 ==> pair_ok(b, j) {
        Ok(Seq::new(b.len() / 2, |j: int| pair_value(b[2 * j], b[2 * j + 1])->0))
    } else {
        Err(invalid_digit_message())
    }
}

fn hex_digit_exec(v: u8) -> (c: char)
    requires
        v < 16,
    ensures
        c == hex_digit(v as nat),
{
    if v < 10 {
        ((0x30u8 + v) as char)
    } else {
        ((0x61u8 + (v - 10)) as char)
    }
}

/// Lowercase hexadecimal text of `data`, two digits per byte.
pub fn encode(data: &[u8]) -> (s: String)
    ensures
        s@ == hex_encode_spec(data@),
{
    let mut s = String::new();
    let mut i: usize = 0;
    while i < data.len()
        invariant
            i <= data@.len(),
            s@ == hex_encode_spec(data@.take(i as int)),
        decreases data@.len() - i,
    {
        let b = data[i];
        crate::text::push_char(&mut s, hex_digit_exec(b / 16));
        crate::text::push_char(&mut s, hex_digit_exec(b % 16));
        assert(data@.take(i + 1).drop_last() =~= data@.take(i as int));
        assert(s@ =~= hex_encode_spec(data@.take(i + 1)));
        i = i + 1;
    }
    assert(data@.take(data@.len() as int) =~= data@);
    s
}

pub(crate) fn hex_val_exec(b: u8) -> (r: Option<u8>)
    ensures
        r matches Some(v) ==> hex_val(b) == Some(v as nat),
        r is None ==> hex_val(b) is None,
{
    if 0x30 <= b && b <= 0x39 {
        Some(b - 0x30)
    } else if 0x61 <= b && b <= 0x66 {
        Some(b - 0x61 + 10)
    } else if 0x41 <= b && b <= 0x46 {
        Some(b - 0x41 + 10)
    } else {
        None
    }
}

fn pair_value_exec(b0: u8, b1: u8) -> (r: Option<u8>)
    ensures
        r == pair_value(b0, b1),
{
    match (hex_val_exec(b0), hex_val_exec(b1)) {
        (Some(h), Some(l)) => Some(16 * h + l),
        _ => None,
    }
}

/// Decodes hexadecimal text: each two-byte piece is two hexadecimal digits
/// (either case). Text of odd byte length, or with a byte that is not a
/// hexadecimal digit, is refused with the message that says which.
pub fn decode(s: &str) -> (r: Result<Vec<u8>, String>)
    ensures
        match r {
            Ok(v) => hex_decode_spec(s.spec_bytes()) == Ok::<Seq<u8>, Seq<char>>(v@),
            Err(e) => hex_decode_spec(s.spec_bytes()) == Err::<Seq<u8>, Seq<char>>(e@),
        },
{
    let b = s.as_bytes();
    let n = b.len();
    if n % 2 != 0 {
        let e = "odd-length hex string".to_owned();
        return Err(e);
    }
    let mut out: Vec<u8> = Vec::new();
    let mut j: usize = 0;
    while j < n / 2
        invariant
            b@ == s.spec_bytes(),
            n == b@.len(),
            n % 2 == 0,
            j <= n / 2,
            forall|i: int| 0 <= i < j ==> pair_ok(b@, i),
            out@ == Seq::new(j as nat, |i: int| pair_value(b@[2 * i], b@[2 * i + 1])->0),
        decreases n / 2 - j,
    {
        match pair_value_exec(b[2 * j], b[2 * j + 1]) {
            Some(v) => {
                out.push(v);
                assert(out@ =~= Seq::new((j + 1) as nat, |i: int| pair_value(b@[2 * i], b@[2 * i + 1])->0));
            },
            None => {
                assert(!pair_ok(b@, j as int));
                let e = "invalid hex: invalid digit found in string".to_owned();
                return Err(e);
            },
        }
        j = j + 1;
    }
    assert(out@ =~= Seq::new(n as nat / 2, |i: int| pair_value(b@[2 * i], b@[2 * i + 1])->0));
    Ok(out)
}

// ── AES-SIV name encryption ──────────────────────────────────────────────────

/// What AES-256-SIV (`Aes256SivAead`) encryption gives for a 64-byte key, a
/// 16-byte nonce and a message: the synthetic IV followed by the ciphertext.
pub uninterp spec fn aes_siv_seal(key: Seq<u8>, nonce: Seq<u8>, msg: Seq<u8>) -> Seq<u8>;

/// What AES-256-SIV decryption gives: the message, or `None` where the
/// synthetic IV does not verify.
pub uninterp spec fn aes_siv_open(key: Seq<u8>, nonce: Seq<u8>, ct: Seq<u8>) -> Option<Seq<u8>>;

/// `Aes256SivAead::new(key).encrypt(nonce, msg)`: the 16-byte synthetic IV
/// followed by the ciphertext, as long as the message. It refuses only more
/// than `MAX_HEADERS` (126) header strings, and it is given two (the empty
/// associated data and the nonce), so it always succeeds.
#[verifier::external_body]
fn aes_siv_encrypt(key: &[u8; 64], nonce: &[u8; 16], msg: &[u8]) -> (r: Option<Vec<u8>>)
    ensures
        r is Some,
        r matches Some(c) ==> c@ == aes_siv_seal(key@, nonce@, msg@) && c@.len() == msg@.len() + 16,
{
    let cipher = aes_siv::Aes256SivAead::new(key.into());
    cipher.encrypt(aes_siv::Nonce::from_slice(nonce), msg).ok()
}

/// `Aes256SivAead::new(key).decrypt(nonce, ct)`. An authenticated cipher:
/// a ciphertext that encryption made with the same key and nonce decrypts,
/// to what was encrypted (its synthetic IV verifies).
#[verifier::external_body]
fn aes_siv_decrypt(key: &[u8; 64], nonce: &[u8; 16], ct: &[u8]) -> (r: Option<Vec<u8>>)
    ensures
        r matches Some(p) ==> aes_siv_open(key@, nonce@, ct@) == Some(p@),
        r is None ==> aes_siv_open(key@, nonce@, ct@) is None,
        forall|msg: Seq<u8>| #[trigger] aes_siv_seal(key@, nonce@, msg) == ct@ ==> r is Some && r.unwrap()@ == msg,
{
    let cipher = aes_siv::Aes256SivAead::new(key.into());
    cipher.decrypt(aes_siv::Nonce::from_slice(nonce), ct).ok()
}

/// `String::from_utf8`: the text whose UTF-8 encoding is `v`, where `v` is
/// valid UTF-8.
#[verifier::external_body]
fn string_from_utf8(v: Vec<u8>) -> (r: Option<String>)
    ensures
        r is Some <==> valid_utf8(v@),
        r matches Some(s) ==> s@ == decode_utf8(v@),
{
    String::from_utf8(v).ok()
}

/// `tcfs-name-aes-siv` in ASCII: the HKDF domain of the AES-SIV key.
pub open spec fn siv_domain() -> Seq<u8> {
    seq![0x74u8, 0x63, 0x66, 0x73, 0x2d, 0x6e, 0x61, 0x6d, 0x65, 0x2d, 0x61, 0x65, 0x73, 0x2d, 0x73, 0x69, 0x76]
}

/// The 64-byte AES-SIV key stretched from a name key.
pub open spec fn siv_key(name_key: Seq<u8>) -> Seq<u8> {
    hkdf_sha256_okm(name_key, siv_domain(), 64)
}

/// The all-zero nonce.
pub open spec fn zero_nonce() -> Seq<u8> {
    Seq::new(16, |i: int| 0u8)
}

/// The stored form of an encrypted name: the hexadecimal text of its
/// AES-SIV ciphertext.
pub open spec fn encrypted_name(name_key: Seq<u8>, name: Seq<char>) -> Seq<char> {
    hex_encode_spec(aes_siv_seal(siv_key(name_key), zero_nonce(), encode_utf8(name)))
}

fn stretch_name_key(name_key: &[u8; 32]) -> (k: [u8; 64])
    ensures
        k@ == siv_key(name_key@),
{
    let info: [u8; 17] = [0x74, 0x63, 0x66, 0x73, 0x2d, 0x6e, 0x61, 0x6d, 0x65, 0x2d, 0x61, 0x65, 0x73, 0x2d, 0x73, 0x69, 0x76];
    assert(info@ =~= siv_domain());
    let v = match hkdf_sha256_expand(name_key.as_slice(), info.as_slice(), 64) {
        Some(v) => v,
        None => {
            assert(false);
            Vec::new()
        },
    };
    let mut k = [0u8; 64];
    let mut i: usize = 0;
    while i < 64
        invariant
            i <= 64,
            v@.len() == 64,
            k@.len() == 64,
            forall|j: int| 0 <= j < i ==> k@[j] == v@[j],
        decreases 64 - i,
    {
        k[i] = v[i];
        i = i + 1;
    }
    assert(k@ =~= v@);
    k
}

/// Encrypts a filename with AES-256-SIV under a key stretched from
/// `name_key`, as lowercase hexadecimal text (suitable for object keys).
/// The same name and key always give the same text, two hexadecimal
/// digits for each byte of the name and of the 16-byte synthetic IV.
pub fn encrypt_name(name_key: &[u8; 32], plaintext_name: &str) -> (r: Result<String, CryptoError>)
    ensures
        r is Ok,
        r matches Ok(s) ==> s@ == encrypted_name(name_key@, plaintext_name@),
        r matches Ok(s) ==> s@.len() == 2 * (plaintext_name.spec_bytes().len() + 16),
{
    let key = stretch_name_key(name_key);
    let nonce = [0u8; 16];
    assert(nonce@ =~= zero_nonce());
    match aes_siv_encrypt(&key, &nonce, plaintext_name.as_bytes()) {
        Some(ct) => {
            proof {
                lemma_hex_encode_layout(ct@);
            }
            Ok(encode(ct.as_slice()))
        },
        None => Err(CryptoError::NameEncrypt),
    }
}

/// Decrypts a filename: the inverse of `encrypt_name` for the same key.
/// Text that is not hexadecimal, that does not decrypt, or whose plaintext
/// is not UTF-8 is refused.
pub fn decrypt_name(name_key: &[u8; 32], encrypted_hex: &str) -> (r: Result<String, CryptoError>)
    ensures
        hex_decode_spec(encrypted_hex.spec_bytes()) matches Err(m) ==> r matches Err(CryptoError::NameHex(e)) && e@ == m,
        hex_decode_spec(encrypted_hex.spec_bytes()) matches Ok(ct) ==> match aes_siv_open(siv_key(name_key@), zero_nonce(), ct) {
            None => r == Err::<String, CryptoError>(CryptoError::NameDecrypt),
            Some(p) => if valid_utf8(p) {
                r matches Ok(s) && s@ == decode_utf8(p)
            } else {
                r == Err::<String, CryptoError>(CryptoError::NameNotUtf8)
            },
        },
        forall|name: Seq<char>| #[trigger] encrypted_name(name_key@, name) == encrypted_hex@ ==> r is Ok && r->Ok_0@ == name,
{
    let ct = match decode(encrypted_hex) {
        Ok(v) => v,
        Err(m) => {
            proof {
                assert forall|name: Seq<char>| #[trigger] encrypted_name(name_key@, name) == encrypted_hex@ implies false by {
                    let sealed = aes_siv_seal(siv_key(name_key@), zero_nonce(), encode_utf8(name));
                    lemma_hex_roundtrip(sealed);
                }
            }
            return Err(CryptoError::NameHex(m));
        },
    };
    let key = stretch_name_key(name_key);
    let nonce = [0u8; 16];
    assert(nonce@ =~= zero_nonce());
    let p = match aes_siv_decrypt(&key, &nonce, ct.as_slice()) {
        Some(p) => p,
        None => {
            proof {
                assert forall|name: Seq<char>| #[trigger] encrypted_name(name_key@, name) == encrypted_hex@ implies false by {
                    let sealed = aes_siv_seal(siv_key(name_key@), zero_nonce(), encode_utf8(name));
                    lemma_hex_roundtrip(sealed);
                    assert(ct@ == sealed);
                }
            }
            return Err(CryptoError::NameDecrypt);
        },
    };
    let ghost pv = p@;
    let r = match string_from_utf8(p) {
        Some(s) => Ok(s),
        None => Err(CryptoError::NameNotUtf8),
    };
    proof {
        assert forall|name: Seq<char>| #[trigger] encrypted_name(name_key@, name) == encrypted_hex@ implies r is Ok && r->Ok_0@ == name by {
            let sealed = aes_siv_seal(siv_key(name_key@), zero_nonce(), encode_utf8(name));
            lemma_hex_roundtrip(sealed);
            assert(ct@ == sealed);
            encode_utf8_decode_utf8(name);
            vstd::utf8::encode_utf8_valid_utf8(name);
        }
    }
    r
}

// ── Laws ─────────────────────────────────────────────────────────────────────

pub(crate) proof fn lemma_hex_encode_layout(d: Seq<u8>)
    ensures
        hex_encode_spec(d).len() == 2 * d.len(),
        forall|j: int|
            0 <= j < d.len() ==> #[trigger] hex_encode_spec(d)[2 * j] == hex_digit(d[j] as nat / 16)
                && hex_encode_spec(d)[2 * j + 1] == hex_digit(d[j] as nat % 16),
    decreases d.len(),
{
    if d.len() > 0 {
        let p = d.drop_last();
        lemma_hex_encode_layout(p);
        assert forall|j: int| 0 <= j < d.len() implies #[trigger] hex_encode_spec(d)[2 * j] == hex_digit(
            d[j] as nat / 16,
        ) && hex_encode_spec(d)[2 * j + 1] == hex_digit(d[j] as nat % 16) by {
            if j < p.len() {
                assert(hex_encode_spec(p)[2 * j] == hex_digit(p[j] as nat / 16));
                assert(d[j] == p[j]);
            }
        }
    }
}

pub(crate) proof fn lemma_hex_digit_value(v: nat)
    requires
        v < 16,
    ensures
        '\0' <= hex_digit(v) <= '\u{7f}',
        hex_val(hex_digit(v) as u8) == Some(v),
        hex_digit(v) as u8 != 0x2b,
{
}

/// Hexadecimal text is ASCII.
pub(crate) proof fn lemma_hex_ascii(d: Seq<u8>)
    ensures
        is_ascii_chars(hex_encode_spec(d)),
{
    let t = hex_encode_spec(d);
    lemma_hex_encode_layout(d);
    assert(is_ascii_chars(t)) by {
        assert forall|i: int| 0 <= i < t.len() implies '\0' <= #[trigger] t[i] <= '\u{7f}' by {
            let j = i / 2;
            assert(hex_encode_spec(d)[2 * j] == hex_digit(d[j] as nat / 16));
            lemma_hex_digit_value(d[j] as nat / 16);
            lemma_hex_digit_value(d[j] as nat % 16);
            if i % 2 == 0 {
                assert(i == 2 * j);
            } else {
                assert(i == 2 * j + 1);
            }
        }
    }
}

/// Hexadecimal text that `encode` makes decodes back to the same bytes.
pub proof fn lemma_hex_roundtrip(d: Seq<u8>)
    ensures
        hex_decode_spec(encode_utf8(hex_encode_spec(d))) == Ok::<Seq<u8>, Seq<char>>(d),
{
    let t = hex_encode_spec(d);
    lemma_hex_ascii(d);
    lemma_hex_encode_layout(d);
    is_ascii_chars_encode_utf8(t);
    let b = encode_utf8(t);
    assert forall|j: int| 0 <= j < d.len() implies #[trigger] pair_value(b[2 * j], b[2 * j + 1]) == Some(d[j]) by {
        assert(t[2 * j] == hex_digit(d[j] as nat / 16));
        lemma_hex_digit_value(d[j] as nat / 16);
        lemma_hex_digit_value(d[j] as nat % 16);
        assert(b[2 * j] == t[2 * j] as u8);
        assert(b[2 * j + 1] == t[2 * j + 1] as u8);
    }
    assert(b.len() / 2 == d.len());
    assert forall|j: int| 0 <= j < b.len() / 2 implies pair_ok(b, j) by {
        assert(pair_value(b[2 * j], b[2 * j + 1]) == Some(d[j]));
    }
    assert(Seq::new(b.len() / 2, |j: int| pair_value(b[2 * j], b[2 * j + 1])->0) =~= d);
}

} // verus!
