//! Key recovery from a BIP-39 mnemonic: a 24-word phrase made from 256 bits
//! of entropy, from which the master key is derived with Argon2id under a
//! fixed salt.
use vstd::prelude::*;
use vstd::string::StringSliceAdditionalSpecFns;
use crate::cli_util::words_of;
use crate::keys::{argon2id_key, derive_master_key, random_32, CryptoError, KdfParams, MasterKey};

verus! {

/// The English BIP-39 phrase for `entropy` (`Mnemonic::from_entropy`, then
/// its `Display`).
pub uninterp spec fn bip39_english_phrase(entropy: Seq<u8>) -> Seq<char>;

/// Whether `Mnemonic::from_str` accepts `words`.
pub uninterp spec fn bip39_valid(words: Seq<char>) -> bool;

/// `Mnemonic::from_entropy(entropy).to_string()`. Entropy of 256 bits is
/// within the lengths it accepts and gives 24 words (`nb_bytes * 3 / 4`),
/// and the phrase it writes parses back. `Display` joins the words with
/// one space; English words are 3 to 8 lowercase ASCII letters, so the
/// phrase has at most 24 * 8 + 23 bytes.
#[verifier::external_body]
fn mnemonic_phrase(entropy: &[u8; 32]) -> (r: Option<String>)
    ensures
        r matches Some(w) ==> w@ == bip39_english_phrase(entropy@) && bip39_valid(w@),
        r matches Some(w) ==> words_of(w@).len() == 24 && vstd::utf8::encode_utf8(w@).len() <= 215,
        r is Some,
{
    match bip39::Mnemonic::from_entropy(entropy) {
        Ok(m) => Some(m.to_string()),
        Err(_) => None,
    }
}

/// `words.parse::<Mnemonic>()` succeeds.
#[verifier::external_body]
fn mnemonic_parses(words: &str) -> (r: bool)
    ensures
        r == bip39_valid(words@),
{
    words.parse::<bip39::Mnemonic>().is_ok()
}

/// `tcfs-recovery-v1` in ASCII: the Argon2id salt of recovery keys.
pub open spec fn recovery_salt() -> Seq<u8> {
    seq![0x74u8, 0x63, 0x66, 0x73, 0x2d, 0x72, 0x65, 0x63, 0x6f, 0x76, 0x65, 0x72, 0x79, 0x2d, 0x76, 0x31]
}

/// The master key recovered from `words`: Argon2id with 16 MiB, two passes
/// and one lane (lighter, since the input has high entropy).
pub open spec fn recovery_key(words: Seq<char>) -> Seq<u8> {
    argon2id_key(vstd::utf8::encode_utf8(words), recovery_salt(), 16384, 2, 1)
}

/// Derives the master key from a mnemonic phrase; phrases that are not
/// BIP-39 are refused.
pub fn mnemonic_to_master_key(words: &str) -> (r: Result<MasterKey, CryptoError>)
    ensures
        !bip39_valid(words@) <==> r == Err::<MasterKey, CryptoError>(CryptoError::InvalidMnemonic),
        r == Err::<MasterKey, CryptoError>(CryptoError::KdfFailed) <==> bip39_valid(words@)
            && words.spec_bytes().len() > 0xffff_ffff,
        r matches Ok(k) ==> k@ == recovery_key(words@),
        r matches Err(e) ==> e == CryptoError::InvalidMnemonic || e == CryptoError::KdfFailed,
{
    if !mnemonic_parses(words) {
        return Err(CryptoError::InvalidMnemonic);
    }
    let salt: [u8; 16] = [0x74, 0x63, 0x66, 0x73, 0x2d, 0x72, 0x65, 0x63, 0x6f, 0x76, 0x65, 0x72, 0x79, 0x2d, 0x76, 0x31];
    assert(salt@ =~= recovery_salt());
    let params = KdfParams { mem_cost_kib: 16384, time_cost: 2, parallelism: 1 };
    derive_master_key(words, &salt, &params)
}

/// Generates a fresh 24-word mnemonic from 256 random bits, with the master
/// key it recovers.
pub fn generate_mnemonic() -> (r: Result<(String, MasterKey), CryptoError>)
    ensures
        r is Ok,
        r matches Ok((w, k)) ==> bip39_valid(w@) && k@ == recovery_key(w@) && words_of(w@).len() == 24,
        r matches Ok((w, k)) ==> vstd::utf8::encode_utf8(w@).len() <= 215 && exists|entropy: Seq<u8>|
            entropy.len() == 32 && w@ == #[trigger] bip39_english_phrase(entropy),
{
    let entropy = random_32();
    let words = match mnemonic_phrase(&entropy) {
        Some(w) => w,
        None => {
            return Err(CryptoError::MnemonicGeneration);
        },
    };
    assert(words@ == bip39_english_phrase(entropy@));
    match mnemonic_to_master_key(words.as_str()) {
        Ok(k) => Ok((words, k)),
        Err(e) => Err(e),
    }
}

} // verus!
