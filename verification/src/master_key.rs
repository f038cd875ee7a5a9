//! Where the FileProvider backends get their master key from: raw key bytes
//! (inlined as base64 or in a key file), a BIP-39 recovery phrase, or a
//! passphrase stretched with Argon2id under a salt taken from text.
//!
//! Reading the key file is the caller's; which file to read, and what its
//! bytes give, is decided here.
use vstd::prelude::*;
use vstd::string::StringSliceAdditionalSpecFns;
use crate::keys::{argon2_params_valid, argon2id_key, array32, derive_master_key, CryptoError, KdfParams, MasterKey};
use crate::manifest::{base64_decode, base64_standard_decoded};
use crate::provider::ProviderConfig;
use crate::recovery::{bip39_valid, mnemonic_to_master_key, recovery_key};
use crate::storage_bounds::{json_as_u64, json_member, member_of, JsonObject, JsonValue};
use crate::text::{chars_of, is_unicode_whitespace, is_whitespace, string_of, trim_chars, trim_spec};

verus! {

// ── Raw keys ─────────────────────────────────────────────────────────────────

/// Key bytes of the wrong length; the length they had.
#[derive(Debug, Clone, Copy, PartialEq, Eq, Structural)]
pub struct WrongKeySize(pub usize);

/// The master key made of exactly 32 bytes; any other length is refused.
pub fn master_key_from_bytes(bytes: &[u8]) -> (r: Result<MasterKey, WrongKeySize>)
    ensures
        bytes@.len() == 32 <==> r is Ok,
        r matches Ok(k) ==> k@ == bytes@,
        r matches Err(e) ==> e.0 == bytes@.len(),
{
    if bytes.len() != 32 {
        return Err(WrongKeySize(bytes.len()));
    }
    Ok(MasterKey::from_bytes(array32(bytes)))
}

// ── Passphrases ──────────────────────────────────────────────────────────────

/// The number of words of `s`, words being separated by Unicode whitespace
/// (`str::split_whitespace().count()`).
pub open spec fn word_count(s: Seq<char>) -> nat
    decreases s.len(),
{
    if s.len() == 0 {
        0
    } else {
        word_count(s.drop_last()) + if !is_unicode_whitespace(s.last()) && (s.len() == 1 || is_unicode_whitespace(
            s[s.len() - 2],
        )) {
            1nat
        } else {
            0nat
        }
    }
}

/// Counts the whitespace-separated words of `s`.
pub fn count_words(s: &str) -> (n: usize)
    ensures
        n == word_count(s@),
{
    let c = chars_of(s);
    let mut n: usize = 0;
    let mut i: usize = 0;
    assert(c@.take(0) =~= Seq::<char>::empty());
    while i < c.len()
        invariant
            c@ == s@,
            i <= c@.len(),
            n <= i,
            n == word_count(c@.take(i as int)),
        decreases c@.len() - i,
    {
        assert(c@.take(i + 1).drop_last() =~= c@.take(i as int));
        let starts = !is_whitespace(c[i]) && (i == 0 || is_whitespace(c[i - 1]));
        if starts {
            n = n + 1;
        }
        i = i + 1;
    }
    assert(c@.take(i as int) =~= s@);
    n
}

/// The 16-byte salt that text gives: its first 16 bytes, padded with zeros.
pub open spec fn salt_of(text: Seq<u8>) -> Seq<u8> {
    Seq::new(16, |i: int| if i < text.len() { text[i] } else { 0u8 })
}

/// The salt made from the bytes of `text`.
pub fn salt_from_text(text: &str) -> (salt: [u8; 16])
    ensures
        salt@ == salt_of(text.spec_bytes()),
{
    let b = text.as_bytes();
    let mut salt = [0u8; 16];
    let mut i: usize = 0;
    while i < 16 && i < b.len()
        invariant
            b@ == text.spec_bytes(),
            i <= 16,
            i <= b@.len(),
            salt@.len() == 16,
            forall|k: int| 0 <= k < i ==> salt@[k] == b@[k],
            forall|k: int| i <= k < 16 ==> salt@[k] == 0u8,
        decreases 16 - i,
    {
        salt[i] = b[i];
        i = i + 1;
    }
    assert forall|k: int| 0 <= k < 16 implies salt@[k] == salt_of(text.spec_bytes())[k] by {
        if k < i {
        } else {
            assert(k >= b@.len());
        }
    }
    assert(salt@ =~= salt_of(text.spec_bytes()));
    salt
}

/// A passphrase of twelve or more words is read as a recovery phrase.
pub open spec fn is_recovery_phrase(passphrase: Seq<char>) -> bool {
    word_count(passphrase) >= 12
}

/// Whether a passphrase can give a key: a recovery phrase must be BIP-39,
/// other passphrases need costs that Argon2id accepts.
pub open spec fn passphrase_usable(passphrase: Seq<char>, m_cost: u32, t_cost: u32, p_cost: u32) -> bool {
    if is_recovery_phrase(passphrase) {
        bip39_valid(passphrase)
    } else {
        argon2_params_valid(m_cost, t_cost, p_cost)
    }
}

/// The key a passphrase gives: the recovery key of a recovery phrase, else
/// Argon2id of the passphrase under the salt made from `salt_text`.
pub open spec fn passphrase_key(passphrase: Seq<char>, salt_text: Seq<u8>, m_cost: u32, t_cost: u32, p_cost: u32) -> Seq<
    u8,
> {
    if is_recovery_phrase(passphrase) {
        recovery_key(passphrase)
    } else {
        argon2id_key(vstd::utf8::encode_utf8(passphrase), salt_of(salt_text), m_cost, t_cost, p_cost)
    }
}

/// The master key of a passphrase: a phrase of twelve or more words is a
/// recovery mnemonic (salt and costs unused); otherwise Argon2id with the
/// given costs under the salt made from `salt_text`.
pub fn passphrase_master_key(passphrase: &str, salt_text: &str, params: &KdfParams) -> (r: Result<
    MasterKey,
    CryptoError,
>)
    ensures
        !passphrase_usable(passphrase@, params.mem_cost_kib, params.time_cost, params.parallelism) <==> r == Err::<
            MasterKey,
            CryptoError,
        >(if is_recovery_phrase(passphrase@) {
            CryptoError::InvalidMnemonic
        } else {
            CryptoError::InvalidKdfParams
        }),
        r == Err::<MasterKey, CryptoError>(CryptoError::KdfFailed) <==> passphrase_usable(
            passphrase@,
            params.mem_cost_kib,
            params.time_cost,
            params.parallelism,
        ) && passphrase.spec_bytes().len() > 0xffff_ffff,
        r matches Ok(k) ==> k@ == passphrase_key(
            passphrase@,
            salt_text.spec_bytes(),
            params.mem_cost_kib,
            params.time_cost,
            params.parallelism,
        ),
        r matches Err(e) ==> e == CryptoError::KdfFailed || e == (if is_recovery_phrase(passphrase@) {
            CryptoError::InvalidMnemonic
        } else {
            CryptoError::InvalidKdfParams
        }),
{
    if count_words(passphrase) >= 12 {
        return mnemonic_to_master_key(passphrase);
    }
    if params.parallelism >= 0x2000_0000 {
        return Err(CryptoError::InvalidKdfParams);
    }
    let salt = salt_from_text(salt_text);
    derive_master_key(passphrase, &salt, params)
}

// ── The JSON configuration of the direct backend ─────────────────────────────

/// The text of member `key` where it is a string that is not empty.
pub open spec fn nonempty_text(members: Seq<(String, JsonValue)>, key: Seq<char>) -> Option<Seq<char>> {
    match json_member(members, key) {
        Some(JsonValue::String(s)) => if s@.len() > 0 {
            Some(s@)
        } else {
            None
        },
        _ => None,
    }
}

/// The raw key inlined as base64 under `master_key_base64`.
pub open spec fn inlined_key_text(members: Seq<(String, JsonValue)>) -> Option<Seq<char>> {
    nonempty_text(members, "master_key_base64"@)
}

/// The key file named under `master_key_file`, where no key is inlined.
pub open spec fn key_file_path(members: Seq<(String, JsonValue)>) -> Option<Seq<char>> {
    if inlined_key_text(members) is Some {
        None
    } else {
        nonempty_text(members, "master_key_file"@)
    }
}

/// The passphrase under `encryption_passphrase`, where neither an inlined
/// key nor a key file is named.
pub open spec fn config_passphrase(members: Seq<(String, JsonValue)>) -> Option<Seq<char>> {
    if inlined_key_text(members) is Some || key_file_path(members) is Some {
        None
    } else {
        nonempty_text(members, "encryption_passphrase"@)
    }
}

/// The salt text under `encryption_salt`, `tcfs-default-salt!` where there
/// is no string.
pub open spec fn config_salt_text(members: Seq<(String, JsonValue)>) -> Seq<char> {
    match json_member(members, "encryption_salt"@) {
        Some(JsonValue::String(s)) => s@,
        _ => "tcfs-default-salt!"@,
    }
}

/// The cost under `key` (a non-negative integer, else `default`), cut to its
/// low 32 bits.
pub open spec fn config_cost(members: Seq<(String, JsonValue)>, key: Seq<char>, default: u64) -> u32 {
    let n = match json_member(members, key) {
        Some(v) => match json_as_u64(v) {
            Some(n) => n,
            None => default,
        },
        None => default,
    };
    n as u32
}

/// The Argon2id costs of the configuration: memory (default 64 MiB), passes
/// (default 3) and lanes (default 4).
pub open spec fn config_costs(members: Seq<(String, JsonValue)>) -> (u32, u32, u32) {
    (
        config_cost(members, "argon2_mem_cost_kib"@, 65536),
        config_cost(members, "argon2_time_cost"@, 3),
        config_cost(members, "argon2_parallelism"@, 4),
    )
}

/// The text of member `key` where it is a non-empty string.
fn nonempty_text_of(config: &JsonObject, key: &str) -> (r: Option<String>)
    ensures
        r matches Some(s) ==> nonempty_text(config.members@, key@) == Some(s@),
        r is None ==> nonempty_text(config.members@, key@) is None,
{
    match member_of(config, key) {
        Some(JsonValue::String(s)) => {
            if s.as_str().is_empty() {
                None
            } else {
                Some(string_of(chars_of(s.as_str()).as_slice()))
            }
        },
        _ => None,
    }
}

fn cost_of(config: &JsonObject, key: &str, default: u64) -> (r: u32)
    ensures
        r == config_cost(config.members@, key@, default),
{
    let n: u64 = match member_of(config, key) {
        Some(JsonValue::Number(crate::storage_bounds::JsonNumber::PosInt(n))) => *n,
        _ => default,
    };
    n as u32
}

/// The key file that must be read for the configuration's master key: the
/// one named under `master_key_file`, unless a key is inlined as base64.
pub fn master_key_file_to_read(config: &JsonObject) -> (r: Option<String>)
    ensures
        r matches Some(p) ==> key_file_path(config.members@) == Some(p@),
        r is None ==> key_file_path(config.members@) is None,
{
    if nonempty_text_of(config, "master_key_base64").is_some() {
        return None;
    }
    nonempty_text_of(config, "master_key_file")
}

/// The master key of a direct-backend configuration, in order of
/// precedence: the raw key inlined as base64 (`master_key_base64`, trimmed),
/// the bytes of the key file (`master_key_file`), read by the caller and
/// handed in as `key_file` (`None` where it could not be read), else the
/// passphrase (`encryption_passphrase`) with `encryption_salt` and the
/// `argon2_*` costs. `None` where none of them gives a key.
pub fn derive_master_key_from_config(config: &JsonObject, key_file: Option<&[u8]>) -> (r: Option<MasterKey>)
    ensures
        match inlined_key_text(config.members@) {
            Some(t) => match base64_standard_decoded(trim_spec(t)) {
                Some(d) => if d.len() == 32 {
                    r matches Some(k) && k@ == d
                } else {
                    r is None
                },
                None => r is None,
            },
            None => match key_file_path(config.members@) {
                Some(_) => match key_file {
                    Some(b) => if b@.len() == 32 {
                        r matches Some(k) && k@ == b@
                    } else {
                        r is None
                    },
                    None => r is None,
                },
                None => match config_passphrase(config.members@) {
                    None => r is None,
                    Some(p) => {
                        let (m, t, l) = config_costs(config.members@);
                        &&& !passphrase_usable(p, m, t, l) ==> r is None
                        &&& r matches Some(k) ==> k@ == passphrase_key(
                            p,
                            vstd::utf8::encode_utf8(config_salt_text(config.members@)),
                            m,
                            t,
                            l,
                        )
                    },
                },
            },
        },
{
    if let Some(text) = nonempty_text_of(config, "master_key_base64") {
        let trimmed = string_of(trim_chars(chars_of(text.as_str()).as_slice()).as_slice());
        return match base64_decode(trimmed.as_str()) {
            Some(d) => match master_key_from_bytes(d.as_slice()) {
                Ok(k) => Some(k),
                Err(_) => None,
            },
            None => None,
        };
    }
    if nonempty_text_of(config, "master_key_file").is_some() {
        return match key_file {
            Some(b) => match master_key_from_bytes(b) {
                Ok(k) => Some(k),
                Err(_) => None,
            },
            None => None,
        };
    }
    let passphrase = match nonempty_text_of(config, "encryption_passphrase") {
        Some(p) => p,
        None => {
            return None;
        },
    };
    let salt_text = match member_of(config, "encryption_salt") {
        Some(JsonValue::String(s)) => string_of(chars_of(s.as_str()).as_slice()),
        _ => "tcfs-default-salt!".to_owned(),
    };
    let params = KdfParams {
        mem_cost_kib: cost_of(config, "argon2_mem_cost_kib", 65536),
        time_cost: cost_of(config, "argon2_time_cost", 3),
        parallelism: cost_of(config, "argon2_parallelism", 4),
    };
    match passphrase_master_key(passphrase.as_str(), salt_text.as_str(), &params) {
        Ok(k) => Some(k),
        Err(_) => None,
    }
}

// ── The iOS provider configuration ───────────────────────────────────────────

/// The master key of an iOS provider configuration: none for an empty
/// passphrase (plaintext), else the key of the passphrase under the salt
/// text with the default costs (64 MiB, 3 passes, 4 lanes).
pub fn provider_master_key(config: &ProviderConfig) -> (r: Result<Option<MasterKey>, CryptoError>)
    ensures
        config.encryption_passphrase@.len() == 0 ==> r == Ok::<Option<MasterKey>, CryptoError>(None),
        config.encryption_passphrase@.len() > 0 ==> {
            &&& !passphrase_usable(config.encryption_passphrase@, 65536, 3, 4) ==> r is Err
            &&& r matches Ok(o) ==> (o matches Some(k) && k@ == passphrase_key(
                config.encryption_passphrase@,
                vstd::utf8::encode_utf8(config.encryption_salt@),
                65536,
                3,
                4,
            ))
            &&& r matches Err(e) ==> e == CryptoError::InvalidMnemonic || e == CryptoError::KdfFailed
        },
{
    if config.encryption_passphrase.as_str().is_empty() {
        return Ok(None);
    }
    let params = KdfParams { mem_cost_kib: 65536, time_cost: 3, parallelism: 4 };
    assert(argon2_params_valid(65536, 3, 4));
    match passphrase_master_key(config.encryption_passphrase.as_str(), config.encryption_salt.as_str(), &params) {
        Ok(k) => Ok(Some(k)),
        Err(e) => Err(e),
    }
}

} // verus!
