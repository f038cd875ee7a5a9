//! File keys wrapped once per device with age X25519, and unwrapped with a
//! device's age identity.
use vstd::prelude::*;
use std::io::Read;
use crate::keys::{array32, CryptoError, FileKey, AGE_X25519_FILE_KEY_ALGORITHM};
use crate::text::{ascii_lower, chars_eq, chars_of, to_ascii_lowercase};

verus! {

#[verifier::external_type_specification]
#[verifier::external_body]
pub struct ExAgeRecipient(age::x25519::Recipient);

#[verifier::external_type_specification]
#[verifier::external_body]
pub struct ExAgeIdentity(age::x25519::Identity);

/// Whether `age::x25519::Recipient::from_str` accepts `text` (Bech32 with
/// the `age` prefix and a 32-byte key).
pub uninterp spec fn age_recipient_valid(text: Seq<char>) -> bool;

/// Whether `age::x25519::Identity::from_str` accepts `text` (Bech32 with the
/// secret-key prefix and a 32-byte key).
pub uninterp spec fn age_identity_valid(text: Seq<char>) -> bool;

/// Whether `text` (in either case, as Bech32 allows) is the `age`
/// recipient encoding of a key of small order: the little-endian
/// u-coordinates 0, 1 and p - 1 (p = 2^255 - 19), the two of order eight,
/// and p and p + 1, which reduce to 0 and 1; each with the unused top bit
/// clear or set. For exactly these keys the X25519 shared secret is all
/// zero, whatever the (clamped) ephemeral scalar, and
/// `age::x25519::Recipient::wrap_file_key` panics on an all-zero secret.
pub open spec fn age_low_order_recipient(text: Seq<char>) -> bool {
    let t = text.map_values(|c: char| ascii_lower(c));
    ||| t == "age1qqqqqqqqqqqqqqqqqqqqqqqqqqqqqqqqqqqqqqqqqqqqqqqqqqqq5cu47z"@
    ||| t == "age1qqqqqqqqqqqqqqqqqqqqqqqqqqqqqqqqqqqqqqqqqqqqqqqqqzqqsuwj9m"@
    ||| t == "age1qyqqqqqqqqqqqqqqqqqqqqqqqqqqqqqqqqqqqqqqqqqqqqqqqqqqj7vrya"@
    ||| t == "age1qyqqqqqqqqqqqqqqqqqqqqqqqqqqqqqqqqqqqqqqqqqqqqqqqzqqk67yly"@
    ||| t == "age1ur4h5lpmgxu2u9jku0a0r87ydtdqnr0tnsetrlvxvgz3vh6fhqqqzyt4v9"@
    ||| t == "age1ur4h5lpmgxu2u9jku0a0r87ydtdqnr0tnsetrlvxvgz3vh6fhzqqxqejhu"@
    ||| t == "age1t7wft09r2zxzfvwsk92eeql0tvzyghxytqwgapkcyf8dm5ylz9ts6wm9s8"@
    ||| t == "age1t7wft09r2zxzfvwsk92eeql0tvzyghxytqwgapkcyf8dm5ylz8ts72fzt7"@
    ||| t == "age1anlllllllllllllllllllllllllllllllllllllllllllllllals4n2t7m"@
    ||| t == "age1anllllllllllllllllllllllllllllllllllllllllllllllllls3hcv9z"@
    ||| t == "age1ahlllllllllllllllllllllllllllllllllllllllllllllllalsn46ayy"@
    ||| t == "age1ahlllllllllllllllllllllllllllllllllllllllllllllllllsh3g6la"@
    ||| t == "age1amlllllllllllllllllllllllllllllllllllllllllllllllalselrwrv"@
    ||| t == "age1amlllllllllllllllllllllllllllllllllllllllllllllllllsam3fc4"@
}

fn text_is(a: &[char], s: &str) -> (r: bool)
    ensures
        r == (a@ == s@),
{
    let b = chars_of(s);
    chars_eq(a, b.as_slice())
}

/// Whether `text` names a recipient key of small order, to which age
/// cannot wrap a key.
pub fn age_recipient_low_order(text: &str) -> (r: bool)
    ensures
        r == age_low_order_recipient(text@),
{
    let chars = chars_of(text);
    let lower = to_ascii_lowercase(chars.as_slice());
    text_is(lower.as_slice(), "age1qqqqqqqqqqqqqqqqqqqqqqqqqqqqqqqqqqqqqqqqqqqqqqqqqqqq5cu47z") ||
        text_is(lower.as_slice(), "age1qqqqqqqqqqqqqqqqqqqqqqqqqqqqqqqqqqqqqqqqqqqqqqqqqzqqsuwj9m") ||
        text_is(lower.as_slice(), "age1qyqqqqqqqqqqqqqqqqqqqqqqqqqqqqqqqqqqqqqqqqqqqqqqqqqqj7vrya") ||
        text_is(lower.as_slice(), "age1qyqqqqqqqqqqqqqqqqqqqqqqqqqqqqqqqqqqqqqqqqqqqqqqqzqqk67yly") ||
        text_is(lower.as_slice(), "age1ur4h5lpmgxu2u9jku0a0r87ydtdqnr0tnsetrlvxvgz3vh6fhqqqzyt4v9") ||
        text_is(lower.as_slice(), "age1ur4h5lpmgxu2u9jku0a0r87ydtdqnr0tnsetrlvxvgz3vh6fhzqqxqejhu") ||
        text_is(lower.as_slice(), "age1t7wft09r2zxzfvwsk92eeql0tvzyghxytqwgapkcyf8dm5ylz9ts6wm9s8") ||
        text_is(lower.as_slice(), "age1t7wft09r2zxzfvwsk92eeql0tvzyghxytqwgapkcyf8dm5ylz8ts72fzt7") ||
        text_is(lower.as_slice(), "age1anlllllllllllllllllllllllllllllllllllllllllllllllals4n2t7m") ||
        text_is(lower.as_slice(), "age1anllllllllllllllllllllllllllllllllllllllllllllllllls3hcv9z") ||
        text_is(lower.as_slice(), "age1ahlllllllllllllllllllllllllllllllllllllllllllllllalsn46ayy") ||
        text_is(lower.as_slice(), "age1ahlllllllllllllllllllllllllllllllllllllllllllllllllsh3g6la") ||
        text_is(lower.as_slice(), "age1amlllllllllllllllllllllllllllllllllllllllllllllllalselrwrv") ||
        text_is(lower.as_slice(), "age1amlllllllllllllllllllllllllllllllllllllllllllllllllsam3fc4")
}

/// `Recipient::from_str`.
#[verifier::external_body]
pub(crate) fn parse_age_recipient(s: &str) -> (r: Option<age::x25519::Recipient>)
    ensures
        r is Some <==> age_recipient_valid(s@),
{
    s.parse::<age::x25519::Recipient>().ok()
}

/// `Identity::from_str`.
#[verifier::external_body]
fn parse_age_identity(s: &str) -> (r: Option<age::x25519::Identity>)
    ensures
        r is Some <==> age_identity_valid(s@),
{
    s.parse::<age::x25519::Identity>().ok()
}

/// What decrypting the armored age text `armored` gives with the X25519
/// identity written as `identity` (`ArmoredReader`, `Decryptor::new`,
/// `decrypt`, `read_to_end`): the plaintext, or `None` where it is not age
/// text, is passphrase-encrypted, is not addressed to the identity, or
/// cannot be read. Decryption draws nothing at random.
pub uninterp spec fn age_open(identity: Seq<char>, armored: Seq<char>) -> Option<Seq<u8>>;

/// The recipient text of the X25519 identity written as `identity`
/// (`Identity::to_public().to_string()`).
pub uninterp spec fn age_identity_recipient(identity: Seq<char>) -> Seq<char>;

/// The recipient text of the X25519 identity written as `identity`
/// (`Identity::to_public().to_string()`).
#[verifier::external_body]
fn age_identity_to_recipient(identity: &str) -> (r: String)
    requires
        age_identity_valid(identity@),
    ensures
        r@ == age_identity_recipient(identity@),
        age_recipient_valid(r@),
{
    match identity.parse::<age::x25519::Identity>() {
        Ok(id) => id.to_public().to_string(),
        Err(_) => String::new(),
    }
}

/// `age::encrypt_and_armor` to the recipient written as `recipient`. It
/// draws a fresh ephemeral key; the writers are in memory, so for a key not
/// of small order it does not fail (for one of small order
/// `wrap_file_key` panics, so such keys are not admitted). Of the text only
/// this is promised: every identity whose recipient text is `recipient`
/// decrypts it to the plaintext.
#[verifier::external_body]
fn age_encrypt_armor(recipient: &str, plaintext: &[u8]) -> (r: Option<String>)
    requires
        age_recipient_valid(recipient@),
        !age_low_order_recipient(recipient@),
    ensures
        r is Some,
        r matches Some(t) ==> forall|id: Seq<char>|
            age_identity_valid(id) && #[trigger] age_identity_recipient(id) == recipient@ ==> age_open(id, t@)
                == Some(plaintext@),
{
    let rec = recipient.parse::<age::x25519::Recipient>().ok()?;
    age::encrypt_and_armor(&rec, plaintext).ok()
}

/// Decrypts armored age text with the X25519 identity written as
/// `identity` (parsed with `Identity::from_str`).
#[verifier::external_body]
fn age_decrypt_armor(identity: &str, armored: &str) -> (r: Option<Vec<u8>>)
    requires
        age_identity_valid(identity@),
    ensures
        r matches Some(p) ==> age_open(identity@, armored@) == Some(p@),
        r is None ==> age_open(identity@, armored@) is None,
{
    let id = identity.parse::<age::x25519::Identity>().ok()?;
    let decryptor = age::Decryptor::new(age::armor::ArmoredReader::new(armored.as_bytes())).ok()?;
    if decryptor.is_scrypt() {
        return None;
    }
    let mut reader = decryptor.decrypt(std::iter::once(&id as &dyn age::Identity)).ok()?;
    let mut plaintext = Vec::new();
    reader.read_to_end(&mut plaintext).ok()?;
    Some(plaintext)
}

/// An active device recipient for per-device file key wrapping.
#[derive(Debug, Clone, PartialEq, Eq)]
pub struct AgeFileKeyRecipient {
    /// Stable TCFS device identifier.
    pub device_id: String,
    /// age X25519 public recipient string (`age1...`).
    pub recipient: String,
}

/// One file key wrap addressed to one device recipient.
#[derive(Debug, Clone, PartialEq, Eq)]
pub struct AgeWrappedFileKey {
    /// Stable TCFS device identifier this wrap is intended for.
    pub recipient_device_id: String,
    /// Public recipient used when wrapping, kept for audit and migration checks.
    pub recipient: String,
    /// Cryptographic wrap algorithm.
    pub algorithm: String,
    /// Armored age ciphertext containing the 32-byte file key.
    pub wrapped_key: String,
}

/// The wrap of `file_key` that `w` holds opens, with every identity whose
/// recipient text is `recipient`, to the file key.
pub open spec fn opens_to(w: Seq<char>, recipient: Seq<char>, file_key: Seq<u8>) -> bool {
    forall|id: Seq<char>|
        age_identity_valid(id) && #[trigger] age_identity_recipient(id) == recipient ==> age_open(id, w) == Some(file_key)
}

/// Whether wrapping for `recipients` in order reaches a recipient whose key
/// has small order: all recipients up to it parse.
pub open spec fn reaches_low_order(recipients: Seq<AgeFileKeyRecipient>) -> bool {
    exists|i: int|
        0 <= i < recipients.len() && age_low_order_recipient(#[trigger] recipients[i].recipient@) && forall|j: int|
            0 <= j <= i ==> age_recipient_valid(#[trigger] recipients[j].recipient@)
}

/// The recipient text (`age1...`) of the age X25519 identity written as
/// `identity`, or `InvalidIdentity` where it does not parse.
pub fn age_recipient_for_identity(identity: &str) -> (r: Result<String, CryptoError>)
    ensures
        age_identity_valid(identity@) <==> r is Ok,
        r matches Ok(t) ==> t@ == age_identity_recipient(identity@) && age_recipient_valid(t@),
        r matches Err(e) ==> e is InvalidIdentity,
{
    match parse_age_identity(identity) {
        Some(_) => Ok(age_identity_to_recipient(identity)),
        None => Err(CryptoError::InvalidIdentity),
    }
}

/// Wraps a file key once per active age X25519 device recipient, in the
/// order given. The first recipient that does not parse ends the call with
/// its error; with every recipient valid, every wrap is made. A recipient
/// key of small order, reached, is not admitted: age panics on it.
pub fn wrap_file_key_for_age_recipients(file_key: &FileKey, recipients: &[AgeFileKeyRecipient]) -> (r: Result<
    Vec<AgeWrappedFileKey>,
    CryptoError,
>)
    requires
        !reaches_low_order(recipients@),
    ensures
        recipients@.len() == 0 <==> r == Err::<Vec<AgeWrappedFileKey>, CryptoError>(CryptoError::NoRecipients),
        recipients@.len() > 0 && (forall|i: int|
            0 <= i < recipients@.len() ==> age_recipient_valid(#[trigger] recipients@[i].recipient@)) ==> r is Ok,
        r matches Ok(v) ==> v@.len() == recipients@.len() && forall|i: int|
            0 <= i < v@.len() ==> {
                &&& (#[trigger] v@[i]).recipient_device_id@ == recipients@[i].device_id@
                &&& v@[i].recipient@ == recipients@[i].recipient@
                &&& v@[i].algorithm@ == AGE_X25519_FILE_KEY_ALGORITHM@
                &&& age_recipient_valid(recipients@[i].recipient@)
                &&& opens_to(v@[i].wrapped_key@, recipients@[i].recipient@, file_key@)
            },
        r matches Ok(v) ==> age_wraps_of(v@, recipients@, file_key@),
        r matches Err(CryptoError::InvalidRecipient(d)) ==> exists|i: int|
            0 <= i < recipients@.len() && d@ == (#[trigger] recipients@[i]).device_id@ && !age_recipient_valid(
                recipients@[i].recipient@,
            ) && forall|j: int| 0 <= j < i ==> age_recipient_valid(recipients@[j].recipient@),
        r matches Err(e) ==> (e is NoRecipients || e is InvalidRecipient),
{
    if recipients.len() == 0 {
        return Err(CryptoError::NoRecipients);
    }
    let mut out: Vec<AgeWrappedFileKey> = Vec::new();
    let mut i: usize = 0;
    while i < recipients.len()
        invariant
            i <= recipients@.len(),
            recipients@.len() > 0,
            !reaches_low_order(recipients@),
            out@.len() == i,
            forall|k: int|
                0 <= k < i ==> {
                    &&& (#[trigger] out@[k]).recipient_device_id@ == recipients@[k].device_id@
                    &&& out@[k].recipient@ == recipients@[k].recipient@
                    &&& out@[k].algorithm@ == AGE_X25519_FILE_KEY_ALGORITHM@
                    &&& age_recipient_valid(recipients@[k].recipient@)
                    &&& opens_to(out@[k].wrapped_key@, recipients@[k].recipient@, file_key@)
                },
        decreases recipients@.len() - i,
    {
        let rec = &recipients[i];
        proof {
            assert forall|j: int| 0 <= j < i implies age_recipient_valid(recipients@[j].recipient@) by {
                assert(out@[j].recipient@ == recipients@[j].recipient@);
            }
        }
        match parse_age_recipient(rec.recipient.as_str()) {
            Some(_) => {},
            None => {
                let d = rec.device_id.clone();
                assert(d@ == recipients@[i as int].device_id@);
                return Err(CryptoError::InvalidRecipient(d));
            },
        };
        assert(!age_low_order_recipient(recipients@[i as int].recipient@)) by {
            if age_low_order_recipient(recipients@[i as int].recipient@) {
                assert(forall|j: int| 0 <= j <= i ==> age_recipient_valid(#[trigger] recipients@[j].recipient@));
                assert(reaches_low_order(recipients@));
            }
        }
        let wrapped_key = match age_encrypt_armor(rec.recipient.as_str(), file_key.as_bytes().as_slice()) {
            Some(w) => w,
            None => {
                return Err(CryptoError::AgeWrap(rec.device_id.clone()));
            },
        };
        out.push(
            AgeWrappedFileKey {
                recipient_device_id: rec.device_id.clone(),
                recipient: rec.recipient.clone(),
                algorithm: AGE_X25519_FILE_KEY_ALGORITHM.to_owned(),
                wrapped_key,
            },
        );
        i = i + 1;
    }
    Ok(out)
}

/// Whether `w` is a wrap that unwrapping tries: of the supported algorithm
/// and, where a device is named, addressed to it.
pub open spec fn age_candidate(w: AgeWrappedFileKey, device_id: Option<Seq<char>>) -> bool {
    &&& w.algorithm@ == AGE_X25519_FILE_KEY_ALGORITHM@
    &&& match device_id {
        Some(d) => d == w.recipient_device_id@,
        None => true,
    }
}

/// The device named, as text.
pub open spec fn device_view(device_id: Option<&str>) -> Option<Seq<char>> {
    match device_id {
        Some(d) => Some(d@),
        None => None,
    }
}

/// The first wrap at or after `i` that unwrapping tries and that opens with
/// `identity`: its position and what it opens to.
pub open spec fn first_open(
    wrapped: Seq<AgeWrappedFileKey>,
    identity: Seq<char>,
    device_id: Option<Seq<char>>,
    i: int,
) -> Option<(int, Seq<u8>)>
    decreases wrapped.len() - i,
{
    if i < 0 || i >= wrapped.len() {
        None
    } else if age_candidate(wrapped[i], device_id) && age_open(identity, wrapped[i].wrapped_key@) is Some {
        Some((i, age_open(identity, wrapped[i].wrapped_key@)->0))
    } else {
        first_open(wrapped, identity, device_id, i + 1)
    }
}

/// Unwraps a file key with a local age X25519 identity. Where a device is
/// named only the wraps addressed to it are tried; wraps that do not
/// decrypt are passed over, and the first that decrypts gives the key.
pub fn unwrap_file_key_with_age_identity(
    wrapped_keys: &[AgeWrappedFileKey],
    identity_secret: &str,
    device_id: Option<&str>,
) -> (r: Result<FileKey, CryptoError>)
    ensures
        !age_identity_valid(identity_secret@) <==> r == Err::<FileKey, CryptoError>(CryptoError::InvalidIdentity),
        r is Ok ==> exists|i: int| 0 <= i < wrapped_keys@.len() && age_candidate(#[trigger] wrapped_keys@[i], device_view(device_id)),
        r matches Err(CryptoError::AgeKeyWrongSize(d, n)) ==> n != 32 && exists|i: int|
            0 <= i < wrapped_keys@.len() && age_candidate(#[trigger] wrapped_keys@[i], device_view(device_id)) && d@
                == wrapped_keys@[i].recipient_device_id@,
        r == Err::<FileKey, CryptoError>(CryptoError::NoDecryptableAgeKey) ==> exists|i: int|
            0 <= i < wrapped_keys@.len() && age_candidate(#[trigger] wrapped_keys@[i], device_view(device_id)),
        r matches Err(CryptoError::NoAgeKeyForDevice(d)) ==> device_view(device_id) == Some(d@) && forall|i: int|
            0 <= i < wrapped_keys@.len() ==> !age_candidate(#[trigger] wrapped_keys@[i], device_view(device_id)),
        r == Err::<FileKey, CryptoError>(CryptoError::NoAgeKeys) ==> device_id is None && forall|i: int|
            0 <= i < wrapped_keys@.len() ==> !age_candidate(#[trigger] wrapped_keys@[i], device_view(device_id)),
        r matches Err(e) ==> (e is InvalidIdentity || e is AgeKeyWrongSize || e is NoDecryptableAgeKey
            || e is NoAgeKeyForDevice || e is NoAgeKeys),
        age_identity_valid(identity_secret@) && (forall|i: int|
            0 <= i < wrapped_keys@.len() ==> !age_candidate(#[trigger] wrapped_keys@[i], device_view(device_id)))
            ==> (r is Err && (r->Err_0 is NoAgeKeyForDevice || r->Err_0 is NoAgeKeys)),
        age_identity_valid(identity_secret@) ==> match first_open(
            wrapped_keys@,
            identity_secret@,
            device_view(device_id),
            0,
        ) {
            Some((k, p)) => if p.len() == 32 {
                r is Ok && r->Ok_0@ == p
            } else {
                r matches Err(CryptoError::AgeKeyWrongSize(d, n)) && d@ == wrapped_keys@[k].recipient_device_id@
                    && n == p.len()
            },
            None => r is Err && !(r->Err_0 is AgeKeyWrongSize),
        },
{
    match parse_age_identity(identity_secret) {
        Some(_) => {},
        None => {
            return Err(CryptoError::InvalidIdentity);
        },
    };
    let marker = chars_of(AGE_X25519_FILE_KEY_ALGORITHM);
    let mut saw_candidate = false;
    let mut i: usize = 0;
    while i < wrapped_keys.len()
        invariant
            i <= wrapped_keys@.len(),
            age_identity_valid(identity_secret@),
            marker@ == AGE_X25519_FILE_KEY_ALGORITHM@,
            saw_candidate <==> exists|k: int| 0 <= k < i && age_candidate(#[trigger] wrapped_keys@[k], device_view(device_id)),
            first_open(wrapped_keys@, identity_secret@, device_view(device_id), 0) == first_open(
                wrapped_keys@,
                identity_secret@,
                device_view(device_id),
                i as int,
            ),
        decreases wrapped_keys@.len() - i,
    {
        let w = &wrapped_keys[i];
        let alg = chars_of(w.algorithm.as_str());
        let mut candidate = chars_eq(alg.as_slice(), marker.as_slice());
        match device_id {
            Some(id) => {
                let a = chars_of(id);
                let b = chars_of(w.recipient_device_id.as_str());
                if !chars_eq(a.as_slice(), b.as_slice()) {
                    candidate = false;
                }
            },
            None => {},
        }
        assert(candidate == age_candidate(wrapped_keys@[i as int], device_view(device_id)));
        if candidate {
            saw_candidate = true;
            match age_decrypt_armor(identity_secret, w.wrapped_key.as_str()) {
                None => {},
                Some(p) => {
                    if p.len() != 32 {
                        return Err(CryptoError::AgeKeyWrongSize(w.recipient_device_id.clone(), p.len()));
                    }
                    return Ok(FileKey::from_bytes(array32(p.as_slice())));
                },
            }
        }
        i = i + 1;
    }
    if saw_candidate {
        return Err(CryptoError::NoDecryptableAgeKey);
    }
    match device_id {
        Some(d) => Err(CryptoError::NoAgeKeyForDevice(d.to_owned())),
        None => Err(CryptoError::NoAgeKeys),
    }
}

/// The wraps that `wrap_file_key_for_age_recipients` makes of `file_key`
/// for `recipients`, one per recipient in order.
pub open spec fn age_wraps_of(v: Seq<AgeWrappedFileKey>, recipients: Seq<AgeFileKeyRecipient>, file_key: Seq<u8>) -> bool {
    &&& v.len() == recipients.len()
    &&& forall|i: int|
        0 <= i < v.len() ==> {
            &&& (#[trigger] v[i]).recipient_device_id@ == recipients[i].device_id@
            &&& v[i].algorithm@ == AGE_X25519_FILE_KEY_ALGORITHM@
            &&& opens_to(v[i].wrapped_key@, recipients[i].recipient@, file_key)
        }
}

proof fn lemma_first_open_from(
    file_key: Seq<u8>,
    recipients: Seq<AgeFileKeyRecipient>,
    v: Seq<AgeWrappedFileKey>,
    identity: Seq<char>,
    j: int,
    i: int,
)
    requires
        age_wraps_of(v, recipients, file_key),
        0 <= i <= j < recipients.len(),
        age_identity_valid(identity),
        age_identity_recipient(identity) == recipients[j].recipient@,
        forall|k: int|
            0 <= k < recipients.len() && (#[trigger] recipients[k]).device_id@ == recipients[j].device_id@
                ==> recipients[k].recipient@ == recipients[j].recipient@,
    ensures
        first_open(v, identity, Some(recipients[j].device_id@), i) matches Some((k, p)) && p == file_key,
    decreases j - i,
{
    let d = Some(recipients[j].device_id@);
    if age_candidate(v[i], d) {
        assert(recipients[i].device_id@ == recipients[j].device_id@);
        assert(opens_to(v[i].wrapped_key@, recipients[i].recipient@, file_key));
        assert(age_open(identity, v[i].wrapped_key@) == Some(file_key));
    } else {
        assert(i != j);
        lemma_first_open_from(file_key, recipients, v, identity, j, i + 1);
    }
}

/// What one wrap call makes, the device it was made for unwraps: with an
/// identity whose recipient is that of device `j` (and every recipient
/// listed for that device being this one), the wraps addressed to the
/// device first open to the file key, so unwrapping for it gives the key
/// back.
pub proof fn lemma_age_wrap_roundtrip(
    file_key: Seq<u8>,
    recipients: Seq<AgeFileKeyRecipient>,
    v: Seq<AgeWrappedFileKey>,
    identity: Seq<char>,
    j: int,
)
    requires
        age_wraps_of(v, recipients, file_key),
        0 <= j < recipients.len(),
        age_identity_valid(identity),
        age_identity_recipient(identity) == recipients[j].recipient@,
        forall|k: int|
            0 <= k < recipients.len() && (#[trigger] recipients[k]).device_id@ == recipients[j].device_id@
                ==> recipients[k].recipient@ == recipients[j].recipient@,
    ensures
        first_open(v, identity, Some(recipients[j].device_id@), 0) matches Some((k, p)) && p == file_key,
{
    lemma_first_open_from(file_key, recipients, v, identity, j, 0);
}

} // verus!
