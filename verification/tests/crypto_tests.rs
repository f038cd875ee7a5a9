use secrecy::ExposeSecret;
use tcfs::age_keys::{
    age_recipient_for_identity, age_recipient_low_order, unwrap_file_key_with_age_identity,
    wrap_file_key_for_age_recipients, AgeFileKeyRecipient,
};
use tcfs::chunk_crypto::{build_aad, decrypt_chunk, encrypt_chunk};
use tcfs::keys::{
    derive_manifest_key, derive_master_key, derive_name_key, generate_file_key, unwrap_key, wrap_key, CryptoError,
    FileKey, KdfParams, MasterKey, AGE_X25519_FILE_KEY_ALGORITHM, KEY_SIZE, NONCE_SIZE, TAG_SIZE,
};
use tcfs::manifest::{EncryptedManifest, ManifestEntry};
use tcfs::names::{decrypt_name, encrypt_name};
use tcfs::recovery::{generate_mnemonic, mnemonic_to_master_key};

fn test_master_key() -> MasterKey {
    MasterKey::from_bytes([42u8; KEY_SIZE])
}

fn fast_params() -> KdfParams {
    KdfParams { mem_cost_kib: 1024, time_cost: 1, parallelism: 1 }
}

#[test]
fn test_kdf_deterministic() {
    let salt = [1u8; 16];
    let key1 = derive_master_key("test-passphrase-123", &salt, &fast_params()).unwrap();
    let key2 = derive_master_key("test-passphrase-123", &salt, &fast_params()).unwrap();
    assert_eq!(key1.as_bytes(), key2.as_bytes(), "KDF must be deterministic");
}

#[test]
fn test_kdf_different_passphrases() {
    let salt = [1u8; 16];
    let key1 = derive_master_key("passphrase-a", &salt, &fast_params()).unwrap();
    let key2 = derive_master_key("passphrase-b", &salt, &fast_params()).unwrap();
    assert_ne!(key1.as_bytes(), key2.as_bytes());
}

#[test]
fn test_kdf_different_salts() {
    let key1 = derive_master_key("same-passphrase", &[1u8; 16], &fast_params()).unwrap();
    let key2 = derive_master_key("same-passphrase", &[2u8; 16], &fast_params()).unwrap();
    assert_ne!(key1.as_bytes(), key2.as_bytes());
}

#[test]
fn kdf_rejects_invalid_params() {
    let bad = [
        KdfParams { mem_cost_kib: 4, time_cost: 1, parallelism: 1 },
        KdfParams { mem_cost_kib: 1024, time_cost: 0, parallelism: 1 },
        KdfParams { mem_cost_kib: 1024, time_cost: 1, parallelism: 0 },
        KdfParams { mem_cost_kib: 16, time_cost: 1, parallelism: 4 },
    ];
    for p in &bad {
        assert_eq!(derive_master_key("x", &[0u8; 16], p).err(), Some(CryptoError::InvalidKdfParams));
    }
}

#[test]
fn kdf_params_default() {
    let p = KdfParams::default();
    assert_eq!((p.mem_cost_kib, p.time_cost, p.parallelism), (65536, 3, 4));
}

#[test]
fn test_file_key_generation() {
    let k1 = generate_file_key();
    let k2 = generate_file_key();
    assert_ne!(k1.as_bytes(), k2.as_bytes(), "random keys must differ");
}

#[test]
fn test_key_wrap_unwrap_roundtrip() {
    let master = test_master_key();
    let file_key = generate_file_key();
    let wrapped = wrap_key(&master, &file_key).unwrap();
    let unwrapped = unwrap_key(&master, &wrapped).unwrap();
    assert_eq!(file_key.as_bytes(), unwrapped.as_bytes());
}

#[test]
fn test_key_unwrap_wrong_master() {
    let master1 = MasterKey::from_bytes([1u8; KEY_SIZE]);
    let master2 = MasterKey::from_bytes([2u8; KEY_SIZE]);
    let file_key = generate_file_key();
    let wrapped = wrap_key(&master1, &file_key).unwrap();
    assert_eq!(unwrap_key(&master2, &wrapped).err(), Some(CryptoError::KeyUnwrap));
}

#[test]
fn unwrap_rejects_short_input() {
    let master = test_master_key();
    assert_eq!(unwrap_key(&master, &[0u8; 71]).err(), Some(CryptoError::WrappedKeyTooShort(71)));
}

#[test]
fn test_hkdf_derive_different_domains() {
    let master = test_master_key();
    let manifest_key = derive_manifest_key(&master).unwrap();
    let name_key = derive_name_key(&master).unwrap();
    assert_ne!(manifest_key, name_key, "different domains must produce different keys");
}

#[test]
fn hkdf_derivation_is_deterministic() {
    let a = derive_manifest_key(&test_master_key()).unwrap();
    let b = derive_manifest_key(&test_master_key()).unwrap();
    assert_eq!(a, b);
    assert_ne!(a, *test_master_key().as_bytes());
}

#[test]
fn test_wrapped_key_size() {
    let master = test_master_key();
    let file_key = generate_file_key();
    let wrapped = wrap_key(&master, &file_key).unwrap();
    assert_eq!(wrapped.len(), NONCE_SIZE + KEY_SIZE + TAG_SIZE);
}

#[test]
fn test_age_recipient_file_key_wrap_roundtrip() {
    let device_a = age::x25519::Identity::generate();
    let device_b = age::x25519::Identity::generate();
    let outsider = age::x25519::Identity::generate();
    let file_key = generate_file_key();
    let wrapped = wrap_file_key_for_age_recipients(
        &file_key,
        &[
            AgeFileKeyRecipient { device_id: "device-a".into(), recipient: device_a.to_public().to_string() },
            AgeFileKeyRecipient { device_id: "device-b".into(), recipient: device_b.to_public().to_string() },
        ],
    )
    .unwrap();
    assert_eq!(wrapped.len(), 2);
    assert!(wrapped.iter().all(|wrap| wrap.algorithm == AGE_X25519_FILE_KEY_ALGORITHM));
    let a = unwrap_file_key_with_age_identity(&wrapped, device_a.to_string().expose_secret(), Some("device-a"))
        .unwrap();
    let b = unwrap_file_key_with_age_identity(&wrapped, device_b.to_string().expose_secret(), Some("device-b"))
        .unwrap();
    assert_eq!(a.as_bytes(), file_key.as_bytes());
    assert_eq!(b.as_bytes(), file_key.as_bytes());
    let outsider_result = unwrap_file_key_with_age_identity(&wrapped, outsider.to_string().expose_secret(), None);
    assert_eq!(outsider_result.err(), Some(CryptoError::NoDecryptableAgeKey));
}

#[test]
fn test_age_wrap_rejects_bad_recipient() {
    let file_key = generate_file_key();
    let result = wrap_file_key_for_age_recipients(
        &file_key,
        &[AgeFileKeyRecipient { device_id: "bad-device".into(), recipient: "age1-not-a-real-recipient".into() }],
    );
    assert_eq!(result.err(), Some(CryptoError::InvalidRecipient("bad-device".to_string())));
}

#[test]
fn age_wrap_needs_a_recipient() {
    let file_key = generate_file_key();
    assert_eq!(wrap_file_key_for_age_recipients(&file_key, &[]).err(), Some(CryptoError::NoRecipients));
}

#[test]
fn age_unwrap_errors() {
    let id = age::x25519::Identity::generate();
    let secret = id.to_string();
    assert_eq!(
        unwrap_file_key_with_age_identity(&[], "not-an-identity", None).err(),
        Some(CryptoError::InvalidIdentity)
    );
    assert_eq!(unwrap_file_key_with_age_identity(&[], secret.expose_secret(), None).err(), Some(CryptoError::NoAgeKeys));
    assert_eq!(
        unwrap_file_key_with_age_identity(&[], secret.expose_secret(), Some("dev")).err(),
        Some(CryptoError::NoAgeKeyForDevice("dev".to_string()))
    );
    let file_key = generate_file_key();
    let wrapped = wrap_file_key_for_age_recipients(
        &file_key,
        &[AgeFileKeyRecipient { device_id: "dev".into(), recipient: id.to_public().to_string() }],
    )
    .unwrap();
    assert_eq!(
        unwrap_file_key_with_age_identity(&wrapped, secret.expose_secret(), Some("other")).err(),
        Some(CryptoError::NoAgeKeyForDevice("other".to_string()))
    );
    let k = unwrap_file_key_with_age_identity(&wrapped, secret.expose_secret(), None).unwrap();
    assert_eq!(k.as_bytes(), file_key.as_bytes());
}

#[test]
fn test_encrypt_decrypt_roundtrip() {
    let key = generate_file_key();
    let file_id = [0xABu8; 32];
    let plaintext = b"hello, encrypted world!";
    let encrypted = encrypt_chunk(&key, 0, &file_id, plaintext).unwrap();
    let decrypted = decrypt_chunk(&key, 0, &file_id, &encrypted).unwrap();
    assert_eq!(&decrypted, plaintext);
}

#[test]
fn test_encrypt_decrypt_empty() {
    let key = generate_file_key();
    let file_id = [0u8; 32];
    let encrypted = encrypt_chunk(&key, 0, &file_id, b"").unwrap();
    let decrypted = decrypt_chunk(&key, 0, &file_id, &encrypted).unwrap();
    assert_eq!(decrypted, b"");
}

#[test]
fn chunk_test_decrypt_wrong_key() {
    let key1 = generate_file_key();
    let key2 = generate_file_key();
    let file_id = [0u8; 32];
    let encrypted = encrypt_chunk(&key1, 0, &file_id, b"secret data").unwrap();
    assert!(decrypt_chunk(&key2, 0, &file_id, &encrypted).is_err());
}

#[test]
fn test_decrypt_wrong_chunk_index() {
    let key = generate_file_key();
    let file_id = [0u8; 32];
    let encrypted = encrypt_chunk(&key, 0, &file_id, b"secret data").unwrap();
    assert!(decrypt_chunk(&key, 1, &file_id, &encrypted).is_err(), "wrong chunk_index must fail (AAD mismatch)");
}

#[test]
fn test_decrypt_wrong_file_id() {
    let key = generate_file_key();
    let encrypted = encrypt_chunk(&key, 0, &[0xAAu8; 32], b"secret data").unwrap();
    assert!(decrypt_chunk(&key, 0, &[0xBBu8; 32], &encrypted).is_err(), "wrong file_id must fail (AAD mismatch)");
}

#[test]
fn test_encrypted_size() {
    let key = generate_file_key();
    let encrypted = encrypt_chunk(&key, 0, &[0u8; 32], &vec![0u8; 1000]).unwrap();
    assert_eq!(encrypted.len(), 24 + 1000 + 16);
}

#[test]
fn test_tampered_ciphertext() {
    let key = generate_file_key();
    let file_id = [0u8; 32];
    let mut encrypted = encrypt_chunk(&key, 0, &file_id, b"secret data").unwrap();
    encrypted[25] ^= 0xFF;
    assert_eq!(decrypt_chunk(&key, 0, &file_id, &encrypted).err(), Some(CryptoError::ChunkDecrypt));
}

#[test]
fn decrypt_chunk_rejects_short_input() {
    let key = generate_file_key();
    assert_eq!(
        decrypt_chunk(&key, 0, &[0u8; 32], &[0u8; 39]).err(),
        Some(CryptoError::EncryptedChunkTooShort(39))
    );
}

#[test]
fn aad_layout() {
    let aad = build_aad(0x0102030405060708, &[9u8; 32]);
    assert_eq!(&aad[..8], &[1, 2, 3, 4, 5, 6, 7, 8]);
    assert_eq!(&aad[8..], &[9u8; 32]);
}

#[test]
fn test_manifest_roundtrip() {
    let master = MasterKey::from_bytes([42u8; KEY_SIZE]);
    let file_key = generate_file_key();
    let manifest = EncryptedManifest::new(
        "abc123def456".to_string(),
        1024,
        &master,
        &file_key,
        vec![
            ManifestEntry { hash: "chunk_hash_0".to_string(), index: 0, encrypted_size: 540 },
            ManifestEntry { hash: "chunk_hash_1".to_string(), index: 1, encrypted_size: 524 },
        ],
    )
    .unwrap();
    let restored = manifest.clone();
    assert_eq!(restored.version, 1);
    assert_eq!(restored.file_id, "abc123def456");
    assert_eq!(restored.original_size, 1024);
    assert_eq!(restored.chunks.len(), 2);
    let unwrapped = restored.unwrap_file_key(&master).unwrap();
    assert_eq!(unwrapped.as_bytes(), file_key.as_bytes());
}

#[test]
fn test_manifest_wrong_master_key() {
    let master1 = MasterKey::from_bytes([1u8; KEY_SIZE]);
    let master2 = MasterKey::from_bytes([2u8; KEY_SIZE]);
    let file_key = generate_file_key();
    let manifest = EncryptedManifest::new("test".to_string(), 100, &master1, &file_key, vec![]).unwrap();
    assert!(manifest.unwrap_file_key(&master2).is_err());
}

#[test]
fn manifest_rejects_bad_base64() {
    let mut manifest =
        EncryptedManifest::new("t".to_string(), 1, &test_master_key(), &generate_file_key(), vec![]).unwrap();
    manifest.wrapped_file_key = "!!!".to_string();
    assert_eq!(manifest.unwrap_file_key(&test_master_key()).err(), Some(CryptoError::Base64Decode));
}

fn test_name_key() -> [u8; KEY_SIZE] {
    [0x55u8; KEY_SIZE]
}

#[test]
fn test_encrypt_decrypt_name_roundtrip() {
    let key = test_name_key();
    let encrypted = encrypt_name(&key, "my-photo.jpg").unwrap();
    assert_eq!(decrypt_name(&key, &encrypted).unwrap(), "my-photo.jpg");
}

#[test]
fn test_deterministic_encryption() {
    let key = test_name_key();
    let enc1 = encrypt_name(&key, "report.pdf").unwrap();
    let enc2 = encrypt_name(&key, "report.pdf").unwrap();
    assert_eq!(enc1, enc2, "AES-SIV must be deterministic");
}

#[test]
fn test_different_names_different_ciphertext() {
    let key = test_name_key();
    assert_ne!(encrypt_name(&key, "file_a.txt").unwrap(), encrypt_name(&key, "file_b.txt").unwrap());
}

#[test]
fn test_different_keys_different_ciphertext() {
    let enc1 = encrypt_name(&[0x11u8; KEY_SIZE], "same-name.txt").unwrap();
    let enc2 = encrypt_name(&[0x22u8; KEY_SIZE], "same-name.txt").unwrap();
    assert_ne!(enc1, enc2);
}

#[test]
fn names_test_decrypt_wrong_key() {
    let encrypted = encrypt_name(&[0x11u8; KEY_SIZE], "secret.txt").unwrap();
    assert_eq!(decrypt_name(&[0x22u8; KEY_SIZE], &encrypted).err(), Some(CryptoError::NameDecrypt));
}

#[test]
fn test_unicode_filename() {
    let key = test_name_key();
    let name = "research-2026-02-21.pdf";
    let encrypted = encrypt_name(&key, name).unwrap();
    assert_eq!(decrypt_name(&key, &encrypted).unwrap(), name);
    let accented = "résumé-日本.txt";
    let encrypted = encrypt_name(&key, accented).unwrap();
    assert_eq!(decrypt_name(&key, &encrypted).unwrap(), accented);
}

#[test]
fn decrypt_name_rejects_bad_hex() {
    let key = test_name_key();
    assert_eq!(
        decrypt_name(&key, "abc").err(),
        Some(CryptoError::NameHex("odd-length hex string".to_string()))
    );
}

#[test]
fn encrypted_name_is_lowercase_hex() {
    let encrypted = encrypt_name(&test_name_key(), "a").unwrap();
    assert_eq!(encrypted.len(), 2 * (16 + 1));
    assert!(encrypted.chars().all(|c| c.is_ascii_digit() || ('a'..='f').contains(&c)));
}

#[test]
fn test_generate_mnemonic() {
    let (words, key) = generate_mnemonic().unwrap();
    assert_eq!(words.split_whitespace().count(), 24, "BIP-39 mnemonic must have 24 words");
    assert_ne!(key.as_bytes(), &[0u8; 32], "key must not be all zeros");
}

#[test]
fn test_mnemonic_recovery_roundtrip() {
    let (words, original_key) = generate_mnemonic().unwrap();
    let recovered_key = mnemonic_to_master_key(&words).unwrap();
    assert_eq!(original_key.as_bytes(), recovered_key.as_bytes());
}

#[test]
fn test_invalid_mnemonic() {
    assert_eq!(mnemonic_to_master_key("not a valid mnemonic at all").err(), Some(CryptoError::InvalidMnemonic));
}

#[test]
fn test_different_mnemonics_different_keys() {
    let (_, key1) = generate_mnemonic().unwrap();
    let (_, key2) = generate_mnemonic().unwrap();
    assert_ne!(key1.as_bytes(), key2.as_bytes());
}

#[test]
fn file_key_from_bytes_roundtrip() {
    let k = FileKey::from_bytes([3u8; 32]);
    assert_eq!(k.as_bytes(), &[3u8; 32]);
}

#[test]
fn manifest_wrapped_key_is_96_base64_chars() {
    let master = MasterKey::from_bytes([42u8; KEY_SIZE]);
    let m = EncryptedManifest::new("f".to_string(), 0, &master, &generate_file_key(), vec![]).unwrap();
    assert_eq!(m.wrapped_file_key.len(), 96);
}

#[test]
fn age_unwrap_by_device_after_wrap_to_several() {
    let a = age::x25519::Identity::generate();
    let b = age::x25519::Identity::generate();
    let fk = generate_file_key();
    let recipients = vec![
        AgeFileKeyRecipient { device_id: "dev-a".to_string(), recipient: a.to_public().to_string() },
        AgeFileKeyRecipient { device_id: "dev-b".to_string(), recipient: b.to_public().to_string() },
    ];
    let wraps = wrap_file_key_for_age_recipients(&fk, &recipients).unwrap();
    let b_secret = b.to_string();
    let got = unwrap_file_key_with_age_identity(&wraps, b_secret.expose_secret(), Some("dev-b")).unwrap();
    assert_eq!(got.as_bytes(), fk.as_bytes());
}

#[test]
fn age_low_order_recipients_are_detected() {
    let zero = "age1qqqqqqqqqqqqqqqqqqqqqqqqqqqqqqqqqqqqqqqqqqqqqqqqqqqq5cu47z";
    assert!(age_recipient_low_order(zero));
    assert!(age_recipient_low_order(&zero.to_uppercase()));
    assert!(age_recipient_low_order("age1ur4h5lpmgxu2u9jku0a0r87ydtdqnr0tnsetrlvxvgz3vh6fhqqqzyt4v9"));
    assert!(age_recipient_low_order("age1amlllllllllllllllllllllllllllllllllllllllllllllllllsam3fc4"));
    // Each of these parses as a recipient: age accepts the key, and its wrap would panic.
    assert!(zero.parse::<age::x25519::Recipient>().is_ok());
    let id = age::x25519::Identity::generate();
    assert!(!age_recipient_low_order(&id.to_public().to_string()));
    assert!(!age_recipient_low_order("age1-not-a-real-recipient"));
}

#[test]
fn age_recipient_for_identity_matches_age() {
    let id = age::x25519::Identity::generate();
    let secret = id.to_string();
    assert_eq!(age_recipient_for_identity(secret.expose_secret()), Ok(id.to_public().to_string()));
    assert_eq!(age_recipient_for_identity("not-an-identity"), Err(CryptoError::InvalidIdentity));
}

#[test]
fn age_wrap_to_recipient_of_identity_unwraps() {
    let id = age::x25519::Identity::generate();
    let secret = id.to_string();
    let recipient = age_recipient_for_identity(secret.expose_secret()).unwrap();
    let file_key = generate_file_key();
    let wrapped =
        wrap_file_key_for_age_recipients(&file_key, &[AgeFileKeyRecipient { device_id: "d".into(), recipient }])
            .unwrap();
    let back = unwrap_file_key_with_age_identity(&wrapped, secret.expose_secret(), Some("d")).unwrap();
    assert_eq!(back.as_bytes(), file_key.as_bytes());
}

#[test]
fn manifest_rejects_noncanonical_base64() {
    let master = test_master_key();
    let fk = generate_file_key();
    let mut manifest = EncryptedManifest::new("f".into(), 0, &master, &fk, vec![]).unwrap();
    // Unpadded, and with set trailing bits: neither is what encoding makes.
    manifest.wrapped_file_key = "QQ".into();
    assert_eq!(manifest.unwrap_file_key(&master).err(), Some(CryptoError::Base64Decode));
    manifest.wrapped_file_key = "QR==".into();
    assert_eq!(manifest.unwrap_file_key(&master).err(), Some(CryptoError::Base64Decode));
}
