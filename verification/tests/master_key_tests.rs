use base64::Engine;
use tcfs::keys::{derive_master_key, KdfParams, MasterKey};
use tcfs::master_key::{
    count_words, derive_master_key_from_config, master_key_file_to_read, master_key_from_bytes, passphrase_master_key,
    provider_master_key, salt_from_text, WrongKeySize,
};
use tcfs::provider::ProviderConfig;
use tcfs::recovery::generate_mnemonic;
use tcfs::storage_bounds::{JsonNumber, JsonObject, JsonValue};

fn obj(members: Vec<(&str, JsonValue)>) -> JsonObject {
    JsonObject { members: members.into_iter().map(|(k, v)| (k.to_string(), v)).collect() }
}

fn s(v: &str) -> JsonValue {
    JsonValue::String(v.to_string())
}

fn light() -> KdfParams {
    KdfParams { mem_cost_kib: 64, time_cost: 1, parallelism: 1 }
}

#[test]
fn mnemonic_config_uses_recovery_derivation() {
    let (words, expected) = generate_mnemonic().unwrap();
    let config = obj(vec![("encryption_passphrase", s(&words)), ("encryption_salt", s("ignored-for-mnemonic"))]);
    let actual = derive_master_key_from_config(&config, None).unwrap();
    assert_eq!(actual.as_bytes(), expected.as_bytes());
}

#[test]
fn raw_master_key_config_takes_precedence_over_passphrase() {
    let expected = MasterKey::from_bytes([7u8; 32]);
    let config = obj(vec![
        ("master_key_base64", s(&base64::engine::general_purpose::STANDARD.encode(expected.as_bytes()))),
        ("encryption_passphrase", s("stale passphrase")),
        ("encryption_salt", s("stale salt")),
    ]);
    let actual = derive_master_key_from_config(&config, None).unwrap();
    assert_eq!(actual.as_bytes(), expected.as_bytes());
}

#[test]
fn raw_key_is_trimmed_and_must_be_32_bytes() {
    let text = format!("  {}\n", base64::engine::general_purpose::STANDARD.encode([3u8; 32]));
    let k = derive_master_key_from_config(&obj(vec![("master_key_base64", s(&text))]), None).unwrap();
    assert_eq!(k.as_bytes(), &[3u8; 32]);
    let short = base64::engine::general_purpose::STANDARD.encode([3u8; 31]);
    assert!(derive_master_key_from_config(&obj(vec![("master_key_base64", s(&short))]), None).is_none());
    let config = obj(vec![("master_key_base64", s("not base64!")), ("encryption_passphrase", s("pw"))]);
    assert!(derive_master_key_from_config(&config, None).is_none());
}

#[test]
fn key_file_is_read_only_without_inlined_key() {
    let with_file = obj(vec![("master_key_file", s("/keys/master.key")), ("encryption_passphrase", s("pw"))]);
    assert_eq!(master_key_file_to_read(&with_file).as_deref(), Some("/keys/master.key"));
    let both = obj(vec![("master_key_base64", s("AAAA")), ("master_key_file", s("/keys/master.key"))]);
    assert_eq!(master_key_file_to_read(&both), None);
    assert_eq!(master_key_file_to_read(&obj(vec![("master_key_file", s(""))])), None);
    let k = derive_master_key_from_config(&with_file, Some(&[5u8; 32])).unwrap();
    assert_eq!(k.as_bytes(), &[5u8; 32]);
    assert!(derive_master_key_from_config(&with_file, Some(&[5u8; 16])).is_none());
    assert!(derive_master_key_from_config(&with_file, None).is_none());
}

#[test]
fn passphrase_config_uses_salt_and_costs() {
    let config = obj(vec![
        ("encryption_passphrase", s("correct horse")),
        ("encryption_salt", s("0123456789abcdefXYZ")),
        ("argon2_mem_cost_kib", JsonValue::Number(JsonNumber::PosInt(64))),
        ("argon2_time_cost", JsonValue::Number(JsonNumber::PosInt(1))),
        ("argon2_parallelism", JsonValue::Number(JsonNumber::PosInt(1))),
    ]);
    let k = derive_master_key_from_config(&config, None).unwrap();
    let expected = derive_master_key("correct horse", b"0123456789abcdef", &light()).unwrap();
    assert_eq!(k.as_bytes(), expected.as_bytes());
    let bad = obj(vec![
        ("encryption_passphrase", s("pw")),
        ("argon2_mem_cost_kib", JsonValue::Number(JsonNumber::PosInt(64))),
        ("argon2_time_cost", JsonValue::Number(JsonNumber::PosInt(0))),
    ]);
    assert!(derive_master_key_from_config(&bad, None).is_none());
    assert!(derive_master_key_from_config(&obj(vec![]), None).is_none());
    assert!(derive_master_key_from_config(&obj(vec![("encryption_passphrase", s(""))]), None).is_none());
}

#[test]
fn huge_parallelism_is_refused() {
    let params = KdfParams { mem_cost_kib: 65536, time_cost: 3, parallelism: 0x4000_0000 };
    assert!(passphrase_master_key("pw", "salt", &params).is_err());
}

#[test]
fn words_and_salts() {
    assert_eq!(count_words(""), 0);
    assert_eq!(count_words("   "), 0);
    assert_eq!(count_words("one"), 1);
    assert_eq!(count_words("  one two\tthree\n "), 3);
    assert_eq!(count_words("a\u{3000}b"), 2);
    assert_eq!(salt_from_text("abc"), [b'a', b'b', b'c', 0, 0, 0, 0, 0, 0, 0, 0, 0, 0, 0, 0, 0]);
    assert_eq!(&salt_from_text("0123456789abcdefghij"), b"0123456789abcdef");
}

#[test]
fn raw_bytes_must_be_a_whole_key() {
    assert_eq!(master_key_from_bytes(&[1u8; 32]).unwrap().as_bytes(), &[1u8; 32]);
    assert_eq!(master_key_from_bytes(&[1u8; 33]).err(), Some(WrongKeySize(33)));
    assert_eq!(master_key_from_bytes(&[]).err(), Some(WrongKeySize(0)));
}

#[test]
fn empty_provider_passphrase_means_plaintext() {
    let config = ProviderConfig {
        s3_endpoint: "http://localhost:9000".into(),
        s3_bucket: "b".into(),
        access_key: "a".into(),
        s3_secret: "s".into(),
        remote_prefix: "p".into(),
        device_id: "d".into(),
        encryption_passphrase: String::new(),
        encryption_salt: "salt".into(),
    };
    assert!(provider_master_key(&config).unwrap().is_none());
    let (words, expected) = generate_mnemonic().unwrap();
    let with_phrase = ProviderConfig { encryption_passphrase: words, ..config };
    let k = provider_master_key(&with_phrase).unwrap().unwrap();
    assert_eq!(k.as_bytes(), expected.as_bytes());
}
