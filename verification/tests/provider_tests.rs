use tcfs::provider::{
    conflicting_writer, enrollment_refusal, sync_status_from_listing, verify_bootstrap_signature, ProviderError,
    SigningKeyError,
};

fn hex(b: &[u8]) -> String {
    b.iter().map(|x| format!("{:02x}", x)).collect()
}

#[test]
fn bootstrap_signature_is_keyed_blake3() {
    let key = [42u8; 32];
    let sig = blake3::keyed_hash(&key, b"payload").to_hex().to_string();
    assert_eq!(verify_bootstrap_signature("payload", &sig, &hex(&key)), Ok(true));
    assert_eq!(verify_bootstrap_signature("payload", &sig, &hex(&key).to_uppercase()), Ok(true));
    assert_eq!(verify_bootstrap_signature("payloaD", &sig, &hex(&key)), Ok(false));
    assert_eq!(verify_bootstrap_signature("payload", &sig[1..], &hex(&key)), Ok(false));
    assert_eq!(verify_bootstrap_signature("payload", &sig.to_uppercase(), &hex(&key)), Ok(false));
}

#[test]
fn bootstrap_key_must_be_32_hex_bytes() {
    assert_eq!(verify_bootstrap_signature("p", "s", "zz"), Err(SigningKeyError::InvalidHex));
    assert_eq!(verify_bootstrap_signature("p", "s", "+f"), Err(SigningKeyError::InvalidHex));
    assert_eq!(verify_bootstrap_signature("p", "s", "abc"), Err(SigningKeyError::InvalidHex));
    assert_eq!(verify_bootstrap_signature("p", "s", "aéb"), Err(SigningKeyError::InvalidHex));
    assert_eq!(verify_bootstrap_signature("p", "s", "abcd"), Err(SigningKeyError::WrongLength));
    assert_eq!(verify_bootstrap_signature("p", "s", ""), Err(SigningKeyError::WrongLength));
    let plus: String = std::iter::repeat("+a").take(32).collect();
    let sig = blake3::keyed_hash(&[10u8; 32], b"p").to_hex().to_string();
    assert_eq!(verify_bootstrap_signature("p", &sig, &plus), Err(SigningKeyError::InvalidHex));
    let digits: String = std::iter::repeat("0A").take(32).collect();
    assert_eq!(verify_bootstrap_signature("p", &sig, &digits), Ok(true));
}

#[test]
fn invites_are_refused_without_credentials() {
    let r = enrollment_refusal(false);
    assert!(!r.success);
    assert!(r.error_message.contains("cannot be verified"));
    assert_eq!(r.storage_endpoint, "");
    assert_eq!(r.access_key, "");
    assert_eq!(r.s3_secret, "");
    assert_eq!(r.encryption_passphrase, "");
    assert_eq!(enrollment_refusal(true).error_message, "invite has expired");
}

#[test]
fn provider_errors_read_as_their_kind() {
    assert_eq!(ProviderError::NotFound { path: "a/b".into() }.message(), "Not found: a/b");
    assert_eq!(ProviderError::Storage { message: "x".into() }.message(), "Storage error: x");
}

#[test]
fn sync_status_counts_files_not_directories() {
    let keys = vec!["p/index/a.txt".to_string(), "p/index/dir/".to_string(), "p/index/dir/b".to_string()];
    let st = sync_status_from_listing(Ok(&keys));
    assert!(st.connected);
    assert_eq!(st.files_synced, 2);
    assert_eq!(st.files_pending, 0);
    assert!(st.last_error.is_none());
}

#[test]
fn sync_status_reports_listing_error() {
    let st = sync_status_from_listing(Err("NotFound".to_string()));
    assert!(!st.connected);
    assert_eq!(st.files_synced, 0);
    assert_eq!(st.last_error.as_deref(), Some("NotFound"));
}

#[test]
fn conflict_only_with_unmerged_other_writer() {
    let clock = vec!["dev-b".to_string()];
    assert_eq!(conflicting_writer("dev-b", &clock, "dev-a"), Some("dev-b".to_string()));
    assert_eq!(conflicting_writer("dev-a", &clock, "dev-a"), None);
    let merged = vec!["dev-b".to_string(), "dev-a".to_string()];
    assert_eq!(conflicting_writer("dev-b", &merged, "dev-a"), None);
}
