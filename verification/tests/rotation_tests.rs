use tcfs::keys::{FileKey, MasterKey};
use tcfs::manifest::EncryptedManifest;
use tcfs::rotation::{
    resume_decision, rewrap_file_key, KeyRotationState, KeyRotationStatus, ManifestOutcome, ManifestRead, ResumeDecision,
    Rewrap,
};

fn wrapped_under(master: &MasterKey, file_key: &FileKey) -> String {
    EncryptedManifest::new("f".to_string(), 0, master, file_key, vec![]).unwrap().wrapped_file_key
}

#[test]
fn new_state_starts_rewriting_with_zero_counters() {
    let s = KeyRotationState::new("data/manifests/", "/tmp/pending.key", 77);
    assert_eq!(s.version, 1);
    assert_eq!(s.started_at, 77);
    assert_eq!(s.manifest_prefix, "data/manifests/");
    assert_eq!(s.pending_key_path, "/tmp/pending.key");
    assert_eq!(s.status, KeyRotationStatus::RewritingManifests);
    assert_eq!(s.rotated_manifests + s.already_rotated_manifests + s.skipped_plaintext_manifests + s.error_count, 0);
    assert!(s.last_manifest_path.is_none());
}

#[test]
fn record_counts_each_outcome_once() {
    let mut s = KeyRotationState::new("p/", "k", 0);
    s.record("p/a", ManifestOutcome::Rotated);
    s.record("p/b", ManifestOutcome::AlreadyRotated);
    s.record("p/c", ManifestOutcome::Plaintext);
    s.record("p/d", ManifestOutcome::Rotated);
    assert_eq!(s.rotated_manifests, 2);
    assert_eq!(s.already_rotated_manifests, 1);
    assert_eq!(s.skipped_plaintext_manifests, 1);
    assert_eq!(s.error_count, 0);
    assert_eq!(s.last_manifest_path.as_deref(), Some("p/d"));
    assert!(s.interrupted(Some(2)));
    assert!(!s.interrupted(Some(3)));
    assert!(!s.interrupted(None));
    assert_eq!(s.finish_scan(), Ok(()));
    assert_eq!(s.status, KeyRotationStatus::ReadyToSwap);
}

#[test]
fn errors_keep_rotation_incomplete() {
    let mut s = KeyRotationState::new("p/", "k", 0);
    s.record("p/a", ManifestOutcome::Failed);
    s.record("p/b", ManifestOutcome::Failed);
    assert_eq!(s.finish_scan(), Err(2));
    assert_eq!(s.status, KeyRotationStatus::RewritingManifests);
    s.reset_scan_progress();
    assert_eq!(s.error_count, 0);
    assert!(s.last_manifest_path.is_none());
    assert_eq!(s.manifest_prefix, "p/");
}

#[test]
fn rewrap_moves_key_to_new_master() {
    let old = MasterKey::from_bytes([1u8; 32]);
    let new = MasterKey::from_bytes([2u8; 32]);
    let fk = FileKey::from_bytes([9u8; 32]);
    let w = wrapped_under(&old, &fk);
    let t = match rewrap_file_key(&old, &new, &w).unwrap() {
        Rewrap::Rotated(t) => t,
        other => panic!("unexpected {:?}", other),
    };
    assert_ne!(t, w);
    let m = EncryptedManifest { version: 1, file_id: "f".into(), original_size: 0, wrapped_file_key: t.clone(), chunks: vec![] };
    assert_eq!(m.unwrap_file_key(&new).unwrap().as_bytes(), &[9u8; 32]);
    assert!(matches!(rewrap_file_key(&old, &new, &t).unwrap(), Rewrap::AlreadyRotated));
}

#[test]
fn rewrap_reports_foreign_and_malformed_keys() {
    let old = MasterKey::from_bytes([1u8; 32]);
    let new = MasterKey::from_bytes([2u8; 32]);
    let other = MasterKey::from_bytes([3u8; 32]);
    let fk = FileKey::from_bytes([9u8; 32]);
    let w = wrapped_under(&other, &fk);
    assert!(matches!(rewrap_file_key(&old, &new, &w).unwrap(), Rewrap::Unwrappable));
    assert!(matches!(rewrap_file_key(&old, &new, "!!not base64!!").unwrap(), Rewrap::NotBase64));
}

#[test]
fn resume_checks_prefix_then_key() {
    let a = MasterKey::from_bytes([1u8; 32]);
    let b = MasterKey::from_bytes([2u8; 32]);
    assert_eq!(resume_decision("x/", "y/", &a, &a), ResumeDecision::PrefixMismatch);
    assert_eq!(resume_decision("x/", "x/", &b, &b), ResumeDecision::AlreadyFinalized);
    assert_eq!(resume_decision("x/", "x/", &a, &b), ResumeDecision::Resume);
}

#[test]
fn scan_decides_each_manifest() {
    let old = MasterKey::from_bytes([1u8; 32]);
    let new = MasterKey::from_bytes([2u8; 32]);
    let other = MasterKey::from_bytes([3u8; 32]);
    let fk = FileKey::from_bytes([9u8; 32]);
    let mut s = KeyRotationState::new("p/", "k", 0);
    assert_eq!(s.scan_manifest("p/dir/", ManifestRead::Directory, &old, &new), None);
    assert!(s.last_manifest_path.is_none());
    assert_eq!(s.scan_manifest("p/a", ManifestRead::Unreadable, &old, &new), None);
    assert_eq!(s.scan_manifest("p/b", ManifestRead::NoFileKey, &old, &new), None);
    assert_eq!(s.scan_manifest("p/c", ManifestRead::WrappedKey("!!".into()), &old, &new), None);
    assert_eq!(s.scan_manifest("p/d", ManifestRead::WrappedKey(wrapped_under(&new, &fk)), &old, &new), None);
    assert_eq!(s.scan_manifest("p/e", ManifestRead::WrappedKey(wrapped_under(&other, &fk)), &old, &new), None);
    assert_eq!(s.error_count, 3);
    assert_eq!(s.skipped_plaintext_manifests, 1);
    assert_eq!(s.already_rotated_manifests, 1);
    assert_eq!(s.rotated_manifests, 0);
    assert_eq!(s.last_manifest_path.as_deref(), Some("p/e"));
    let rewrapped = s.scan_manifest("p/f", ManifestRead::WrappedKey(wrapped_under(&old, &fk)), &old, &new).unwrap();
    // Nothing is counted until the write back is recorded.
    assert_eq!(s.rotated_manifests, 0);
    assert_eq!(s.last_manifest_path.as_deref(), Some("p/e"));
    let mut m = EncryptedManifest::new("f".to_string(), 0, &new, &fk, vec![]).unwrap();
    m.wrapped_file_key = rewrapped;
    assert_eq!(m.unwrap_file_key(&new).unwrap().as_bytes(), fk.as_bytes());
    s.record("p/f", ManifestOutcome::Rotated);
    assert_eq!(s.rotated_manifests, 1);
    assert_eq!(s.finish_scan(), Err(3));
}
