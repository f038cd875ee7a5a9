use tcfs::enumerate::{immediate_children, listing_prefix, ListedKey};
use tcfs::fetch::{fetch_file_key, file_id_from_hash, open_chunk, reassemble, FetchError};
use tcfs::keys::{FileKey, MasterKey};
use tcfs::upload::{prepare_upload, storage_key, PreparedUpload};

fn sample(n: usize) -> Vec<u8> {
    let mut x: u32 = 12345;
    (0..n)
        .map(|_| {
            x = x.wrapping_mul(1103515245).wrapping_add(12345);
            (x >> 16) as u8
        })
        .collect()
}

fn fetch(u: &PreparedUpload, master: Option<&MasterKey>) -> Result<Vec<u8>, FetchError> {
    let hashes: Vec<String> = u.chunks.iter().map(|c| c.hash.clone()).collect();
    let stored: Vec<Vec<u8>> = u.chunks.iter().map(|c| c.bytes.clone()).collect();
    reassemble(master, u.encrypted_file_key.as_deref(), &u.file_hash, &hashes, &stored)
}

#[test]
fn encrypted_upload_reads_back() {
    let mk = MasterKey::from_bytes([7u8; 32]);
    let data = sample(100_000);
    let u = prepare_upload(&data, Some(&mk), "data/", "/docs/a.bin").unwrap();
    assert!(u.chunks.len() > 1);
    assert!(u.encrypted_file_key.is_some());
    assert_eq!(u.file_size, data.len() as u64);
    assert_eq!(u.manifest_key, format!("data/manifests/{}", u.file_hash));
    assert_eq!(u.index_key, "data/index/docs/a.bin");
    for c in &u.chunks {
        assert_eq!(c.key, format!("data/chunks/{}", c.hash));
        assert_eq!(c.hash, tcfs::hash::hash_to_hex(&tcfs::hash::hash_bytes(&c.bytes)));
    }
    let joined: Vec<u8> = u.chunks.iter().flat_map(|c| c.bytes.clone()).collect();
    assert_ne!(joined, data);
    assert_eq!(fetch(&u, Some(&mk)).unwrap(), data);
}

#[test]
fn plaintext_upload_reads_back() {
    let data = sample(50_000);
    let u = prepare_upload(&data, None, "p", "f").unwrap();
    assert!(u.encrypted_file_key.is_none());
    let joined: Vec<u8> = u.chunks.iter().flat_map(|c| c.bytes.clone()).collect();
    assert_eq!(joined, data);
    assert_eq!(fetch(&u, None).unwrap(), data);
    assert_eq!(fetch(&u, Some(&MasterKey::from_bytes([1u8; 32]))).unwrap(), data);
}

#[test]
fn empty_upload_has_no_chunks() {
    let u = prepare_upload(&[], Some(&MasterKey::from_bytes([7u8; 32])), "p", "f").unwrap();
    assert!(u.chunks.is_empty());
    assert_eq!(fetch(&u, Some(&MasterKey::from_bytes([7u8; 32]))).unwrap(), Vec::<u8>::new());
}

#[test]
fn tampered_chunk_fails_integrity() {
    let mk = MasterKey::from_bytes([7u8; 32]);
    let data = sample(20_000);
    let u = prepare_upload(&data, Some(&mk), "p", "f").unwrap();
    let hashes: Vec<String> = u.chunks.iter().map(|c| c.hash.clone()).collect();
    let mut stored: Vec<Vec<u8>> = u.chunks.iter().map(|c| c.bytes.clone()).collect();
    stored[0][30] ^= 1;
    match reassemble(Some(&mk), u.encrypted_file_key.as_deref(), &u.file_hash, &hashes, &stored) {
        Err(FetchError::ChunkIntegrity { expected, actual }) => {
            assert_eq!(expected, hashes[0]);
            assert_ne!(actual, expected);
        },
        other => panic!("unexpected {:?}", other.map(|v| v.len())),
    }
}

#[test]
fn key_errors_are_reported() {
    let mk = MasterKey::from_bytes([7u8; 32]);
    let u = prepare_upload(&sample(1000), Some(&mk), "p", "f").unwrap();
    assert_eq!(fetch(&u, None).err(), Some(FetchError::NoMasterKey));
    assert!(matches!(fetch(&u, Some(&MasterKey::from_bytes([8u8; 32]))), Err(FetchError::KeyUnwrap(_))));
    assert_eq!(fetch_file_key(Some(&mk), Some("%%%")).err(), Some(FetchError::KeyNotBase64));
    assert!(fetch_file_key(Some(&mk), None).unwrap().is_none());
    assert!(fetch_file_key(None, None).unwrap().is_none());
}

#[test]
fn chunks_decrypt_only_at_their_position() {
    let mk = MasterKey::from_bytes([7u8; 32]);
    let u = prepare_upload(&sample(60_000), Some(&mk), "p", "f").unwrap();
    assert!(u.chunks.len() > 1);
    let fk: Option<FileKey> = fetch_file_key(Some(&mk), u.encrypted_file_key.as_deref()).unwrap();
    let fid = file_id_from_hash(&u.file_hash);
    let c = &u.chunks[1];
    assert!(open_chunk(&c.hash, &c.bytes, &fk, 1, &fid).is_ok());
    assert!(matches!(open_chunk(&c.hash, &c.bytes, &fk, 0, &fid), Err(FetchError::ChunkDecrypt(_))));
    assert_eq!(file_id_from_hash("not hex"), [0u8; 32]);
}

#[test]
fn storage_keys_drop_trailing_slashes() {
    assert_eq!(storage_key("data//", "chunks", "ab"), "data/chunks/ab");
    assert_eq!(storage_key("", "index", "x"), "/index/x");
}

#[test]
fn uploaded_nested_file_is_listed_in_its_parent() {
    let up = prepare_upload(&sample(5000), None, "pfx/", "docs/notes.txt").expect("plaintext upload");
    assert_eq!(up.index_key, "pfx/index/docs/notes.txt");
    let keys = vec![
        ListedKey { path: "pfx/index/docs/other/deep.txt".to_string(), is_dir: false },
        ListedKey { path: up.index_key.clone(), is_dir: false },
    ];
    let children = immediate_children(&listing_prefix("pfx/", "docs"), "docs", &keys);
    let names: Vec<&str> = children.iter().map(|c| c.filename.as_str()).collect();
    assert_eq!(names, vec!["other", "notes.txt"]);
    assert_eq!(children[1].item_id, "docs/notes.txt");
    assert!(!children[1].is_directory);

    let top = prepare_upload(b"x", None, "pfx", "top.txt").expect("plaintext upload");
    let listed = immediate_children(
        &listing_prefix("pfx", ""),
        "",
        &[ListedKey { path: top.index_key.clone(), is_dir: false }],
    );
    assert_eq!(listed.len(), 1);
    assert_eq!(listed[0].filename, "top.txt");
}
