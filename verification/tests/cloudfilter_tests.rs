use tcfs::cloudfilter::{hydrate_from_chunks, is_sync_root, HydrationError};
use tcfs::hash::{hash_bytes, hash_to_hex};
use tcfs::upload::prepare_upload;

fn hex(b: &[u8]) -> String {
    hash_to_hex(&hash_bytes(b))
}

#[test]
fn hydration_joins_verified_chunks() {
    let a = b"hello ".to_vec();
    let b = b"world".to_vec();
    let hashes = vec![hex(&a), hex(&b)];
    let out = hydrate_from_chunks(&hashes, &[a.clone(), b.clone()], &hex(b"hello world")).unwrap();
    assert_eq!(out, b"hello world");
    assert_eq!(hydrate_from_chunks(&hashes, &[a, b], "").unwrap(), b"hello world");
}

#[test]
fn hydration_reports_the_first_bad_chunk() {
    let a = b"a".to_vec();
    let b = b"b".to_vec();
    let hashes = vec![hex(&a), hex(b"x"), hex(b"y")];
    match hydrate_from_chunks(&hashes, &[a, b.clone(), b.clone()], "") {
        Err(HydrationError::ChunkIntegrity { index, expected, actual }) => {
            assert_eq!(index, 1);
            assert_eq!(expected, hex(b"x"));
            assert_eq!(actual, hex(&b));
        },
        other => panic!("unexpected {:?}", other),
    }
}

#[test]
fn hydration_checks_the_whole_file() {
    let a = b"abc".to_vec();
    let r = hydrate_from_chunks(&[hex(&a)], &[a.clone()], &hex(b"abd"));
    assert_eq!(r, Err(HydrationError::FileIntegrity { expected: hex(b"abd"), actual: hex(&a) }));
    assert_eq!(hydrate_from_chunks(&[], &[], ""), Err(HydrationError::EmptyManifest));
}

#[test]
fn plaintext_upload_hydrates_back() {
    let data: Vec<u8> = (0..70_000u32).map(|i| (i * 7 % 251) as u8).collect();
    let u = prepare_upload(&data, None, "p", "f").unwrap();
    let hashes: Vec<String> = u.chunks.iter().map(|c| c.hash.clone()).collect();
    let stored: Vec<Vec<u8>> = u.chunks.iter().map(|c| c.bytes.clone()).collect();
    assert_eq!(hydrate_from_chunks(&hashes, &stored, &u.file_hash).unwrap(), data);
}

#[test]
fn no_path_is_a_sync_root_yet() {
    assert!(!is_sync_root("C:\\Users\\me\\TummyCrypt"));
}
