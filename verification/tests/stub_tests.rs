//! Stub and index-entry format tests.

use tcfs::stub::{is_stub_path, real_to_stub_name, stub_to_real_name, IndexEntry, IndexError, StubError, StubMeta};

const SAMPLE_STUB: &str = "\
version https://tummycrypt.io/tcfs/v1
chunks 23
compressed 0
fetched 0
oid blake3:4d7a214614ab2935c943f9e0ff69d22eadbb8f32b1258daaa5e2ca24d17e239
origin seaweedfs://filer.example.com/bucket/path/to/file
size 94371840
";

#[test]
fn parse_and_roundtrip() {
    let meta = StubMeta::parse(SAMPLE_STUB).unwrap();
    assert_eq!(meta.chunks, 23);
    assert!(!meta.compressed);
    assert!(!meta.fetched);
    assert_eq!(meta.oid, "blake3:4d7a214614ab2935c943f9e0ff69d22eadbb8f32b1258daaa5e2ca24d17e239");
    assert_eq!(meta.origin, "seaweedfs://filer.example.com/bucket/path/to/file");
    assert_eq!(meta.size, 94_371_840);

    let reserialized = meta.to_stub_string();
    let reparsed = StubMeta::parse(&reserialized).unwrap();
    assert_eq!(meta, reparsed);
}

#[test]
fn blake3_hex_extraction() {
    let meta = StubMeta::parse(SAMPLE_STUB).unwrap();
    assert_eq!(
        meta.blake3_hex(),
        Some("4d7a214614ab2935c943f9e0ff69d22eadbb8f32b1258daaa5e2ca24d17e239")
    );
}

#[test]
fn stub_path_detection() {
    assert!(is_stub_path("file.go.tc"));
    assert!(is_stub_path("dir.tcf"));
    assert!(!is_stub_path("file.go"));
    assert!(!is_stub_path("file.txt"));
}

#[test]
fn stub_name_conversion() {
    let real = stub_to_real_name("main.go.tc").unwrap();
    assert_eq!(real, "main.go");

    let stub = real_to_stub_name("main.go");
    assert_eq!(stub, "main.go.tc");
}

#[test]
fn parse_unknown_version_fails() {
    let bad = "version https://other.io/v99\noid blake3:abc\norigin x\nsize 0\n";
    assert!(StubMeta::parse(bad).is_err());
}

#[test]
fn parse_index_entry() {
    let raw = "manifest_hash=abc123\nsize=4096\nchunks=1\n";
    let entry = IndexEntry::parse(raw).unwrap();
    assert_eq!(entry.manifest_hash, "abc123");
    assert_eq!(entry.size, 4096);
    assert_eq!(entry.chunks, 1);
    assert_eq!(entry.manifest_path("mydata"), "mydata/manifests/abc123");
}

// ── Further cases ────────────────────────────────────────────────────────────

#[test]
fn stub_text_is_canonical() {
    let meta = StubMeta::for_upload("abc", 7, 2, "bucket/data", "dir/file.txt");
    assert_eq!(
        meta.to_stub_string(),
        "version https://tummycrypt.io/tcfs/v1\nchunks 2\ncompressed 0\nfetched 0\noid blake3:abc\norigin seaweedfs://bucket/data/dir/file.txt\nsize 7\n"
    );
    assert_eq!(meta.to_bytes(), meta.to_stub_string().into_bytes());
}

#[test]
fn stub_errors() {
    assert_eq!(StubMeta::parse("garbage\n"), Err(StubError::NoSeparator { line: 1 }));
    assert_eq!(StubMeta::parse("oid x\norigin y\nsize 1\n"), Err(StubError::VersionNotFirst));
    assert_eq!(StubMeta::parse("\n\n"), Err(StubError::MissingVersion));
    assert_eq!(
        StubMeta::parse("version https://tummycrypt.io/tcfs/v1\nsize x\n"),
        Err(StubError::InvalidSize)
    );
    assert_eq!(
        StubMeta::parse("version https://tummycrypt.io/tcfs/v1\norigin o\nsize 3\n"),
        Err(StubError::MissingOid)
    );
}

#[test]
fn crlf_and_unknown_keys() {
    let text = "version https://tummycrypt.io/tcfs/v1\r\nextra thing\r\n\r\noid a\r\norigin b\r\nsize +5";
    let meta = StubMeta::parse(text).unwrap();
    assert_eq!(meta.oid, "a");
    assert_eq!(meta.origin, "b");
    assert_eq!(meta.size, 5);
    assert_eq!(meta.chunks, 0);
}

#[test]
fn index_entry_errors_and_paths() {
    assert_eq!(IndexEntry::parse("size=1\n").unwrap_err(), IndexError::MissingManifestHash);
    assert_eq!(IndexEntry::parse("manifest_hash=a\nsize=x\n").unwrap_err(), IndexError::InvalidSize);
    let e = IndexEntry::parse("manifest_hash=h\nsize=3").unwrap();
    assert_eq!(e.chunks, 0);
    assert_eq!(e.manifest_path("p///"), "p/manifests/h");
}

#[test]
fn blake3_hex_absent_without_prefix() {
    let meta = StubMeta::for_upload("x", 0, 0, "a", "b");
    assert_eq!(meta.blake3_hex(), Some("x"));
    let mut other = meta.clone();
    other.oid = "sha256:x".to_string();
    assert_eq!(other.blake3_hex(), None);
}

#[test]
fn version_must_be_first_line() {
    let content = "oid blake3:abc\norigin x\nsize 0\nversion https://tummycrypt.io/tcfs/v1\n";
    assert_eq!(StubMeta::parse(content), Err(StubError::VersionNotFirst));
    let leading_blank = "\nversion https://tummycrypt.io/tcfs/v1\noid blake3:abc\norigin x\nsize 0\n";
    assert!(StubMeta::parse(leading_blank).is_ok());
}
