use tcfs::hash::{hash_bytes, hash_from_hex, hash_to_hex, HexError, StreamHash};
use tcfs::names::{decode, encode};

#[test]
fn empty_hash_is_deterministic() {
    let h1 = hash_bytes(b"");
    let h2 = hash_bytes(b"");
    assert_eq!(h1, h2);
}

#[test]
fn hash_hex_roundtrip() {
    let h = hash_bytes(b"hello tcfs");
    let hex = hash_to_hex(&h);
    assert_eq!(hex.len(), 64);
    let back = hash_from_hex(&hex).unwrap();
    assert_eq!(h, back);
}

#[test]
fn different_content_different_hash() {
    let h1 = hash_bytes(b"foo");
    let h2 = hash_bytes(b"bar");
    assert_ne!(h1, h2);
}

#[test]
fn known_blake3_vector() {
    let h = hash_bytes(b"");
    assert_eq!(
        hash_to_hex(&h),
        "af1349b9f5f9a1a6a0404dea36dcc9499bcb25c9adc112b7cc9a93cae41f3262"
    );
}

#[test]
fn hex_roundtrip_many_inputs() {
    for n in 0..64usize {
        let data: Vec<u8> = (0..n).map(|i| (i * 37 + n) as u8).collect();
        let h = hash_bytes(&data);
        let back = hash_from_hex(&hash_to_hex(&h)).unwrap();
        assert_eq!(h, back);
    }
}

#[test]
fn from_hex_accepts_uppercase() {
    let h = hash_from_hex("AF1349B9F5F9A1A6A0404DEA36DCC9499BCB25C9ADC112B7CC9A93CAE41F3262").unwrap();
    assert_eq!(h, hash_bytes(b""));
}

#[test]
fn from_hex_rejects_wrong_length() {
    assert_eq!(hash_from_hex("abc"), Err(HexError::InvalidLen(3)));
    assert_eq!(hash_from_hex(""), Err(HexError::InvalidLen(0)));
}

#[test]
fn from_hex_reports_first_bad_byte() {
    let mut s = "0".repeat(64);
    s.replace_range(10..11, "g");
    s.replace_range(20..21, "z");
    assert_eq!(hash_from_hex(&s), Err(HexError::InvalidByte(b'g')));
}

#[test]
fn hash_from_bytes_roundtrip() {
    let bytes = [7u8; 32];
    let h = tcfs::hash::Hash::from_bytes(bytes);
    assert_eq!(h.as_bytes(), &bytes);
    assert_eq!(hash_to_hex(&h), "07".repeat(32));
}

#[test]
fn hex_encode_lowercase_two_digits() {
    assert_eq!(encode(&[0x00, 0x0f, 0xab, 0xff]), "000fabff");
    assert_eq!(encode(&[]), "");
}

#[test]
fn hex_decode_roundtrip_and_errors() {
    assert_eq!(decode("000fabff"), Ok(vec![0x00, 0x0f, 0xab, 0xff]));
    assert_eq!(decode("ABcd"), Ok(vec![0xab, 0xcd]));
    assert_eq!(decode(""), Ok(vec![]));
    assert_eq!(decode("+f"), Err("invalid hex: invalid digit found in string".to_string()));
    assert_eq!(decode("-1"), Err("invalid hex: invalid digit found in string".to_string()));
    assert_eq!(decode("aéb"), Err("invalid hex: invalid digit found in string".to_string()));
    assert_eq!(decode("abc"), Err("odd-length hex string".to_string()));
    assert_eq!(
        decode("zz"),
        Err("invalid hex: invalid digit found in string".to_string())
    );
    assert_eq!(
        decode("éé"),
        Err("invalid hex: invalid digit found in string".to_string())
    );
    let data: Vec<u8> = (0..=255u8).collect();
    assert_eq!(decode(&encode(&data)), Ok(data));
}

#[test]
fn streamed_hash_equals_hash_of_whole() {
    let mut h = StreamHash::new();
    h.update(b"foo");
    h.update(b"");
    h.update(b"barbaz");
    assert_eq!(h.finalize(), hash_bytes(b"foobarbaz"));
    assert_eq!(StreamHash::new().finalize(), hash_bytes(b""));
}
