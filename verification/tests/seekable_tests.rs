use tcfs::seekable::{
    compress, decompress_all, decompress_range, seek_table_fits, SeekEntry, SeekError, SeekableBlob, DEFAULT_FRAME_SIZE,
};

#[test]
fn round_trip_small() {
    let data = b"hello seekable zstd";
    let blob = compress(data, DEFAULT_FRAME_SIZE, 1).unwrap();
    let out = decompress_all(&blob).unwrap();
    assert_eq!(out.as_slice(), data.as_slice());
}

#[test]
fn round_trip_multi_frame() {
    let data: Vec<u8> = (0u8..=255).cycle().take(4 * 1024 * 1024).collect();
    let blob = compress(&data, DEFAULT_FRAME_SIZE, 1).unwrap();
    assert!(blob.frame_count() >= 4);
    let out = decompress_all(&blob).unwrap();
    assert_eq!(out, data);
}

#[test]
fn range_decompress_spanning_frames() {
    let data: Vec<u8> = (0u8..=255).cycle().take(3 * 1024 * 1024).collect();
    let blob = compress(&data, 1024 * 1024, 1).unwrap();
    let range = decompress_range(&blob, 500_000, 1_500_000).unwrap();
    assert_eq!(range, &data[500_000..1_500_000]);
}

#[test]
fn seek_table_records_frames() {
    let data: Vec<u8> = (0u32..10_000).map(|i| (i % 7) as u8).collect();
    let blob = compress(&data, 4096, 3).unwrap();
    assert_eq!(blob.frame_count(), 3);
    assert_eq!(blob.uncompressed_size(), 10_000);
    assert_eq!(blob.seek_table[0].uncompressed_size, 4096);
    assert_eq!(blob.seek_table[2].uncompressed_size, 10_000 - 8192);
    let mut offset = 0u64;
    for e in &blob.seek_table {
        assert_eq!(e.compressed_offset, offset);
        offset += e.compressed_size as u64;
    }
    assert_eq!(offset as usize, blob.compressed.len());
}

#[test]
fn zero_frame_size_means_one_byte_frames() {
    let blob = compress(b"abc", 0, 1).unwrap();
    assert_eq!(blob.frame_count(), 3);
    assert_eq!(decompress_all(&blob).unwrap(), b"abc".to_vec());
}

#[test]
fn empty_data_has_no_frames() {
    let blob = compress(&[], 16, 1).unwrap();
    assert_eq!(blob.frame_count(), 0);
    assert_eq!(blob.uncompressed_size(), 0);
    assert_eq!(decompress_all(&blob).unwrap(), Vec::<u8>::new());
    assert_eq!(decompress_range(&blob, 0, 10).unwrap(), Vec::<u8>::new());
}

#[test]
fn range_reads_within_and_past_end() {
    let data: Vec<u8> = (0u32..5000).map(|i| (i * 13 % 256) as u8).collect();
    let blob = compress(&data, 1000, 1).unwrap();
    assert_eq!(decompress_range(&blob, 0, 5000).unwrap(), data);
    assert_eq!(decompress_range(&blob, 999, 1001).unwrap(), &data[999..1001]);
    assert_eq!(decompress_range(&blob, 4500, 9000).unwrap(), &data[4500..]);
    assert_eq!(decompress_range(&blob, 7000, 9000).unwrap(), Vec::<u8>::new());
    assert_eq!(decompress_range(&blob, 100, 100).unwrap(), Vec::<u8>::new());
}

#[test]
fn corrupt_frame_fails_to_decompress() {
    let blob = SeekableBlob {
        compressed: vec![1, 2, 3, 4],
        seek_table: vec![SeekEntry { uncompressed_size: 4, compressed_size: 4, compressed_offset: 0 }],
    };
    assert_eq!(decompress_all(&blob), Err(SeekError::Decompress));
    assert_eq!(decompress_range(&blob, 0, 4), Err(SeekError::Decompress));
}

#[test]
fn short_frame_is_reported() {
    let good = compress(b"ab", 16, 1).unwrap();
    let blob = SeekableBlob {
        compressed: good.compressed.clone(),
        seek_table: vec![SeekEntry {
            uncompressed_size: 10,
            compressed_size: good.seek_table[0].compressed_size,
            compressed_offset: 0,
        }],
    };
    assert_eq!(decompress_range(&blob, 0, 10), Err(SeekError::ShortFrame));
}

#[test]
fn checked_table_reads_back_ranges_and_clamps_past_end() {
    let data: Vec<u8> = (0u8..=255).cycle().take(3 * 1024 * 1024).collect();
    let blob = compress(&data, 1024 * 1024, 1).unwrap();
    assert!(seek_table_fits(&blob, data.len() as u64));
    assert!(!seek_table_fits(&blob, data.len() as u64 + 1));
    assert_eq!(decompress_range(&blob, 500_000, 1_500_000).unwrap(), data[500_000..1_500_000].to_vec());
    let n = data.len() as u64;
    assert_eq!(decompress_range(&blob, n - 10, n + 100).unwrap(), data[data.len() - 10..].to_vec());
    assert_eq!(decompress_range(&blob, n + 5, n + 100).unwrap(), Vec::<u8>::new());
    assert_eq!(decompress_all(&blob).unwrap(), data);
}
