use tcfs::chunks::{chunk_data, chunk_slice, ChunkMetadata, ChunkSizes, ChunkWithData};
use tcfs::hash::hash_bytes;

fn assert_sizes(sizes: ChunkSizes, expected: ChunkSizes) {
    assert_eq!(sizes.min_size, expected.min_size);
    assert_eq!(sizes.avg_size, expected.avg_size);
    assert_eq!(sizes.max_size, expected.max_size);
}

#[test]
fn empty_data_yields_no_chunks() {
    let chunks = chunk_data(&[], ChunkSizes::small());
    assert!(chunks.is_empty());
}

#[test]
fn single_small_file_yields_chunks() {
    let data = vec![0xABu8; 64 * 1024];
    let chunks = chunk_data(&data, ChunkSizes::small());
    assert!(!chunks.is_empty());
    let total: usize = chunks.iter().map(|c| c.length).sum();
    assert_eq!(total, data.len());
}

#[test]
fn chunk_offsets_are_contiguous() {
    let data: Vec<u8> = (0u8..=255).cycle().take(128 * 1024).collect();
    let chunks = chunk_data(&data, ChunkSizes::small());
    let mut expected_offset = 0u64;
    for chunk in &chunks {
        assert_eq!(chunk.offset, expected_offset, "chunks must be contiguous");
        expected_offset += chunk.length as u64;
    }
    assert_eq!(expected_offset as usize, data.len());
}

#[test]
fn chunk_hashes_match_their_bytes() {
    let data: Vec<u8> = (0u64..100_000).map(|i| (i.wrapping_mul(7) ^ (i >> 3)) as u8).collect();
    let chunks = chunk_slice(&data, ChunkSizes::small());
    assert!(chunks.len() > 1);
    for c in &chunks {
        let start = c.offset as usize;
        assert_eq!(c.hash, hash_bytes(&data[start..start + c.length]));
    }
}

#[test]
fn chunking_is_deterministic() {
    let data: Vec<u8> = (0u64..32768).map(|i| (i * 31 % 251) as u8).collect();
    let c1 = chunk_data(&data, ChunkSizes::small());
    let c2 = chunk_data(&data, ChunkSizes::small());
    assert_eq!(c1.len(), c2.len());
    for (a, b) in c1.iter().zip(c2.iter()) {
        assert_eq!(a.offset, b.offset);
        assert_eq!(a.length, b.length);
        assert_eq!(a.hash, b.hash);
    }
}

#[test]
fn chunk_with_data_hashes_its_bytes() {
    let c = ChunkWithData::new(7, vec![1, 2, 3]);
    assert_eq!(c.offset, 7);
    assert_eq!(c.data, vec![1, 2, 3]);
    assert_eq!(c.hash, hash_bytes(&[1, 2, 3]));
}

#[test]
fn git_pack_index_uses_large_sequential_chunk_profile() {
    let sizes = ChunkSizes::for_path(".git/objects/pack/pack-example.idx");
    assert_sizes(sizes, ChunkSizes::large_sequential());
}

#[test]
fn generic_index_uses_pack_chunk_profile() {
    let sizes = ChunkSizes::for_path("db/search.idx");
    assert_sizes(sizes, ChunkSizes::pack());
}

#[test]
fn git_index_uses_pack_chunk_profile() {
    let sizes = ChunkSizes::for_path(".git/index");
    assert_sizes(sizes, ChunkSizes::pack());
}

#[test]
fn generic_extensionless_index_uses_small_chunk_profile() {
    let sizes = ChunkSizes::for_path("index");
    assert_sizes(sizes, ChunkSizes::small());
}

#[test]
fn git_index_descendant_uses_small_chunk_profile() {
    let sizes = ChunkSizes::for_path(".git/index/not-a-real-index-file");
    assert_sizes(sizes, ChunkSizes::small());
}

#[test]
fn git_pack_uses_large_sequential_chunk_profile() {
    let sizes = ChunkSizes::for_path(".git/objects/pack/pack-example.pack");
    assert_sizes(sizes, ChunkSizes::large_sequential());
}

#[test]
fn git_pack_reverse_index_uses_large_sequential_chunk_profile() {
    let sizes = ChunkSizes::for_path(".git/objects/pack/pack-example.rev");
    assert_sizes(sizes, ChunkSizes::large_sequential());
}

#[test]
fn git_temp_pack_uses_large_sequential_chunk_profile() {
    let sizes = ChunkSizes::for_path(".git/objects/pack/tmp_pack_DGh0Fb");
    assert_sizes(sizes, ChunkSizes::large_sequential());
}

#[test]
fn generic_temp_pack_uses_small_chunk_profile() {
    let sizes = ChunkSizes::for_path("tmp_pack_DGh0Fb");
    assert_sizes(sizes, ChunkSizes::small());
}

#[test]
fn other_extensions_pick_their_profiles() {
    assert_sizes(ChunkSizes::for_path("/images/disk.iso"), ChunkSizes::large_sequential());
    assert_sizes(ChunkSizes::for_path("vm/disk.img"), ChunkSizes::large_sequential());
    assert_sizes(ChunkSizes::for_path("a/b/firmware.bin"), ChunkSizes::pack());
    assert_sizes(ChunkSizes::for_path("notes.txt"), ChunkSizes::small());
    assert_sizes(ChunkSizes::for_path("/repo/./.git/objects/pack/x.idx"), ChunkSizes::large_sequential());
    assert_sizes(ChunkSizes::for_path(".hidden"), ChunkSizes::small());
    assert_sizes(ChunkSizes::for_path(""), ChunkSizes::small());
}

#[test]
fn profile_constants() {
    assert_eq!(ChunkSizes::small(), ChunkSizes { min_size: 2048, avg_size: 4096, max_size: 16384 });
    assert_eq!(ChunkSizes::pack(), ChunkSizes { min_size: 32768, avg_size: 65536, max_size: 262144 });
    assert_eq!(
        ChunkSizes::large_sequential(),
        ChunkSizes { min_size: 1048576, avg_size: 4194304, max_size: 16777216 }
    );
}

#[test]
fn git_pack_index_large_profile_avoids_remote_object_explosion() {
    let data: Vec<u8> = (0u64..(64 * 1024 * 1024))
        .map(|i| (i.wrapping_mul(31) ^ (i >> 7) ^ (i >> 17)) as u8)
        .collect();
    let old_idx_chunks = chunk_data(&data, ChunkSizes::pack()).len();
    let idx_chunks = chunk_data(&data, ChunkSizes::for_path(".git/objects/pack/pack-example.idx")).len();
    assert!(idx_chunks * 16 < old_idx_chunks);
}

#[test]
fn git_temp_pack_large_profile_avoids_remote_object_explosion() {
    let data: Vec<u8> = (0u64..(64 * 1024 * 1024))
        .map(|i| (i.wrapping_mul(37) ^ i.rotate_left(9) ^ (i >> 13) ^ 0x5A5A5A5A) as u8)
        .collect();
    let old_temp_pack_chunks = chunk_data(&data, ChunkSizes::small()).len();
    let temp_pack_chunks = chunk_data(&data, ChunkSizes::for_path(".git/objects/pack/tmp_pack_DGh0Fb")).len();
    assert!(temp_pack_chunks * 32 < old_temp_pack_chunks);
}

#[test]
fn git_index_pack_profile_avoids_remote_object_explosion() {
    let data: Vec<u8> = (0u64..(16 * 1024 * 1024))
        .map(|i| (i.wrapping_mul(41) ^ i.rotate_left(5) ^ (i >> 11) ^ 0x3C3C3C3C) as u8)
        .collect();
    let old_git_index_chunks = chunk_data(&data, ChunkSizes::small()).len();
    let git_index_chunks = chunk_data(&data, ChunkSizes::for_path(".git/index")).len();
    assert!(git_index_chunks * 8 < old_git_index_chunks);
}

#[test]
fn git_pack_large_profile_avoids_remote_object_explosion() {
    let data: Vec<u8> = (0u64..(64 * 1024 * 1024))
        .map(|i| (i.wrapping_mul(31) ^ i.rotate_left(7) ^ (i >> 19) ^ 0xA5A5A5A5) as u8)
        .collect();
    let old_pack_chunks = chunk_data(&data, ChunkSizes::pack()).len();
    let large_chunks = chunk_data(&data, ChunkSizes::for_path(".git/objects/pack/pack-example.pack")).len();
    assert!(large_chunks * 16 < old_pack_chunks);
}

#[test]
fn git_pack_reverse_index_large_profile_avoids_remote_object_explosion() {
    let data: Vec<u8> = (0u64..(32 * 1024 * 1024))
        .map(|i| (i.wrapping_mul(29) ^ i.rotate_left(11) ^ (i >> 13) ^ 0x5A5A5A5A) as u8)
        .collect();
    let small_chunks = chunk_data(&data, ChunkSizes::small()).len();
    let rev_chunks = chunk_data(&data, ChunkSizes::for_path(".git/objects/pack/pack-example.rev")).len();
    assert!(rev_chunks * 64 < small_chunks);
}

#[test]
fn chunk_metadata_records_chunks_and_file_hash() {
    let data: Vec<u8> = (0..100_000u32).map(|i| (i.wrapping_mul(2654435761) >> 13) as u8).collect();
    let chunks = chunk_data(&data, ChunkSizes::small());
    let mut meta = ChunkMetadata::new();
    for c in &chunks {
        let start = c.offset as usize;
        meta.add(c.offset, &data[start..start + c.length]);
    }
    let (recorded, file_hash) = meta.finish();
    assert_eq!(recorded.len(), chunks.len());
    for (r, c) in recorded.iter().zip(chunks.iter()) {
        assert_eq!(r.offset, c.offset);
        assert_eq!(r.length, c.length);
        assert_eq!(r.hash, c.hash);
    }
    assert_eq!(file_hash, hash_bytes(&data));
}

#[test]
fn chunk_metadata_of_nothing_is_hash_of_empty() {
    let (recorded, file_hash) = ChunkMetadata::new().finish();
    assert!(recorded.is_empty());
    assert_eq!(file_hash, hash_bytes(b""));
}

#[test]
fn minimum_above_average_is_chunked() {
    // FastCDC takes each size within its own range, whatever their order.
    let sizes = ChunkSizes { min_size: 8191, avg_size: 4096, max_size: 16384 };
    let data: Vec<u8> = (0u64..200_000).map(|i| (i.wrapping_mul(131) ^ (i >> 5)) as u8).collect();
    let chunks = chunk_data(&data, sizes);
    assert!(chunks.len() > 1);
    let total: usize = chunks.iter().map(|c| c.length).sum();
    assert_eq!(total, data.len());
    for c in &chunks[..chunks.len() - 1] {
        // The cut search starts at min / 2 byte pairs: an odd minimum is rounded down.
        assert!(c.length >= 8190 && c.length <= 16384);
    }
}

#[test]
fn minimum_above_maximum_cuts_at_the_maximum() {
    let sizes = ChunkSizes { min_size: 4096, avg_size: 1024, max_size: 2048 };
    let data = vec![7u8; 10_000];
    let chunks = chunk_data(&data, sizes);
    let lengths: Vec<usize> = chunks.iter().map(|c| c.length).collect();
    // A rest longer than the minimum is cut at the maximum; the last rest, at
    // most the minimum, is taken whole and may exceed the maximum.
    assert_eq!(lengths, vec![2048, 2048, 2048, 3856]);
}
