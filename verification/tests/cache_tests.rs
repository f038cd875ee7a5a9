use std::time::Duration;
use tcfs::cache::{cache_key_for_path, eviction_plan, DiskCache};
use tcfs::negative_cache::NegativeCache;

#[test]
fn insert_and_check() {
    let mut cache = NegativeCache::new(Duration::from_secs(30));
    assert!(!cache.is_negative("/foo/bar.tc"));
    cache.insert("/foo/bar.tc");
    assert!(cache.is_negative("/foo/bar.tc"));
}

#[test]
fn remove_clears_entry() {
    let mut cache = NegativeCache::new(Duration::from_secs(30));
    cache.insert("/foo");
    cache.remove("/foo");
    assert!(!cache.is_negative("/foo"));
}

#[test]
fn ttl_expiry() {
    let mut cache = NegativeCache::new(Duration::from_millis(50));
    cache.insert_at("/tmp/test", 1_000);
    assert!(cache.is_negative_at("/tmp/test", 1_000));
    assert!(cache.is_negative_at("/tmp/test", 1_000 + 49_999_999));
    assert!(!cache.is_negative_at("/tmp/test", 1_000 + 50_000_000));
    assert!(!cache.is_negative_at("/tmp/test", 1_000 + 80_000_000));
}

#[test]
fn clock_reading_before_insert_counts_as_fresh() {
    let mut cache = NegativeCache::new(Duration::from_nanos(10));
    cache.insert_at("/a", 500);
    assert!(cache.is_negative_at("/a", 100));
}

#[test]
fn reinsert_refreshes_timestamp() {
    let mut cache = NegativeCache::new(Duration::from_nanos(100));
    cache.insert_at("/a", 0);
    cache.insert_at("/a", 1_000);
    assert!(cache.is_negative_at("/a", 1_050));
    assert!(!cache.is_negative_at("/a", 1_100));
}

#[test]
fn evict_expired_keeps_live_entries() {
    let mut cache = NegativeCache::new(Duration::from_nanos(100));
    cache.insert_at("/old", 0);
    cache.insert_at("/new", 150);
    cache.insert_at("/newer", 180);
    cache.evict_expired_at(200);
    assert!(!cache.is_negative_at("/old", 0));
    assert!(cache.is_negative_at("/new", 200));
    assert!(cache.is_negative_at("/newer", 200));
    cache.evict_expired_at(260);
    assert!(!cache.is_negative_at("/new", 150));
    assert!(cache.is_negative_at("/newer", 260));
}

#[test]
fn evict_expired_with_clock() {
    let mut cache = NegativeCache::new(Duration::from_secs(30));
    cache.insert("/x");
    cache.evict_expired();
    assert!(cache.is_negative("/x"));
}

#[test]
fn remove_leaves_other_entries() {
    let mut cache = NegativeCache::new(Duration::from_secs(30));
    cache.insert("/a");
    cache.insert("/b");
    cache.remove("/a");
    assert!(!cache.is_negative("/a"));
    assert!(cache.is_negative("/b"));
}

#[test]
fn cache_key_extraction() {
    assert_eq!(cache_key_for_path("mydata/manifests/abc123def"), "abc123def");
    assert_eq!(cache_key_for_path("abc"), "abc");
}

#[test]
fn cache_key_trailing_slash_is_empty() {
    assert_eq!(cache_key_for_path("a/b/"), "");
    assert_eq!(cache_key_for_path("/x"), "x");
}

#[test]
fn path_for_shards_by_first_two_bytes() {
    let cache = DiskCache::new("/var/cache/tcfs".to_string(), 100);
    assert_eq!(cache.path_for("abc123"), "/var/cache/tcfs/ab/abc123");
    assert_eq!(cache.path_for("a"), "/var/cache/tcfs/xx/a");
    assert_eq!(cache.path_for(""), "/var/cache/tcfs/xx/");
    let slash = DiskCache::new("/c/".to_string(), 1);
    assert_eq!(slash.path_for("zz9"), "/c/zz/zz9");
    assert_eq!(slash.path_for("é1"), "/c/é/é1");
}

#[test]
fn eviction_plan_nothing_when_under_capacity() {
    let files = vec![(10u64, 5u128), (20, 1)];
    assert_eq!(eviction_plan(&files, 30), Vec::<usize>::new());
    assert_eq!(eviction_plan(&files, 100), Vec::<usize>::new());
}

#[test]
fn eviction_plan_oldest_first_until_fits() {
    // sizes 10, 20, 30 with times 3, 1, 2: order 1, 2, 0
    let files = vec![(10u64, 3u128), (20, 1), (30, 2)];
    assert_eq!(eviction_plan(&files, 59), vec![1]);
    assert_eq!(eviction_plan(&files, 40), vec![1]);
    assert_eq!(eviction_plan(&files, 39), vec![1, 2]);
    assert_eq!(eviction_plan(&files, 0), vec![1, 2, 0]);
}

#[test]
fn eviction_plan_ties_keep_listing_order() {
    let files = vec![(5u64, 7u128), (5, 7), (5, 7)];
    assert_eq!(eviction_plan(&files, 6), vec![0, 1]);
}

#[test]
fn disk_cache_accessors() {
    let cache = DiskCache::new("d".to_string(), 42);
    assert_eq!(cache.dir(), "d");
    assert_eq!(cache.max_bytes(), 42);
}

#[test]
fn manifest_lists_nonempty_lines() {
    use_manifest_hashes();
}

fn use_manifest_hashes() {
    let v = tcfs::cache::manifest_chunk_hashes("abc\n\ndef\r\nghi").unwrap();
    assert_eq!(v, vec!["abc".to_string(), "def".to_string(), "ghi".to_string()]);
    assert_eq!(tcfs::cache::manifest_chunk_hashes("one\n").unwrap(), vec!["one".to_string()]);
    assert!(tcfs::cache::manifest_chunk_hashes("").is_none());
    assert!(tcfs::cache::manifest_chunk_hashes("\n\r\n\n").is_none());
}

#[test]
fn negative_answers_follow_the_last_record() {
    let mut cache = NegativeCache::new(Duration::from_nanos(100));
    cache.insert_at("/a", 5);
    cache.insert_at("/b", 10);
    cache.remove("/b");
    cache.evict_expired_at(50);
    // "/a" was last recorded at 5: absent while less than 100ns have passed.
    assert!(cache.is_negative_at("/a", 104));
    assert!(!cache.is_negative_at("/a", 105));
    // "/b" was forgotten after its record.
    assert!(!cache.is_negative_at("/b", 11));
    cache.insert_at("/a", 200);
    assert!(cache.is_negative_at("/a", 250));
}

#[test]
fn zero_ttl_never_answers_absent() {
    let mut cache = NegativeCache::new(Duration::from_nanos(0));
    cache.insert_at("/a", 5);
    assert!(!cache.is_negative_at("/a", 5));
    assert!(!cache.is_negative_at("/a", 0));
}
