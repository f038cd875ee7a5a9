use tcfs::fuse_dir::{dir_listing, entry_attr_ttl_secs, DirSlot, ListedSlot, ATTR_TTL_SECS, DIR_TTL_SECS};

fn slot(slot: DirSlot, offset: i64) -> ListedSlot {
    ListedSlot { slot, offset }
}

#[test]
fn listing_from_start_has_dot_entries() {
    assert_eq!(
        dir_listing(0, 2),
        vec![
            slot(DirSlot::Dot, 1),
            slot(DirSlot::DotDot, 2),
            slot(DirSlot::Entry(0), 3),
            slot(DirSlot::Entry(1), 4)
        ]
    );
    assert_eq!(dir_listing(0, 0), vec![slot(DirSlot::Dot, 1), slot(DirSlot::DotDot, 2)]);
}

#[test]
fn listing_resumes_after_offset() {
    assert_eq!(dir_listing(1, 1), vec![slot(DirSlot::DotDot, 2), slot(DirSlot::Entry(0), 3)]);
    assert_eq!(dir_listing(2, 2), vec![slot(DirSlot::Entry(0), 3), slot(DirSlot::Entry(1), 4)]);
    assert_eq!(dir_listing(3, 3), vec![slot(DirSlot::Entry(1), 4), slot(DirSlot::Entry(2), 5)]);
    assert_eq!(dir_listing(5, 3), vec![]);
    assert_eq!(dir_listing(100, 3), vec![]);
    assert_eq!(
        dir_listing(-4, 1),
        vec![slot(DirSlot::DotDot, 2), slot(DirSlot::Entry(0), 3)]
    );
}

#[test]
fn directory_attributes_expire_sooner() {
    assert_eq!(entry_attr_ttl_secs(true), DIR_TTL_SECS);
    assert_eq!(entry_attr_ttl_secs(false), ATTR_TTL_SECS);
    assert_eq!((ATTR_TTL_SECS, DIR_TTL_SECS), (5, 1));
}
