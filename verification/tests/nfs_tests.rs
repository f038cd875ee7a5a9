use tcfs::nfs::{
    child_path, listed_as_nfs_mount, nfs_mount_options, nfs_time, parent_path, read_window, readdir_page, to_fattr3, EpochTime, NfsMount, NfsTime,
    VfsAttributes, VfsFileKind,
};

#[test]
fn dotdot_goes_to_parent() {
    assert_eq!(parent_path("/"), "/");
    assert_eq!(parent_path("/a"), "/");
    assert_eq!(parent_path("/a/b"), "/a");
    assert_eq!(parent_path("/a/b/c"), "/a/b");
    assert_eq!(parent_path("plain"), "/");
}

#[test]
fn children_are_joined_with_one_slash() {
    assert_eq!(child_path("/", "x"), "/x");
    assert_eq!(child_path("/a", "x"), "/a/x");
    assert_eq!(child_path("/a//", "x"), "/a/x");
}

#[test]
fn reads_are_clamped_to_the_file() {
    let data = b"hello world";
    assert_eq!(read_window(data, 0, 5), (b"hello".to_vec(), false));
    assert_eq!(read_window(data, 6, 100), (b"world".to_vec(), true));
    assert_eq!(read_window(data, 6, 5), (b"world".to_vec(), true));
    assert_eq!(read_window(data, 11, 5), (vec![], true));
    assert_eq!(read_window(data, 400, 5), (vec![], true));
    assert_eq!(read_window(&[], 0, 0), (vec![], true));
}

#[test]
fn directory_pages_resume_after_cookie() {
    let ids = [10u64, 11, 12, 13, 14];
    let all = [true; 5];
    assert_eq!(readdir_page(&ids, &all, 0, 10), (vec![0, 1, 2, 3, 4], true));
    assert_eq!(readdir_page(&ids, &all, 0, 2), (vec![0, 1], false));
    assert_eq!(readdir_page(&ids, &all, 11, 2), (vec![2, 3], false));
    assert_eq!(readdir_page(&ids, &all, 12, 2), (vec![3, 4], true));
    assert_eq!(readdir_page(&ids, &all, 14, 2), (vec![], true));
    assert_eq!(readdir_page(&ids, &all, 99, 2), (vec![], true));
    assert_eq!(readdir_page(&ids, &all, 0, 0), (vec![], false));
}

#[test]
fn entries_without_attributes_are_skipped() {
    let ids = [1u64, 2, 3, 4];
    let usable = [true, false, true, true];
    assert_eq!(readdir_page(&ids, &usable, 0, 2), (vec![0, 2], false));
    assert_eq!(readdir_page(&ids, &usable, 1, 5), (vec![2, 3], true));
    assert_eq!(readdir_page(&ids, &[true, true, true, false], 0, 3), (vec![0, 1, 2], false));
}

#[test]
fn attributes_convert_to_nfs() {
    let t = Some(EpochTime { secs: (1u64 << 32) + 7, nanos: 9 });
    let attr = VfsAttributes {
        kind: VfsFileKind::RegularFile,
        perm: 0o644,
        nlink: 1,
        uid: 501,
        gid: 20,
        size: 1234,
        blocks: 3,
        atime: t,
        mtime: None,
        ctime: Some(EpochTime { secs: 5, nanos: 0 }),
    };
    let f = to_fattr3(42, &attr);
    assert_eq!(f.kind, VfsFileKind::RegularFile);
    assert_eq!(f.mode, 0o644);
    assert_eq!(f.used, 1536);
    assert_eq!(f.fileid, 42);
    assert_eq!(f.fsid, 0);
    assert_eq!(f.size, 1234);
    assert_eq!(f.atime, NfsTime { seconds: 7, nseconds: 9 });
    assert_eq!(f.mtime, NfsTime { seconds: 0, nseconds: 0 });
    assert_eq!(f.ctime, nfs_time(Some(EpochTime { secs: 5, nanos: 0 })));
}

#[test]
fn lazy_unmount_only_after_failure_on_linux() {
    assert!(NfsMount::needs_lazy_unmount(false, true));
    assert!(!NfsMount::needs_lazy_unmount(true, true));
    assert!(!NfsMount::needs_lazy_unmount(false, false));
}

#[test]
fn mount_output_lists_nfs_mountpoint() {
    let out = "sysfs on /sys type sysfs (rw)\n127.0.0.1:/ on /mnt/tcfs type nfs (rw,port=20490)\r\ntmpfs on /run type tmpfs (rw)\n";
    assert!(listed_as_nfs_mount(out, "/mnt/tcfs"));
    assert!(!listed_as_nfs_mount(out, "/run"));
    assert!(!listed_as_nfs_mount(out, "/mnt/other"));
    assert!(!listed_as_nfs_mount("", "/mnt/tcfs"));
}

#[test]
fn nfs_mount_options_per_platform() {
    assert_eq!(nfs_mount_options(20490, true), "tcp,vers=3,resvport,locallocks,port=20490");
    assert_eq!(nfs_mount_options(2049, false), "tcp,vers=3,noacl,nolock,port=2049");
    assert_eq!(nfs_mount_options(0, false), "tcp,vers=3,noacl,nolock,port=0");
}
