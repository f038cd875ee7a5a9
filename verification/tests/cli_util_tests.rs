use tcfs::hash::hash_bytes;
use tcfs::cli_util::{
    confirms_rotation, confirms_written_down, invite_signing_key, phrase_lines, split_words,
    expand_tilde, flush_manifest_path, plan_mount, pull_remote_prefix, push_remote_prefix, format_duration, format_uptime, truncate_str, update_available, version_cache_fresh,
    version_from_tag, VERSION_CHECK_TTL_SECS, trash_row, purge_max_age, find_trash_entry,
    blake3_short, byte_prefix, status_report, CredentialStatus, DaemonStatus, migration_step, MigrationAction,
    MigrationCounts,
};

#[test]
fn duration_uses_largest_whole_unit() {
    assert_eq!(format_duration(0), "0s");
    assert_eq!(format_duration(59), "59s");
    assert_eq!(format_duration(60), "1m");
    assert_eq!(format_duration(3599), "59m");
    assert_eq!(format_duration(3600), "1h");
    assert_eq!(format_duration(86399), "23h");
    assert_eq!(format_duration(86400), "1d");
    assert_eq!(format_duration(200000), "2d");
}

#[test]
fn uptime_shows_two_units() {
    assert_eq!(format_uptime(-5), "-5s");
    assert_eq!(format_uptime(42), "42s");
    assert_eq!(format_uptime(200), "3m 20s");
    assert_eq!(format_uptime(7500), "2h 5m");
}

#[test]
fn truncate_keeps_short_strings() {
    assert_eq!(truncate_str("hello", 5), "hello");
    assert_eq!(truncate_str("", 0), "");
}

#[test]
fn truncate_cuts_and_marks() {
    assert_eq!(truncate_str("hello world", 6), "hello…");
    assert_eq!(truncate_str("abc", 1), "…");
    assert_eq!(truncate_str("abc", 0), "…");
    assert_eq!(truncate_str("héllo", 4), "hé…");
}

#[test]
fn tilde_expands_to_home() {
    assert_eq!(expand_tilde("~/cache/tcfs", "/home/u"), "/home/u/cache/tcfs");
    assert_eq!(expand_tilde("/var/tmp", "/home/u"), "/var/tmp");
    assert_eq!(expand_tilde("~", "/home/u"), "~");
    assert_eq!(expand_tilde("~/x", ""), "/x");
}

#[test]
fn tag_loses_leading_v() {
    assert_eq!(version_from_tag("v1.2.3"), "1.2.3");
    assert_eq!(version_from_tag("1.2.3"), "1.2.3");
    assert_eq!(version_from_tag(""), "");
}

#[test]
fn update_notice_compares_triples() {
    assert!(update_available("0.3.0", "0.3.1"));
    assert!(update_available("0.3.9", "0.10.0"));
    assert!(update_available("1.2.3", "2.0.0"));
    assert!(!update_available("0.3.1", "0.3.1"));
    assert!(!update_available("0.4.0", "0.3.9"));
    assert!(update_available("1.2.3", "1.2.4.5"));
    assert!(!update_available("1.2", "1.3.0"));
    assert!(!update_available("1.2.3", "1.x.0"));
    assert!(!update_available("1.2.3", "1.3.0-rc1"));
}

#[test]
fn version_cache_expires_after_a_day() {
    assert_eq!(VERSION_CHECK_TTL_SECS, 86400);
    assert!(version_cache_fresh(1000, 1000));
    assert!(version_cache_fresh(1000, 87399));
    assert!(!version_cache_fresh(1000, 87400));
}

#[test]
fn push_prefix_drops_trailing_slashes() {
    assert_eq!(push_remote_prefix(Some("data//"), "cfg"), "data");
    assert_eq!(push_remote_prefix(Some("a/b"), "cfg"), "a/b");
    assert_eq!(push_remote_prefix(Some("///"), "cfg"), "");
    assert_eq!(push_remote_prefix(None, "cfg"), "cfg");
}

#[test]
fn pull_prefix_comes_from_manifest_path() {
    assert_eq!(pull_remote_prefix(None, "devices/A29247/manifests/abc123", false, "cfg"), "devices/A29247");
    assert_eq!(pull_remote_prefix(None, "a/manifests/b/manifests/c", false, "cfg"), "a/manifests/b");
    assert_eq!(pull_remote_prefix(None, "data/index/x", false, "cfg"), "data");
    assert_eq!(pull_remote_prefix(None, "solo", false, "cfg"), "solo");
    assert_eq!(pull_remote_prefix(None, "/home/u/file.txt", false, "cfg"), "cfg");
    assert_eq!(pull_remote_prefix(None, "./file.txt", false, "cfg"), "cfg");
    assert_eq!(pull_remote_prefix(None, "docs/file.txt", true, "cfg"), "cfg");
    assert_eq!(pull_remote_prefix(Some("given/"), "x/manifests/y", false, "cfg"), "given");
    assert_eq!(pull_remote_prefix(None, "/manifests/abc", false, "cfg"), "cfg");
    assert_eq!(pull_remote_prefix(None, "manifests/abc", false, "cfg"), "manifests");
}

#[test]
fn mount_plan_follows_backend() {
    let fuse = plan_mount(false, "", 256, "nats://nats.example:4222", true, Some("/keys/master.key"));
    assert!(fuse.options.is_empty());
    assert_eq!(fuse.backend, "FUSE");
    assert_eq!(fuse.prefix_label, "(root)");
    assert_eq!(fuse.cache_max_bytes, 256 * 1024 * 1024);
    assert!(fuse.publish_flushes);
    assert_eq!(fuse.master_key_file.as_deref(), Some("/keys/master.key"));

    let nfs = plan_mount(true, "data", 1, "nats://nats.example:4222", true, Some("/keys/master.key"));
    assert_eq!(nfs.options, vec!["nfs".to_string()]);
    assert_eq!(nfs.backend, "NFS loopback");
    assert_eq!(nfs.prefix_label, "data");
    assert!(!nfs.publish_flushes);
    assert!(nfs.master_key_file.is_none());

    let quiet = plan_mount(false, "p", 0, "nats://localhost:4222", false, Some("/k"));
    assert!(!quiet.publish_flushes);
    assert!(quiet.master_key_file.is_none());
    assert_eq!(quiet.cache_max_bytes, 0);
}

#[test]
fn flushed_files_are_announced_by_manifest() {
    assert_eq!(flush_manifest_path("data", "abc"), "data/manifests/abc");
    assert_eq!(flush_manifest_path("", "h"), "/manifests/h");
}

#[test]
fn invite_signing_key_hashes_master_key() {
    let k = [9u8; 32];
    assert_eq!(&invite_signing_key(Some(&k)).unwrap(), hash_bytes(&k).as_bytes());
    assert_eq!(invite_signing_key(Some(&[1u8; 31])).err().map(|e| e.0), Some(31));
    assert_eq!(&invite_signing_key(None).unwrap(), hash_bytes(b"tcfs-fleet-invite-key").as_bytes());
}

#[test]
fn deep_link_carries_compact_invite() {
    assert_eq!(tcfs::cli_util::enroll_deep_link("abc"), "tcfs://enroll?data=abc");
}

#[test]
fn confirmations_are_checked() {
    assert!(confirms_written_down("yes"));
    assert!(confirms_written_down("  YES\n"));
    assert!(confirms_written_down("Yes"));
    assert!(!confirms_written_down("y"));
    assert!(!confirms_written_down("yes please"));
    assert!(confirms_rotation("ROTATE"));
    assert!(!confirms_rotation("rotate"));
    assert!(!confirms_rotation("ROTATE "));
}

#[test]
fn recovery_phrase_is_shown_four_words_a_line() {
    let phrase = "a b c d e f g h i j k l m n o p q r s t u v w x";
    let lines = phrase_lines(phrase);
    assert_eq!(lines.len(), 6);
    assert_eq!(lines[0], "   1. a  b  c  d");
    assert_eq!(lines[2], "   9. i  j  k  l");
    assert_eq!(lines[3], "  13. m  n  o  p");
    assert_eq!(lines[5], "  21. u  v  w  x");
    assert_eq!(phrase_lines("one two three five six"), vec!["   1. one  two  three  five", "   5. six"]);
    assert!(phrase_lines("   ").is_empty());
    let w: Vec<String> = split_words("  al\tbe  \n ga ").iter().map(|v| v.iter().collect()).collect();
    assert_eq!(w, vec!["al", "be", "ga"]);
}

#[test]
fn migration_rewrites_index_keys() {
    let (double, orphan) = tcfs::cli_util::migration_sources("data/", "tcfs");
    assert_eq!(double, "data/index/data/");
    assert_eq!(orphan.as_deref(), Some("tcfs/index/"));
    assert_eq!(tcfs::cli_util::migration_sources("data", "data").1, None);
    assert_eq!(
        tcfs::cli_util::migrated_key("data/index/data/", "data/index/data/docs/a.txt", "data").as_deref(),
        Some("data/index/docs/a.txt")
    );
    assert_eq!(tcfs::cli_util::migrated_key("tcfs/index/", "tcfs/index/x", "data/").as_deref(), Some("data/index/x"));
    assert_eq!(tcfs::cli_util::migrated_key("tcfs/index/", "tcfs/index/dir/", "data"), None);
    assert_eq!(tcfs::cli_util::migrated_key("p/", "other", "data").as_deref(), Some("data/index/other"));
}

#[test]
fn conflict_answers_and_requests() {
    use_conflicts();
}

fn use_conflicts() {
    use_choice("k", Some(tcfs::cli_util::ConflictChoice::KeepLocal));
    use_choice(" Keep \n", Some(tcfs::cli_util::ConflictChoice::KeepLocal));
    use_choice("LOCAL", Some(tcfs::cli_util::ConflictChoice::KeepLocal));
    use_choice("r", Some(tcfs::cli_util::ConflictChoice::KeepRemote));
    use_choice("Both", Some(tcfs::cli_util::ConflictChoice::KeepBoth));
    use_choice("d", Some(tcfs::cli_util::ConflictChoice::Defer));
    use_choice("x", None);
    use_choice("", None);
    let c = tcfs::cli_util::ConflictChoice::KeepBoth;
    assert_eq!(tcfs::cli_util::resolution_request(Some("keep-remote"), c).as_deref(), Some("keep_remote"));
    assert_eq!(tcfs::cli_util::resolution_request(None, c).as_deref(), Some("keep_both"));
    assert_eq!(tcfs::cli_util::resolution_request(None, tcfs::cli_util::ConflictChoice::Defer), None);
}

fn use_choice(answer: &str, expected: Option<tcfs::cli_util::ConflictChoice>) {
    assert_eq!(tcfs::cli_util::conflict_choice(answer), expected);
}

#[test]
fn trash_row_pads_columns() {
    let row = trash_row("docs/a.txt", 1000, 1000 + 7200, "trash/abc");
    let expected = format!("{:<40} {:<20} {}", "docs/a.txt", "2h ago", "trash/abc");
    assert_eq!(row, expected);
    assert_eq!(row.chars().count(), 40 + 1 + 20 + 1 + "trash/abc".len());
}

#[test]
fn trash_row_cuts_long_paths_and_future_times() {
    let long = "x".repeat(50);
    let row = trash_row(&long, 500, 100, "k");
    let cut = format!("{}…", "x".repeat(38));
    assert_eq!(row, format!("{:<40} {:<20} {}", cut, "0s ago", "k"));
}

#[test]
fn purge_age_prefers_all_then_given_then_retention() {
    assert_eq!(purge_max_age(true, Some(10), 99), 0);
    assert_eq!(purge_max_age(false, Some(10), 99), 10);
    assert_eq!(purge_max_age(false, None, 99), 99);
}

#[test]
fn trash_entry_found_by_first_match() {
    let entries = vec!["a.txt".to_string(), "b.txt".to_string(), "a.txt".to_string()];
    assert_eq!(find_trash_entry(&entries, "a.txt"), Some(0));
    assert_eq!(find_trash_entry(&entries, "b.txt"), Some(1));
    assert_eq!(find_trash_entry(&entries, "c.txt"), None);
}

#[test]
fn byte_prefix_cuts_at_bytes() {
    assert_eq!(byte_prefix("0123456789abcdef", 8), "01234567");
    assert_eq!(byte_prefix("abc", 8), "abc");
    assert_eq!(byte_prefix("", 8), "");
    assert_eq!(byte_prefix("é1234567", 8), "é123456");
}

fn daemon(device_id: &str) -> DaemonStatus {
    DaemonStatus {
        version: "0.9.1".to_string(),
        storage_endpoint: "http://s3.local:8333".to_string(),
        storage_ok: true,
        nats_ok: false,
        active_mounts: 2,
        uptime_secs: 3725,
        device_id: device_id.to_string(),
        device_name: "laptop".to_string(),
        conflict_mode: "auto".to_string(),
    }
}

#[test]
fn status_report_with_device() {
    let cr = CredentialStatus { loaded: true, source: "sops".to_string(), needs_reload: false };
    let lines = status_report(&daemon("0123456789abcdef"), &cr, "/run/tcfsd.sock");
    assert_eq!(
        lines,
        vec![
            "tcfsd v0.9.1",
            "  uptime:        1h 2m",
            "  socket:        /run/tcfsd.sock",
            "  device:        laptop (01234567)",
            "  conflict mode: auto",
            "  storage:       http://s3.local:8333 [ok]",
            "  nats:          not connected",
            "  active mounts: 2",
            "  credentials:   loaded (source: sops)",
        ]
    );
}

#[test]
fn status_report_without_device_warns_on_reload() {
    let mut st = daemon("");
    st.storage_ok = false;
    st.nats_ok = true;
    let cr = CredentialStatus { loaded: false, source: "env".to_string(), needs_reload: true };
    let lines = status_report(&st, &cr, "s");
    assert_eq!(lines.len(), 8);
    assert_eq!(lines[3], "  storage:       http://s3.local:8333 [UNREACHABLE]");
    assert_eq!(lines[4], "  nats:          connected");
    assert_eq!(lines[6], "  credentials:   NOT LOADED (source: env)");
    assert_eq!(lines[7], "  WARNING: credentials need reload");
}

#[test]
fn blake3_short_is_first_eight_hex_digits() {
    let full = blake3::hash(b"laptop").to_hex().to_string();
    assert_eq!(blake3_short("laptop"), full[..8].to_string());
    assert_eq!(blake3_short("").len(), 8);
}

#[test]
fn migration_moves_entries_and_deletes_shadowed_orphans() {
    let zero = MigrationCounts { migrated: 0, deleted: 0 };
    let (c, a) = migration_step(zero, "data/index/data/", "data/index/data/a", "data", false, true);
    assert_eq!(c, MigrationCounts { migrated: 1, deleted: 0 });
    assert_eq!(a, MigrationAction::Move("data/index/a".to_string()));
    let (c, a) = migration_step(c, "tcfs/index/", "tcfs/index/b", "data", true, true);
    assert_eq!(c, MigrationCounts { migrated: 1, deleted: 1 });
    assert_eq!(a, MigrationAction::DeleteOrphan);
    let (c, a) = migration_step(c, "tcfs/index/", "tcfs/index/c", "data", true, false);
    assert_eq!(c, MigrationCounts { migrated: 2, deleted: 1 });
    assert_eq!(a, MigrationAction::Move("data/index/c".to_string()));
    let (c, a) = migration_step(c, "tcfs/index/", "tcfs/index/dir/", "data", true, true);
    assert_eq!(c, MigrationCounts { migrated: 2, deleted: 1 });
    assert_eq!(a, MigrationAction::Skip);
}
