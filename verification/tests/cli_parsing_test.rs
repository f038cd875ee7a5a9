//! Command-line parsing tests for `tcfs`.

use tcfs::cli::{Cli, CliEnv, Commands, ConfigAction};
use tcfs::cliscan::CliError;

fn parse(args: &[&str]) -> Result<Cli<String>, CliError> {
    Cli::try_parse_from(args)
}

#[test]
fn parse_status() {
    let cli = parse(&["tcfs", "status"]).expect("status should parse");
    assert!(matches!(cli.command, Commands::Status));
    assert!(!cli.config.is_empty());
}

#[test]
fn parse_status_with_custom_config() {
    let cli = parse(&["tcfs", "-c", "/tmp/test.toml", "status"]).expect("custom config should parse");
    assert_eq!(cli.config, "/tmp/test.toml");
}

#[test]
fn parse_config_show() {
    let cli = parse(&["tcfs", "config", "show"]).expect("config show should parse");
    assert!(matches!(
        cli.command,
        Commands::Config {
            action: ConfigAction::Show
        }
    ));
}

#[test]
fn parse_push_minimal() {
    let cli = parse(&["tcfs", "push", "/path/to/file"]).expect("push should parse");
    if let Commands::Push {
        local,
        prefix,
        state,
    } = cli.command
    {
        assert_eq!(local, "/path/to/file");
        assert!(prefix.is_none());
        assert!(state.is_none());
    } else {
        panic!("expected Push");
    }
}

#[test]
fn parse_push_with_prefix() {
    let cli = parse(&["tcfs", "push", "/src", "--prefix", "mydata"]).expect("push with prefix");
    if let Commands::Push { prefix, .. } = cli.command {
        assert_eq!(prefix, Some("mydata".to_string()));
    } else {
        panic!("expected Push");
    }
}

#[test]
fn parse_pull() {
    let cli = parse(&["tcfs", "pull", "data/manifests/abc123", "/tmp/output"]).expect("pull should parse");
    if let Commands::Pull {
        manifest,
        local,
        prefix,
        ..
    } = cli.command
    {
        assert_eq!(manifest, "data/manifests/abc123");
        assert_eq!(local, Some("/tmp/output".to_string()));
        assert!(prefix.is_none());
    } else {
        panic!("expected Pull");
    }
}

#[test]
fn parse_sync_status() {
    let cli = parse(&["tcfs", "sync-status"]).expect("sync-status should parse");
    if let Commands::SyncStatus { path, .. } = cli.command {
        assert!(path.is_none());
    } else {
        panic!("expected SyncStatus");
    }
}

#[test]
fn parse_sync_status_with_path() {
    let cli = parse(&["tcfs", "sync-status", "/home/user/docs"]).expect("sync-status path");
    if let Commands::SyncStatus { path, .. } = cli.command {
        assert_eq!(path, Some("/home/user/docs".to_string()));
    } else {
        panic!("expected SyncStatus");
    }
}

#[test]
fn parse_mount() {
    let cli = parse(&[
        "tcfs",
        "mount",
        "seaweedfs://localhost:8333/bucket",
        "/mnt/tcfs",
        "--read-only",
    ])
    .expect("mount should parse");
    if let Commands::Mount {
        remote,
        mountpoint,
        read_only,
        nfs,
        nfs_port,
    } = cli.command
    {
        assert_eq!(remote, "seaweedfs://localhost:8333/bucket");
        assert_eq!(mountpoint, "/mnt/tcfs");
        assert!(read_only);
        assert!(!nfs);
        assert_eq!(nfs_port, 0);
    } else {
        panic!("expected Mount");
    }
}

#[test]
fn parse_mount_nfs() {
    let cli = parse(&[
        "tcfs",
        "mount",
        "seaweedfs://host/bucket",
        "/mnt",
        "--nfs",
        "--nfs-port",
        "2049",
    ])
    .expect("mount nfs");
    if let Commands::Mount { nfs, nfs_port, .. } = cli.command {
        assert!(nfs);
        assert_eq!(nfs_port, 2049);
    } else {
        panic!("expected Mount");
    }
}

#[test]
fn parse_unmount() {
    let cli = parse(&["tcfs", "unmount", "/mnt/tcfs"]).expect("unmount");
    if let Commands::Unmount { mountpoint } = cli.command {
        assert_eq!(mountpoint, "/mnt/tcfs");
    } else {
        panic!("expected Unmount");
    }
}

#[test]
fn parse_unsync() {
    let cli = parse(&["tcfs", "unsync", "/path/to/file.txt"]).expect("unsync");
    if let Commands::Unsync { path, force } = cli.command {
        assert_eq!(path, "/path/to/file.txt");
        assert!(!force);
    } else {
        panic!("expected Unsync");
    }
}

#[test]
fn parse_unsync_force() {
    let cli = parse(&["tcfs", "unsync", "--force", "/file"]).expect("unsync force");
    if let Commands::Unsync { force, .. } = cli.command {
        assert!(force);
    } else {
        panic!("expected Unsync");
    }
}

#[test]
fn parse_init() {
    let cli = parse(&["tcfs", "init", "--device-name", "neo", "--non-interactive"]).expect("init");
    if let Commands::Init {
        device_name,
        non_interactive,
        ..
    } = cli.command
    {
        assert_eq!(device_name, Some("neo".to_string()));
        assert!(non_interactive);
    } else {
        panic!("expected Init");
    }
}

#[test]
fn unknown_command_fails() {
    let result = parse(&["tcfs", "bogus"]);
    assert!(result.is_err());
}

#[test]
fn missing_required_arg_fails() {
    let result = parse(&["tcfs", "push"]);
    assert!(result.is_err(), "push without local path should fail");
}

#[test]
fn help_flag_works() {
    let result = parse(&["tcfs", "--help"]);
    assert!(result.is_err());
}

// ── Further cases ────────────────────────────────────────────────────────────

#[test]
fn default_config_path_is_used() {
    let cli = parse(&["tcfs", "status"]).unwrap();
    assert_eq!(cli.config, "/etc/tcfs/config.toml");
}

#[test]
fn env_config_path_applies_when_no_flag() {
    let env = CliEnv {
        config: Some("/env/tcfs.toml".to_string()),
        ..CliEnv::unset()
    };
    let cli = Cli::try_parse_with_env(&["tcfs", "status"], &env).unwrap();
    assert_eq!(cli.config, "/env/tcfs.toml");
    let cli = Cli::try_parse_with_env(&["tcfs", "--config=/flag.toml", "status"], &env).unwrap();
    assert_eq!(cli.config, "/flag.toml");
}

#[test]
fn env_state_path_fills_push_state() {
    let env = CliEnv {
        state_path: Some("/state.json".to_string()),
        ..CliEnv::unset()
    };
    let cli = Cli::try_parse_with_env(&["tcfs", "push", "/a"], &env).unwrap();
    if let Commands::Push { state, .. } = cli.command {
        assert_eq!(state, Some("/state.json".to_string()));
    } else {
        panic!("expected Push");
    }
}

#[test]
fn short_prefix_forms() {
    for args in [
        &["tcfs", "push", "/a", "-p", "x"][..],
        &["tcfs", "push", "/a", "-px"][..],
        &["tcfs", "push", "/a", "-p=x"][..],
        &["tcfs", "push", "--prefix=x", "/a"][..],
    ] {
        let cli = parse(args).unwrap();
        if let Commands::Push { prefix, local, .. } = cli.command {
            assert_eq!(prefix, Some("x".to_string()));
            assert_eq!(local, "/a");
        } else {
            panic!("expected Push");
        }
    }
}

#[test]
fn error_kinds() {
    assert_eq!(parse(&["tcfs", "--version"]).unwrap_err(), CliError::DisplayVersion);
    assert_eq!(parse(&["tcfs"]).unwrap_err(), CliError::MissingSubcommand);
    assert_eq!(parse(&["tcfs", "bogus"]).unwrap_err(), CliError::InvalidSubcommand);
    assert_eq!(parse(&["tcfs", "push"]).unwrap_err(), CliError::MissingRequired);
    assert_eq!(parse(&["tcfs", "push", "/a", "/b"]).unwrap_err(), CliError::UnknownArgument);
    assert_eq!(parse(&["tcfs", "push", "/a", "--prefix"]).unwrap_err(), CliError::MissingValue);
    assert_eq!(parse(&["tcfs", "unsync", "--force=1", "/a"]).unwrap_err(), CliError::UnexpectedValue);
    assert_eq!(parse(&["tcfs", "mount", "r", "/m", "--nfs-port", "70000"]).unwrap_err(), CliError::InvalidValue);
    assert_eq!(parse(&["tcfs", "unsync", "--force", "--force", "/a"]).unwrap_err(), CliError::ArgumentRepeated);
    assert_eq!(
        parse(&["tcfs", "auth", "unlock", "--key-file", "a", "--passphrase-file", "b"]).unwrap_err(),
        CliError::ArgumentConflict
    );
    assert_eq!(parse(&["tcfs", "resolve", "/f", "-s", "nope"]).unwrap_err(), CliError::InvalidValue);
    assert_eq!(parse(&["tcfs", "help"]).unwrap_err(), CliError::DisplayHelp);
    assert_eq!(parse(&["tcfs", "config"]).unwrap_err(), CliError::MissingSubcommand);
}

#[test]
fn double_dash_makes_positionals() {
    let cli = parse(&["tcfs", "unsync", "--", "--force"]).unwrap();
    if let Commands::Unsync { path, force } = cli.command {
        assert_eq!(path, "--force");
        assert!(!force);
    } else {
        panic!("expected Unsync");
    }
}
