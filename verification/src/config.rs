//! Daemon configuration (`tcfs.toml`): the settings and their defaults.
//! Paths are kept as the text of the path. Reading the file is the caller's.
use vstd::prelude::*;

verus! {

/// Daemon settings.
#[derive(Debug, Clone)]
pub struct DaemonConfig {
    /// Unix socket path for gRPC (default: /run/tcfsd/tcfsd.sock)
    pub socket: String,
    /// TCP listen address for remote gRPC (optional)
    pub listen: Option<String>,
    /// Prometheus metrics endpoint (default: 127.0.0.1:9100)
    pub metrics_addr: Option<String>,
    /// Log level (default: info)
    pub log_level: String,
    /// Log format: "json" or "text"
    pub log_format: String,
}

impl Default for DaemonConfig {
    fn default() -> (r: Self)
        ensures
            r.socket@ == "/run/tcfsd/tcfsd.sock"@,
            r.listen is None,
            r.metrics_addr matches Some(s) && s@ == "127.0.0.1:9100"@,
            r.log_level@ == "info"@,
            r.log_format@ == "json"@,
    {
        DaemonConfig {
            socket: "/run/tcfsd/tcfsd.sock".to_owned(),
            listen: None,
            metrics_addr: Some("127.0.0.1:9100".to_owned()),
            log_level: "info".to_owned(),
            log_format: "json".to_owned(),
        }
    }
}

/// Object storage settings.
#[derive(Debug, Clone)]
pub struct StorageConfig {
    /// SeaweedFS S3 endpoint
    pub endpoint: String,
    /// S3 region (default: us-east-1)
    pub region: String,
    /// Default bucket name
    pub bucket: String,
    /// SOPS credential file path
    pub credentials_file: Option<String>,
    /// Enforce HTTPS for S3 connections (warn/error on HTTP endpoints)
    pub enforce_tls: bool,
    /// Path to a custom CA certificate for S3 TLS verification
    pub ca_cert_path: Option<String>,
}

impl Default for StorageConfig {
    fn default() -> (r: Self)
        ensures
            r.endpoint@ == "http://localhost:8333"@,
            r.region@ == "us-east-1"@,
            r.bucket@ == "tcfs"@,
            r.credentials_file is None,
            r.enforce_tls == false,
            r.ca_cert_path is None,
    {
        StorageConfig {
            endpoint: "http://localhost:8333".to_owned(),
            region: "us-east-1".to_owned(),
            bucket: "tcfs".to_owned(),
            credentials_file: None,
            enforce_tls: false,
            ca_cert_path: None,
        }
    }
}

/// Secret store settings.
#[derive(Debug, Clone)]
pub struct SecretsConfig {
    /// Age identity file (default: ~/.config/sops/age/keys.txt)
    pub age_identity: Option<String>,
    /// KDBX database file path
    pub kdbx_path: Option<String>,
    /// SOPS credentials directory
    pub sops_dir: Option<String>,
}

impl Default for SecretsConfig {
    fn default() -> (r: Self)
        ensures
            r.age_identity is None,
            r.kdbx_path is None,
            r.sops_dir is None,
    {
        SecretsConfig {
            age_identity: None,
            kdbx_path: None,
            sops_dir: None,
        }
    }
}

/// Sync engine settings.
#[derive(Debug, Clone)]
pub struct SyncConfig {
    /// NATS JetStream endpoint
    pub nats_url: String,
    /// Enforce TLS for NATS connections
    pub nats_tls: bool,
    /// Path to a custom CA certificate for NATS TLS verification
    pub nats_ca_cert: Option<String>,
    /// RocksDB state cache path
    pub state_db: String,
    /// Worker thread count (0 = cpu_count)
    pub workers: usize,
    /// Retry limit for failed tasks
    pub max_retries: u32,
    /// Path to device identity JSON file
    pub device_identity: Option<String>,
    /// Device name (defaults to hostname)
    pub device_name: Option<String>,
    /// Conflict resolution mode: "auto", "interactive", or "defer"
    pub conflict_mode: String,
    /// Whether to sync .git directories
    pub sync_git_dirs: bool,
    /// Git sync mode: "bundle" or "raw"
    pub git_sync_mode: String,
    /// Whether to sync hidden directories (dotfiles/dotdirs)
    pub sync_hidden_dirs: bool,
    /// Glob patterns to exclude from sync
    pub exclude_patterns: Vec<String>,
}

impl Default for SyncConfig {
    fn default() -> (r: Self)
        ensures
            r.nats_url@ == "nats://localhost:4222"@,
            r.nats_tls == false,
            r.nats_ca_cert is None,
            r.state_db@ == "~/.local/share/tcfsd/state.db"@,
            r.workers == 0,
            r.max_retries == 3,
            r.device_identity is None,
            r.device_name is None,
            r.conflict_mode@ == "auto"@,
            r.sync_git_dirs == false,
            r.git_sync_mode@ == "bundle"@,
            r.sync_hidden_dirs == false,
            r.exclude_patterns@.len() == 0,
    {
        SyncConfig {
            nats_url: "nats://localhost:4222".to_owned(),
            nats_tls: false,
            nats_ca_cert: None,
            state_db: "~/.local/share/tcfsd/state.db".to_owned(),
            workers: 0,
            max_retries: 3,
            device_identity: None,
            device_name: None,
            conflict_mode: "auto".to_owned(),
            sync_git_dirs: false,
            git_sync_mode: "bundle".to_owned(),
            sync_hidden_dirs: false,
            exclude_patterns: Vec::new(),
        }
    }
}

/// FUSE mount settings.
#[derive(Debug, Clone)]
pub struct FuseConfig {
    /// Negative dentry cache TTL in seconds (default: 30)
    pub negative_cache_ttl_secs: u64,
    /// Disk cache directory for partial downloads
    pub cache_dir: String,
    /// Maximum disk cache size in MB
    pub cache_max_mb: u64,
}

impl Default for FuseConfig {
    fn default() -> (r: Self)
        ensures
            r.negative_cache_ttl_secs == 30,
            r.cache_dir@ == "~/.cache/tcfs"@,
            r.cache_max_mb == 10240,
    {
        FuseConfig {
            negative_cache_ttl_secs: 30,
            cache_dir: "~/.cache/tcfs".to_owned(),
            cache_max_mb: 10240,
        }
    }
}

/// End-to-end encryption settings.
#[derive(Debug, Clone)]
pub struct CryptoConfig {
    /// Enable client-side encryption (default: false until key is set up)
    pub enabled: bool,
    /// Argon2id memory cost in KiB (default: 65536 = 64 MiB)
    pub argon2_mem_cost_kib: u32,
    /// Argon2id time cost (iterations, default: 3)
    pub argon2_time_cost: u32,
    /// Argon2id parallelism (default: 4)
    pub argon2_parallelism: u32,
    /// Path to the encrypted master key file
    pub master_key_file: Option<String>,
    /// Path to the device identity file
    pub device_identity: Option<String>,
}

impl Default for CryptoConfig {
    fn default() -> (r: Self)
        ensures
            r.enabled == false,
            r.argon2_mem_cost_kib == 65536,
            r.argon2_time_cost == 3,
            r.argon2_parallelism == 4,
            r.master_key_file is None,
            r.device_identity is None,
    {
        CryptoConfig {
            enabled: false,
            argon2_mem_cost_kib: 65536,
            argon2_time_cost: 3,
            argon2_parallelism: 4,
            master_key_file: None,
            device_identity: None,
        }
    }
}

/// SOPS secret propagation settings.
#[derive(Debug, Clone)]
pub struct SopsConfig {
    /// Enable SOPS secret propagation
    pub enabled: bool,
    /// Local SOPS-managed directory to watch/sync
    pub sops_dir: String,
    /// S3 prefix for SOPS sync data
    pub sync_prefix: String,
    /// Machine identifier (defaults to hostname)
    pub machine_id: Option<String>,
    /// Local backup directory for pre-mutation snapshots
    pub backup_dir: String,
    /// Auto-watch for filesystem changes and push
    pub watch: bool,
}

impl Default for SopsConfig {
    fn default() -> (r: Self)
        ensures
            r.enabled == false,
            r.sops_dir@ == "~/.config/sops/age"@,
            r.sync_prefix@ == "sops-sync"@,
            r.machine_id is None,
            r.backup_dir@ == "~/.local/share/tcfs/sops-backups"@,
            r.watch == false,
    {
        SopsConfig {
            enabled: false,
            sops_dir: "~/.config/sops/age".to_owned(),
            sync_prefix: "sops-sync".to_owned(),
            machine_id: None,
            backup_dir: "~/.local/share/tcfs/sops-backups".to_owned(),
            watch: false,
        }
    }
}

/// Top-level daemon configuration.
#[derive(Debug, Clone)]
pub struct TcfsConfig {
    pub daemon: DaemonConfig,
    pub storage: StorageConfig,
    pub secrets: SecretsConfig,
    pub sync: SyncConfig,
    pub fuse: FuseConfig,
    pub crypto: CryptoConfig,
    pub sops: SopsConfig,
    /// Warn if the config file is world-readable. A file that leaves it out
    /// gets `default_true()`; `TcfsConfig::default()` has `false`.
    pub config_file_mode_check: bool,
}

/// The value that a configuration file that leaves out
/// `config_file_mode_check` gets.
pub fn default_true() -> (r: bool)
    ensures
        r,
{
    true
}

impl Default for TcfsConfig {
    fn default() -> (r: Self)
        ensures
            r.daemon.socket@ == "/run/tcfsd/tcfsd.sock"@,
            r.daemon.listen is None,
            r.daemon.metrics_addr matches Some(s) && s@ == "127.0.0.1:9100"@,
            r.daemon.log_level@ == "info"@,
            r.daemon.log_format@ == "json"@,
            r.storage.endpoint@ == "http://localhost:8333"@,
            r.storage.region@ == "us-east-1"@,
            r.storage.bucket@ == "tcfs"@,
            r.storage.credentials_file is None,
            r.storage.enforce_tls == false,
            r.storage.ca_cert_path is None,
            r.secrets.age_identity is None,
            r.secrets.kdbx_path is None,
            r.secrets.sops_dir is None,
            r.sync.nats_url@ == "nats://localhost:4222"@,
            r.sync.nats_tls == false,
            r.sync.nats_ca_cert is None,
            r.sync.state_db@ == "~/.local/share/tcfsd/state.db"@,
            r.sync.workers == 0,
            r.sync.max_retries == 3,
            r.sync.device_identity is None,
            r.sync.device_name is None,
            r.sync.conflict_mode@ == "auto"@,
            r.sync.sync_git_dirs == false,
            r.sync.git_sync_mode@ == "bundle"@,
            r.sync.sync_hidden_dirs == false,
            r.sync.exclude_patterns@.len() == 0,
            r.fuse.negative_cache_ttl_secs == 30,
            r.fuse.cache_dir@ == "~/.cache/tcfs"@,
            r.fuse.cache_max_mb == 10240,
            r.crypto.enabled == false,
            r.crypto.argon2_mem_cost_kib == 65536,
            r.crypto.argon2_time_cost == 3,
            r.crypto.argon2_parallelism == 4,
            r.crypto.master_key_file is None,
            r.crypto.device_identity is None,
            r.sops.enabled == false,
            r.sops.sops_dir@ == "~/.config/sops/age"@,
            r.sops.sync_prefix@ == "sops-sync"@,
            r.sops.machine_id is None,
            r.sops.backup_dir@ == "~/.local/share/tcfs/sops-backups"@,
            r.sops.watch == false,
            !r.config_file_mode_check,
    {
        TcfsConfig {
            daemon: DaemonConfig::default(),
            storage: StorageConfig::default(),
            secrets: SecretsConfig::default(),
            sync: SyncConfig::default(),
            fuse: FuseConfig::default(),
            crypto: CryptoConfig::default(),
            sops: SopsConfig::default(),
            config_file_mode_check: false,
        }
    }
}

} // verus!
