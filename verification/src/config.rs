//! Configuration of the orchestrator: general settings, persistence,
//! security, observability, and the snapshot/checkpoint and backup
//! settings, with validation.

use vstd::prelude::*;

verus! {

/// Deployment environments.
#[derive(Debug, Clone, Copy, PartialEq, Eq, Structural)]
pub enum Environment {
    Development,
    Staging,
    Production,
}

/// Log levels.
#[derive(Debug, Clone, Copy, PartialEq, Eq, Structural)]
pub enum LogLevel {
    Trace,
    Debug,
    Info,
    Warn,
    Error,
}

/// General settings.
#[derive(Debug, Clone, PartialEq)]
pub struct GeneralConfig {
    pub instance_name: String,
    pub version: String,
    pub environment: Environment,
    pub work_dir: String,
    pub log_dir: String,
    pub log_level: LogLevel,
    pub debug_mode: bool,
}

/// Supported database bindings.
#[derive(Debug, Clone, Copy, PartialEq, Eq, Structural)]
pub enum DatabaseType {
    PostgreSQL,
    SQLite,
    MongoDB,
    Redis,
}

/// Cache settings.
#[derive(Debug, Clone, PartialEq)]
pub struct CacheConfig {
    pub enabled: bool,
    pub redis_url: String,
    pub default_ttl: u64,
    pub max_size_mb: u64,
}

/// Persistence settings.
#[derive(Debug, Clone, PartialEq)]
pub struct PersistenceConfig {
    pub database_type: DatabaseType,
    pub database_url: String,
    pub connection_pool_size: u32,
    pub connection_timeout_ms: u64,
    pub cache: CacheConfig,
}

/// TLS settings.
#[derive(Debug, Clone, PartialEq)]
pub struct TlsConfig {
    pub cert_file: String,
    pub key_file: String,
    pub ca_file: Option<String>,
}

/// Cross-origin settings.
#[derive(Debug, Clone, PartialEq)]
pub struct CorsConfig {
    pub allowed_origins: Vec<String>,
    pub allowed_methods: Vec<String>,
    pub allowed_headers: Vec<String>,
}

/// Security settings.
#[derive(Debug, Clone, PartialEq)]
pub struct SecurityConfig {
    pub authentication_enabled: bool,
    pub jwt_secret: String,
    pub token_expiration: u64,
    pub tls: Option<TlsConfig>,
    pub cors: CorsConfig,
}

/// Metrics exposition settings.
#[derive(Debug, Clone, PartialEq)]
pub struct MetricsConfig {
    pub enabled: bool,
    pub port: u16,
    pub path: String,
    pub collection_interval: u64,
}

/// Tracing settings. The sampling rate is kept in per-mille.
#[derive(Debug, Clone, PartialEq)]
pub struct TracingConfig {
    pub enabled: bool,
    pub jaeger_endpoint: Option<String>,
    pub sampling_permille: u32,
}

/// Health check settings.
#[derive(Debug, Clone, PartialEq)]
pub struct HealthCheckConfig {
    pub enabled: bool,
    pub check_interval: u64,
    pub check_timeout: u64,
}

/// Observability settings.
#[derive(Debug, Clone, PartialEq)]
pub struct ObservabilityConfig {
    pub metrics: MetricsConfig,
    pub tracing: TracingConfig,
    pub health_checks: HealthCheckConfig,
}

/// Awareness settings of the advisory subsystem; rates are kept in
/// per-mille.
#[derive(Debug, Clone, PartialEq)]
pub struct ConsciousnessConfig {
    pub enabled: bool,
    pub initial_awareness_level: String,
    pub evolution_rate_permille: u32,
    pub adaptation_threshold_permille: u32,
    pub max_episodic_memory: usize,
    pub consolidation_interval: u64,
}

/// Execution limits; the safety factor of estimates is in per-mille.
#[derive(Debug, Clone, PartialEq)]
pub struct ExecutionConfig {
    pub max_parallel_tasks: usize,
    pub timeout_seconds: u64,
    pub retry_attempts: u32,
    pub default_timeout_ms: u64,
    pub working_dir: String,
}

/// Retry settings; multiplier and jitter are in plain units and
/// per-mille respectively.
#[derive(Debug, Clone, PartialEq)]
pub struct RetryConfig {
    pub max_attempts: u32,
    pub base_delay_ms: u64,
    pub multiplier: u32,
    pub jitter_permille: u32,
}

/// Per-backend breaker settings.
#[derive(Debug, Clone, PartialEq)]
pub struct BreakerConfig {
    pub failure_threshold: u32,
    pub open_timeout_ms: u64,
}

/// Object-store settings.
#[derive(Debug, Clone, PartialEq)]
pub struct MinioConfig {
    pub endpoint: String,
    pub bucket_name: String,
    pub access_key: String,
    pub secret_key: String,
    pub region: String,
}

/// Local database settings for checkpoints.
#[derive(Debug, Clone, PartialEq)]
pub struct SqliteConfig {
    pub database_path: String,
    pub max_connections: u32,
    pub connection_timeout_seconds: u64,
}

/// Snapshot settings.
#[derive(Debug, Clone, PartialEq)]
pub struct SnapshotConfig {
    pub interval_seconds: u64,
    pub max_snapshots: u32,
    pub compression_enabled: bool,
    pub snapshot_prefix: String,
}

/// Checkpoint settings.
#[derive(Debug, Clone, PartialEq)]
pub struct CheckpointConfig {
    pub tasks_per_checkpoint: u32,
    pub retention_days: u32,
    pub auto_cleanup: bool,
}

/// Backup settings: object store, local database, snapshots and
/// checkpoints.
#[derive(Debug, Clone, PartialEq)]
pub struct BackupConfig {
    pub minio_config: MinioConfig,
    pub sqlite_config: SqliteConfig,
    pub snapshot_config: SnapshotConfig,
    pub checkpoint_config: CheckpointConfig,
}

/// The kinds of backup operation.
#[derive(Debug, Clone, Copy, PartialEq, Eq, Structural)]
pub enum BackupOperationType {
    Snapshot,
    Checkpoint,
    Restore,
    Cleanup,
}

/// Outcome of one backup operation.
#[derive(Debug, Clone, PartialEq)]
pub struct BackupResult {
    pub operation_type: BackupOperationType,
    pub success: bool,
    pub duration_ms: u64,
    pub size_bytes: Option<u64>,
    pub error_message: Option<String>,
}

/// The orchestrator's configuration.
#[derive(Debug, Clone, PartialEq)]
pub struct OrchestratorConfig {
    pub general: GeneralConfig,
    pub execution: ExecutionConfig,
    pub max_workers: usize,
    pub retry: RetryConfig,
    pub consciousness: ConsciousnessConfig,
    pub persistence: PersistenceConfig,
    pub security: SecurityConfig,
    pub observability: ObservabilityConfig,
    pub backup: BackupConfig,
}

impl OrchestratorConfig {
    /// Whether the configuration is acceptable: names are present,
    /// concurrency is positive, and rates are within one.
    pub open spec fn spec_valid(self) -> bool {
        &&& self.general.instance_name@.len() > 0
        &&& self.execution.max_parallel_tasks > 0
        &&& self.max_workers > 0
        &&& self.retry.jitter_permille <= 1000
        &&& self.consciousness.evolution_rate_permille <= 1000
        &&& self.backup.checkpoint_config.tasks_per_checkpoint > 0
    }

    /// Validates the configuration, naming the first offending field.
    pub fn validate(&self) -> (r: Result<(), String>)
        ensures
            r is Ok <==> self.spec_valid(),
    {
        if self.general.instance_name.as_str().is_empty() {
            return Err("instance name cannot be empty".to_owned());
        }
        if self.execution.max_parallel_tasks == 0 {
            return Err("max parallel tasks must be greater than 0".to_owned());
        }
        if self.max_workers == 0 {
            return Err("max workers must be greater than 0".to_owned());
        }
        if self.retry.jitter_permille > 1000 {
            return Err("retry jitter must be at most one".to_owned());
        }
        if self.consciousness.evolution_rate_permille > 1000 {
            return Err("evolution rate must be between 0 and 1".to_owned());
        }
        if self.backup.checkpoint_config.tasks_per_checkpoint == 0 {
            return Err("tasks per checkpoint must be greater than 0".to_owned());
        }
        Ok(())
    }

    /// The standard configuration.
    pub fn standard() -> (r: OrchestratorConfig)
        ensures
            r.spec_valid(),
            r.general.instance_name@ == "orchestrator-core"@,
            r.general.environment == Environment::Development,
            r.general.debug_mode == false,
            r.general.log_level == LogLevel::Info,
            r.consciousness.enabled,
            r.security.authentication_enabled == false,
            r.max_workers >= 1,
            r.retry.max_attempts == 3,
            r.retry.base_delay_ms == 100,
            r.retry.multiplier == 2,
            r.retry.jitter_permille == 100,
            r.backup.snapshot_config.interval_seconds == 300,
            r.backup.snapshot_config.max_snapshots == 10,
            r.backup.checkpoint_config.tasks_per_checkpoint == 10,
    {
        let workers = crate::trusted::cpu_count();
        let c = OrchestratorConfig {
            general: GeneralConfig {
                instance_name: "orchestrator-core".to_owned(),
                version: "0.1.0".to_owned(),
                environment: Environment::Development,
                work_dir: "./work".to_owned(),
                log_dir: "./logs".to_owned(),
                log_level: LogLevel::Info,
                debug_mode: false,
            },
            execution: ExecutionConfig {
                max_parallel_tasks: 4,
                timeout_seconds: 300,
                retry_attempts: 3,
                default_timeout_ms: 3_600_000,
                working_dir: "./work".to_owned(),
            },
            max_workers: workers,
            retry: RetryConfig {
                max_attempts: 3,
                base_delay_ms: 100,
                multiplier: 2,
                jitter_permille: 100,
            },
            consciousness: ConsciousnessConfig {
                enabled: true,
                initial_awareness_level: "Basic".to_owned(),
                evolution_rate_permille: 100,
                adaptation_threshold_permille: 700,
                max_episodic_memory: 1000,
                consolidation_interval: 3600,
            },
            persistence: PersistenceConfig {
                database_type: DatabaseType::SQLite,
                database_url: "sqlite://orchestrator.db".to_owned(),
                connection_pool_size: 10,
                connection_timeout_ms: 5000,
                cache: CacheConfig {
                    enabled: false,
                    redis_url: "redis://localhost:6379".to_owned(),
                    default_ttl: 3600,
                    max_size_mb: 256,
                },
            },
            security: SecurityConfig {
                authentication_enabled: false,
                jwt_secret: "change-me-in-production".to_owned(),
                token_expiration: 3600,
                tls: None,
                cors: CorsConfig {
                    allowed_origins: Vec::new(),
                    allowed_methods: Vec::new(),
                    allowed_headers: Vec::new(),
                },
            },
            observability: ObservabilityConfig {
                metrics: MetricsConfig {
                    enabled: true,
                    port: 9090,
                    path: "/metrics".to_owned(),
                    collection_interval: 60,
                },
                tracing: TracingConfig {
                    enabled: false,
                    jaeger_endpoint: None,
                    sampling_permille: 100,
                },
                health_checks: HealthCheckConfig {
                    enabled: true,
                    check_interval: 30,
                    check_timeout: 5,
                },
            },
            backup: BackupConfig {
                minio_config: MinioConfig {
                    endpoint: "http://localhost:9000".to_owned(),
                    bucket_name: "orchestrator-snapshots".to_owned(),
                    access_key: String::new(),
                    secret_key: String::new(),
                    region: "us-east-1".to_owned(),
                },
                sqlite_config: SqliteConfig {
                    database_path: "./orchestrator-backup.db".to_owned(),
                    max_connections: 4,
                    connection_timeout_seconds: 30,
                },
                snapshot_config: SnapshotConfig {
                    interval_seconds: 300,
                    max_snapshots: 10,
                    compression_enabled: true,
                    snapshot_prefix: "snapshots".to_owned(),
                },
                checkpoint_config: CheckpointConfig {
                    tasks_per_checkpoint: 10,
                    retention_days: 7,
                    auto_cleanup: true,
                },
            },
        };
        proof {
            reveal_strlit("orchestrator-core");
        }
        c
    }

    /// The configuration tuned for an environment.
    pub fn for_environment(env: Environment) -> (r: OrchestratorConfig)
        ensures
            r.general.environment == env,
            env == Environment::Development ==> r.general.debug_mode
                && r.general.log_level == LogLevel::Debug
                && !r.security.authentication_enabled,
            env == Environment::Staging ==> !r.general.debug_mode
                && r.general.log_level == LogLevel::Info && r.security.authentication_enabled,
            env == Environment::Production ==> !r.general.debug_mode
                && r.general.log_level == LogLevel::Warn && r.security.authentication_enabled,
            r.spec_valid(),
    {
        let mut c = Self::standard();
        c.general.environment = env;
        match env {
            Environment::Development => {
                c.general.debug_mode = true;
                c.general.log_level = LogLevel::Debug;
                c.security.authentication_enabled = false;
            },
            Environment::Staging => {
                c.general.debug_mode = false;
                c.general.log_level = LogLevel::Info;
                c.security.authentication_enabled = true;
            },
            Environment::Production => {
                c.general.debug_mode = false;
                c.general.log_level = LogLevel::Warn;
                c.security.authentication_enabled = true;
            },
        }
        c
    }
}

} // verus!
