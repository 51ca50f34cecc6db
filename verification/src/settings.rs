//! Service configuration: the validated settings tree the node starts
//! with. Loading from files and environment happens outside; the checks on
//! the loaded values live here.

use vstd::prelude::*;
use crate::errors::StorageError;

verus! {

/// HTTP service configuration.
pub struct ServiceConfig {
    pub host: String,
    pub http_port: u16,
    pub grpc_port: Option<u16>,
    pub max_request_size_mb: usize,
    pub max_workers: Option<usize>,
    pub enable_cors: bool,
    pub enable_tls: bool,
    pub verify_https_client_certificate: bool,
}

/// Peer-to-peer networking configuration.
pub struct P2pConfig {
    pub port: Option<u16>,
    pub connection_pool_size: usize,
    pub enable_tls: bool,
}

impl Default for P2pConfig {
    /// No fixed port, the default pool size, plain transport.
    fn default() -> (r: Self)
        ensures
            r.port is None,
            r.connection_pool_size == 2,
            !r.enable_tls,
    {
        P2pConfig { port: None, connection_pool_size: default_connection_pool_size(), enable_tls: false }
    }
}

/// Consensus timing and queue configuration.
pub struct ConsensusConfig {
    pub max_message_queue_size: usize,
    pub tick_period_ms: u64,
    pub bootstrap_timeout_sec: u64,
}

impl Default for ConsensusConfig {
    /// The default queue bound and timing.
    fn default() -> (r: Self)
        ensures
            r.max_message_queue_size == 100,
            r.tick_period_ms == 100,
            r.bootstrap_timeout_sec == 15,
    {
        ConsensusConfig {
            max_message_queue_size: default_max_message_queue_size(),
            tick_period_ms: default_tick_period_ms(),
            bootstrap_timeout_sec: default_bootstrap_timeout_sec(),
        }
    }
}

/// Cluster-mode configuration.
pub struct ClusterConfig {
    pub enabled: bool,
    pub grpc_timeout_ms: u64,
    pub connection_timeout_ms: u64,
    pub p2p: P2pConfig,
    pub consensus: ConsensusConfig,
}

/// TLS material locations.
pub struct TlsConfig {
    pub cert: String,
    pub key: String,
    pub ca_cert: String,
}

/// Storage performance knobs the web layer reads.
pub struct PerformanceConfig {
    pub max_search_threads: usize,
}

/// Storage configuration, as far as the service layer consumes it.
pub struct StorageConfig {
    pub storage_path: String,
    pub on_disk_payload: bool,
    pub performance: PerformanceConfig,
}

/// The whole settings tree of one node.
pub struct Settings {
    pub debug: bool,
    pub log_level: String,
    pub storage: StorageConfig,
    pub service: ServiceConfig,
    pub cluster: ClusterConfig,
    pub telemetry_disabled: bool,
    pub tls: Option<TlsConfig>,
}

impl Settings {
    /// The TLS configuration, or the error that reports it missing.
    pub fn tls(&self) -> (r: Result<&TlsConfig, StorageError>)
        ensures
            self.tls is Some <==> r is Ok,
            r is Ok ==> self.tls == Some(*r->Ok_0),
            r is Err ==> r->Err_0 is ServiceError && r->Err_0->ServiceError_description@
                == "TLS config is not defined in the configuration file"@,
    {
        match &self.tls {
            Some(t) => Ok(t),
            None => Err(Self::tls_config_is_undefined_error()),
        }
    }

    /// The error reported when TLS is requested but not configured.
    pub fn tls_config_is_undefined_error() -> (r: StorageError)
        ensures
            r is ServiceError,
            r->ServiceError_description@
                == "TLS config is not defined in the configuration file"@,
    {
        StorageError::service_error("TLS config is not defined in the configuration file")
    }

    /// Whether every range and length check on the settings holds.
    pub open spec fn spec_valid(&self) -> bool {
        &&& self.service.host@.len() >= 1
        &&& self.cluster.grpc_timeout_ms >= 1
        &&& self.cluster.connection_timeout_ms >= 1
        &&& self.cluster.p2p.connection_pool_size >= 1
        &&& self.cluster.consensus.tick_period_ms >= 1
        &&& self.cluster.consensus.bootstrap_timeout_sec >= 1
    }

    /// Checks the settings and collects a description of every violated
    /// constraint; an empty result means the settings are valid.
    pub fn validate_and_warn(&self) -> (r: Vec<String>)
        ensures
            r@.len() == 0 <==> self.spec_valid(),
    {
        let mut warnings: Vec<String> = Vec::new();
        if self.service.host.as_str().is_empty() {
            warnings.push("service.host must not be empty".to_owned());
        }
        if self.cluster.grpc_timeout_ms < 1 {
            warnings.push("cluster.grpc_timeout_ms must be at least 1".to_owned());
        }
        if self.cluster.connection_timeout_ms < 1 {
            warnings.push("cluster.connection_timeout_ms must be at least 1".to_owned());
        }
        if self.cluster.p2p.connection_pool_size < 1 {
            warnings.push("cluster.p2p.connection_pool_size must be at least 1".to_owned());
        }
        if self.cluster.consensus.tick_period_ms < 1 {
            warnings.push("cluster.consensus.tick_period_ms must be at least 1".to_owned());
        }
        if self.cluster.consensus.bootstrap_timeout_sec < 1 {
            warnings.push("cluster.consensus.bootstrap_timeout_sec must be at least 1".to_owned());
        }
        warnings
    }
}

pub fn default_telemetry_disabled() -> (r: bool)
    ensures
        !r,
{
    false
}

pub fn default_cors() -> (r: bool)
    ensures
        r,
{
    true
}

pub fn default_debug() -> (r: bool)
    ensures
        !r,
{
    false
}

pub fn default_log_level() -> (r: String)
    ensures
        r@ == "INFO"@,
{
    "INFO".to_owned()
}

pub fn default_timeout_ms() -> (r: u64)
    ensures
        r == 60000,
{
    60000
}

pub fn default_connection_timeout_ms() -> (r: u64)
    ensures
        r == 2000,
{
    2000
}

pub fn default_tick_period_ms() -> (r: u64)
    ensures
        r == 100,
{
    100
}

pub fn default_bootstrap_timeout_sec() -> (r: u64)
    ensures
        r == 15,
{
    15
}

pub fn default_max_message_queue_size() -> (r: usize)
    ensures
        r == 100,
{
    100
}

pub fn default_connection_pool_size() -> (r: usize)
    ensures
        r == 2,
{
    2
}

/// How many web workers to run: an explicit zero asks for one fewer than
/// the machine's cores (never below one); no setting falls back to the
/// search-thread limit; anything else is taken as given.
pub fn max_web_workers(settings: &Settings, num_cpu: usize) -> (r: usize)
    ensures
        settings.service.max_workers == Some(0usize) ==> r == (if num_cpu as int - 1 >= 1 {
            num_cpu as int - 1
        } else {
            1
        }),
        settings.service.max_workers is None ==> r
            == settings.storage.performance.max_search_threads,
        (settings.service.max_workers is Some && settings.service.max_workers != Some(0usize))
            ==> r == settings.service.max_workers->Some_0,
{
    match settings.service.max_workers {
        Some(w) => {
            if w == 0 {
                if num_cpu >= 2 {
                    num_cpu - 1
                } else {
                    1
                }
            } else {
                w
            }
        },
        None => settings.storage.performance.max_search_threads,
    }
}

} // verus!
