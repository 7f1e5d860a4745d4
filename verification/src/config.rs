//! What a process is configured to do.

use vstd::prelude::*;

use crate::engine::net::SocketAddr;
use crate::engine::time::Duration;
use crate::proxy::ConnectionLimits;

verus! {

/// Why a configuration cannot be used.
#[derive(Debug, Clone, PartialEq, Eq)]
pub enum ConfigError {
    /// The file cannot be read.
    Read { path: String },
    /// The file is not a configuration.
    Parse { path: String },
    /// There is nothing to listen on.
    NoProxy,
}

impl ConfigError {
    /// What the error reads.
    pub open spec fn text(self) -> Seq<char> {
        match self {
            ConfigError::Read { path } => "reading config file "@ + path@
                + " (copy config.example.toml to get started)"@,
            ConfigError::Parse { path } => "parsing config file "@ + path@,
            ConfigError::NoProxy => "config has no [[proxy]] entry, so there is nothing to listen on"@,
        }
    }

    /// The text of the error.
    pub fn message(&self) -> (message: String)
        ensures
            message@ == self.text(),
    {
        match self {
            ConfigError::Read { path } => {
                let mut message = "reading config file ".to_owned();
                message.append(path.as_str());
                message.append(" (copy config.example.toml to get started)");
                message
            },
            ConfigError::Parse { path } => {
                let mut message = "parsing config file ".to_owned();
                message.append(path.as_str());
                message
            },
            ConfigError::NoProxy => {
                "config has no [[proxy]] entry, so there is nothing to listen on".to_owned()
            },
        }
    }
}

/// The configuration of a process: one or more listeners, and optional
/// endpoints for metrics and for probes.
#[derive(Debug, Clone)]
pub struct Config {
    pub proxy: Vec<ProxyConfig>,
    pub metrics: Option<EndpointConfig>,
    pub health: Option<EndpointConfig>,
}

/// Where an endpoint listens.
#[derive(Debug, Clone)]
pub struct EndpointConfig {
    pub listen_addr: SocketAddr,
}

/// One listener with its upstream and its policies.
#[derive(Debug, Clone)]
pub struct ProxyConfig {
    pub listen_addr: SocketAddr,
    pub upstream_addr: SocketAddr,
    /// Present to reach the upstream over TLS.
    pub upstream_tls: Option<UpstreamTlsConfig>,
    /// Present to accept clients over TLS.
    pub listen_tls: Option<ListenTlsConfig>,
    /// Present to let clients of a plaintext listener ask for TLS. Without
    /// effect where `listen_tls` is set.
    pub listen_starttls: Option<ListenTlsConfig>,
    pub max_connections: usize,
    pub io_timeout_secs: u64,
    pub shutdown_timeout_secs: u64,
    pub policy: PolicySource,
}

/// TLS to an upstream.
#[derive(Debug, Clone)]
pub struct UpstreamTlsConfig {
    /// The name that the upstream's certificate has to bear.
    pub server_name: String,
    /// The authorities to trust instead of the system's.
    pub ca_file: Option<String>,
    /// The certificate to present to the upstream.
    pub client_cert: Option<ClientCertConfig>,
    /// Whether to ask for TLS on a plaintext connection instead of beginning
    /// with it.
    pub starttls: bool,
}

/// TLS for clients.
#[derive(Debug, Clone)]
pub struct ListenTlsConfig {
    pub cert_file: String,
    pub key_file: String,
    /// The authorities that clients' certificates are verified against;
    /// absent, clients need none.
    pub client_ca_file: Option<String>,
}

/// A certificate and its key.
#[derive(Debug, Clone)]
pub struct ClientCertConfig {
    pub cert_file: String,
    pub key_file: String,
}

/// The file that holds the policies.
#[derive(Debug, Clone)]
pub struct PolicySource {
    pub file: String,
}

/// How many connections a listener handles at once unless configured
/// otherwise.
pub fn default_max_connections() -> (n: usize)
    ensures
        n == 1024,
{
    ConnectionLimits::default().max_connections
}

/// How many seconds a read or write may take unless configured otherwise.
pub fn default_io_timeout_secs() -> (secs: u64)
    ensures
        secs == 60,
{
    ConnectionLimits::default().io_timeout.as_secs()
}

/// How many seconds connections in flight may take to finish at shutdown
/// unless configured otherwise.
pub fn default_shutdown_timeout_secs() -> (secs: u64)
    ensures
        secs == 30,
{
    ConnectionLimits::default().shutdown_timeout.as_secs()
}

impl Config {
    /// Makes sure that there is something to listen on.
    pub fn check(&self) -> (usable: Result<(), ConfigError>)
        ensures
            if self.proxy@.len() == 0 {
                usable matches Err(ConfigError::NoProxy)
            } else {
                usable is Ok
            },
    {
        if self.proxy.len() == 0 {
            Err(ConfigError::NoProxy)
        } else {
            Ok(())
        }
    }
}

impl ProxyConfig {
    /// Whether limits are the configured ones.
    pub open spec fn has_limits(self, limits: ConnectionLimits) -> bool {
        &&& limits.max_connections == self.max_connections
        &&& limits.io_timeout.total_nanos() == self.io_timeout_secs * 1_000_000_000
        &&& limits.shutdown_timeout.total_nanos() == self.shutdown_timeout_secs * 1_000_000_000
    }

    /// The configured limits.
    pub fn limits(&self) -> (limits: ConnectionLimits)
        ensures
            self.has_limits(limits),
    {
        ConnectionLimits {
            max_connections: self.max_connections,
            io_timeout: Duration::from_secs(self.io_timeout_secs),
            shutdown_timeout: Duration::from_secs(self.shutdown_timeout_secs),
        }
    }

    /// Whether TLS with the upstream is asked for on a plaintext connection.
    pub open spec fn asks_for_starttls(self) -> bool {
        match self.upstream_tls {
            Some(tls) => tls.starttls,
            None => false,
        }
    }
}

/// What errors in a configuration read: which file it is, and what to do
/// about one that cannot be read.
pub proof fn config_errors_read(path: String)
    ensures
        (ConfigError::Read { path }).text() == "reading config file "@ + path@
            + " (copy config.example.toml to get started)"@,
        (ConfigError::Parse { path }).text() == "parsing config file "@ + path@,
        ConfigError::NoProxy.text()
            == "config has no [[proxy]] entry, so there is nothing to listen on"@,
{
}

/// Limits are the configured ones if they allow the configured number of
/// connections and their times are the configured numbers of seconds.
pub proof fn limits_are_configured_in_seconds(proxy: ProxyConfig, limits: ConnectionLimits)
    requires
        limits.io_timeout.subsec_nanos() < 1_000_000_000,
        limits.shutdown_timeout.subsec_nanos() < 1_000_000_000,
    ensures
        proxy.has_limits(limits) <==> {
            &&& limits.max_connections == proxy.max_connections
            &&& limits.io_timeout.secs() == proxy.io_timeout_secs
            &&& limits.io_timeout.subsec_nanos() == 0
            &&& limits.shutdown_timeout.secs() == proxy.shutdown_timeout_secs
            &&& limits.shutdown_timeout.subsec_nanos() == 0
        },
{
}

}
