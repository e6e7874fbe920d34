//! Proxy configuration: its settings and their defaults, the file formats it
//! is read from, its validation and its errors. Reading and writing files
//! (and the format parsers) stand outside this library.

use std::path::Path;
use vstd::prelude::*;
use crate::text::{concat, parse_u64, parse_u64_str, str_eq, to_owned};

verus! {

/// What `Path::extension` gives for a path, as text: the part of the file
/// name after its last dot, if there is one that does not start it.
pub uninterp spec fn path_extension(path: Seq<char>) -> Option<Seq<char>>;

/// `Path::new(path).extension()` converted to a string. Trusted: the result
/// is named `path_extension` of the path; the path grammar behind it is not
/// stated.
#[verifier::external_body]
pub(crate) fn extension_of(path: &str) -> (r: Option<String>)
    ensures
        match r {
            Some(e) => path_extension(path@) == Some(e@),
            None => path_extension(path@) is None,
        },
{
    Path::new(path).extension().and_then(|e| e.to_str()).map(|e| e.to_string())
}

/// Configuration file format
#[derive(Debug, Clone, Copy, PartialEq, Eq, Structural)]
pub enum ConfigFormat {
    Yaml,
    Toml,
    Json,
}

/// The format that a file extension announces.
pub open spec fn format_of_extension(ext: Option<Seq<char>>) -> Option<ConfigFormat> {
    match ext {
        Some(e) => if e == "yaml"@ || e == "yml"@ {
            Some(ConfigFormat::Yaml)
        } else if e == "toml"@ {
            Some(ConfigFormat::Toml)
        } else if e == "json"@ {
            Some(ConfigFormat::Json)
        } else {
            None
        },
        None => None,
    }
}

impl ConfigFormat {
    /// Detect format from file extension
    pub fn from_path(path: &str) -> (r: Option<Self>)
        ensures
            r == format_of_extension(path_extension(path@)),
    {
        match extension_of(path) {
            Some(e) => {
                let e = e.as_str();
                if crate::text::str_eq(e, "yaml") || crate::text::str_eq(e, "yml") {
                    Some(Self::Yaml)
                } else if crate::text::str_eq(e, "toml") {
                    Some(Self::Toml)
                } else if crate::text::str_eq(e, "json") {
                    Some(Self::Json)
                } else {
                    None
                }
            },
            None => None,
        }
    }
}

/// TLS/mTLS specific configuration
#[derive(Debug, Clone)]
pub struct TlsConfig {
    /// Enable TLS
    pub enabled: bool,
    /// Path to server certificate
    pub cert_path: String,
    /// Path to private key
    pub key_path: String,
    /// Path to CA certificate for client verification
    pub ca_path: Option<String>,
    /// Require client certificates (mTLS)
    pub require_client_cert: bool,
}

pub fn default_true() -> (r: bool)
    ensures
        r,
{
    true
}

pub fn default_cert_path() -> (r: String)
    ensures
        r@ == "/etc/aegis/certs/server.crt"@,
{
    to_owned("/etc/aegis/certs/server.crt")
}

pub fn default_key_path() -> (r: String)
    ensures
        r@ == "/etc/aegis/certs/server.key"@,
{
    to_owned("/etc/aegis/certs/server.key")
}

impl Default for TlsConfig {
    fn default() -> (r: Self)
        ensures
            r.enabled,
            r.cert_path@ == "/etc/aegis/certs/server.crt"@,
            r.key_path@ == "/etc/aegis/certs/server.key"@,
            r.ca_path is None,
            !r.require_client_cert,
    {
        Self {
            enabled: true,
            cert_path: default_cert_path(),
            key_path: default_key_path(),
            ca_path: None,
            require_client_cert: false,
        }
    }
}

/// Logging configuration
#[derive(Debug, Clone)]
pub struct LogConfig {
    /// Log level (trace, debug, info, warn, error)
    pub level: String,
    /// Enable JSON format
    pub json_format: bool,
}

pub fn default_log_level() -> (r: String)
    ensures
        r@ == "info"@,
{
    to_owned("info")
}

impl Default for LogConfig {
    fn default() -> (r: Self)
        ensures
            r.level@ == "info"@,
            !r.json_format,
    {
        Self { level: default_log_level(), json_format: false }
    }
}

/// Health endpoint configuration
#[derive(Debug, Clone)]
pub struct HealthConfig {
    /// Enable health endpoints
    pub enabled: bool,
    /// Health check port (separate from main port)
    pub port: u16,
    /// Liveness endpoint path
    pub liveness_path: String,
    /// Readiness endpoint path
    pub readiness_path: String,
}

/// The default port of the health endpoints (apart from the frontend
/// development servers on 8080).
pub fn default_health_port() -> (r: u16)
    ensures
        r == 8081,
{
    8081
}

pub fn default_liveness_path() -> (r: String)
    ensures
        r@ == "/healthz"@,
{
    to_owned("/healthz")
}

pub fn default_readiness_path() -> (r: String)
    ensures
        r@ == "/ready"@,
{
    to_owned("/ready")
}

impl Default for HealthConfig {
    fn default() -> (r: Self)
        ensures
            r.enabled,
            r.port == 8081,
            r.liveness_path@ == "/healthz"@,
            r.readiness_path@ == "/ready"@,
    {
        Self {
            enabled: true,
            port: default_health_port(),
            liveness_path: default_liveness_path(),
            readiness_path: default_readiness_path(),
        }
    }
}

/// Proxy server configuration
#[derive(Debug, Clone)]
pub struct ProxyConfig {
    /// Host address to bind to
    pub host: String,
    /// Port to listen on
    pub port: u16,
    /// Enable TLS/mTLS
    pub tls_enabled: bool,
    /// Enable Post-Quantum Cryptography
    pub pqc_enabled: bool,
    /// Worker thread count (0 = auto)
    pub worker_threads: usize,
    /// Upstream address to forward requests to
    pub upstream_addr: String,
    /// TLS configuration
    pub tls: TlsConfig,
    /// Logging configuration
    pub logging: LogConfig,
    /// Health endpoint configuration
    pub health: HealthConfig,
}

pub fn default_host() -> (r: String)
    ensures
        r@ == "0.0.0.0"@,
{
    to_owned("0.0.0.0")
}

pub fn default_port() -> (r: u16)
    ensures
        r == 8443,
{
    8443
}

pub fn default_upstream() -> (r: String)
    ensures
        r@ == "127.0.0.1:8080"@,
{
    to_owned("127.0.0.1:8080")
}

impl Default for ProxyConfig {
    fn default() -> (r: Self)
        ensures
            r.host@ == "0.0.0.0"@,
            r.port == 8443,
            r.tls_enabled,
            r.pqc_enabled,
            r.worker_threads == 0,
            r.upstream_addr@ == "127.0.0.1:8080"@,
            r.tls.enabled,
            r.tls.cert_path@ == "/etc/aegis/certs/server.crt"@,
            r.tls.key_path@ == "/etc/aegis/certs/server.key"@,
            r.tls.ca_path is None,
            !r.tls.require_client_cert,
            r.logging.level@ == "info"@,
            !r.logging.json_format,
            r.health.enabled,
            r.health.port == 8081,
            r.health.liveness_path@ == "/healthz"@,
            r.health.readiness_path@ == "/ready"@,
    {
        Self {
            host: default_host(),
            port: default_port(),
            tls_enabled: true,
            pqc_enabled: true,
            worker_threads: 0,
            upstream_addr: default_upstream(),
            tls: TlsConfig::default(),
            logging: LogConfig::default(),
            health: HealthConfig::default(),
        }
    }
}

/// Configuration error types
#[derive(Debug, Clone)]
pub enum ConfigError {
    IoError(String),
    ParseError(String),
    ValidationError(String),
    UnsupportedFormat(String),
}

/// The text an error prints as.
pub open spec fn error_text(e: ConfigError) -> Seq<char> {
    match e {
        ConfigError::IoError(m) => "IO error: "@ + m@,
        ConfigError::ParseError(m) => "Parse error: "@ + m@,
        ConfigError::ValidationError(m) => "Validation error: "@ + m@,
        ConfigError::UnsupportedFormat(p) => "Unsupported config format: "@ + p@,
    }
}

impl ConfigError {
    /// The human-readable text of the error (what `Display` printed).
    pub fn to_string(&self) -> (r: String)
        ensures
            r@ == error_text(*self),
    {
        match self {
            Self::IoError(msg) => concat("IO error: ", msg.as_str()),
            Self::ParseError(msg) => concat("Parse error: ", msg.as_str()),
            Self::ValidationError(msg) => concat("Validation error: ", msg.as_str()),
            Self::UnsupportedFormat(path) => concat("Unsupported config format: ", path.as_str()),
        }
    }
}

/// What `validate` answers: the port must not be 0 and an upstream address
/// is required; the error carries the reason.
pub open spec fn validation_result(port: u16, upstream: Seq<char>) -> Option<Seq<char>> {
    if port == 0 {
        Some("Port cannot be 0"@)
    } else if upstream.len() == 0 {
        Some("Upstream address is required"@)
    } else {
        None
    }
}

impl ProxyConfig {
    /// Validate configuration. (Missing TLS certificate files are only
    /// worth a warning and do not fail validation.)
    pub fn validate(&self) -> (r: Result<(), ConfigError>)
        ensures
            match (r, validation_result(self.port, self.upstream_addr@)) {
                (Ok(()), None) => true,
                (Err(ConfigError::ValidationError(m)), Some(reason)) => m@ == reason,
                _ => false,
            },
    {
        if self.port == 0 {
            return Err(ConfigError::ValidationError(to_owned("Port cannot be 0")));
        }
        if self.upstream_addr.as_str().is_empty() {
            return Err(ConfigError::ValidationError(to_owned("Upstream address is required")));
        }
        Ok(())
    }
}

/// The environment variables that override settings, as read (none where a
/// variable is unset or not Unicode).
pub struct EnvOverrides {
    /// `AEGIS_HOST`
    pub host: Option<String>,
    /// `AEGIS_PORT`
    pub port: Option<String>,
    /// `AEGIS_UPSTREAM`
    pub upstream: Option<String>,
    /// `AEGIS_TLS_ENABLED`
    pub tls_enabled: Option<String>,
    /// `AEGIS_PQC_ENABLED`
    pub pqc_enabled: Option<String>,
    /// `AEGIS_WORKER_THREADS`
    pub worker_threads: Option<String>,
    /// `AEGIS_LOG_LEVEL`
    pub log_level: Option<String>,
}

/// `str::parse::<bool>`.
pub open spec fn parse_bool(s: Seq<char>) -> Option<bool> {
    if s == "true"@ {
        Some(true)
    } else if s == "false"@ {
        Some(false)
    } else {
        None
    }
}

/// `str::parse::<u16>`.
pub open spec fn parse_u16(s: Seq<char>) -> Option<u16> {
    match parse_u64(s) {
        Some(v) => if v <= u16::MAX {
            Some(v as u16)
        } else {
            None
        },
        None => None,
    }
}

/// `str::parse::<usize>`.
pub open spec fn parse_usize(s: Seq<char>) -> Option<usize> {
    match parse_u64(s) {
        Some(v) => if v <= usize::MAX {
            Some(v as usize)
        } else {
            None
        },
        None => None,
    }
}

fn parse_bool_str(s: &str) -> (r: Option<bool>)
    ensures
        r == parse_bool(s@),
{
    if str_eq(s, "true") {
        Some(true)
    } else if str_eq(s, "false") {
        Some(false)
    } else {
        None
    }
}

/// A setting overridden by a variable that is set and parses; otherwise
/// kept.
pub open spec fn overridden<T>(old: T, var: Option<String>, parse: spec_fn(Seq<char>) -> Option<T>) -> T {
    match var {
        Some(v) => match parse(v@) {
            Some(x) => x,
            None => old,
        },
        None => old,
    }
}

impl ProxyConfig {
    /// Overrides settings from the environment: host, upstream and log level
    /// take the variable's text; port, the TLS and PQC switches and the
    /// worker count take it where it parses (else they are kept).
    pub fn apply_env_overrides(&mut self, env: &EnvOverrides)
        ensures
            final(self).host@ == overridden(old(self).host@, env.host, |v: Seq<char>| Some(v)),
            final(self).port == overridden(old(self).port, env.port, |v: Seq<char>| parse_u16(v)),
            final(self).upstream_addr@ == overridden(old(self).upstream_addr@, env.upstream, |v: Seq<char>| Some(v)),
            final(self).tls_enabled == overridden(old(self).tls_enabled, env.tls_enabled, |v: Seq<char>| parse_bool(v)),
            final(self).pqc_enabled == overridden(old(self).pqc_enabled, env.pqc_enabled, |v: Seq<char>| parse_bool(v)),
            final(self).worker_threads == overridden(
                old(self).worker_threads,
                env.worker_threads,
                |v: Seq<char>| parse_usize(v),
            ),
            final(self).logging.level@ == overridden(old(self).logging.level@, env.log_level, |v: Seq<char>| Some(v)),
            final(self).logging.json_format == old(self).logging.json_format,
            final(self).tls == old(self).tls,
            final(self).health == old(self).health,
    {
        if let Some(host) = &env.host {
            self.host = to_owned(host.as_str());
        }
        if let Some(port) = &env.port {
            if let Some(p) = parse_u64_str(port.as_str()) {
                if p <= 65535 {
                    self.port = p as u16;
                }
            }
        }
        if let Some(upstream) = &env.upstream {
            self.upstream_addr = to_owned(upstream.as_str());
        }
        if let Some(v) = &env.tls_enabled {
            if let Some(b) = parse_bool_str(v.as_str()) {
                self.tls_enabled = b;
            }
        }
        if let Some(v) = &env.pqc_enabled {
            if let Some(b) = parse_bool_str(v.as_str()) {
                self.pqc_enabled = b;
            }
        }
        if let Some(w) = &env.worker_threads {
            if let Some(n) = parse_u64_str(w.as_str()) {
                if n <= usize::MAX as u64 {
                    self.worker_threads = n as usize;
                }
            }
        }
        if let Some(level) = &env.log_level {
            self.logging.level = to_owned(level.as_str());
        }
    }
}

} // verus!
