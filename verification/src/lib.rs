//! Verified core of the Aegis proxy: request-routing rules, parsers and
//! state machines, each stated over mathematical models.

pub mod text;
pub mod ranges;
pub mod clock;
pub mod circuit_breaker;
pub mod upstream;
pub mod lb;
pub mod lifecycle;
pub mod health_check;
pub mod master;
pub mod green_wait;
pub mod conn_limit;
pub mod quic_server;
pub mod http3_handler;
pub mod dual_stack_server;
pub mod image_filter;
pub mod discovery;
pub mod admin_api;
pub mod config;
pub mod proxy_cache;
pub mod net;
pub mod proxy_protocol;
pub mod acl;
pub mod geoip;
pub mod cgi;
pub mod fastcgi;
pub mod scgi;
pub mod access_log;
pub mod metrics;
pub mod mime_types;
pub mod mirror;
pub mod pattern;
pub mod rewrite;
pub mod map_directive;
pub mod limit_except;
pub mod location;
pub mod compression;
pub mod auth_request;
pub mod caching;
pub mod auth;
pub mod autoindex;
pub mod http_proxy;
pub mod pqc_server;
pub mod bootstrap;
pub mod acme;
pub mod health_server;
pub mod limit_rate;
pub mod rate_limit;
pub mod jwt;
pub mod headers;
pub mod persistent_queue;
