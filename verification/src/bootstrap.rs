//! What the proxy starts: with post-quantum mode on, the PQC server on the
//! configured settings; otherwise the HTTP proxy on `host:port`, forwarding
//! to the configured upstream.

use vstd::prelude::*;
use crate::config::ProxyConfig;
use crate::http_proxy::HttpProxyConfig;
use crate::net::{socket_from_text, SocketAddress};
use crate::pqc_server::PqcProxyServer;
use crate::text::{dec_str, push_dec, push_str, to_owned};

verus! {

/// The server the proxy runs.
pub enum ServerPlan {
    Pqc(PqcProxyServer),
    Http(HttpProxyConfig),
}

pub open spec fn listen_text(config: ProxyConfig) -> Seq<char> {
    config.host@ + ":"@ + dec_str(config.port as nat)
}

/// Whether `host:port` is a socket address where the HTTP proxy needs one.
pub open spec fn listen_ok(config: ProxyConfig) -> bool {
    config.pqc_enabled || socket_from_text(listen_text(config)) is Some
}

/// The plan for a configuration: the PQC server on it in post-quantum mode,
/// otherwise the HTTP proxy on `host:port` forwarding to the upstream, with
/// the HTTP proxy's other defaults.
pub open spec fn plan_of(config: ProxyConfig, r: ServerPlan) -> bool {
    if config.pqc_enabled {
        r matches ServerPlan::Pqc(s) && s.config == config
    } else {
        match socket_from_text(listen_text(config)) {
            Some(addr) => r matches ServerPlan::Http(h) && h.listen_addr == addr && h.upstream_addr@
                == config.upstream_addr@ && h.max_concurrent_streams == 100 && h.initial_window_size
                == 65535 && !h.force_https && !h.cache_enabled && h.cache_memory_size == 134217728
                && h.cache_min_uses == 1 && h.cache_ttl_default == 60 && h.locations@.len() == 0,
            None => false,
        }
    }
}

/// Chooses the server for a configuration (whose `host:port` must be a
/// socket address when the HTTP proxy is chosen).
pub fn server_plan(config: ProxyConfig) -> (r: ServerPlan)
    requires
        listen_ok(config),
    ensures
        plan_of(config, r),
{
    match plan_for(config) {
        Some(p) => p,
        None => {
            assert(false);
            ServerPlan::Pqc(PqcProxyServer::new(ProxyConfig::default()))
        },
    }
}

/// Chooses the server for a configuration, or none where the HTTP proxy is
/// chosen and `host:port` is no socket address.
pub fn plan_for(config: ProxyConfig) -> (r: Option<ServerPlan>)
    ensures
        r is Some <==> listen_ok(config),
        r matches Some(p) ==> plan_of(config, p),
{
    if config.pqc_enabled {
        return Some(ServerPlan::Pqc(PqcProxyServer::new(config)));
    }
    let mut text = to_owned(config.host.as_str());
    push_str(&mut text, ":");
    push_dec(&mut text, config.port as u64);
    assert(text@ =~= listen_text(config));
    match SocketAddress::parse(text.as_str()) {
        Some(addr) => {
            let mut h = HttpProxyConfig::default();
            h.listen_addr = addr;
            h.upstream_addr = to_owned(config.upstream_addr.as_str());
            Some(ServerPlan::Http(h))
        },
        None => None,
    }
}

} // verus!
