//! Counters of the combined HTTP/2 and HTTP/3 server.

use vstd::prelude::*;
use crate::http_proxy::HttpProxyConfig;
use crate::quic_server::{QuicConfig, QuicStats};
use crate::text::{dec_str, push_dec, push_str};

verus! {

/// Dual-stack server configuration
#[derive(Debug, Clone)]
pub struct DualStackConfig {
    /// HTTP/2 proxy configuration
    pub http2_config: HttpProxyConfig,
    /// QUIC/HTTP3 configuration
    pub quic_config: QuicConfig,
    /// Enable HTTP/3 Alt-Svc advertisement
    pub advertise_h3: bool,
    /// QUIC port for Alt-Svc header
    pub quic_port: u16,
}

impl Default for DualStackConfig {
    fn default() -> (r: Self)
        ensures
            r.advertise_h3,
            r.quic_port == 443,
    {
        Self {
            http2_config: HttpProxyConfig::default(),
            quic_config: QuicConfig::default(),
            advertise_h3: true,
            quic_port: 443,
        }
    }
}

/// The `Alt-Svc` value that advertises HTTP/3 on a port.
pub open spec fn alt_svc_text(port: u16) -> Seq<char> {
    "h3=\":"@ + dec_str(port as nat) + "\"; ma=86400"@
}

impl DualStackConfig {
    /// The `Alt-Svc` header value for HTTP/3 discovery: empty when HTTP/3
    /// is not advertised.
    pub fn alt_svc_header(&self) -> (r: String)
        ensures
            r@ == (if self.advertise_h3 {
                alt_svc_text(self.quic_port)
            } else {
                Seq::<char>::empty()
            }),
    {
        let mut s = String::new();
        if self.advertise_h3 {
            push_str(&mut s, "h3=\":");
            push_dec(&mut s, self.quic_port as u64);
            push_str(&mut s, "\"; ma=86400");
            assert(s@ =~= alt_svc_text(self.quic_port));
        } else {
            assert(s@ =~= Seq::<char>::empty());
        }
        s
    }
}

/// Statistics for dual-stack server
#[derive(Debug, Clone, Copy)]
pub struct DualStackStats {
    /// HTTP/2 statistics
    pub http2_requests: u64,
    /// HTTP/3 statistics
    pub http3_requests: u64,
    /// QUIC connection statistics
    pub quic_stats: QuicStats,
}

impl Default for DualStackStats {
    fn default() -> (r: Self)
        ensures
            r.http2_requests == 0,
            r.http3_requests == 0,
            r.quic_stats.connections_accepted == 0,
            r.quic_stats.streams_handled == 0,
            r.quic_stats.active_connections == 0,
            r.quic_stats.zero_rtt_connections == 0,
    {
        Self { http2_requests: 0, http3_requests: 0, quic_stats: QuicStats::default() }
    }
}

} // verus!
