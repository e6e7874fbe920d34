//! Upstream server definitions shared by the load balancer and the active
//! health checker.

use vstd::prelude::*;

verus! {

/// How the load balancer picks among the available servers of an upstream.
#[derive(Debug, Clone)]
pub enum LoadBalanceStrategy {
    /// Weighted round robin
    RoundRobin,
    /// Fewest active connections, ties to the higher weight
    LeastConnections,
    /// Weighted choice by the hash of the client address
    IpHash,
    /// Choice by the hash of a request variable
    GenericHash(String),
    /// Power of two choices
    PowerOfTwoChoices,
}

/// One server of an upstream block.
#[derive(Debug, Clone)]
pub struct UpstreamServer {
    pub addr: String,
    pub weight: u32,
    pub max_connections: Option<u32>,
    pub backup: bool,
    pub down: bool,
}

/// Active health check settings of an upstream.
#[derive(Debug, Clone)]
pub struct HealthCheckConfig {
    pub interval_ms: u64,
    pub timeout_ms: u64,
    pub healthy_threshold: u32,
    pub unhealthy_threshold: u32,
    pub path: String,
}

} // verus!
