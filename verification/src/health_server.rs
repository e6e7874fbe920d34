//! The health and admin endpoint: which answer each request gets.

use vstd::prelude::*;
use crate::lifecycle::{status_name, HealthResponse, HealthStatus, LifecycleManager};
use crate::text::{str_eq, to_owned};

verus! {

/// The answer of the health server to one request.
pub enum HealthReply {
    /// `200` with this report as JSON (`Content-Type: application/json`).
    Health(HealthResponse),
    /// `200` with the Prometheus text of the metrics (`Content-Type:
    /// text/plain`).
    Metrics,
    /// A plain answer with this status and body.
    Text { status: u16, body: String },
}

/// `GET /health` reports the lifecycle; `GET /ready` answers `200 OK` when
/// the service is ready and `503 Not Ready` otherwise; `GET /metrics` gives
/// the metrics where they are enabled (`501 Metrics not enabled`
/// otherwise); anything else is `404 Not Found`.
pub fn health_reply(
    lifecycle: &LifecycleManager,
    version: &str,
    method: &str,
    path: &str,
    metrics_enabled: bool,
) -> (r: HealthReply)
    ensures
        method@ == "GET"@ && path@ == "/health"@ ==> (r matches HealthReply::Health(h) && h.status@ == status_name(
            lifecycle.spec_status(),
        ) && h.ready == (lifecycle.spec_status() == HealthStatus::Healthy) && h.alive == (lifecycle.spec_status()
            != HealthStatus::Unhealthy) && h.uptime_seconds is Some && h.connections == Some(lifecycle.spec_active())
            && (h.version matches Some(v) && v@ == version@)),
        method@ == "GET"@ && path@ == "/ready"@ ==> (if lifecycle.spec_status() == HealthStatus::Healthy {
            r matches HealthReply::Text { status, body } && status == 200 && body@ == "OK"@
        } else {
            r matches HealthReply::Text { status, body } && status == 503 && body@ == "Not Ready"@
        }),
        method@ == "GET"@ && path@ == "/metrics"@ ==> (if metrics_enabled {
            r is Metrics
        } else {
            r matches HealthReply::Text { status, body } && status == 501 && body@ == "Metrics not enabled"@
        }),
        !(method@ == "GET"@ && (path@ == "/health"@ || path@ == "/ready"@ || path@ == "/metrics"@)) ==> (
        r matches HealthReply::Text { status, body } && status == 404 && body@ == "Not Found"@),
{
    proof {
        reveal_strlit("/health");
        reveal_strlit("/ready");
        reveal_strlit("/metrics");
        assert("/ready"@[1] != "/health"@[1]);
        assert("/metrics"@[1] != "/health"@[1]);
        assert("/metrics"@[1] != "/ready"@[1]);
    }
    let get = str_eq(method, "GET");
    if get && str_eq(path, "/health") {
        HealthReply::Health(lifecycle.health_response(version))
    } else if get && str_eq(path, "/ready") {
        if lifecycle.health_status().is_ready() {
            HealthReply::Text { status: 200, body: to_owned("OK") }
        } else {
            HealthReply::Text { status: 503, body: to_owned("Not Ready") }
        }
    } else if get && str_eq(path, "/metrics") {
        if metrics_enabled {
            HealthReply::Metrics
        } else {
            HealthReply::Text { status: 501, body: to_owned("Metrics not enabled") }
        }
    } else {
        HealthReply::Text { status: 404, body: to_owned("Not Found") }
    }
}

} // verus!
