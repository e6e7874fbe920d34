//! Metric names, all under the `aegis_` prefix.

use vstd::prelude::*;

verus! {

pub const REQUESTS_TOTAL: &'static str = "aegis_requests_total";
pub const REQUEST_DURATION: &'static str = "aegis_request_duration_seconds";
pub const CONNECTIONS_ACTIVE: &'static str = "aegis_connections_active";
pub const HANDSHAKES_TOTAL: &'static str = "aegis_pqc_handshakes_total";
pub const HANDSHAKE_DURATION: &'static str = "aegis_pqc_handshake_duration_seconds";
pub const BYTES_SENT: &'static str = "aegis_bytes_sent_total";
pub const BYTES_RECEIVED: &'static str = "aegis_bytes_received_total";
pub const ENCRYPTION_OPERATIONS: &'static str = "aegis_encryption_operations_total";
pub const ERRORS_TOTAL: &'static str = "aegis_errors_total";
pub const CARBON_INTENSITY: &'static str = "aegis_carbon_intensity_g_kwh";
pub const ESTIMATED_ENERGY: &'static str = "aegis_estimated_energy_joules_total";
pub const ESTIMATED_CARBON: &'static str = "aegis_estimated_carbon_grams_total";
pub const DEFERRED_JOBS: &'static str = "aegis_deferred_jobs_current";

} // verus!
