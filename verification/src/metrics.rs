//! Names of the exported Prometheus metrics.

pub mod names;
