//! The runtime configuration that the admin API edits.

use std::collections::HashMap;
use vstd::prelude::*;

verus! {

#[derive(Debug, Clone)]
pub struct ServerBlock {
    pub id: String,
    pub listen: String,
    pub hostname: String,
}

#[derive(Debug, Clone)]
pub struct UpstreamConfig {
    pub name: String,
    pub servers: Vec<String>,
}

#[derive(Debug)]
pub struct RuntimeConfig {
    pub version: u64,
    pub servers: HashMap<String, ServerBlock>,
    pub upstreams: HashMap<String, UpstreamConfig>,
}

impl RuntimeConfig {
    /// Marks a change of the configuration.
    pub fn bump_version(&mut self)
        requires
            old(self).version < u64::MAX,
        ensures
            final(self).version == old(self).version + 1,
            final(self).servers == old(self).servers,
            final(self).upstreams == old(self).upstreams,
    {
        self.version += 1;
    }
}

} // verus!
