//! The OVH driver: its settings and how it names servers.

use vstd::prelude::*;
use vstd::string::*;

use crate::provider::Provider;

verus! {

/// One variable of the environment that the OpenStack client reads.
#[derive(Clone, Debug)]
pub struct EnvVariable {
    pub name: String,
    pub value: String,
}

/// Settings of the OVH driver.
#[derive(Clone, Debug)]
pub struct OvhConfig {
    pub env_variables: Vec<EnvVariable>,
    pub flavor: String,
    pub network: String,
    pub image: String,
    pub keypair_name: String,
}

/// The prefix of the names of OVH servers.
pub open spec fn ovh_prefix() -> Seq<char> {
    Seq::empty()
}

/// The OVH driver.
pub struct OvhProvider {
    cfg: OvhConfig,
}

impl OvhProvider {
    /// The settings the driver was made with.
    pub closed spec fn config(self) -> OvhConfig {
        self.cfg
    }

    /// Makes a driver from its settings.
    pub fn new(cfg: OvhConfig) -> (out: Self)
        ensures
            out.config() == cfg,
    {
        Self { cfg }
    }

    /// The settings the driver was made with.
    pub fn cfg(&self) -> (out: &OvhConfig)
        ensures
            *out == self.config(),
    {
        &self.cfg
    }
}

impl Provider for OvhProvider {
    open spec fn spec_prefix(&self) -> Seq<char> {
        ovh_prefix()
    }

    open spec fn spec_rotates_ips(&self) -> bool {
        false
    }

    fn prefix(&self) -> (out: String) {
        proof {
            reveal_strlit("");
        }
        let out = String::from_str("");
        assert(out@ =~= ovh_prefix());
        out
    }

    fn rotates_ips(&self) -> (out: bool) {
        false
    }
}

} // verus!
