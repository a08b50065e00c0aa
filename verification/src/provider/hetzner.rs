//! The Hetzner driver: its settings and how it names servers.

use vstd::prelude::*;
use vstd::string::*;

use crate::provider::Provider;

verus! {

/// Settings of the Hetzner driver.
#[derive(Clone, Debug)]
pub struct HetznerConfig {
    pub api_token: String,
    pub server_type: String,
    pub location: String,
    pub image: String,
    pub sshkey_id: String,
}

/// The prefix of the names of Hetzner servers.
pub open spec fn hetzner_prefix() -> Seq<char> {
    Seq::empty()
}

/// The Hetzner driver.
pub struct HetznerProvider {
    cfg: HetznerConfig,
}

impl HetznerProvider {
    /// The settings the driver was made with.
    pub closed spec fn config(self) -> HetznerConfig {
        self.cfg
    }

    /// Makes a driver from its settings.
    pub fn new(cfg: HetznerConfig) -> (out: Self)
        ensures
            out.config() == cfg,
    {
        Self { cfg }
    }

    /// The settings the driver was made with.
    pub fn cfg(&self) -> (out: &HetznerConfig)
        ensures
            *out == self.config(),
    {
        &self.cfg
    }
}

impl Provider for HetznerProvider {
    open spec fn spec_prefix(&self) -> Seq<char> {
        hetzner_prefix()
    }

    open spec fn spec_rotates_ips(&self) -> bool {
        false
    }

    fn prefix(&self) -> (out: String) {
        proof {
            reveal_strlit("");
        }
        let out = String::from_str("");
        assert(out@ =~= hetzner_prefix());
        out
    }

    fn rotates_ips(&self) -> (out: bool) {
        false
    }
}

} // verus!
