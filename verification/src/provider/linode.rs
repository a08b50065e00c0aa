//! The Linode driver: its settings, how it names servers, and when a
//! fresh instance is ready.

use vstd::prelude::*;
use vstd::string::*;

use crate::provider::Provider;
use crate::text::text_eq;

verus! {

/// Settings of the Linode driver.
#[derive(Clone, Debug)]
pub struct LinodeConfig {
    pub api_token: String,
    pub region: String,
    pub type_id: String,
    pub image: String,
    pub root_pass: String,
    pub authorized_keys: Vec<String>,
}

/// The prefix of the names of Linode servers.
pub open spec fn linode_prefix() -> Seq<char> {
    seq!['b', 'r', 'i', 'd', 'g', 'e', '-']
}

/// The Linode driver.
pub struct LinodeProvider {
    cfg: LinodeConfig,
}

impl LinodeProvider {
    /// The settings the driver was made with.
    pub closed spec fn config(self) -> LinodeConfig {
        self.cfg
    }

    /// Makes a driver from its settings.
    pub fn new(cfg: LinodeConfig) -> (out: Self)
        ensures
            out.config() == cfg,
    {
        Self { cfg }
    }

    /// The settings the driver was made with.
    pub fn cfg(&self) -> (out: &LinodeConfig)
        ensures
            *out == self.config(),
    {
        &self.cfg
    }
}

impl Provider for LinodeProvider {
    open spec fn spec_prefix(&self) -> Seq<char> {
        linode_prefix()
    }

    open spec fn spec_rotates_ips(&self) -> bool {
        false
    }

    fn prefix(&self) -> (out: String) {
        proof {
            reveal_strlit("bridge-");
        }
        let out = String::from_str("bridge-");
        assert(out@ =~= linode_prefix());
        out
    }

    fn rotates_ips(&self) -> (out: bool) {
        false
    }
}

/// The name of the Linode server for a bridge.
pub fn linodify_id(id: &str) -> (out: String)
    ensures
        out@ == linode_prefix() + id@,
{
    proof {
        reveal_strlit("bridge-");
    }
    let out = String::from_str("bridge-").concat(id);
    assert(out@ =~= linode_prefix() + id@);
    out
}

/// A Linode instance as the backend describes it.
#[derive(Debug)]
pub struct LinodeInstance {
    pub id: i32,
    pub label: String,
    pub status: String,
    pub ipv4: Vec<String>,
}

/// The text `running`.
pub open spec fn running_text() -> Seq<char> {
    seq!['r', 'u', 'n', 'n', 'i', 'n', 'g']
}

/// The address under which a fresh instance can be reached, once there is
/// one: the first of its addresses, as soon as it runs.  `None` while the
/// instance is still being brought up.
pub fn ready_address(instance: &LinodeInstance) -> (out: Option<String>)
    ensures
        out is Some <==> instance.status@ == running_text() && instance.ipv4@.len() > 0,
        out matches Some(ip) ==> ip@ == instance.ipv4@[0]@,
{
    proof {
        reveal_strlit("running");
        assert("running"@ =~= running_text());
    }
    if text_eq(instance.status.as_str(), "running") && instance.ipv4.len() > 0 {
        Some(instance.ipv4[0].clone())
    } else {
        None
    }
}

} // verus!
