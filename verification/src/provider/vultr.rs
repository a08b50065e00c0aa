//! The Vultr driver: its settings, how it names servers, and how it
//! finds a fresh server in a listing.

use vstd::prelude::*;
use vstd::string::*;

use crate::provider::Provider;
use crate::text::text_eq;

verus! {

/// Settings of the Vultr driver.
#[derive(Clone, Debug)]
pub struct VultrConfig {
    pub api_key: String,
    pub sshkey_id: String,
    pub region: String,
    pub plan: String,
    pub os_id: u32,
}

/// The prefix of the names of Vultr servers.
pub open spec fn vultr_prefix() -> Seq<char> {
    seq!['v', 'u', 'l', 't', 'r', '-', 'p', 'h', 'a', 'l', 'a', 'n', 'x', '-']
}

/// The Vultr driver.
pub struct VultrProvider {
    cfg: VultrConfig,
}

impl VultrProvider {
    /// The settings the driver was made with.
    pub closed spec fn config(self) -> VultrConfig {
        self.cfg
    }

    /// Makes a driver from its settings.
    pub fn new(cfg: VultrConfig) -> (out: Self)
        ensures
            out.config() == cfg,
    {
        Self { cfg }
    }

    /// The settings the driver was made with.
    pub fn cfg(&self) -> (out: &VultrConfig)
        ensures
            *out == self.config(),
    {
        &self.cfg
    }
}

impl Provider for VultrProvider {
    open spec fn spec_prefix(&self) -> Seq<char> {
        vultr_prefix()
    }

    open spec fn spec_rotates_ips(&self) -> bool {
        false
    }

    fn prefix(&self) -> (out: String) {
        proof {
            reveal_strlit("vultr-phalanx-");
        }
        let out = String::from_str("vultr-phalanx-");
        assert(out@ =~= vultr_prefix());
        out
    }

    fn rotates_ips(&self) -> (out: bool) {
        false
    }
}

/// The name of the Vultr server for a bridge.
pub fn vultrify_id(id: &str) -> (out: String)
    ensures
        out@ == vultr_prefix() + id@,
{
    proof {
        reveal_strlit("vultr-phalanx-");
    }
    let out = String::from_str("vultr-phalanx-").concat(id);
    assert(out@ =~= vultr_prefix() + id@);
    out
}

/// A Vultr instance as the backend lists it.
#[derive(Debug)]
pub struct ServerDescriptor {
    pub id: String,
    pub label: String,
    pub status: String,
    pub main_ip: Option<String>,
}

/// The text `active`.
pub open spec fn vultr_active_text() -> Seq<char> {
    seq!['a', 'c', 't', 'i', 'v', 'e']
}

/// Whether a listed instance is the finished server of a bridge: it carries
/// the bridge's name, has an address and is active.
pub open spec fn is_finished(server: ServerDescriptor, id: Seq<char>) -> bool {
    server.label@ == vultr_prefix() + id && server.main_ip is Some && server.status@
        == vultr_active_text()
}

/// Looks for the finished server of a bridge in a listing and returns the
/// address of the first that is found.  `None` while there is none yet.
pub fn find_active(servers: &Vec<ServerDescriptor>, id: &str) -> (out: Option<String>)
    ensures
        out is Some <==> exists|k: int|
            0 <= k < servers@.len() && is_finished(#[trigger] servers@[k], id@),
        out matches Some(ip) ==> exists|k: int|
            0 <= k < servers@.len() && is_finished(#[trigger] servers@[k], id@) && servers@[k].main_ip
                == Some(ip) && forall|j: int| 0 <= j < k ==> !is_finished(#[trigger] servers@[j], id@),
{
    proof {
        reveal_strlit("active");
        assert("active"@ =~= vultr_active_text());
    }
    let label = vultrify_id(id);
    let mut k: usize = 0;
    while k < servers.len()
        invariant
            k <= servers@.len(),
            label@ == vultr_prefix() + id@,
            "active"@ == vultr_active_text(),
            forall|j: int| 0 <= j < k ==> !is_finished(#[trigger] servers@[j], id@),
        decreases servers@.len() - k,
    {
        if servers[k].label == label && servers[k].main_ip.is_some() && text_eq(
            servers[k].status.as_str(),
            "active",
        ) {
            assert(is_finished(servers@[k as int], id@));
            return servers[k].main_ip.clone();
        }
        k += 1;
    }
    None
}

} // verus!
