//! The configuration document, as plain values.
//!
//! Rates are fixed-point: thousandths of a megabit per second.  Lifetimes are
//! whole seconds.

use vstd::prelude::*;
use vstd::string::*;

use crate::provider::hetzner::HetznerConfig;
use crate::provider::lightsail::LightsailConfig;
use crate::provider::linode::LinodeConfig;
use crate::provider::oneprovider::OneCloudConfig;
use crate::provider::ovh::OvhConfig;
use crate::provider::scaleway::ScalewayConfig;
use crate::provider::serverspace::ServerSpaceConfig;
use crate::provider::vultr::VultrConfig;

verus! {

/// A service that a fresh bridge can be set up to run.
#[derive(Clone, Copy, Debug, PartialEq, Eq, Structural)]
pub enum Service {
    Geph4,
    Geph5,
    Earendil,
    Geph5Exit,
}

/// Where the set-up script of the `geph4` service is fetched from.
pub const GEPH4_GIST: &'static str =
    "https://gist.githubusercontent.com/nullchinchilla/746ec2007cc293af881f7354405cfb6e/raw/deploy-bridge-geph4.sh";

/// Where the set-up script of the `geph5` service is fetched from.
pub const GEPH5_GIST: &'static str =
    "https://gist.githubusercontent.com/nullchinchilla/64a3ded0b62f1decef65c84f43e45dbe/raw/deploy-bridge-geph5.sh";

/// Where the set-up script of the `earendil` service is fetched from.
pub const EARENDIL_GIST: &'static str =
    "https://gist.githubusercontent.com/nullchinchilla/26ccd7af71f403df1495e4038a6ce9ff/raw/deploy-bridge-earendil.sh";

/// Where the set-up script of the `geph5_exit` service is fetched from.
pub const GEPH5_EXIT_SCRIPT: &'static str =
    "https://raw.githubusercontent.com/geph-official/geph5/master/deploy-exit.sh";

/// Where the script that enforces a traffic limit is fetched from.
pub const LIMIT_BANDWIDTH_GIST: &'static str =
    "https://gist.githubusercontent.com/nullchinchilla/4048244030910c0af9b61c42f98d8e65/raw/enforce-bandwidth-max.sh";

/// Which driver a group uses, with the driver's settings.
#[derive(Clone, Debug)]
pub enum ProviderConfig {
    Lightsail(LightsailConfig),
    Vultr(VultrConfig),
    Scaleway(ScalewayConfig),
    Hetzner(HetznerConfig),
    Ovh(OvhConfig),
    Onecloud(OneCloudConfig),
    Linode(LinodeConfig),
    ServerSpace(ServerSpaceConfig),
}

impl ProviderConfig {
    /// Whether the group's driver is wrapped so that it never hands out an
    /// address the fleet has used before.
    pub open spec fn spec_rotates_ips(self) -> bool {
        self is Scaleway || self is Ovh || self is Linode
    }

    /// Whether the group's driver is wrapped so that it never hands out an
    /// address the fleet has used before.
    pub fn rotates_ips(&self) -> (out: bool)
        ensures
            out == self.spec_rotates_ips(),
    {
        match self {
            ProviderConfig::Scaleway(_) => true,
            ProviderConfig::Ovh(_) => true,
            ProviderConfig::Linode(_) => true,
            _ => false,
        }
    }
}

/// Settings of one allocation group.
#[derive(Clone, Debug)]
pub struct GroupConfig {
    /// Base number of frontline bridges.
    pub frontline: usize,
    /// Upper limit for the adjusted frontline size, if any.
    pub max_frontline: Option<usize>,
    /// Number of reserve bridges to keep ready.
    pub reserve: usize,
    /// Group name announced by the bridges in place of the group's own.
    pub override_group: Option<String>,
    /// Leave this group out of the reachability sweep.
    pub no_antigfw: bool,
    pub provider: ProviderConfig,
    /// Average lifetime of a bridge, in seconds.
    pub avg_lifetime_secs: u64,
    pub services: Vec<Service>,
    /// Monthly traffic limit in gigabytes, if any.
    pub max_bandwidth_gb: Option<u64>,
    /// Throughput per bridge at which the group counts as fully loaded, in
    /// thousandths of a megabit per second; `u64::MAX` when not configured.
    pub target_mbps: u64,
    /// Country code for exit nodes.
    pub exit_country: Option<String>,
    /// City name for exit nodes.
    pub exit_city: Option<String>,
    /// Total rate limit for exit nodes.
    pub exit_total_ratelimit: Option<u64>,
}

/// The target used when a group configures none.
pub fn huge_mbps() -> (out: u64)
    ensures
        out == u64::MAX,
{
    u64::MAX
}

/// A group with its name.
#[derive(Clone, Debug)]
pub struct NamedGroup {
    pub name: String,
    pub cfg: GroupConfig,
}

/// The whole configuration document.
#[derive(Clone, Debug)]
pub struct Config {
    /// Where the bridge table lives.
    pub postgres_url: String,
    /// Secret shared with the bridges.
    pub bridge_secret: String,
    /// The groups, each under its name.
    pub groups: Vec<NamedGroup>,
}

impl Config {
    /// No two groups share a name.
    pub open spec fn wf(self) -> bool {
        forall|i: int, j: int|
            0 <= i < j < self.groups@.len() ==> self.groups@[i].name@ != self.groups@[j].name@
    }

    /// Whether some group of that name is configured.
    pub open spec fn has_group(self, name: Seq<char>) -> bool {
        exists|i: int| 0 <= i < self.groups@.len() && #[trigger] self.groups@[i].name@ == name
    }

    /// Whether a group of that name is configured and opts out of the
    /// reachability sweep.
    pub open spec fn spec_skips_probe(self, name: Seq<char>) -> bool {
        exists|i: int|
            0 <= i < self.groups@.len() && #[trigger] self.groups@[i].name@ == name
                && self.groups@[i].cfg.no_antigfw
    }

    /// Looks a group up by name.
    pub fn group(&self, name: &str) -> (out: Option<&GroupConfig>)
        ensures
            out is Some <==> self.has_group(name@),
            out matches Some(cfg) ==> exists|i: int|
                0 <= i < self.groups@.len() && #[trigger] self.groups@[i].name@ == name@
                    && self.groups@[i].cfg == *cfg && forall|k: int|
                    0 <= k < i ==> #[trigger] self.groups@[k].name@ != name@,
    {
        let wanted = String::from_str(name);
        let mut i: usize = 0;
        while i < self.groups.len()
            invariant
                i <= self.groups@.len(),
                wanted@ == name@,
                forall|k: int| 0 <= k < i ==> #[trigger] self.groups@[k].name@ != name@,
            decreases self.groups@.len() - i,
        {
            if self.groups[i].name == wanted {
                return Some(&self.groups[i].cfg);
            }
            i += 1;
        }
        None
    }

    /// Whether the named group opts out of the reachability sweep.
    pub fn skips_probe(&self, name: &str) -> (out: bool)
        ensures
            out == self.spec_skips_probe(name@),
    {
        let wanted = String::from_str(name);
        let mut i: usize = 0;
        while i < self.groups.len()
            invariant
                i <= self.groups@.len(),
                wanted@ == name@,
                forall|k: int|
                    0 <= k < i ==> !(#[trigger] self.groups@[k].name@ == name@
                        && self.groups@[k].cfg.no_antigfw),
            decreases self.groups@.len() - i,
        {
            if self.groups[i].cfg.no_antigfw && self.groups[i].name == wanted {
                return true;
            }
            i += 1;
        }
        false
    }
}

} // verus!
