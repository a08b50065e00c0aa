//! The ServerSpace driver: its settings, how it names servers, and when
//! a fresh server is ready.

use vstd::prelude::*;
use vstd::string::*;

use crate::provider::Provider;
use crate::text::text_eq;

verus! {

/// Settings of the ServerSpace driver.
#[derive(Clone, Debug)]
pub struct ServerSpaceConfig {
    pub api_key: String,
    pub location_id: String,
    pub image_id: String,
    pub cpu: u32,
    pub ram_mb: u32,
    pub boot_size_mb: u32,
    pub bandwidth_mbps: u32,
    pub ssh_key_ids: Vec<i32>,
}

/// The prefix of the names of ServerSpace servers.
pub open spec fn serverspace_prefix() -> Seq<char> {
    seq!['b', 'r', 'i', 'd', 'g', 'e', '-']
}

/// The ServerSpace driver.
pub struct ServerSpaceProvider {
    cfg: ServerSpaceConfig,
}

impl ServerSpaceProvider {
    /// The settings the driver was made with.
    pub closed spec fn config(self) -> ServerSpaceConfig {
        self.cfg
    }

    /// Makes a driver from its settings.
    pub fn new(cfg: ServerSpaceConfig) -> (out: Self)
        ensures
            out.config() == cfg,
    {
        Self { cfg }
    }

    /// The settings the driver was made with.
    pub fn cfg(&self) -> (out: &ServerSpaceConfig)
        ensures
            *out == self.config(),
    {
        &self.cfg
    }
}

impl Provider for ServerSpaceProvider {
    open spec fn spec_prefix(&self) -> Seq<char> {
        serverspace_prefix()
    }

    open spec fn spec_rotates_ips(&self) -> bool {
        false
    }

    fn prefix(&self) -> (out: String) {
        proof {
            reveal_strlit("bridge-");
        }
        let out = String::from_str("bridge-");
        assert(out@ =~= serverspace_prefix());
        out
    }

    fn rotates_ips(&self) -> (out: bool) {
        false
    }
}

/// How far a task of the backend has come.
#[derive(Clone, Copy, Debug, PartialEq, Eq, Structural)]
pub enum TaskState {
    Completed,
    Failed,
    /// Neither: ask again later.
    Pending,
}

/// The text `Completed`.
pub open spec fn completed_text() -> Seq<char> {
    seq!['C', 'o', 'm', 'p', 'l', 'e', 't', 'e', 'd']
}

/// The text `Failed`.
pub open spec fn failed_text() -> Seq<char> {
    seq!['F', 'a', 'i', 'l', 'e', 'd']
}

/// The text `Active`.
pub open spec fn active_text() -> Seq<char> {
    seq!['A', 'c', 't', 'i', 'v', 'e']
}

/// The text `PublicShared`.
pub open spec fn public_shared_text() -> Seq<char> {
    seq!['P', 'u', 'b', 'l', 'i', 'c', 'S', 'h', 'a', 'r', 'e', 'd']
}

/// What the backend's word on a task means.
pub open spec fn task_state_of(word: Option<Seq<char>>) -> TaskState {
    match word {
        Some(w) => if w == completed_text() {
            TaskState::Completed
        } else if w == failed_text() {
            TaskState::Failed
        } else {
            TaskState::Pending
        },
        None => TaskState::Pending,
    }
}

/// Reads the backend's word on a task.  Anything but `Completed` and
/// `Failed`, no word at all included, means that the task is still going.
pub fn task_state(word: Option<&str>) -> (out: TaskState)
    ensures
        out == task_state_of(
            match word {
                Some(w) => Some(w@),
                None => None,
            },
        ),
{
    proof {
        reveal_strlit("Completed");
        reveal_strlit("Failed");
        assert("Completed"@ =~= completed_text());
        assert("Failed"@ =~= failed_text());
    }
    match word {
        Some(w) => if text_eq(w, "Completed") {
            TaskState::Completed
        } else if text_eq(w, "Failed") {
            TaskState::Failed
        } else {
            TaskState::Pending
        },
        None => TaskState::Pending,
    }
}

/// A network interface of a server.
#[derive(Debug)]
pub struct Nic {
    pub network_type: String,
    pub ip_address: Option<String>,
}

/// Whether one of the interfaces is on the public network.
pub open spec fn has_public_nic(nics: Seq<Nic>) -> bool {
    exists|k: int| 0 <= k < nics.len() && (#[trigger] nics[k]).network_type@ == public_shared_text()
}

/// Interface `at` is the first on the public network.
pub open spec fn first_public_nic(nics: Seq<Nic>, at: int) -> bool {
    &&& 0 <= at < nics.len()
    &&& nics[at].network_type@ == public_shared_text()
    &&& forall|k: int| 0 <= k < at ==> (#[trigger] nics[k]).network_type@ != public_shared_text()
}

/// The first interface on the public network, if there is one.
pub fn public_nic(nics: &Vec<Nic>) -> (out: Option<usize>)
    ensures
        out is Some <==> has_public_nic(nics@),
        out matches Some(at) ==> first_public_nic(nics@, at as int),
{
    proof {
        reveal_strlit("PublicShared");
        assert("PublicShared"@ =~= public_shared_text());
    }
    let mut k: usize = 0;
    while k < nics.len()
        invariant
            k <= nics@.len(),
            "PublicShared"@ == public_shared_text(),
            forall|j: int| 0 <= j < k ==> (#[trigger] nics@[j]).network_type@ != public_shared_text(),
        decreases nics@.len() - k,
    {
        if text_eq(nics[k].network_type.as_str(), "PublicShared") {
            return Some(k);
        }
        k += 1;
    }
    None
}

/// The address under which a fresh server can be reached, once there is
/// one: that of its first interface on the public network, as soon as the
/// server is active.  `None` while the server is being brought up, or while
/// that interface has no address.
pub fn active_public_ip(state: &str, nics: &Vec<Nic>) -> (out: Option<String>)
    ensures
        out is Some <==> state@ == active_text() && exists|at: int|
            #[trigger] first_public_nic(nics@, at) && nics@[at].ip_address is Some,
        out matches Some(ip) ==> exists|at: int|
            #[trigger] first_public_nic(nics@, at) && nics@[at].ip_address == Some(ip),
{
    proof {
        reveal_strlit("Active");
        assert("Active"@ =~= active_text());
    }
    if !text_eq(state, "Active") {
        return None;
    }
    match public_nic(nics) {
        Some(at) => {
            let out = nics[at].ip_address.clone();
            proof {
                assert forall|other: int| #[trigger] first_public_nic(nics@, other) implies other
                    == at by {
                    if other < at {
                        assert(nics@[other].network_type@ == public_shared_text());
                    } else if at < other {
                        assert(nics@[at as int].network_type@ == public_shared_text());
                    }
                }
            }
            out
        },
        None => {
            assert forall|other: int| !#[trigger] first_public_nic(nics@, other) by {
                if first_public_nic(nics@, other) {
                    assert(nics@[other].network_type@ == public_shared_text());
                }
            }
            None
        },
    }
}

} // verus!
