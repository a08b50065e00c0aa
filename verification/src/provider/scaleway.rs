//! The Scaleway driver: its settings, how it names servers, the names it
//! has handed out of late, and the steps in which it deletes a server.

use vstd::prelude::*;
use vstd::string::*;

use crate::provider::Provider;

verus! {

/// Settings of the Scaleway driver.
#[derive(Clone, Debug)]
pub struct ScalewayConfig {
    pub secret_key: String,
    pub zone: String,
    pub project_id: String,
    pub commercial_type: String,
    pub image: String,
}

/// The prefix of the names of Scaleway servers.
pub open spec fn scaleway_prefix() -> Seq<char> {
    Seq::empty()
}

/// The Scaleway driver.
pub struct ScalewayProvider {
    cfg: ScalewayConfig,
}

impl ScalewayProvider {
    /// The settings the driver was made with.
    pub closed spec fn config(self) -> ScalewayConfig {
        self.cfg
    }

    /// Makes a driver from its settings.
    pub fn new(cfg: ScalewayConfig) -> (out: Self)
        ensures
            out.config() == cfg,
    {
        Self { cfg }
    }

    /// The settings the driver was made with.
    pub fn cfg(&self) -> (out: &ScalewayConfig)
        ensures
            *out == self.config(),
    {
        &self.cfg
    }
}

impl Provider for ScalewayProvider {
    open spec fn spec_prefix(&self) -> Seq<char> {
        scaleway_prefix()
    }

    open spec fn spec_rotates_ips(&self) -> bool {
        false
    }

    fn prefix(&self) -> (out: String) {
        proof {
            reveal_strlit("");
        }
        let out = String::from_str("");
        assert(out@ =~= scaleway_prefix());
        out
    }

    fn rotates_ips(&self) -> (out: bool) {
        false
    }
}

/// For how long a freshly named server is safe from reconciliation, in
/// milliseconds: ten minutes.
pub const RECENT_FOR_MS: u64 = 600_000;

/// A server name with the time at which it was handed out.
#[derive(Debug)]
pub struct RecentId {
    pub id: String,
    /// Milliseconds on a clock that never runs backwards.
    pub added: u64,
}

/// The names handed out of late, each with the time of its handing out.
#[derive(Debug)]
pub struct RecentIds {
    entries: Vec<RecentId>,
}

/// Whether something added at `added` still counts as recent at `now`.
pub open spec fn is_recent(added: int, now: int) -> bool {
    now - added < RECENT_FOR_MS
}

impl RecentIds {
    /// The entries, in no particular order.
    pub closed spec fn entries(self) -> Seq<RecentId> {
        self.entries@
    }

    /// No name is held twice.
    pub open spec fn wf(self) -> bool {
        forall|i: int, j: int|
            0 <= i < j < self.entries().len() ==> (#[trigger] self.entries()[i]).id@ != (
            #[trigger] self.entries()[j]).id@
    }

    /// Whether a name is held.
    pub open spec fn holds(self, id: Seq<char>) -> bool {
        exists|k: int| 0 <= k < self.entries().len() && (#[trigger] self.entries()[k]).id@ == id
    }

    /// When a held name was added.
    pub open spec fn added_at(self, id: Seq<char>) -> int {
        let k = choose|k: int|
            0 <= k < self.entries().len() && (#[trigger] self.entries()[k]).id@ == id;
        self.entries()[k].added as int
    }

    /// The names held, each with the time at which it was added.
    pub open spec fn view(self) -> Map<Seq<char>, int> {
        Map::new(|id: Seq<char>| self.holds(id), |id: Seq<char>| self.added_at(id))
    }

    /// An empty registry.
    pub fn new() -> (out: Self)
        ensures
            out.wf(),
            out@ == Map::<Seq<char>, int>::empty(),
    {
        let out = RecentIds { entries: Vec::new() };
        assert(out@ =~= Map::<Seq<char>, int>::empty());
        out
    }

    proof fn lemma_added_at(self, k: int)
        requires
            self.wf(),
            0 <= k < self.entries().len(),
        ensures
            self.holds(self.entries()[k].id@),
            self.added_at(self.entries()[k].id@) == self.entries()[k].added,
    {
        let id = self.entries()[k].id@;
        let c = choose|c: int|
            0 <= c < self.entries().len() && (#[trigger] self.entries()[c]).id@ == id;
        assert(c == k);
    }

    fn position(&self, id: &str) -> (out: Option<usize>)
        ensures
            out is Some <==> self.holds(id@),
            out matches Some(k) ==> k < self.entries().len() && self.entries()[k as int].id@
                == id@,
    {
        let wanted = String::from_str(id);
        let mut k: usize = 0;
        while k < self.entries.len()
            invariant
                wanted@ == id@,
                k <= self.entries@.len(),
                forall|j: int| 0 <= j < k ==> (#[trigger] self.entries@[j]).id@ != id@,
            decreases self.entries@.len() - k,
        {
            if self.entries[k].id == wanted {
                assert(self.entries()[k as int].id@ == id@);
                return Some(k);
            }
            k += 1;
        }
        None
    }
}

/// Notes that a name has just been handed out.
pub fn add_recent(recent: &mut RecentIds, s: &str, now: u64)
    requires
        old(recent).wf(),
    ensures
        final(recent).wf(),
        final(recent)@ == old(recent)@.insert(s@, now as int),
{
    let found = recent.position(s);
    let entry = RecentId { id: String::from_str(s), added: now };
    match found {
        Some(k) => {
            recent.entries.set(k, entry);
        },
        None => {
            recent.entries.push(entry);
        },
    }
    proof {
        let before = *old(recent);
        let after = *recent;
        assert forall|i: int, j: int| 0 <= i < j < after.entries().len() implies (
        #[trigger] after.entries()[i]).id@ != (#[trigger] after.entries()[j]).id@ by {
            match found {
                Some(k) => {
                    assert(before.entries()[k as int].id@ == s@);
                    assert(after.entries()[i].id@ == before.entries()[i].id@);
                    assert(after.entries()[j].id@ == before.entries()[j].id@);
                },
                None => {
                    if j < before.entries().len() {
                        assert(after.entries()[i] == before.entries()[i]);
                        assert(after.entries()[j] == before.entries()[j]);
                    } else {
                        assert(after.entries()[i] == before.entries()[i]);
                        assert(!before.holds(s@));
                    }
                },
            }
        }
        assert(after.wf());
        assert forall|id: Seq<char>| after.holds(id) == (id == s@ || before.holds(id)) by {
            if after.holds(id) {
                let c = choose|c: int|
                    0 <= c < after.entries().len() && (#[trigger] after.entries()[c]).id@ == id;
                if id != s@ {
                    assert(before.entries()[c].id@ == id);
                }
            }
            if id == s@ {
                match found {
                    Some(k) => {
                        assert(after.entries()[k as int].id@ == id);
                    },
                    None => {
                        assert(after.entries()[after.entries().len() - 1].id@ == id);
                    },
                }
            } else if before.holds(id) {
                let c = choose|c: int|
                    0 <= c < before.entries().len() && (#[trigger] before.entries()[c]).id@ == id;
                assert(after.entries()[c].id@ == id);
            }
        }
        assert forall|id: Seq<char>| after.holds(id) implies after.added_at(id) == if id == s@ {
            now as int
        } else {
            before.added_at(id)
        } by {
            let c = choose|c: int|
                0 <= c < after.entries().len() && (#[trigger] after.entries()[c]).id@ == id;
            after.lemma_added_at(c);
            if id != s@ {
                assert(before.entries()[c].id@ == id);
                before.lemma_added_at(c);
            }
        }
        assert(after@ =~= before@.insert(s@, now as int));
    }
}

/// Drops the names that are no longer recent, then says whether the given
/// name is among those left.
pub fn check_recent(recent: &mut RecentIds, s: &str, now: u64) -> (out: bool)
    requires
        old(recent).wf(),
    ensures
        final(recent).wf(),
        final(recent)@ == old(recent)@.restrict(
            Set::new(|id: Seq<char>| is_recent(old(recent)@[id], now as int)),
        ),
        out == (old(recent)@.dom().contains(s@) && is_recent(old(recent)@[s@], now as int)),
{
    let mut k: usize = 0;
    let ghost before = *recent;
    while k < recent.entries.len()
        invariant
            before.wf(),
            recent.wf(),
            k <= recent.entries().len(),
            forall|j: int|
                0 <= j < k ==> is_recent((#[trigger] recent.entries()[j]).added as int, now as int),
            forall|j: int|
                0 <= j < recent.entries().len() ==> before.holds(
                    (#[trigger] recent.entries()[j]).id@,
                ) && before.added_at(recent.entries()[j].id@) == recent.entries()[j].added,
            forall|id: Seq<char>|
                before.holds(id) && is_recent(before.added_at(id), now as int) ==> recent.holds(id),
        decreases recent.entries().len() - k,
    {
        let fresh = now < recent.entries[k].added || now - recent.entries[k].added < RECENT_FOR_MS;
        if fresh {
            k += 1;
        } else {
            let ghost prev = *recent;
            recent.entries.remove(k);
            proof {
                assert forall|id: Seq<char>|
                    before.holds(id) && is_recent(
                        before.added_at(id),
                        now as int,
                    ) implies recent.holds(id) by {
                    let c = choose|c: int|
                        0 <= c < prev.entries().len() && (#[trigger] prev.entries()[c]).id@ == id;
                    assert(c != k);
                    if c < k {
                        assert(recent.entries()[c].id@ == id);
                    } else {
                        assert(recent.entries()[c - 1].id@ == id);
                    }
                }
            }
        }
    }
    let out = recent.position(s).is_some();
    proof {
        let after = *recent;
        assert forall|id: Seq<char>| after.holds(id) implies before.holds(id) && is_recent(
            before.added_at(id),
            now as int,
        ) && after.added_at(id) == before.added_at(id) by {
            let c = choose|c: int|
                0 <= c < after.entries().len() && (#[trigger] after.entries()[c]).id@ == id;
            after.lemma_added_at(c);
        }
        assert(after@ =~= before@.restrict(
            Set::new(|id: Seq<char>| is_recent(before@[id], now as int)),
        ));
    }
    out
}

/// Drops the names that are no longer recent and lists those left: the
/// names that reconciliation must not touch.
pub fn recent_names(recent: &mut RecentIds, now: u64) -> (out: Vec<String>)
    requires
        old(recent).wf(),
    ensures
        final(recent).wf(),
        final(recent)@ == old(recent)@.restrict(
            Set::new(|id: Seq<char>| is_recent(old(recent)@[id], now as int)),
        ),
        forall|id: Seq<char>|
            crate::provider::in_flight(out@, id) <==> old(recent)@.dom().contains(id) && is_recent(
                old(recent)@[id],
                now as int,
            ),
{
    check_recent(recent, "", now);
    let mut out: Vec<String> = Vec::new();
    let mut k: usize = 0;
    while k < recent.entries.len()
        invariant
            recent.wf(),
            k <= recent.entries().len(),
            out@.len() == k,
            forall|j: int| 0 <= j < k ==> (#[trigger] out@[j])@ == recent.entries()[j].id@,
        decreases recent.entries().len() - k,
    {
        out.push(recent.entries[k].id.clone());
        k += 1;
    }
    proof {
        let after = *recent;
        assert forall|id: Seq<char>| crate::provider::in_flight(out@, id) <==> after.holds(id) by {
            if crate::provider::in_flight(out@, id) {
                let j = choose|j: int| 0 <= j < out@.len() && (#[trigger] out@[j])@ == id;
                assert(after.entries()[j].id@ == id);
            }
            if after.holds(id) {
                let j = choose|j: int|
                    0 <= j < after.entries().len() && (#[trigger] after.entries()[j]).id@ == id;
                assert(out@[j]@ == id);
            }
        }
        assert forall|id: Seq<char>|
            crate::provider::in_flight(out@, id) <==> old(recent)@.dom().contains(id) && is_recent(
                old(recent)@[id],
                now as int,
            ) by {
            assert(after.holds(id) == after@.dom().contains(id));
        }
    }
    out
}

/// What the backend is asked while a server is deleted.
#[derive(Clone, Copy, Debug, PartialEq, Eq, Structural)]
pub enum DeleteStep {
    /// Ask the server to terminate itself.
    Terminate,
    /// Delete the server outright.
    DeleteServer,
    /// Delete the volume the server booted from.
    DeleteVolume,
    /// Nothing is left to do.
    Done,
    /// The server could not be deleted.
    Failed,
}

/// Whether the backend has taken a request to create a server: status 200
/// or 201.
pub open spec fn create_accepted(status: u16) -> bool {
    status == 200 || status == 201
}

/// Whether the backend has taken a request to act on a server: status 200
/// or 202.
pub open spec fn action_accepted(status: u16) -> bool {
    status == 200 || status == 202
}

/// Whether the backend has taken a request to delete something: status 200
/// or 204.
pub open spec fn delete_accepted(status: u16) -> bool {
    status == 200 || status == 204
}

/// The step that follows a step, given the status with which the backend
/// answered it.
///
/// A server is first asked to terminate; where the backend does not take
/// that, the server is deleted outright, and where it does not take that
/// either, the deletion has failed.  Then the volume is deleted, again and
/// again until the backend takes it.
pub open spec fn delete_step_after(step: DeleteStep, status: u16) -> DeleteStep {
    match step {
        DeleteStep::Terminate => if action_accepted(status) {
            DeleteStep::DeleteVolume
        } else {
            DeleteStep::DeleteServer
        },
        DeleteStep::DeleteServer => if delete_accepted(status) {
            DeleteStep::DeleteVolume
        } else {
            DeleteStep::Failed
        },
        DeleteStep::DeleteVolume => if delete_accepted(status) {
            DeleteStep::Done
        } else {
            DeleteStep::DeleteVolume
        },
        DeleteStep::Done => DeleteStep::Done,
        DeleteStep::Failed => DeleteStep::Failed,
    }
}

/// Whether the backend has taken a request to create a server.
pub fn is_create_accepted(status: u16) -> (out: bool)
    ensures
        out == create_accepted(status),
{
    status == 200 || status == 201
}

/// Whether the backend has taken a request to act on a server.
pub fn is_action_accepted(status: u16) -> (out: bool)
    ensures
        out == action_accepted(status),
{
    status == 200 || status == 202
}

/// Whether the backend has taken a request to delete something.
pub fn is_delete_accepted(status: u16) -> (out: bool)
    ensures
        out == delete_accepted(status),
{
    status == 200 || status == 204
}

/// The step that follows a step, given the status with which the backend
/// answered it.
pub fn next_delete_step(step: DeleteStep, status: u16) -> (out: DeleteStep)
    ensures
        out == delete_step_after(step, status),
{
    match step {
        DeleteStep::Terminate => if is_action_accepted(status) {
            DeleteStep::DeleteVolume
        } else {
            DeleteStep::DeleteServer
        },
        DeleteStep::DeleteServer => if is_delete_accepted(status) {
            DeleteStep::DeleteVolume
        } else {
            DeleteStep::Failed
        },
        DeleteStep::DeleteVolume => if is_delete_accepted(status) {
            DeleteStep::Done
        } else {
            DeleteStep::DeleteVolume
        },
        DeleteStep::Done => DeleteStep::Done,
        DeleteStep::Failed => DeleteStep::Failed,
    }
}

/// No deletion ends before the volume is gone: the only way to `Done` is
/// through an accepted deletion of the volume.
pub proof fn lemma_done_only_after_volume(step: DeleteStep, status: u16)
    requires
        step != DeleteStep::Done,
        delete_step_after(step, status) == DeleteStep::Done,
    ensures
        step == DeleteStep::DeleteVolume,
        delete_accepted(status),
{
}

} // verus!
