//! A driver wrapped so that its addresses are held against the ledger of
//! addresses the fleet has used.

use vstd::prelude::*;
use vstd::string::*;

use crate::provider::Provider;

verus! {

/// A driver whose fresh addresses are checked against the ledger.
pub struct IpFresher<T: Provider> {
    inner: T,
}

impl<T: Provider> IpFresher<T> {
    /// The driver inside.
    pub closed spec fn inner(self) -> T {
        self.inner
    }

    /// Wraps a driver.
    pub fn new(provider: T) -> (out: Self)
        ensures
            out.inner() == provider,
    {
        Self { inner: provider }
    }

    /// The driver inside.
    pub fn get_ref(&self) -> (out: &T)
        ensures
            *out == self.inner(),
    {
        &self.inner
    }
}

impl<T: Provider> Provider for IpFresher<T> {
    open spec fn spec_prefix(&self) -> Seq<char> {
        self.inner().spec_prefix()
    }

    open spec fn spec_rotates_ips(&self) -> bool {
        true
    }

    fn prefix(&self) -> (out: String) {
        self.inner.prefix()
    }

    fn rotates_ips(&self) -> (out: bool) {
        true
    }
}

/// The ledger of every address the fleet has used.
#[derive(Debug)]
pub struct SeenIps {
    ips: Vec<String>,
}

impl SeenIps {
    /// The addresses in the ledger.
    pub closed spec fn view(self) -> Set<Seq<char>> {
        Set::new(
            |ip: Seq<char>|
                exists|k: int| 0 <= k < self.ips@.len() && (#[trigger] self.ips@[k])@ == ip,
        )
    }

    /// An empty ledger.
    pub fn new() -> (out: Self)
        ensures
            out@ == Set::<Seq<char>>::empty(),
    {
        let out = SeenIps { ips: Vec::new() };
        assert(out@ =~= Set::<Seq<char>>::empty());
        out
    }

    /// Whether an address is in the ledger.
    pub fn is_ip_seen(&self, ip: &str) -> (out: bool)
        ensures
            out == self@.contains(ip@),
    {
        let wanted = String::from_str(ip);
        let mut k: usize = 0;
        while k < self.ips.len()
            invariant
                wanted@ == ip@,
                k <= self.ips@.len(),
                forall|j: int| 0 <= j < k ==> (#[trigger] self.ips@[j])@ != ip@,
            decreases self.ips@.len() - k,
        {
            if self.ips[k] == wanted {
                return true;
            }
            k += 1;
        }
        false
    }

    /// Enters an address in the ledger.  Entering one that is there changes
    /// nothing.
    pub fn record_seen_ip(&mut self, ip: &str)
        ensures
            final(self)@ == old(self)@.insert(ip@),
    {
        if self.is_ip_seen(ip) {
            assert(self@ =~= old(self)@.insert(ip@));
            return ;
        }
        self.ips.push(String::from_str(ip));
        proof {
            let before = *old(self);
            assert forall|a: Seq<char>| self@.contains(a) == before@.insert(ip@).contains(a) by {
                if self@.contains(a) {
                    let k = choose|k: int|
                        0 <= k < self.ips@.len() && (#[trigger] self.ips@[k])@ == a;
                    if k < before.ips@.len() {
                        assert(before.ips@[k]@ == a);
                    }
                }
                if before@.contains(a) {
                    let k = choose|k: int|
                        0 <= k < before.ips@.len() && (#[trigger] before.ips@[k])@ == a;
                    assert(self.ips@[k]@ == a);
                }
                if a == ip@ {
                    assert(self.ips@[self.ips@.len() - 1]@ == a);
                }
            }
            assert(self@ =~= before@.insert(ip@));
        }
    }
}

impl<T: Provider> IpFresher<T> {
    /// Holds the address of a fresh server against the ledger.  An address
    /// never used before is entered and accepted.  One that has been used is
    /// turned down and the ledger left as it is; the caller then asks the
    /// driver for another server.
    pub fn accept(&self, ledger: &mut SeenIps, ip: &str) -> (out: bool)
        ensures
            out == !old(ledger)@.contains(ip@),
            out ==> final(ledger)@ == old(ledger)@.insert(ip@),
            !out ==> final(ledger)@ == old(ledger)@,
    {
        if ledger.is_ip_seen(ip) {
            false
        } else {
            ledger.record_seen_ip(ip);
            true
        }
    }
}

/// The ledger after a run of addresses has been held against it.
pub open spec fn ledger_after(ledger: Set<Seq<char>>, offers: Seq<Seq<char>>) -> Set<Seq<char>>
    decreases offers.len(),
{
    if offers.len() == 0 {
        ledger
    } else {
        ledger_after(ledger, offers.drop_last()).insert(offers.last())
    }
}

/// Of a run of addresses held against the ledger one after the other, those
/// that were accepted.
pub open spec fn accepted(ledger: Set<Seq<char>>, offers: Seq<Seq<char>>) -> Seq<Seq<char>>
    decreases offers.len(),
{
    if offers.len() == 0 {
        Seq::empty()
    } else if ledger_after(ledger, offers.drop_last()).contains(offers.last()) {
        accepted(ledger, offers.drop_last())
    } else {
        accepted(ledger, offers.drop_last()).push(offers.last())
    }
}

/// No address is accepted twice, and none that the ledger held at the
/// start: whatever the drivers offer, the bridges made from accepted
/// addresses all differ in their address, now and from any bridge before.
pub proof fn lemma_accepted_addresses_differ(ledger: Set<Seq<char>>, offers: Seq<Seq<char>>)
    ensures
        accepted(ledger, offers).no_duplicates(),
        forall|k: int|
            0 <= k < accepted(ledger, offers).len() ==> !ledger.contains(
                #[trigger] accepted(ledger, offers)[k],
            ),
        forall|k: int|
            0 <= k < accepted(ledger, offers).len() ==> ledger_after(ledger, offers).contains(
                #[trigger] accepted(ledger, offers)[k],
            ),
        forall|a: Seq<char>| ledger.contains(a) ==> ledger_after(ledger, offers).contains(a),
    decreases offers.len(),
{
    if offers.len() > 0 {
        let front = offers.drop_last();
        lemma_accepted_addresses_differ(ledger, front);
        let got = accepted(ledger, offers);
        let before = accepted(ledger, front);
        if !ledger_after(ledger, front).contains(offers.last()) {
            assert forall|i: int, j: int| 0 <= i < got.len() && 0 <= j < got.len() && i
                != j implies got[i] != got[j] by {
                if i < before.len() {
                    assert(got[i] == before[i]);
                }
                if j < before.len() {
                    assert(got[j] == before[j]);
                }
            }
            assert forall|k: int| 0 <= k < got.len() implies !ledger.contains(#[trigger] got[k])
                && ledger_after(ledger, offers).contains(got[k]) by {
                if k < before.len() {
                    assert(got[k] == before[k]);
                }
            }
        }
    }
}

} // verus!
