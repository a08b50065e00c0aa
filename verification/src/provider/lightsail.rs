//! The Lightsail driver: its settings, how it names servers, and how it
//! reads the load of its servers.

use vstd::prelude::*;
use vstd::string::*;

use crate::provider::Provider;

verus! {

/// Settings of the Lightsail driver.
#[derive(Clone, Debug)]
pub struct LightsailConfig {
    pub access_key_id: String,
    pub secret_access_key: String,
    pub region: String,
    pub availability_zone: String,
    pub bundle_id: String,
    pub key_pair_name: String,
    /// Processor load at which the group counts as fully loaded, in
    /// thousandths of a percent.
    pub target_cpu_usage: u32,
}

/// The prefix of the names of Lightsail servers.
pub open spec fn lightsail_prefix() -> Seq<char> {
    seq!['a', 'w', 's', '-', 'p', 'h', 'a', 'l', 'a', 'n', 'x', '-']
}

/// The Lightsail driver.
pub struct LightsailProvider {
    cfg: LightsailConfig,
}

impl LightsailProvider {
    /// The settings the driver was made with.
    pub closed spec fn config(self) -> LightsailConfig {
        self.cfg
    }

    /// Makes a driver from its settings.
    pub fn new(cfg: LightsailConfig) -> (out: Self)
        ensures
            out.config() == cfg,
    {
        Self { cfg }
    }

    /// The settings the driver was made with.
    pub fn cfg(&self) -> (out: &LightsailConfig)
        ensures
            *out == self.config(),
    {
        &self.cfg
    }
}

impl Provider for LightsailProvider {
    open spec fn spec_prefix(&self) -> Seq<char> {
        lightsail_prefix()
    }

    open spec fn spec_rotates_ips(&self) -> bool {
        false
    }

    fn prefix(&self) -> (out: String) {
        proof {
            reveal_strlit("aws-phalanx-");
        }
        let out = String::from_str("aws-phalanx-");
        assert(out@ =~= lightsail_prefix());
        out
    }

    fn rotates_ips(&self) -> (out: bool) {
        false
    }
}

/// The name of the Lightsail server for a bridge.
pub fn id_to_name(id: &str) -> (out: String)
    ensures
        out@ == lightsail_prefix() + id@,
{
    proof {
        reveal_strlit("aws-phalanx-");
    }
    let out = String::from_str("aws-phalanx-").concat(id);
    assert(out@ =~= lightsail_prefix() + id@);
    out
}

/// One point of a metric: when it was taken, and the average over its
/// period in thousandths of a percent.
#[derive(Clone, Copy, Debug)]
pub struct MetricPoint {
    pub timestamp: u64,
    pub average: u32,
}

/// Point `at` is the latest: none is later, and none behind it is as late.
pub open spec fn is_latest(points: Seq<MetricPoint>, at: int) -> bool {
    &&& 0 <= at < points.len()
    &&& forall|k: int| 0 <= k < points.len() ==> (#[trigger] points[k]).timestamp <= points[at].timestamp
    &&& forall|k: int| at < k < points.len() ==> (#[trigger] points[k]).timestamp < points[at].timestamp
}

/// The average of the latest point of a metric; of several points of the
/// same time, the last.  `None` for a metric without points.
pub fn latest_average(points: &Vec<MetricPoint>) -> (out: Option<u32>)
    ensures
        out is Some <==> points@.len() > 0,
        out matches Some(avg) ==> exists|at: int|
            #[trigger] is_latest(points@, at) && points@[at].average == avg,
{
    if points.len() == 0 {
        return None;
    }
    let mut best: usize = 0;
    let mut k: usize = 1;
    while k < points.len()
        invariant
            1 <= k <= points@.len(),
            best < k,
            forall|j: int| 0 <= j < k ==> (#[trigger] points@[j]).timestamp <= points@[best as int].timestamp,
            forall|j: int| best < j < k ==> (#[trigger] points@[j]).timestamp < points@[best as int].timestamp,
        decreases points@.len() - k,
    {
        if points[k].timestamp >= points[best].timestamp {
            best = k;
        }
        k += 1;
    }
    assert(is_latest(points@, best as int));
    Some(points[best].average)
}

/// The sum of a list of numbers.
pub open spec fn sum_of(values: Seq<u32>) -> nat
    decreases values.len(),
{
    if values.len() == 0 {
        0
    } else {
        sum_of(values.drop_last()) + values.last() as nat
    }
}

/// How loaded the group is, in thousandths: the mean processor load of its
/// servers over the load it is meant to carry, rounded down.
pub open spec fn overload_of(cpu: Seq<u32>, target_cpu_usage: int) -> int {
    (1000 * (sum_of(cpu) as int)) / ((cpu.len() as int) * target_cpu_usage)
}

/// How loaded the group is, in thousandths; above a thousand it is over
/// capacity.  `None` where no server could be measured or no target is set.
/// Values beyond `u64::MAX` are reported as `u64::MAX`.
pub fn overload(cpu: &Vec<u32>, target_cpu_usage: u32) -> (out: Option<u64>)
    ensures
        out is Some <==> cpu@.len() > 0 && target_cpu_usage > 0,
        out matches Some(v) ==> v == if overload_of(cpu@, target_cpu_usage as int) <= u64::MAX {
            overload_of(cpu@, target_cpu_usage as int)
        } else {
            u64::MAX as int
        },
{
    if cpu.len() == 0 || target_cpu_usage == 0 {
        return None;
    }
    let mut total: u128 = 0;
    let mut k: usize = 0;
    assert(cpu@.take(0) =~= Seq::<u32>::empty());
    while k < cpu.len()
        invariant
            k <= cpu@.len(),
            total == sum_of(cpu@.take(k as int)),
            total <= k * u32::MAX,
        decreases cpu@.len() - k,
    {
        proof {
            assert(cpu@.take(k + 1).drop_last() =~= cpu@.take(k as int));
            assert(cpu@.take(k + 1).last() == cpu@[k as int]);
            assert((k + 1) * u32::MAX == k * u32::MAX + u32::MAX) by (nonlinear_arith);
            assert(k * u32::MAX <= usize::MAX * u32::MAX) by (nonlinear_arith)
                requires
                    k <= usize::MAX,
            ;
        }
        total = total + cpu[k] as u128;
        k += 1;
    }
    assert(cpu@.take(cpu@.len() as int) =~= cpu@);
    let n: u128 = cpu.len() as u128;
    let t: u128 = target_cpu_usage as u128;
    assert(n * t <= 0xffff_ffff_ffff_ffff * 0xffff_ffff) by (nonlinear_arith)
        requires
            0 <= n <= 0xffff_ffff_ffff_ffff,
            0 <= t <= 0xffff_ffff,
    ;
    assert(n * t > 0) by (nonlinear_arith)
        requires
            n > 0,
            t > 0,
    ;
    assert(total <= 0xffff_ffff_ffff_ffff * 0xffff_ffff) by (nonlinear_arith)
        requires
            total <= n * u32::MAX,
            0 <= n <= 0xffff_ffff_ffff_ffff,
    ;
    let per: u128 = n * t;
    let scaled: u128 = 1000 * total;
    let ratio: u128 = scaled / per;
    if ratio > u64::MAX as u128 {
        Some(u64::MAX)
    } else {
        Some(ratio as u64)
    }
}

} // verus!
