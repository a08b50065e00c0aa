//! Retiring bridges by age: how often a group gives one up, and which.

use vstd::prelude::*;
use vstd::string::*;

use crate::database::{has_class, is_oldest, oldest_row, table_of, BridgeInfo, RowClass};

verus! {

/// Milliseconds between two retirements in a group: the average lifetime of
/// a bridge divided by the number of bridges, a group without bridges
/// counting as one of a single bridge.
pub open spec fn delete_interval_of(avg_lifetime_secs: int, total_group_count: int) -> int {
    if total_group_count >= 1 {
        (avg_lifetime_secs * 1000) / total_group_count
    } else {
        avg_lifetime_secs * 1000
    }
}

/// Milliseconds between two retirements in a group.  Intervals beyond
/// `u64::MAX` are reported as `u64::MAX`.
pub fn delete_interval(avg_lifetime_secs: u64, total_group_count: usize) -> (out: u64)
    ensures
        out == if delete_interval_of(avg_lifetime_secs as int, total_group_count as int)
            <= u64::MAX {
            delete_interval_of(avg_lifetime_secs as int, total_group_count as int)
        } else {
            u64::MAX as int
        },
{
    let bridges: u128 = if total_group_count >= 1 {
        total_group_count as u128
    } else {
        1
    };
    let span: u128 = (avg_lifetime_secs as u128) * 1000;
    let interval: u128 = span / bridges;
    if interval > u64::MAX as u128 {
        u64::MAX
    } else {
        interval as u64
    }
}

/// With as many retirements per average lifetime as there are bridges, the
/// intervals of one lifetime add up to the lifetime, short of less than one
/// millisecond per bridge.
pub proof fn lemma_interval_spreads_lifetime(avg_lifetime_secs: int, total_group_count: int)
    requires
        0 <= avg_lifetime_secs,
        1 <= total_group_count,
    ensures
        ({
            let interval = delete_interval_of(avg_lifetime_secs, total_group_count);
            &&& interval * total_group_count <= avg_lifetime_secs * 1000
            &&& avg_lifetime_secs * 1000 < (interval + 1) * total_group_count
        }),
{
    let span = avg_lifetime_secs * 1000;
    vstd::arithmetic::div_mod::lemma_fundamental_div_mod(span, total_group_count);
    vstd::arithmetic::div_mod::lemma_mod_bound(span, total_group_count);
    let q = span / total_group_count;
    assert(q * total_group_count == total_group_count * q) by (nonlinear_arith);
    assert((q + 1) * total_group_count == total_group_count * q + total_group_count)
        by (nonlinear_arith);
}

/// Says which bridge of a group to retire when the group's timer fires: of
/// the rows whose measured throughput exceeds one megabit per second, the one
/// that changed status longest ago; of several that changed at the same time,
/// the one whose id comes first.  `None` where the group has no such row.
pub fn loop_prune_for_group(group_name: &str, rows: &Vec<BridgeInfo>) -> (out: Option<String>)
    ensures
        out is Some <==> has_class(table_of(rows@), group_name@, RowClass::Measured),
        out matches Some(id) ==> exists|at: int|
            #[trigger] is_oldest(table_of(rows@), group_name@, RowClass::Measured, at) && table_of(
                rows@,
            )[at].bridge_id == id@,
{
    match oldest_row(rows, group_name, RowClass::Measured) {
        Some(at) => {
            assert(table_of(rows@)[at as int].bridge_id == rows@[at as int].bridge_id@);
            Some(rows[at].bridge_id.clone())
        },
        None => None,
    }
}

} // verus!
