//! Sizing of a group's frontline.
//!
//! Two things happen per group.  A slow control step measures how loaded the
//! frontline is and moves the adjusted target up or down.  A fast step compares
//! the rows of the group with that target and promotes a reserve bridge or
//! evicts the oldest frontline bridge.
//!
//! Throughput is fixed-point: thousandths of a megabit per second.  The load
//! factor of a group is the quotient `signal / target`; it is never computed,
//! only compared with 1.2 and 0.8 by cross-multiplication.

use vstd::prelude::*;
use vstd::relations::*;
use vstd::seq_lib::*;

use crate::config::GroupConfig;
use crate::database::{
    count_class, count_rows, delete_bridge, first_row, has_class, in_class, is_first, is_oldest,
    lemma_count_with_status, lemma_count_without, lemma_frontline_within_load,
    lemma_oldest_is_unique, lemma_only_promotion_fills_the_frontline, lemma_with_status_keeps_wf,
    lemma_without_keeps_wf, oldest_row, promotes_into, set_status, table_after, table_of,
    table_wf, unique_ids, with_status, without, BridgeInfo, BridgeRow, RowClass, TableChange,
};
use crate::status::{blocked_text, frontline_text, reserve_text, Status};

verus! {

/// Descending order on samples.
pub open spec fn descending() -> spec_fn(u64, u64) -> bool {
    |a: u64, b: u64| a >= b
}

/// Where in the descending order of `len` samples the representative one
/// stands: a tenth of the way in, rounded down.
pub open spec fn signal_index(len: int) -> int {
    len / 10
}

/// The representative throughput of a set of samples: with the samples in
/// descending order, the one a tenth of the way in.  From ten samples on,
/// the largest are thereby passed over.  Zero for no samples.
pub open spec fn signal_of(samples: Seq<u64>) -> u64 {
    if samples.len() == 0 {
        0
    } else {
        samples.sort_by(descending())[signal_index(samples.len() as int)]
    }
}

/// The load factor exceeds 1.2.
pub open spec fn overloaded(signal: int, target: int) -> bool {
    5 * signal > 6 * target
}

/// The load factor is below 0.8.
pub open spec fn underloaded(signal: int, target: int) -> bool {
    5 * signal < 4 * target
}

/// Milliseconds of delay asked of the routing layer: a thousand times the
/// part of the load factor above 1.2, rounded down.
pub open spec fn delay_of(signal: int, target: int) -> int {
    if overloaded(signal, target) {
        (1000 * signal - 1200 * target) / target
    } else {
        0
    }
}

/// `a / b` rounded to the nearest integer, halves upwards.
pub open spec fn round_div(a: int, b: int) -> int {
    if 2 * (a % b) >= b {
        a / b + 1
    } else {
        a / b
    }
}

/// Least size the ideal frontline may take: one below the live count.
pub open spec fn ideal_floor(live: int) -> int {
    if live == 0 {
        0
    } else {
        live - 1
    }
}

/// Greatest size the ideal frontline may take: the largest integer within
/// `1.2 * live + 1`.
pub open spec fn ideal_ceiling(live: int) -> int {
    (6 * live) / 5 + 1
}

/// The live count scaled by the load factor, rounded, and kept within one
/// step of the live count.
pub open spec fn ideal_of(live: int, signal: int, target: int) -> int {
    let raw = round_div(live * signal, target);
    if raw < ideal_floor(live) {
        ideal_floor(live)
    } else if raw > ideal_ceiling(live) {
        ideal_ceiling(live)
    } else {
        raw
    }
}

/// The adjusted target after one control step.
pub open spec fn adjusted_of(
    adjusted: int,
    frontline: int,
    max_frontline: Option<int>,
    live: int,
    signal: int,
    target: int,
) -> int {
    let ideal = ideal_of(live, signal, target);
    if overloaded(signal, target) {
        match max_frontline {
            Some(cap) => if ideal <= cap {
                ideal
            } else {
                cap
            },
            None => ideal,
        }
    } else if underloaded(signal, target) {
        if ideal >= frontline {
            ideal
        } else {
            frontline
        }
    } else {
        adjusted
    }
}

/// Whether the control step does anything for a group.
pub open spec fn control_active(frontline: int, target: int) -> bool {
    frontline != 0 && target != 0
}

/// The cap of a group as a mathematical integer.
pub open spec fn cap_of(max_frontline: Option<usize>) -> Option<int> {
    match max_frontline {
        Some(cap) => Some(cap as int),
        None => None,
    }
}

proof fn lemma_descending_is_total()
    ensures
        total_ordering(descending()),
{
    let leq = descending();
    assert(reflexive(leq));
    assert(antisymmetric(leq));
    assert(transitive(leq));
    assert(strongly_connected(leq));
}

/// The representative throughput can be read off any descending
/// arrangement of the samples.
pub proof fn lemma_signal_from_sorted(samples: Seq<u64>, sorted: Seq<u64>)
    requires
        samples.len() > 0,
        sorted_by(sorted, descending()),
        sorted.to_multiset() == samples.to_multiset(),
    ensures
        sorted.len() == samples.len(),
        signal_of(samples) == sorted[signal_index(samples.len() as int)],
{
    lemma_descending_is_total();
    samples.lemma_sort_by_ensures(descending());
    lemma_sorted_unique(sorted, samples.sort_by(descending()), descending());
    sorted.to_multiset_ensures();
    samples.to_multiset_ensures();
}

/// The samples in descending order.
fn sorted_descending(samples: &Vec<u64>) -> (out: Vec<u64>)
    ensures
        out@ == samples@.sort_by(descending()),
{
    let mut sorted: Vec<u64> = Vec::new();
    let mut i: usize = 0;
    assert(samples@.subrange(0, 0) =~= Seq::<u64>::empty());
    while i < samples.len()
        invariant
            i <= samples@.len(),
            sorted@.to_multiset() == samples@.subrange(0, i as int).to_multiset(),
            sorted_by(sorted@, descending()),
        decreases samples@.len() - i,
    {
        let x = samples[i];
        let mut j: usize = 0;
        while j < sorted.len() && sorted[j] >= x
            invariant
                j <= sorted@.len(),
                forall|k: int| 0 <= k < j ==> sorted@[k] >= x,
            decreases sorted@.len() - j,
        {
            j += 1;
        }
        let ghost before = sorted@;
        sorted.insert(j, x);
        proof {
            to_multiset_insert(before, j as int, x);
            assert(samples@.subrange(0, i + 1) =~= samples@.subrange(0, i as int).push(x));
            to_multiset_build(samples@.subrange(0, i as int), x);
            assert forall|a: int, b: int| 0 <= a < b < sorted@.len() implies descending()(
                sorted@[a],
                sorted@[b],
            ) by {
                if a < j && b > j {
                    assert(descending()(before[a], before[b - 1]));
                } else if a < j && b < j {
                    assert(descending()(before[a], before[b]));
                } else if a > j {
                    assert(descending()(before[a - 1], before[b - 1]));
                } else if a == j {
                    assert(before[b - 1] == sorted@[b]);
                    if j < before.len() {
                        assert(descending()(before[j as int], before[b - 1]) || b - 1 == j);
                    }
                }
            }
        }
        i += 1;
    }
    proof {
        lemma_descending_is_total();
        assert(samples@.subrange(0, samples@.len() as int) =~= samples@);
        samples@.lemma_sort_by_ensures(descending());
        lemma_sorted_unique(sorted@, samples@.sort_by(descending()), descending());
    }
    sorted
}

/// Picks the representative throughput out of the samples of one group.
pub fn signal_mbps(samples: &Vec<u64>) -> (out: u64)
    ensures
        out == signal_of(samples@),
{
    if samples.len() == 0 {
        return 0;
    }
    let sorted = sorted_descending(samples);
    proof {
        lemma_descending_is_total();
        samples@.lemma_sort_by_ensures(descending());
        sorted@.to_multiset_ensures();
        samples@.to_multiset_ensures();
    }
    sorted[samples.len() / 10]
}

/// Delay, in milliseconds, to publish for a group whose frontline shows the
/// given signal.  Values beyond `u64::MAX` are reported as `u64::MAX`.
pub fn delay_ms(signal: u64, target: u64) -> (out: u64)
    requires
        target != 0,
    ensures
        out == if delay_of(signal as int, target as int) <= u64::MAX {
            delay_of(signal as int, target as int)
        } else {
            u64::MAX as int
        },
        !overloaded(signal as int, target as int) ==> out == 0,
{
    let s: u128 = signal as u128;
    let t: u128 = target as u128;
    if 5 * s > 6 * t {
        let excess: u128 = 1000 * s - 1200 * t;
        let d: u128 = excess / t;
        if d > u64::MAX as u128 {
            u64::MAX
        } else {
            d as u64
        }
    } else {
        0
    }
}

/// The size the frontline would have if it carried the measured load at
/// exactly the target, within one step of the live count.
pub fn ideal_frontline(live: usize, signal: u64, target: u64) -> (out: usize)
    requires
        target != 0,
        ideal_ceiling(live as int) <= usize::MAX,
    ensures
        out == ideal_of(live as int, signal as int, target as int),
{
    let l: u128 = live as u128;
    let s: u128 = signal as u128;
    let t: u128 = target as u128;
    assert(l * s <= 0xffff_ffff_ffff_ffff * 0xffff_ffff_ffff_ffff) by (nonlinear_arith)
        requires
            0 <= l <= 0xffff_ffff_ffff_ffff,
            0 <= s <= 0xffff_ffff_ffff_ffff,
    ;
    let load: u128 = l * s;
    let q: u128 = load / t;
    let r: u128 = load % t;
    let raw: u128 = if 2 * r >= t {
        q + 1
    } else {
        q
    };
    let lo: u128 = if live == 0 {
        0
    } else {
        l - 1
    };
    let hi: u128 = (6 * l) / 5 + 1;
    if raw < lo {
        lo as usize
    } else if raw > hi {
        hi as usize
    } else {
        raw as usize
    }
}

/// One control step on the adjusted target: scale up under overload, never
/// past the cap; scale down under light load, never below the base; else keep.
pub fn adjust_target(
    adjusted: usize,
    frontline: usize,
    max_frontline: Option<usize>,
    live: usize,
    signal: u64,
    target: u64,
) -> (out: usize)
    requires
        target != 0,
        ideal_ceiling(live as int) <= usize::MAX,
    ensures
        out == adjusted_of(
            adjusted as int,
            frontline as int,
            cap_of(max_frontline),
            live as int,
            signal as int,
            target as int,
        ),
{
    let s: u128 = signal as u128;
    let t: u128 = target as u128;
    let ideal = ideal_frontline(live, signal, target);
    if 5 * s > 6 * t {
        match max_frontline {
            Some(cap) => if ideal <= cap {
                ideal
            } else {
                cap
            },
            None => ideal,
        }
    } else if 5 * s < 4 * t {
        if ideal >= frontline {
            ideal
        } else {
            frontline
        }
    } else {
        adjusted
    }
}

/// The adjusted target a group starts with: its base size, or the number of
/// frontline rows it already has if that is larger.
pub fn initial_adjusted(frontline: usize, current_live: usize) -> (out: usize)
    ensures
        out == if frontline >= current_live {
            frontline
        } else {
            current_live
        },
{
    if frontline >= current_live {
        frontline
    } else {
        current_live
    }
}

/// What one control step decides.
#[derive(Clone, Copy, Debug)]
pub struct ControlOutcome {
    /// The adjusted target from now on.
    pub adjusted: usize,
    /// The delay to publish for the group; `None` when the step is inactive.
    pub delay_ms: Option<u64>,
}

/// What a control step yields for a group, as a function of what it saw.
pub open spec fn control_outcome_of(
    frontline: int,
    max_frontline: Option<int>,
    target: int,
    adjusted: int,
    live: int,
    samples: Seq<u64>,
) -> (int, Option<int>) {
    if control_active(frontline, target) {
        let signal = signal_of(samples) as int;
        let delay = delay_of(signal, target);
        (
            adjusted_of(adjusted, frontline, max_frontline, live, signal, target),
            Some(
                if delay <= u64::MAX {
                    delay
                } else {
                    u64::MAX as int
                },
            ),
        )
    } else {
        (adjusted, None)
    }
}

/// Whether a group takes part in the control step at all.
pub fn is_control_active(cfg: &GroupConfig) -> (out: bool)
    ensures
        out == control_active(cfg.frontline as int, cfg.target_mbps as int),
{
    cfg.frontline != 0 && cfg.target_mbps != 0
}

/// One control step of a group: from the adjusted target so far, the number
/// of frontline rows and the throughput measured on each of them, to the new
/// adjusted target and the delay to publish.
pub fn control_tick(
    cfg: &GroupConfig,
    adjusted: usize,
    current_live: usize,
    samples: &Vec<u64>,
) -> (out: ControlOutcome)
    requires
        ideal_ceiling(current_live as int) <= usize::MAX,
    ensures
        (out.adjusted as int, opt_int(out.delay_ms)) == control_outcome_of(
            cfg.frontline as int,
            cap_of(cfg.max_frontline),
            cfg.target_mbps as int,
            adjusted as int,
            current_live as int,
            samples@,
        ),
{
    if !is_control_active(cfg) {
        return ControlOutcome { adjusted, delay_ms: None };
    }
    let signal = signal_mbps(samples);
    let delay = delay_ms(signal, cfg.target_mbps);
    let next = adjust_target(
        adjusted,
        cfg.frontline,
        cfg.max_frontline,
        current_live,
        signal,
        cfg.target_mbps,
    );
    ControlOutcome { adjusted: next, delay_ms: Some(delay) }
}

/// An optional delay as an optional mathematical integer.
pub open spec fn opt_int(v: Option<u64>) -> Option<int> {
    match v {
        Some(d) => Some(d as int),
        None => None,
    }
}

/// What a control step of a group saw.
pub struct Observation {
    /// Number of frontline rows.
    pub live: int,
    /// Throughput of each frontline bridge.
    pub samples: Seq<u64>,
}

/// The adjusted target after a run of control steps.
pub open spec fn adjusted_after(
    frontline: int,
    max_frontline: Option<int>,
    target: int,
    adjusted: int,
    seen: Seq<Observation>,
) -> int
    decreases seen.len(),
{
    if seen.len() == 0 {
        adjusted
    } else {
        let before = adjusted_after(frontline, max_frontline, target, adjusted, seen.drop_last());
        control_outcome_of(
            frontline,
            max_frontline,
            target,
            before,
            seen.last().live,
            seen.last().samples,
        ).0
    }
}

/// A group with a base size of zero, or with a target of zero, keeps the
/// adjusted target it started with, whatever is measured and however often.
pub proof fn lemma_inactive_control_keeps_target(
    frontline: int,
    max_frontline: Option<int>,
    target: int,
    adjusted: int,
    seen: Seq<Observation>,
)
    requires
        frontline == 0 || target == 0,
    ensures
        adjusted_after(frontline, max_frontline, target, adjusted, seen) == adjusted,
        forall|live: int, samples: Seq<u64>|
            control_outcome_of(frontline, max_frontline, target, adjusted, live, samples) == (
                adjusted,
                None::<int>,
            ),
    decreases seen.len(),
{
    if seen.len() > 0 {
        lemma_inactive_control_keeps_target(
            frontline,
            max_frontline,
            target,
            adjusted,
            seen.drop_last(),
        );
    }
}

/// No delay is published unless the load factor exceeds 1.2.
pub proof fn lemma_no_delay_without_overload(signal: int, target: int)
    requires
        0 <= signal,
        0 < target,
        5 * signal <= 6 * target,
    ensures
        delay_of(signal, target) == 0,
{
}

/// Under overload the published delay is a thousand times the excess of the
/// load factor over 1.2, rounded down.
pub proof fn lemma_delay_bounds(signal: int, target: int)
    requires
        0 <= signal,
        0 < target,
        overloaded(signal, target),
    ensures
        delay_of(signal, target) * target <= 1000 * signal - 1200 * target,
        1000 * signal - 1200 * target < (delay_of(signal, target) + 1) * target,
{
    let e = 1000 * signal - 1200 * target;
    assert(e == target * (e / target) + e % target) by {
        vstd::arithmetic::div_mod::lemma_fundamental_div_mod(e, target);
    }
    assert(0 <= e % target < target) by {
        vstd::arithmetic::div_mod::lemma_mod_bound(e, target);
    }
    assert((e / target) * target == target * (e / target)) by (nonlinear_arith);
    assert((e / target + 1) * target == target * (e / target) + target) by (nonlinear_arith);
}

/// The ideal size lies within one step of the live count.
pub proof fn lemma_ideal_within_step(live: int, signal: int, target: int)
    requires
        0 <= live,
    ensures
        ideal_floor(live) <= ideal_of(live, signal, target) <= ideal_ceiling(live),
{
}

/// Under overload the ideal size is at least the live count.
pub proof fn lemma_ideal_under_overload(live: int, signal: int, target: int)
    requires
        0 <= live,
        0 <= signal,
        0 < target,
        overloaded(signal, target),
    ensures
        live <= ideal_of(live, signal, target),
{
    let a = live * signal;
    assert(a >= live * target) by (nonlinear_arith)
        requires
            5 * signal > 6 * target,
            live >= 0,
            target > 0,
            a == live * signal,
    ;
    assert(a / target >= live) by {
        vstd::arithmetic::div_mod::lemma_div_is_ordered(live * target, a, target);
        vstd::arithmetic::div_mod::lemma_div_multiples_vanish(live, target);
    }
}

/// Under light load the ideal size is at most the live count.
pub proof fn lemma_ideal_under_light_load(live: int, signal: int, target: int)
    requires
        0 <= live,
        0 <= signal,
        0 < target,
        underloaded(signal, target),
    ensures
        ideal_of(live, signal, target) <= live,
{
    let a = live * signal;
    if live > 0 {
        // 5 a < 4 live target, so the quotient stays below the live count
        assert(5 * a <= 4 * (live * target)) by (nonlinear_arith)
            requires
                5 * signal < 4 * target,
                live > 0,
                a == live * signal,
        ;
        vstd::arithmetic::div_mod::lemma_fundamental_div_mod(a, target);
        vstd::arithmetic::div_mod::lemma_mod_bound(a, target);
        let q = a / target;
        let r = a % target;
        assert(a == target * q + r);
        if q >= live {
            assert(target * q >= target * live) by (nonlinear_arith)
                requires
                    q >= live,
                    target > 0,
            ;
            assert(target * live == live * target) by (nonlinear_arith);
            assert(a >= live * target);
            assert(live * target > 0) by (nonlinear_arith)
                requires
                    live > 0,
                    target > 0,
            ;
            assert(false);
        }
    } else {
        assert(a == 0) by (nonlinear_arith)
            requires
                live == 0,
                a == live * signal,
        ;
    }
}

/// The adjusted target stays at or above the base size of the group through a
/// control step, provided that the cap, if any, is not below the base and
/// that a scale-up does not start from fewer live rows than would reach it.
pub proof fn lemma_adjusted_keeps_base(
    adjusted: int,
    frontline: int,
    max_frontline: Option<int>,
    live: int,
    signal: int,
    target: int,
)
    requires
        0 <= live,
        0 <= signal,
        0 < target,
        frontline <= adjusted,
        overloaded(signal, target) ==> frontline <= ideal_of(live, signal, target),
        overloaded(signal, target) ==> (max_frontline matches Some(cap) ==> frontline <= cap),
    ensures
        frontline <= adjusted_of(adjusted, frontline, max_frontline, live, signal, target),
{
}

/// The adjusted target stays at or below the cap through a control step,
/// provided that the base size is not above the cap and that the live count
/// has not outgrown the cap while the load is light.
pub proof fn lemma_adjusted_keeps_cap(
    adjusted: int,
    frontline: int,
    cap: int,
    live: int,
    signal: int,
    target: int,
)
    requires
        0 <= live,
        0 <= signal,
        0 < target,
        adjusted <= cap,
        underloaded(signal, target) ==> frontline <= cap,
        underloaded(signal, target) ==> ideal_of(live, signal, target) <= cap,
    ensures
        adjusted_of(adjusted, frontline, Some(cap), live, signal, target) <= cap,
{
}

/// With a live count between the base size and the cap, a control step keeps
/// the adjusted target between the base size and the cap.
pub proof fn lemma_adjusted_within_bounds(
    adjusted: int,
    frontline: int,
    cap: int,
    live: int,
    signal: int,
    target: int,
)
    requires
        0 <= signal,
        0 < target,
        0 <= frontline <= live <= cap,
        frontline <= adjusted <= cap,
    ensures
        frontline <= adjusted_of(adjusted, frontline, Some(cap), live, signal, target) <= cap,
{
    if overloaded(signal, target) {
        lemma_ideal_under_overload(live, signal, target);
    } else if underloaded(signal, target) {
        lemma_ideal_under_light_load(live, signal, target);
    }
}

/// What the fast step does to the rows of a group.
#[derive(Debug)]
pub enum FrontlineAction {
    /// Move the reserve bridge with this id to the frontline.
    Promote(String),
    /// Delete the frontline bridge with this id.
    Evict(String),
    /// Leave the rows as they are.
    Nothing,
}

/// What a `FrontlineAction` says.
pub enum FrontlineMove {
    Promote(Seq<char>),
    Evict(Seq<char>),
    Nothing,
}

impl View for FrontlineAction {
    type V = FrontlineMove;

    open spec fn view(&self) -> FrontlineMove {
        match self {
            FrontlineAction::Promote(id) => FrontlineMove::Promote(id@),
            FrontlineAction::Evict(id) => FrontlineMove::Evict(id@),
            FrontlineAction::Nothing => FrontlineMove::Nothing,
        }
    }
}

/// The move that the rows of a group call for under an adjusted target.
///
/// Frontline and blocked rows together are held against the target.  Below
/// the target, the first reserve row of the group is promoted.  Above it, the
/// frontline row that changed status longest ago is evicted; of several that
/// changed at the same time, the one whose id comes first.  Where no row can
/// be promoted or evicted, nothing is done.
pub open spec fn is_frontline_move(
    table: Seq<BridgeRow>,
    group: Seq<char>,
    adjusted: int,
    mv: FrontlineMove,
) -> bool {
    let load = count_class(table, group, RowClass::Load);
    if load < adjusted {
        match mv {
            FrontlineMove::Promote(id) => exists|at: int|
                #[trigger] is_first(table, group, RowClass::Reserve, at) && table[at].bridge_id
                    == id,
            FrontlineMove::Evict(_) => false,
            FrontlineMove::Nothing => !has_class(table, group, RowClass::Reserve),
        }
    } else if load > adjusted {
        match mv {
            FrontlineMove::Promote(_) => false,
            FrontlineMove::Evict(id) => exists|at: int|
                #[trigger] is_oldest(table, group, RowClass::Frontline, at) && table[at].bridge_id
                    == id,
            FrontlineMove::Nothing => !has_class(table, group, RowClass::Frontline),
        }
    } else {
        mv is Nothing
    }
}

/// The fast step: holds the rows of a group against the adjusted target and
/// says which bridge to promote or to evict, if any.
pub fn loop_frontline_inner(alloc_group: &str, rows: &Vec<BridgeInfo>, adjusted: usize) -> (out:
    FrontlineAction)
    ensures
        is_frontline_move(table_of(rows@), alloc_group@, adjusted as int, out@),
{
    let load = count_rows(rows, alloc_group, RowClass::Load);
    if load < adjusted {
        match first_row(rows, alloc_group, RowClass::Reserve) {
            Some(at) => {
                assert(table_of(rows@)[at as int].bridge_id == rows@[at as int].bridge_id@);
                FrontlineAction::Promote(rows[at].bridge_id.clone())
            },
            None => FrontlineAction::Nothing,
        }
    } else if load > adjusted {
        match oldest_row(rows, alloc_group, RowClass::Frontline) {
            Some(at) => {
                assert(table_of(rows@)[at as int].bridge_id == rows@[at as int].bridge_id@);
                FrontlineAction::Evict(rows[at].bridge_id.clone())
            },
            None => FrontlineAction::Nothing,
        }
    } else {
        FrontlineAction::Nothing
    }
}

/// Number of frontline rows of a group, as the control step counts them.
pub fn current_live(alloc_group: &str, rows: &Vec<BridgeInfo>) -> (out: usize)
    ensures
        out == count_class(table_of(rows@), alloc_group@, RowClass::Frontline),
{
    count_rows(rows, alloc_group, RowClass::Frontline)
}

/// The table after a move of the fast step: a promoted bridge is in the
/// frontline as of `now`, an evicted one is gone.
pub open spec fn table_after_move(table: Seq<BridgeRow>, mv: FrontlineMove, now: int) -> Seq<
    BridgeRow,
> {
    match mv {
        FrontlineMove::Promote(id) => with_status(table, id, Status::Frontline, Some(now)),
        FrontlineMove::Evict(id) => without(table, id),
        FrontlineMove::Nothing => table,
    }
}

/// Carries a move of the fast step out on a list of rows.
pub fn apply_frontline_action(rows: &mut Vec<BridgeInfo>, action: &FrontlineAction, now: i64)
    ensures
        table_of(final(rows)@) == table_after_move(table_of(old(rows)@), action@, now as int),
        table_wf(table_of(old(rows)@)) ==> table_wf(table_of(final(rows)@)),
{
    match action {
        FrontlineAction::Promote(id) => {
            set_status(rows, id.as_str(), Status::Frontline, Some(now));
        },
        FrontlineAction::Evict(id) => {
            delete_bridge(rows, id.as_str());
        },
        FrontlineAction::Nothing => {},
    }
}

/// In a table without two rows of the same id, the rows and the adjusted
/// target leave the fast step no choice.
pub proof fn lemma_frontline_move_is_determined(
    table: Seq<BridgeRow>,
    group: Seq<char>,
    adjusted: int,
    one: FrontlineMove,
    other: FrontlineMove,
)
    requires
        unique_ids(table),
        is_frontline_move(table, group, adjusted, one),
        is_frontline_move(table, group, adjusted, other),
    ensures
        one == other,
{
    let load = count_class(table, group, RowClass::Load);
    if load < adjusted {
        if let FrontlineMove::Promote(id) = one {
            let a = choose|at: int|
                #[trigger] is_first(table, group, RowClass::Reserve, at) && table[at].bridge_id
                    == id;
            assert(in_class(table[a], group, RowClass::Reserve));
            if let FrontlineMove::Promote(id2) = other {
                let b = choose|at: int|
                    #[trigger] is_first(table, group, RowClass::Reserve, at) && table[at].bridge_id
                        == id2;
                assert(in_class(table[b], group, RowClass::Reserve));
                assert(a == b);
            }
        } else if let FrontlineMove::Promote(id2) = other {
            let b = choose|at: int|
                #[trigger] is_first(table, group, RowClass::Reserve, at) && table[at].bridge_id
                    == id2;
            assert(in_class(table[b], group, RowClass::Reserve));
        }
    } else if load > adjusted {
        if let FrontlineMove::Evict(id) = one {
            let a = choose|at: int|
                #[trigger] is_oldest(table, group, RowClass::Frontline, at) && table[at].bridge_id
                    == id;
            assert(in_class(table[a], group, RowClass::Frontline));
            if let FrontlineMove::Evict(id2) = other {
                let b = choose|at: int|
                    #[trigger] is_oldest(table, group, RowClass::Frontline, at)
                        && table[at].bridge_id == id2;
                lemma_oldest_is_unique(table, group, RowClass::Frontline, a, b);
            }
        } else if let FrontlineMove::Evict(id2) = other {
            let b = choose|at: int|
                #[trigger] is_oldest(table, group, RowClass::Frontline, at) && table[at].bridge_id
                    == id2;
            assert(in_class(table[b], group, RowClass::Frontline));
        }
    }
}

/// As long as every control step finds a live count between the base size
/// and the cap, the adjusted target never leaves that range, however many
/// steps are taken and whatever they measure.
pub proof fn lemma_adjusted_stays_within_bounds(
    frontline: int,
    cap: int,
    target: int,
    adjusted: int,
    seen: Seq<Observation>,
)
    requires
        0 < target,
        0 <= frontline <= adjusted <= cap,
        forall|k: int| 0 <= k < seen.len() ==> frontline <= (#[trigger] seen[k]).live <= cap,
    ensures
        frontline <= adjusted_after(frontline, Some(cap), target, adjusted, seen) <= cap,
    decreases seen.len(),
{
    if seen.len() > 0 {
        let front = seen.drop_last();
        assert forall|k: int| 0 <= k < front.len() implies frontline <= (
        #[trigger] front[k]).live <= cap by {
            assert(front[k] == seen[k]);
        }
        lemma_adjusted_stays_within_bounds(frontline, cap, target, adjusted, front);
        let before = adjusted_after(frontline, Some(cap), target, adjusted, front);
        let last = seen[seen.len() - 1];
        if control_active(frontline, target) {
            lemma_adjusted_within_bounds(
                before,
                frontline,
                cap,
                last.live,
                signal_of(last.samples) as int,
                target,
            );
        }
    }
}

/// Every move of the fast step brings the rows of the group one bridge
/// closer to the adjusted target: a promotion fills one place of the
/// frontline from the reserve, an eviction frees one.
pub proof fn lemma_move_closes_the_gap(
    table: Seq<BridgeRow>,
    group: Seq<char>,
    adjusted: int,
    mv: FrontlineMove,
    now: int,
)
    requires
        table_wf(table),
        is_frontline_move(table, group, adjusted, mv),
    ensures
        ({
            let after = table_after_move(table, mv, now);
            let load = count_class(table, group, RowClass::Load);
            let reserve = count_class(table, group, RowClass::Reserve);
            match mv {
                FrontlineMove::Promote(_) => {
                    &&& load < adjusted
                    &&& count_class(after, group, RowClass::Load) == load + 1
                    &&& count_class(after, group, RowClass::Reserve) == reserve - 1
                },
                FrontlineMove::Evict(_) => {
                    &&& load > adjusted
                    &&& count_class(after, group, RowClass::Load) == load - 1
                    &&& count_class(after, group, RowClass::Reserve) == reserve
                },
                FrontlineMove::Nothing => after == table,
            }
        }),
{
    assert(reserve_text()[0] == 'r');
    assert(frontline_text()[0] == 'f');
    assert(blocked_text()[0] == 'b');
    match mv {
        FrontlineMove::Promote(id) => {
            let at = choose|at: int|
                #[trigger] is_first(table, group, RowClass::Reserve, at) && table[at].bridge_id
                    == id;
            assert(in_class(table[at], group, RowClass::Reserve));
            lemma_count_with_status(table, Status::Frontline, Some(now), group, RowClass::Load, at);
            lemma_count_with_status(
                table,
                Status::Frontline,
                Some(now),
                group,
                RowClass::Reserve,
                at,
            );
        },
        FrontlineMove::Evict(id) => {
            let at = choose|at: int|
                #[trigger] is_oldest(table, group, RowClass::Frontline, at) && table[at].bridge_id
                    == id;
            assert(in_class(table[at], group, RowClass::Frontline));
            lemma_count_without(table, group, RowClass::Load, at);
            lemma_count_without(table, group, RowClass::Reserve, at);
        },
        FrontlineMove::Nothing => {},
    }
}

/// As long as the base size is not above the cap and no control step finds
/// more live rows than the cap allows, the adjusted target never exceeds the
/// cap, however many steps are taken and whatever they measure.
pub proof fn lemma_adjusted_stays_below_cap(
    frontline: int,
    cap: int,
    target: int,
    adjusted: int,
    seen: Seq<Observation>,
)
    requires
        0 < target,
        0 <= frontline <= cap,
        adjusted <= cap,
        forall|k: int| 0 <= k < seen.len() ==> 0 <= (#[trigger] seen[k]).live <= cap,
    ensures
        adjusted_after(frontline, Some(cap), target, adjusted, seen) <= cap,
    decreases seen.len(),
{
    if seen.len() > 0 {
        let front = seen.drop_last();
        assert forall|k: int| 0 <= k < front.len() implies 0 <= (#[trigger] front[k]).live
            <= cap by {
            assert(front[k] == seen[k]);
        }
        lemma_adjusted_stays_below_cap(frontline, cap, target, adjusted, front);
        let before = adjusted_after(frontline, Some(cap), target, adjusted, front);
        let last = seen[seen.len() - 1];
        let signal = signal_of(last.samples) as int;
        if control_active(frontline, target) && underloaded(signal, target) {
            lemma_ideal_under_light_load(last.live, signal, target);
        }
    }
}

/// Picks the bridges whose throughput a control step measures: the
/// frontline rows of the group, in the order of the table.
pub fn frontline_targets(alloc_group: &str, rows: &Vec<BridgeInfo>) -> (out: Vec<BridgeInfo>)
    ensures
        table_of(out@) == table_of(rows@).filter(
            |r: BridgeRow| in_class(r, alloc_group@, RowClass::Frontline),
        ),
        out@.len() == count_class(table_of(rows@), alloc_group@, RowClass::Frontline),
{
    let ghost table = table_of(rows@);
    let ghost wanted = |r: BridgeRow| in_class(r, alloc_group@, RowClass::Frontline);
    let mut out: Vec<BridgeInfo> = Vec::new();
    let mut i: usize = 0;
    assert(table.take(0) =~= Seq::<BridgeRow>::empty());
    assert(table_of(out@) =~= Seq::<BridgeRow>::empty());
    assert(table.take(0).filter(wanted) =~= Seq::<BridgeRow>::empty()) by {
        reveal(Seq::filter);
    }
    while i < rows.len()
        invariant
            table == table_of(rows@),
            wanted == |r: BridgeRow| in_class(r, alloc_group@, RowClass::Frontline),
            i <= rows@.len(),
            table_of(out@) == table.take(i as int).filter(wanted),
            out@.len() == count_class(table.take(i as int), alloc_group@, RowClass::Frontline),
        decreases rows@.len() - i,
    {
        let hit = crate::database::row_in_class(&rows[i], alloc_group, RowClass::Frontline);
        let ghost before = out@;
        if hit {
            out.push(rows[i].clone());
        }
        proof {
            let next = table.take(i + 1);
            assert(next.drop_last() =~= table.take(i as int));
            assert(next.last() == rows@[i as int]@);
            assert(wanted(next.last()) == hit);
            if hit {
                assert(table_of(out@) =~= table_of(before).push(rows@[i as int]@));
            }
            assert(next =~= table.take(i as int).push(next.last()));
            table.take(i as int).lemma_filter_push(next.last(), wanted);
        }
        i += 1;
    }
    assert(table.take(rows@.len() as int) =~= table);
    out
}

/// What can happen to a group between two looks at it.
pub enum GroupEvent {
    /// A control step, with the throughput measured on each frontline bridge.
    Tick { samples: Seq<u64> },
    /// A fast step that makes the given move.
    Move { mv: FrontlineMove, now: int },
    /// Any other change to the table: a bridge set up, probed, measured or
    /// retired, in this group or another.
    Change { change: TableChange },
}

/// A group as its frontline loop sees it: the table and the adjusted target.
pub struct GroupState {
    pub table: Seq<BridgeRow>,
    pub adjusted: int,
}

/// The state of a group after an event.
///
/// A control step counts the frontline rows and adjusts the target.  A fast
/// step makes its move if the move is the one the rows call for.  Any other
/// change is made as it is, except that nothing but the fast step moves a
/// row of the group into the frontline.
pub open spec fn group_after(
    group: Seq<char>,
    frontline: int,
    max_frontline: Option<int>,
    target: int,
    state: GroupState,
    event: GroupEvent,
) -> GroupState {
    match event {
        GroupEvent::Tick { samples } => GroupState {
            adjusted: control_outcome_of(
                frontline,
                max_frontline,
                target,
                state.adjusted,
                count_class(state.table, group, RowClass::Frontline) as int,
                samples,
            ).0,
            ..state
        },
        GroupEvent::Move { mv, now } => if is_frontline_move(
            state.table,
            group,
            state.adjusted,
            mv,
        ) {
            GroupState { table: table_after_move(state.table, mv, now), ..state }
        } else {
            state
        },
        GroupEvent::Change { change } => if promotes_into(state.table, change, group) {
            state
        } else {
            GroupState { table: table_after(state.table, change), ..state }
        },
    }
}

/// The state of a group after a run of events.
pub open spec fn group_after_all(
    group: Seq<char>,
    frontline: int,
    max_frontline: Option<int>,
    target: int,
    start: GroupState,
    events: Seq<GroupEvent>,
) -> GroupState
    decreases events.len(),
{
    if events.len() == 0 {
        start
    } else {
        group_after(
            group,
            frontline,
            max_frontline,
            target,
            group_after_all(group, frontline, max_frontline, target, start, events.drop_last()),
            events.last(),
        )
    }
}

/// The state in which the frontline loop of a group starts.
pub open spec fn group_start(group: Seq<char>, frontline: int, table: Seq<BridgeRow>) -> GroupState {
    let live = count_class(table, group, RowClass::Frontline) as int;
    GroupState {
        table,
        adjusted: if frontline >= live {
            frontline
        } else {
            live
        },
    }
}

/// A group that starts with no more frontline rows than its cap allows, and
/// whose base size is not above the cap, never has its adjusted target or
/// its frontline rows exceed the cap: whatever the control steps measure,
/// and whatever else happens to the table in between.
pub proof fn lemma_cap_is_never_exceeded(
    group: Seq<char>,
    frontline: int,
    cap: int,
    target: int,
    table: Seq<BridgeRow>,
    events: Seq<GroupEvent>,
)
    requires
        0 <= frontline <= cap,
        0 <= target,
        table_wf(table),
        count_class(table, group, RowClass::Frontline) <= cap,
    ensures
        ({
            let end = group_after_all(
                group,
                frontline,
                Some(cap),
                target,
                group_start(group, frontline, table),
                events,
            );
            &&& end.adjusted <= cap
            &&& count_class(end.table, group, RowClass::Frontline) <= cap
            &&& table_wf(end.table)
        }),
    decreases events.len(),
{
    if events.len() > 0 {
        lemma_cap_is_never_exceeded(group, frontline, cap, target, table, events.drop_last());
        let before = group_after_all(
            group,
            frontline,
            Some(cap),
            target,
            group_start(group, frontline, table),
            events.drop_last(),
        );
        let live = count_class(before.table, group, RowClass::Frontline) as int;
        match events.last() {
            GroupEvent::Tick { samples } => {
                let signal = signal_of(samples) as int;
                if control_active(frontline, target) && underloaded(signal, target) {
                    lemma_ideal_under_light_load(live, signal, target);
                }
            },
            GroupEvent::Move { mv, now } => {
                if is_frontline_move(before.table, group, before.adjusted, mv) {
                    assert(reserve_text()[0] == 'r');
                    assert(frontline_text()[0] == 'f');
                    lemma_move_closes_the_gap(before.table, group, before.adjusted, mv, now);
                    match mv {
                        FrontlineMove::Promote(id) => {
                            let at = choose|at: int|
                                #[trigger] is_first(before.table, group, RowClass::Reserve, at)
                                    && before.table[at].bridge_id == id;
                            assert(in_class(before.table[at], group, RowClass::Reserve));
                            lemma_count_with_status(
                                before.table,
                                Status::Frontline,
                                Some(now),
                                group,
                                RowClass::Frontline,
                                at,
                            );
                            lemma_frontline_within_load(before.table, group);
                            lemma_with_status_keeps_wf(
                                before.table,
                                id,
                                Status::Frontline,
                                Some(now),
                            );
                        },
                        FrontlineMove::Evict(id) => {
                            let at = choose|at: int|
                                #[trigger] is_oldest(before.table, group, RowClass::Frontline, at)
                                    && before.table[at].bridge_id == id;
                            lemma_count_without(before.table, group, RowClass::Frontline, at);
                            lemma_without_keeps_wf(before.table, id);
                        },
                        FrontlineMove::Nothing => {},
                    }
                }
            },
            GroupEvent::Change { change } => {
                if !promotes_into(before.table, change, group) {
                    lemma_only_promotion_fills_the_frontline(before.table, change, group);
                }
            },
        }
    }
}

} // verus!
