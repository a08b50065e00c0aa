//! The reachability sweep: which bridges to probe, how to read a probe, and
//! what a probe changes.

use vstd::prelude::*;
use vstd::string::*;

use crate::chance::shuffle_rows;
use crate::config::Config;
use crate::database::{
    count_class, in_class, lemma_count_with_status, set_status, table_of, table_wf, unique_ids,
    with_status, BridgeInfo, BridgeRow, RowClass,
};
use crate::status::{blocked_text, frontline_text, Status};
use crate::text::{contains, occurs_in, text_eq};

verus! {

/// The command run on a bridge to probe its reachability: ten pings, a tenth
/// of a second apart, to a host inside the censored region.
pub const PROBE_COMMAND: &'static str = "ping -i 0.1 -W 1 -c 10 10010.com || true";

/// The text in a probe's output that tells of total packet loss.
pub open spec fn total_loss_mark() -> Seq<char> {
    seq!['1', '0', '0', '%']
}

/// Whether a probe's output shows total packet loss.
pub fn is_blocked(output: &str) -> (out: bool)
    ensures
        out == occurs_in(output@, total_loss_mark()),
{
    proof {
        reveal_strlit("100%");
        assert("100%"@ =~= total_loss_mark());
    }
    contains(output, "100%")
}

/// The status to write for a bridge after a probe, if any: `blocked` for a
/// bridge found blocked that is not marked so, `reserve` for a bridge marked
/// blocked that was found reachable.
pub open spec fn verdict_of(status: Seq<char>, blocked: bool) -> Option<Status> {
    if blocked && status != blocked_text() {
        Some(Status::Blocked)
    } else if !blocked && status == blocked_text() {
        Some(Status::Reserve)
    } else {
        None
    }
}

/// The status of a bridge after a probe has been acted upon.
pub open spec fn status_after(status: Seq<char>, blocked: bool) -> Seq<char> {
    match verdict_of(status, blocked) {
        Some(s) => s.text(),
        None => status,
    }
}

/// Decides what a probe changes: the status to write, or `None` to leave the
/// row alone.
pub fn gfw_verdict(status: &str, blocked: bool) -> (out: Option<Status>)
    ensures
        out == verdict_of(status@, blocked),
{
    let marked = text_eq(status, Status::Blocked.name().as_str());
    if blocked && !marked {
        Some(Status::Blocked)
    } else if !blocked && marked {
        Some(Status::Reserve)
    } else {
        None
    }
}

/// Once a probe has been acted upon, the same probe result changes nothing:
/// the status is settled for as long as reachability stays as it is.
pub proof fn lemma_gfw_settles(status: Seq<char>, blocked: bool)
    ensures
        verdict_of(status_after(status, blocked), blocked) is None,
        status_after(status_after(status, blocked), blocked) == status_after(status, blocked),
{
    assert(crate::status::reserve_text()[0] == 'r');
    assert(blocked_text()[0] == 'b');
}

/// A probe never writes anything but `blocked` or `reserve`.
pub proof fn lemma_gfw_writes_known_status(status: Seq<char>, blocked: bool)
    ensures
        verdict_of(status, blocked) matches Some(s) ==> s == Status::Blocked || s
            == Status::Reserve,
{
}

/// Whether a row is to be probed under a configuration.
pub open spec fn probed(cfg: Config, row: BridgeRow) -> bool {
    !cfg.spec_skips_probe(row.alloc_group)
}

/// `sweep` holds, in their order, the rows of `mixed` that are to be probed,
/// and `mixed` holds the rows of `rows`, each as often, in some order.
pub open spec fn is_sweep_of(
    sweep: Seq<BridgeRow>,
    mixed: Seq<BridgeInfo>,
    rows: Seq<BridgeInfo>,
    cfg: Config,
) -> bool {
    mixed.to_multiset() == rows.to_multiset() && sweep == table_of(mixed).filter(
        |r: BridgeRow| probed(cfg, r),
    )
}

/// The rows to probe in one sweep, in the order in which to probe them: the
/// rows in a random order, without those of groups that opt out.
pub fn sweep_order(rows: Vec<BridgeInfo>, cfg: &Config) -> (out: Vec<BridgeInfo>)
    ensures
        exists|mixed: Seq<BridgeInfo>| is_sweep_of(table_of(out@), mixed, rows@, *cfg),
{
    let mut mixed = rows;
    shuffle_rows(&mut mixed);
    let ghost table = table_of(mixed@);
    let ghost wanted = |r: BridgeRow| probed(*cfg, r);
    let mut out: Vec<BridgeInfo> = Vec::new();
    let mut i: usize = 0;
    assert(table.take(0) =~= Seq::<BridgeRow>::empty());
    assert(table_of(out@) =~= Seq::<BridgeRow>::empty());
    while i < mixed.len()
        invariant
            table == table_of(mixed@),
            wanted == |r: BridgeRow| probed(*cfg, r),
            i <= mixed@.len(),
            table_of(out@) == table.take(i as int).filter(wanted),
        decreases mixed@.len() - i,
    {
        let skip = cfg.skips_probe(mixed[i].alloc_group.as_str());
        let ghost before = out@;
        if !skip {
            out.push(mixed[i].clone());
        }
        proof {
            let next = table.take(i + 1);
            assert(next.drop_last() =~= table.take(i as int));
            assert(next.last() == mixed@[i as int]@);
            assert(wanted(next.last()) == !skip);
            if !skip {
                assert(table_of(out@) =~= table_of(before).push(mixed@[i as int]@));
            }
            assert(next =~= table.take(i as int).push(next.last()));
            table.take(i as int).lemma_filter_push(next.last(), wanted);
        }
        i += 1;
    }
    assert(table.take(mixed@.len() as int) =~= table);
    assert(is_sweep_of(table_of(out@), mixed@, rows@, *cfg));
    out
}

/// The table after a probe of the bridge of the given id has been acted
/// upon.  The time of the last change stays as it is.
pub open spec fn table_after_probe(
    table: Seq<BridgeRow>,
    id: Seq<char>,
    verdict: Option<Status>,
) -> Seq<BridgeRow> {
    match verdict {
        Some(status) => with_status(table, id, status, None),
        None => table,
    }
}

/// Carries the verdict of a probe out on a list of rows.
pub fn apply_verdict(rows: &mut Vec<BridgeInfo>, id: &str, verdict: Option<Status>)
    ensures
        table_of(final(rows)@) == table_after_probe(table_of(old(rows)@), id@, verdict),
        table_wf(table_of(old(rows)@)) ==> table_wf(table_of(final(rows)@)),
{
    match verdict {
        Some(status) => {
            set_status(rows, id, status, None);
        },
        None => {},
    }
}

/// A frontline bridge that is found blocked goes on filling its place in
/// the frontline: blocking alone never makes room for a promotion.
pub proof fn lemma_blocking_keeps_the_frontline_filled(
    table: Seq<BridgeRow>,
    group: Seq<char>,
    at: int,
)
    requires
        unique_ids(table),
        0 <= at < table.len(),
        in_class(table[at], group, RowClass::Frontline),
    ensures
        verdict_of(table[at].status, true) == Some(Status::Blocked),
        count_class(
            table_after_probe(table, table[at].bridge_id, verdict_of(table[at].status, true)),
            group,
            RowClass::Load,
        ) == count_class(table, group, RowClass::Load),
{
    assert(frontline_text()[0] == 'f');
    assert(blocked_text()[0] == 'b');
    lemma_count_with_status(table, Status::Blocked, None, group, RowClass::Load, at);
}

} // verus!
