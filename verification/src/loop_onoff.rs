//! Keeping the service on each bridge in step with the bridge's status.
//!
//! The loop remembers, per bridge, the status it last acted upon.  A pass
//! looks at every row, acts on those whose status differs from what is
//! remembered, and remembers the new status of each row it acted upon
//! successfully.

use dashmap::DashMap;
use vstd::prelude::*;
use vstd::string::*;

use crate::chance::shuffle_rows;
use crate::database::{table_of, unique_ids, BridgeInfo, BridgeRow};
use crate::status::{blocked_text, frontline_text, reserve_text, Status};

verus! {

/// `dashmap::DashMap`, a concurrent hash map.  Opaque here.
#[verifier::external_type_specification]
#[verifier::external_body]
#[verifier::reject_recursive_types(K)]
#[verifier::reject_recursive_types(V)]
#[verifier::reject_recursive_types(S)]
pub struct ExDashMap<K, V, S>(DashMap<K, V, S>);

/// What the memo holds: for each bridge id, the status last acted upon.
/// The memo belongs to the one loop that passes over the rows; nothing else
/// writes to it.
pub uninterp spec fn memo_entries(memo: DashMap<String, String>) -> Map<Seq<char>, Seq<char>>;

/// A memo that holds nothing.
pub open spec fn no_entries() -> Map<Seq<char>, Seq<char>> {
    Map::empty()
}

/// An empty memo, from `DashMap::new`: a map whose shards hold no key.
#[verifier::external_body]
pub(crate) fn memo_new() -> (out: DashMap<String, String>)
    ensures
        memo_entries(out) == no_entries(),
{
    DashMap::new()
}

/// The status remembered for a bridge, from `DashMap::get`: the value stored
/// under the key, or `None` if the map holds no such key.  The map is left
/// as it is.  `DashMap::get` waits for as long as a guard into the map is
/// held for writing; the memo is taken exclusively here, so that none can be.
#[verifier::external_body]
pub(crate) fn memo_get(memo: &mut DashMap<String, String>, bridge_id: &str) -> (out: Option<
    String,
>)
    ensures
        out is Some <==> memo_entries(*old(memo)).dom().contains(bridge_id@),
        out matches Some(s) ==> s@ == memo_entries(*old(memo))[bridge_id@],
        memo_entries(*final(memo)) == memo_entries(*old(memo)),
{
    match memo.get(bridge_id) {
        Some(entry) => Some(entry.value().clone()),
        None => None,
    }
}

/// Remembers a status for a bridge, with `DashMap::insert`: afterwards the
/// map holds the value under the key, and under every other key what it held
/// before.
#[verifier::external_body]
pub(crate) fn memo_insert(memo: &mut DashMap<String, String>, bridge_id: String, status: String)
    ensures
        memo_entries(*final(memo)) == memo_entries(*old(memo)).insert(bridge_id@, status@),
{
    memo.insert(bridge_id, status);
}

/// Run on a bridge that has entered the frontline.
pub const SWITCH_ON_COMMAND: &'static str =
    "systemctl enable geph4-bridge; (systemctl is-active --quiet geph4-bridge || systemctl start geph4-bridge)";

/// Run on a bridge that has left the frontline.
pub const SWITCH_OFF_COMMAND: &'static str =
    "systemctl stop geph4-bridge; systemctl disable geph4-bridge";

/// What a status asks of the service on its bridge.
#[derive(Clone, Copy, Debug, PartialEq, Eq, Structural)]
pub enum Switch {
    /// Enable the service and start it unless it runs.
    On,
    /// Stop the service and disable it.
    Off,
    /// Do nothing.
    Keep,
}

/// What a status asks of the service: on for `frontline`, off for `blocked`
/// and `reserve`, nothing for any other text.
pub open spec fn switch_of(status: Seq<char>) -> Switch {
    if status == frontline_text() {
        Switch::On
    } else if status == blocked_text() || status == reserve_text() {
        Switch::Off
    } else {
        Switch::Keep
    }
}

/// Whether a row's status differs from what the memo holds for its bridge.
pub open spec fn changed(memo: Map<Seq<char>, Seq<char>>, row: BridgeRow) -> bool {
    remembered(memo, row.bridge_id) != Some(row.status)
}

/// The status that the memo holds for a bridge, if any.
pub open spec fn remembered(memo: Map<Seq<char>, Seq<char>>, id: Seq<char>) -> Option<Seq<char>> {
    if memo.dom().contains(id) {
        Some(memo[id])
    } else {
        None
    }
}

/// `changed`, as a predicate on rows.
pub open spec fn changed_in(memo: Map<Seq<char>, Seq<char>>) -> spec_fn(BridgeRow) -> bool {
    |row: BridgeRow| changed(memo, row)
}

/// The memo after every row of `acted` has been acted upon, in order.
pub open spec fn recorded(memo: Map<Seq<char>, Seq<char>>, acted: Seq<BridgeRow>) -> Map<
    Seq<char>,
    Seq<char>,
>
    decreases acted.len(),
{
    if acted.len() == 0 {
        memo
    } else {
        recorded(memo, acted.drop_last()).insert(acted.last().bridge_id, acted.last().status)
    }
}

/// The rows of `tasks` on which the action succeeded.
pub open spec fn succeeded(tasks: Seq<BridgeRow>, done: Seq<bool>) -> Seq<BridgeRow>
    decreases tasks.len(),
{
    if tasks.len() == 0 {
        tasks
    } else if tasks.len() <= done.len() && done[tasks.len() - 1] {
        succeeded(tasks.drop_last(), done).push(tasks.last())
    } else {
        succeeded(tasks.drop_last(), done)
    }
}

/// Rows with the same id are the same row.
pub open spec fn one_row_per_id(rows: Seq<BridgeRow>) -> bool {
    forall|i: int, j: int|
        0 <= i < rows.len() && 0 <= j < rows.len() && (#[trigger] rows[i]).bridge_id == (
        #[trigger] rows[j]).bridge_id ==> rows[i] == rows[j]
}

/// Every row of `part` is a row of `whole`.
pub open spec fn rows_among(part: Seq<BridgeRow>, whole: Seq<BridgeRow>) -> bool {
    forall|i: int| 0 <= i < part.len() ==> whole.contains(#[trigger] part[i])
}

/// One thing for a pass to do: a row whose status has changed, and what the
/// new status asks of the service.
#[derive(Debug)]
pub struct OnoffTask {
    pub bridge: BridgeInfo,
    pub switch: Switch,
}

/// What a task says: the row to act upon, and what to do to the service.
pub struct TaskView {
    pub bridge: BridgeRow,
    pub switch: Switch,
}

impl View for OnoffTask {
    type V = TaskView;

    open spec fn view(&self) -> TaskView {
        TaskView { bridge: self.bridge@, switch: self.switch }
    }
}

/// What a list of tasks says.
pub open spec fn tasks_of(tasks: Seq<OnoffTask>) -> Seq<TaskView> {
    tasks.map_values(|t: OnoffTask| t@)
}

/// The rows of a list of tasks.
pub open spec fn task_rows(tasks: Seq<OnoffTask>) -> Seq<BridgeRow> {
    tasks.map_values(|t: OnoffTask| t.bridge@)
}

/// The task that a changed row calls for: the row, with what its status
/// asks of the service.
pub open spec fn task_for(row: BridgeRow) -> TaskView {
    TaskView { bridge: row, switch: switch_of(row.status) }
}

/// The tasks that a list of changed rows calls for.
pub open spec fn tasks_for(rows: Seq<BridgeRow>) -> Seq<TaskView> {
    rows.map_values(|row: BridgeRow| task_for(row))
}

/// `tasks` holds, in their order, the tasks for the rows of `mixed` whose
/// status differs from the memo, and `mixed` holds the rows of `rows`, each
/// as often, in some order.
pub open spec fn is_onoff_plan(
    tasks: Seq<OnoffTask>,
    mixed: Seq<BridgeInfo>,
    rows: Seq<BridgeInfo>,
    memo: Map<Seq<char>, Seq<char>>,
) -> bool {
    &&& mixed.to_multiset() == rows.to_multiset()
    &&& tasks_of(tasks) == tasks_for(table_of(mixed).filter(changed_in(memo)))
}

/// The rows of a plan are the changed rows, in the order of the pass.
pub proof fn lemma_plan_rows(
    tasks: Seq<OnoffTask>,
    mixed: Seq<BridgeInfo>,
    rows: Seq<BridgeInfo>,
    memo: Map<Seq<char>, Seq<char>>,
)
    requires
        is_onoff_plan(tasks, mixed, rows, memo),
    ensures
        task_rows(tasks) == table_of(mixed).filter(changed_in(memo)),
{
    let acted = table_of(mixed).filter(changed_in(memo));
    assert(tasks_of(tasks).len() == tasks_for(acted).len());
    assert forall|k: int| 0 <= k < tasks.len() implies task_rows(tasks)[k] == acted[k] by {
        assert(tasks_of(tasks)[k] == tasks_for(acted)[k]);
    }
    assert(task_rows(tasks) =~= acted);
}

/// What a status asks of the service on its bridge.
pub fn switch_for(status: &str) -> (out: Switch)
    ensures
        out == switch_of(status@),
{
    match Status::parse(status) {
        Some(Status::Frontline) => Switch::On,
        Some(Status::Blocked) => Switch::Off,
        Some(Status::Reserve) => Switch::Off,
        None => Switch::Keep,
    }
}

/// The command that carries out a switch, if there is anything to run.
pub fn switch_command(switch: Switch) -> (out: Option<&'static str>)
    ensures
        out == match switch {
            Switch::On => Some(SWITCH_ON_COMMAND),
            Switch::Off => Some(SWITCH_OFF_COMMAND),
            Switch::Keep => None,
        },
{
    match switch {
        Switch::On => Some(SWITCH_ON_COMMAND),
        Switch::Off => Some(SWITCH_OFF_COMMAND),
        Switch::Keep => None,
    }
}

/// The memo with which the loop starts: nothing has been acted upon yet.
pub fn new_memo() -> (out: DashMap<String, String>)
    ensures
        memo_entries(out) == no_entries(),
        forall|row: BridgeRow| changed(memo_entries(out), row),
{
    memo_new()
}

/// Whether a row's status differs from what the memo holds for its bridge.
/// The memo is left as it is.
pub fn has_changed(memo: &mut DashMap<String, String>, row: &BridgeInfo) -> (out: bool)
    ensures
        out == changed(memo_entries(*old(memo)), row@),
        memo_entries(*final(memo)) == memo_entries(*old(memo)),
{
    match memo_get(memo, row.bridge_id.as_str()) {
        Some(last) => !(last == row.status),
        None => true,
    }
}

/// Plans one pass: the rows to act upon, in a random order.  The memo is
/// left as it is.
pub fn loop_onoff_once(rows: Vec<BridgeInfo>, memo: &mut DashMap<String, String>) -> (out: Vec<
    OnoffTask,
>)
    ensures
        exists|mixed: Seq<BridgeInfo>|
            is_onoff_plan(out@, mixed, rows@, memo_entries(*old(memo))),
        memo_entries(*final(memo)) == memo_entries(*old(memo)),
{
    let mut mixed = rows;
    shuffle_rows(&mut mixed);
    let ghost table = table_of(mixed@);
    let ghost wanted = changed_in(memo_entries(*old(memo)));
    let mut out: Vec<OnoffTask> = Vec::new();
    let mut i: usize = 0;
    assert(table.take(0) =~= Seq::<BridgeRow>::empty());
    assert(table.take(0).filter(wanted) =~= Seq::<BridgeRow>::empty()) by {
        reveal(Seq::filter);
    }
    assert(tasks_of(out@) =~= tasks_for(table.take(0).filter(wanted)));
    while i < mixed.len()
        invariant
            table == table_of(mixed@),
            memo_entries(*memo) == memo_entries(*old(memo)),
            wanted == changed_in(memo_entries(*old(memo))),
            i <= mixed@.len(),
            tasks_of(out@) == tasks_for(table.take(i as int).filter(wanted)),
        decreases mixed@.len() - i,
    {
        let hit = has_changed(memo, &mixed[i]);
        let ghost before = out@;
        if hit {
            let switch = switch_for(mixed[i].status.as_str());
            out.push(OnoffTask { bridge: mixed[i].clone(), switch });
        }
        proof {
            let next = table.take(i + 1);
            assert(next.last() == mixed@[i as int]@);
            assert(wanted(next.last()) == hit);
            assert(next =~= table.take(i as int).push(next.last()));
            table.take(i as int).lemma_filter_push(next.last(), wanted);
            if hit {
                let so_far = table.take(i as int).filter(wanted);
                assert(tasks_of(out@) =~= tasks_of(before).push(task_for(mixed@[i as int]@)));
                assert(tasks_for(so_far.push(next.last())) =~= tasks_for(so_far).push(
                    task_for(next.last()),
                ));
            }
        }
        i += 1;
    }
    assert(table.take(mixed@.len() as int) =~= table);
    assert(is_onoff_plan(out@, mixed@, rows@, memo_entries(*old(memo))));
    out
}

/// Remembers that a row has been acted upon.
pub fn record_switch(memo: &mut DashMap<String, String>, row: &BridgeInfo)
    ensures
        memo_entries(*final(memo)) == memo_entries(*old(memo)).insert(
            row@.bridge_id,
            row@.status,
        ),
{
    memo_insert(memo, row.bridge_id.clone(), row.status.clone());
}

/// Ends a pass: remembers the new status of every task that succeeded.
/// `done[k]` tells whether task `k` succeeded; a task without an entry counts
/// as failed.  Failed tasks stay as they are and come up again in the next
/// pass.
pub fn finish_pass(memo: &mut DashMap<String, String>, tasks: &Vec<OnoffTask>, done: &Vec<bool>)
    ensures
        memo_entries(*final(memo)) == recorded(
            memo_entries(*old(memo)),
            succeeded(task_rows(tasks@), done@),
        ),
{
    let ghost rows = task_rows(tasks@);
    let mut k: usize = 0;
    assert(rows.take(0) =~= Seq::<BridgeRow>::empty());
    while k < tasks.len()
        invariant
            rows == task_rows(tasks@),
            k <= tasks@.len(),
            memo_entries(*memo) == recorded(
                memo_entries(*old(memo)),
                succeeded(rows.take(k as int), done@),
            ),
        decreases tasks@.len() - k,
    {
        let ok = k < done.len() && done[k];
        proof {
            let next = rows.take(k + 1);
            assert(next.drop_last() =~= rows.take(k as int));
            assert(next.last() == tasks@[k as int].bridge@);
            if ok {
                assert(succeeded(next, done@).drop_last() =~= succeeded(rows.take(k as int), done@));
            }
        }
        if ok {
            record_switch(memo, &tasks[k].bridge);
        }
        k += 1;
    }
    assert(rows.take(tasks@.len() as int) =~= rows);
}

/// After a pass, every row acted upon is remembered with its status, and
/// whatever was remembered for other bridges is remembered as before.
pub proof fn lemma_recorded(memo: Map<Seq<char>, Seq<char>>, acted: Seq<BridgeRow>)
    requires
        one_row_per_id(acted),
    ensures
        forall|i: int|
            0 <= i < acted.len() ==> !changed(recorded(memo, acted), #[trigger] acted[i]),
        forall|id: Seq<char>|
            (forall|i: int| 0 <= i < acted.len() ==> (#[trigger] acted[i]).bridge_id != id)
                ==> remembered(recorded(memo, acted), id) == remembered(memo, id),
    decreases acted.len(),
{
    if acted.len() > 0 {
        let front = acted.drop_last();
        assert forall|i: int, j: int|
            0 <= i < front.len() && 0 <= j < front.len() && (#[trigger] front[i]).bridge_id == (
            #[trigger] front[j]).bridge_id implies front[i] == front[j] by {
            assert(front[i] == acted[i] && front[j] == acted[j]);
        }
        lemma_recorded(memo, front);
        let after = recorded(memo, acted);
        assert forall|i: int| 0 <= i < acted.len() implies !changed(after, #[trigger] acted[i]) by {
            if acted[i].bridge_id == acted.last().bridge_id {
                assert(acted[i] == acted[acted.len() - 1]);
            } else {
                assert(acted[i] == front[i]);
            }
        }
        assert forall|id: Seq<char>|
            (forall|i: int|
                0 <= i < acted.len() ==> (#[trigger] acted[i]).bridge_id != id) implies remembered(
            after,
            id,
        ) == remembered(memo, id) by {
            assert(acted[acted.len() - 1].bridge_id != id);
            assert forall|i: int| 0 <= i < front.len() implies (#[trigger] front[i]).bridge_id
                != id by {
                assert(front[i] == acted[i]);
            }
            assert(remembered(recorded(memo, front), id) == remembered(memo, id));
        }
    }
}

/// A pass in which every action succeeds leaves no row changed: whatever
/// rows of the same table a second pass looks at, in whatever order, it finds
/// nothing to do and leaves the memo as it is.
pub proof fn lemma_onoff_idempotent(
    memo: Map<Seq<char>, Seq<char>>,
    table: Seq<BridgeRow>,
    again: Seq<BridgeRow>,
)
    requires
        one_row_per_id(table),
        rows_among(again, table),
    ensures
        ({
            let after = recorded(memo, table.filter(changed_in(memo)));
            &&& forall|i: int| 0 <= i < table.len() ==> !changed(after, #[trigger] table[i])
            &&& again.filter(changed_in(after)) == Seq::<BridgeRow>::empty()
            &&& recorded(after, again.filter(changed_in(after))) == after
        }),
{
    let acted = table.filter(changed_in(memo));
    let after = recorded(memo, acted);
    assert forall|k: int| 0 <= k < acted.len() implies table.contains(#[trigger] acted[k])
        && changed(memo, acted[k]) by {
        table.lemma_filter_pred(changed_in(memo), k);
        assert(acted.contains(acted[k]));
        table.lemma_filter_contains_rev(changed_in(memo), acted[k]);
    }
    assert forall|i: int, j: int|
        0 <= i < acted.len() && 0 <= j < acted.len() && (#[trigger] acted[i]).bridge_id == (
        #[trigger] acted[j]).bridge_id implies acted[i] == acted[j] by {
        let a = choose|a: int| 0 <= a < table.len() && table[a] == acted[i];
        let b = choose|b: int| 0 <= b < table.len() && table[b] == acted[j];
        assert(table[a].bridge_id == table[b].bridge_id);
    }
    lemma_recorded(memo, acted);
    assert forall|i: int| 0 <= i < table.len() implies !changed(after, #[trigger] table[i]) by {
        let row = table[i];
        if changed(memo, row) {
            assert(changed_in(memo)(row));
            table.lemma_filter_contains(changed_in(memo), i);
            let k = choose|k: int| 0 <= k < acted.len() && acted[k] == row;
            assert(!changed(after, acted[k]));
        } else {
            if exists|k: int| 0 <= k < acted.len() && (#[trigger] acted[k]).bridge_id
                == row.bridge_id {
                let k = choose|k: int|
                    0 <= k < acted.len() && (#[trigger] acted[k]).bridge_id == row.bridge_id;
                let a = choose|a: int| 0 <= a < table.len() && table[a] == acted[k];
                assert(table[a].bridge_id == table[i].bridge_id);
                assert(acted[k] == row);
                assert(changed(memo, acted[k]));
            }
        }
    }
    assert forall|i: int| 0 <= i < again.len() implies !changed_in(after)(#[trigger] again[i]) by {
        let a = choose|a: int| 0 <= a < table.len() && table[a] == again[i];
        assert(!changed(after, table[a]));
    }
    again.lemma_all_neg_filter_empty(changed_in(after));
}

/// A row whose action failed comes up again: as long as nothing is
/// remembered for it, every pass plans it.
pub proof fn lemma_onoff_retries(memo: Map<Seq<char>, Seq<char>>, table: Seq<BridgeRow>, at: int)
    requires
        0 <= at < table.len(),
        changed(memo, table[at]),
    ensures
        table.filter(changed_in(memo)).contains(table[at]),
{
    assert(changed_in(memo)(table[at]));
    table.lemma_filter_contains(changed_in(memo), at);
}

/// Where every task succeeds, the rows acted upon are the rows planned.
pub proof fn lemma_all_succeeded(tasks: Seq<BridgeRow>, done: Seq<bool>)
    requires
        done.len() >= tasks.len(),
        forall|k: int| 0 <= k < tasks.len() ==> done[k],
    ensures
        succeeded(tasks, done) == tasks,
    decreases tasks.len(),
{
    if tasks.len() > 0 {
        lemma_all_succeeded(tasks.drop_last(), done);
        assert(tasks.drop_last().push(tasks.last()) =~= tasks);
    }
}

/// The same rows in another order say the same.
pub proof fn lemma_mixed_rows_are_the_same_rows(mixed: Seq<BridgeInfo>, rows: Seq<BridgeInfo>)
    requires
        mixed.to_multiset() == rows.to_multiset(),
    ensures
        rows_among(table_of(mixed), table_of(rows)),
        rows_among(table_of(rows), table_of(mixed)),
{
    assert forall|i: int| 0 <= i < mixed.len() implies table_of(rows).contains(
        #[trigger] table_of(mixed)[i],
    ) by {
        assert(mixed.contains(mixed[i]));
        vstd::seq_lib::to_multiset_contains(mixed, mixed[i]);
        vstd::seq_lib::to_multiset_contains(rows, mixed[i]);
        let j = choose|j: int| 0 <= j < rows.len() && rows[j] == mixed[i];
        assert(table_of(rows)[j] == mixed[i]@);
    }
    assert forall|i: int| 0 <= i < rows.len() implies table_of(mixed).contains(
        #[trigger] table_of(rows)[i],
    ) by {
        assert(rows.contains(rows[i]));
        vstd::seq_lib::to_multiset_contains(rows, rows[i]);
        vstd::seq_lib::to_multiset_contains(mixed, rows[i]);
        let j = choose|j: int| 0 <= j < mixed.len() && mixed[j] == rows[i];
        assert(table_of(mixed)[j] == rows[i]@);
    }
}

/// Two passes over a table that does not change, each in an order of its
/// own and the first with every action succeeding, come to the same as one:
/// the second pass plans nothing and leaves the memo as the first left it.
pub proof fn lemma_second_pass_does_nothing(
    memo: Map<Seq<char>, Seq<char>>,
    rows: Seq<BridgeInfo>,
    first: Seq<BridgeInfo>,
    second: Seq<BridgeInfo>,
)
    requires
        unique_ids(table_of(rows)),
        first.to_multiset() == rows.to_multiset(),
        second.to_multiset() == rows.to_multiset(),
    ensures
        ({
            let after = recorded(memo, table_of(first).filter(changed_in(memo)));
            &&& table_of(second).filter(changed_in(after)) == Seq::<BridgeRow>::empty()
            &&& recorded(after, table_of(second).filter(changed_in(after))) == after
        }),
{
    lemma_mixed_rows_are_the_same_rows(first, rows);
    lemma_mixed_rows_are_the_same_rows(second, rows);
    let table = table_of(rows);
    let one = table_of(first);
    let two = table_of(second);
    assert forall|i: int, j: int|
        0 <= i < one.len() && 0 <= j < one.len() && (#[trigger] one[i]).bridge_id == (
        #[trigger] one[j]).bridge_id implies one[i] == one[j] by {
        let a = choose|a: int| 0 <= a < table.len() && table[a] == one[i];
        let b = choose|b: int| 0 <= b < table.len() && table[b] == one[j];
        if a < b {
            assert(table[a].bridge_id != table[b].bridge_id);
        } else if b < a {
            assert(table[b].bridge_id != table[a].bridge_id);
        }
    }
    assert forall|i: int| 0 <= i < two.len() implies one.contains(#[trigger] two[i]) by {
        let a = choose|a: int| 0 <= a < table.len() && table[a] == two[i];
        assert(one.contains(table[a]));
    }
    lemma_onoff_idempotent(memo, one, two);
}

/// The first pass of a loop acts on every row: against an empty memo the
/// rows to act upon are all the rows.
pub proof fn lemma_first_pass_plans_every_row(table: Seq<BridgeRow>)
    ensures
        table.filter(changed_in(no_entries())) == table,
    decreases table.len(),
{
    if table.len() == 0 {
        reveal(Seq::filter);
    } else {
        let front = table.drop_last();
        lemma_first_pass_plans_every_row(front);
        assert(table =~= front.push(table.last()));
        assert(changed_in(no_entries())(table.last()));
        front.lemma_filter_push(table.last(), changed_in(no_entries()));
    }
}

} // verus!
