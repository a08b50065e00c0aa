//! Bridge rows and the questions the loops ask of a snapshot of them.
//!
//! Timestamps are microseconds since the epoch.  Throughput is fixed-point:
//! thousandths of a megabit per second.

use vstd::prelude::*;
use vstd::string::*;

use crate::status::{
    blocked_text, frontline_text, is_status_text, lemma_status_text_round_trip, reserve_text,
    Status,
};
use crate::text::{
    lemma_bytes_lt_asymmetric, lemma_bytes_lt_transitive, lemma_text_before_connected,
    text_before, text_lt,
};

verus! {

/// One bridge, as stored.
#[derive(Debug)]
pub struct BridgeInfo {
    pub bridge_id: String,
    pub ip_addr: String,
    pub alloc_group: String,
    pub status: String,
    /// Time of the last status change.
    pub change_time: i64,
    /// Receive-side throughput last measured on the bridge.
    pub last_mbps: u64,
}

/// What a bridge row says.
pub struct BridgeRow {
    pub bridge_id: Seq<char>,
    pub ip_addr: Seq<char>,
    pub alloc_group: Seq<char>,
    pub status: Seq<char>,
    pub change_time: int,
    pub last_mbps: int,
}

impl View for BridgeInfo {
    type V = BridgeRow;

    open spec fn view(&self) -> BridgeRow {
        BridgeRow {
            bridge_id: self.bridge_id@,
            ip_addr: self.ip_addr@,
            alloc_group: self.alloc_group@,
            status: self.status@,
            change_time: self.change_time as int,
            last_mbps: self.last_mbps as int,
        }
    }
}

impl Clone for BridgeInfo {
    fn clone(&self) -> (out: BridgeInfo)
        ensures
            out@ == self@,
    {
        BridgeInfo {
            bridge_id: self.bridge_id.clone(),
            ip_addr: self.ip_addr.clone(),
            alloc_group: self.alloc_group.clone(),
            status: self.status.clone(),
            change_time: self.change_time,
            last_mbps: self.last_mbps,
        }
    }
}

/// What a list of bridge rows says.
pub open spec fn table_of(rows: Seq<BridgeInfo>) -> Seq<BridgeRow> {
    rows.map_values(|b: BridgeInfo| b@)
}

/// Throughput above which a bridge counts as measured and in use: one
/// megabit per second.
pub const MEASURED_ABOVE: u64 = 1000;

/// The kinds of row that the loops count or look for within a group.
#[derive(Clone, Copy, Debug, PartialEq, Eq, Structural)]
pub enum RowClass {
    /// Any row of the group.
    Any,
    /// Rows in reserve.
    Reserve,
    /// Rows in the frontline.
    Frontline,
    /// Rows that fill the frontline: in the frontline, or blocked.
    Load,
    /// Rows whose last measured throughput exceeds one megabit per second.
    Measured,
}

/// Whether a row belongs to a class of rows of a group.
pub open spec fn in_class(row: BridgeRow, group: Seq<char>, class: RowClass) -> bool {
    row.alloc_group == group && match class {
        RowClass::Any => true,
        RowClass::Reserve => row.status == reserve_text(),
        RowClass::Frontline => row.status == frontline_text(),
        RowClass::Load => row.status == frontline_text() || row.status == blocked_text(),
        RowClass::Measured => row.last_mbps > MEASURED_ABOVE,
    }
}

/// Number of rows of a class within a group.
pub open spec fn count_class(table: Seq<BridgeRow>, group: Seq<char>, class: RowClass) -> nat
    decreases table.len(),
{
    if table.len() == 0 {
        0
    } else {
        count_class(table.drop_last(), group, class) + if in_class(table.last(), group, class) {
            1nat
        } else {
            0nat
        }
    }
}

/// `x` is to go before `y`: it changed status earlier, or at the same time
/// and its id comes first.
pub open spec fn older(x: BridgeRow, y: BridgeRow) -> bool {
    x.change_time < y.change_time || (x.change_time == y.change_time && text_before(
        x.bridge_id,
        y.bridge_id,
    ))
}

/// Row `at` is the oldest of its class in the group: none of the class is to
/// go before it.
pub open spec fn is_oldest(table: Seq<BridgeRow>, group: Seq<char>, class: RowClass, at: int) -> bool {
    &&& 0 <= at < table.len()
    &&& in_class(table[at], group, class)
    &&& forall|j: int|
        0 <= j < table.len() && in_class(#[trigger] table[j], group, class) ==> !older(
            table[j],
            table[at],
        )
}

/// Row `at` is the first of its class in the group.
pub open spec fn is_first(table: Seq<BridgeRow>, group: Seq<char>, class: RowClass, at: int) -> bool {
    &&& 0 <= at < table.len()
    &&& in_class(table[at], group, class)
    &&& forall|j: int| 0 <= j < at ==> !in_class(#[trigger] table[j], group, class)
}

/// Some row of the class exists in the group.
pub open spec fn has_class(table: Seq<BridgeRow>, group: Seq<char>, class: RowClass) -> bool {
    exists|j: int| 0 <= j < table.len() && in_class(#[trigger] table[j], group, class)
}

/// Some row carries the id.
pub open spec fn has_id(table: Seq<BridgeRow>, id: Seq<char>) -> bool {
    exists|j: int| 0 <= j < table.len() && (#[trigger] table[j]).bridge_id == id
}

/// The order in which rows go is transitive.
pub proof fn lemma_older_transitive(x: BridgeRow, y: BridgeRow, z: BridgeRow)
    requires
        older(x, y),
        older(y, z),
    ensures
        older(x, z),
{
    if x.change_time == y.change_time && y.change_time == z.change_time {
        lemma_bytes_lt_transitive(
            vstd::utf8::encode_utf8(x.bridge_id),
            vstd::utf8::encode_utf8(y.bridge_id),
            vstd::utf8::encode_utf8(z.bridge_id),
        );
    }
}

/// No row is to go before itself.
pub proof fn lemma_older_irreflexive(x: BridgeRow)
    ensures
        !older(x, x),
{
    lemma_bytes_lt_asymmetric(
        vstd::utf8::encode_utf8(x.bridge_id),
        vstd::utf8::encode_utf8(x.bridge_id),
    );
}

/// Of two rows with different ids one is to go before the other.
pub proof fn lemma_older_connected(x: BridgeRow, y: BridgeRow)
    requires
        x.bridge_id != y.bridge_id,
    ensures
        older(x, y) || older(y, x),
{
    lemma_text_before_connected(x.bridge_id, y.bridge_id);
}

/// In a table without two rows of the same id, only one row can be the
/// oldest of its class.
pub proof fn lemma_oldest_is_unique(
    table: Seq<BridgeRow>,
    group: Seq<char>,
    class: RowClass,
    a: int,
    b: int,
)
    requires
        unique_ids(table),
        is_oldest(table, group, class, a),
        is_oldest(table, group, class, b),
    ensures
        a == b,
{
    if a != b {
        if a < b {
            assert(table[a].bridge_id != table[b].bridge_id);
        } else {
            assert(table[b].bridge_id != table[a].bridge_id);
        }
        lemma_older_connected(table[a], table[b]);
    }
}

/// Whether a row belongs to a class of rows of a group.
pub fn row_in_class(row: &BridgeInfo, group: &str, class: RowClass) -> (out: bool)
    ensures
        out == in_class(row@, group@, class),
{
    if !crate::text::text_eq(row.alloc_group.as_str(), group) {
        return false;
    }
    match class {
        RowClass::Any => true,
        RowClass::Reserve => Status::parse(row.status.as_str()) == Some(Status::Reserve),
        RowClass::Frontline => Status::parse(row.status.as_str()) == Some(Status::Frontline),
        RowClass::Load => {
            let s = Status::parse(row.status.as_str());
            s == Some(Status::Frontline) || s == Some(Status::Blocked)
        },
        RowClass::Measured => row.last_mbps > MEASURED_ABOVE,
    }
}

/// Whether `x` is to go before `y`.
pub fn is_older(x: &BridgeInfo, y: &BridgeInfo) -> (out: bool)
    ensures
        out == older(x@, y@),
{
    if x.change_time < y.change_time {
        true
    } else if x.change_time == y.change_time {
        text_lt(x.bridge_id.as_str(), y.bridge_id.as_str())
    } else {
        false
    }
}

/// Counts the rows of a class within a group.
pub fn count_rows(rows: &Vec<BridgeInfo>, group: &str, class: RowClass) -> (out: usize)
    ensures
        out == count_class(table_of(rows@), group@, class),
{
    let ghost table = table_of(rows@);
    let mut n: usize = 0;
    let mut i: usize = 0;
    assert(table.take(0) =~= Seq::<BridgeRow>::empty());
    while i < rows.len()
        invariant
            table == table_of(rows@),
            i <= rows@.len(),
            n == count_class(table.take(i as int), group@, class),
            n <= i,
        decreases rows@.len() - i,
    {
        let hit = row_in_class(&rows[i], group, class);
        proof {
            assert(table.take(i + 1).drop_last() =~= table.take(i as int));
            assert(table.take(i + 1).last() == rows@[i as int]@);
        }
        if hit {
            n += 1;
        }
        i += 1;
    }
    assert(table.take(rows@.len() as int) =~= table);
    n
}

/// Finds the first row of a class within a group.
pub fn first_row(rows: &Vec<BridgeInfo>, group: &str, class: RowClass) -> (out: Option<usize>)
    ensures
        out is Some <==> has_class(table_of(rows@), group@, class),
        out matches Some(at) ==> is_first(table_of(rows@), group@, class, at as int),
{
    let ghost table = table_of(rows@);
    let mut i: usize = 0;
    while i < rows.len()
        invariant
            table == table_of(rows@),
            i <= rows@.len(),
            forall|j: int| 0 <= j < i ==> !in_class(#[trigger] table[j], group@, class),
        decreases rows@.len() - i,
    {
        if row_in_class(&rows[i], group, class) {
            assert(in_class(table[i as int], group@, class));
            return Some(i);
        }
        i += 1;
    }
    None
}

/// Finds the row of a class within a group that is to go first: the one with
/// the earliest status change, and among those the one whose id comes first.
pub fn oldest_row(rows: &Vec<BridgeInfo>, group: &str, class: RowClass) -> (out: Option<usize>)
    ensures
        out is Some <==> has_class(table_of(rows@), group@, class),
        out matches Some(at) ==> is_oldest(table_of(rows@), group@, class, at as int),
{
    let ghost table = table_of(rows@);
    let mut best: Option<usize> = None;
    let mut i: usize = 0;
    while i < rows.len()
        invariant
            table == table_of(rows@),
            i <= rows@.len(),
            best is None ==> forall|j: int|
                0 <= j < i ==> !in_class(#[trigger] table[j], group@, class),
            best matches Some(b) ==> {
                &&& b < i
                &&& in_class(table[b as int], group@, class)
                &&& forall|j: int|
                    0 <= j < i && in_class(#[trigger] table[j], group@, class) ==> !older(
                        table[j],
                        table[b as int],
                    )
            },
        decreases rows@.len() - i,
    {
        if row_in_class(&rows[i], group, class) {
            match best {
                None => {
                    proof {
                        lemma_older_irreflexive(table[i as int]);
                    }
                    best = Some(i);
                },
                Some(b) => {
                    if is_older(&rows[i], &rows[b]) {
                        proof {
                            lemma_older_irreflexive(table[i as int]);
                            assert forall|j: int|
                                0 <= j < i + 1 && in_class(
                                    #[trigger] table[j],
                                    group@,
                                    class,
                                ) implies !older(table[j], table[i as int]) by {
                                if j < i && older(table[j], table[i as int]) {
                                    lemma_older_transitive(
                                        table[j],
                                        table[i as int],
                                        table[b as int],
                                    );
                                }
                            }
                        }
                        best = Some(i);
                    }
                },
            }
        }
        i += 1;
    }
    proof {
        if best is Some {
            assert(in_class(table[best.unwrap() as int], group@, class));
        }
    }
    best
}

/// Whether some row carries the id.
pub fn knows_id(rows: &Vec<BridgeInfo>, id: &str) -> (out: bool)
    ensures
        out == has_id(table_of(rows@), id@),
{
    let ghost table = table_of(rows@);
    let wanted = String::from_str(id);
    let mut i: usize = 0;
    while i < rows.len()
        invariant
            table == table_of(rows@),
            wanted@ == id@,
            i <= rows@.len(),
            forall|j: int| 0 <= j < i ==> (#[trigger] table[j]).bridge_id != id@,
        decreases rows@.len() - i,
    {
        if rows[i].bridge_id == wanted {
            assert(table[i as int].bridge_id == id@);
            return true;
        }
        i += 1;
    }
    false
}

/// No two rows share an id.
pub open spec fn unique_ids(table: Seq<BridgeRow>) -> bool {
    forall|i: int, j: int|
        0 <= i < j < table.len() ==> (#[trigger] table[i]).bridge_id != (
        #[trigger] table[j]).bridge_id
}

/// Every row is in reserve, in the frontline or blocked.
pub open spec fn known_statuses(table: Seq<BridgeRow>) -> bool {
    forall|i: int| 0 <= i < table.len() ==> is_status_text((#[trigger] table[i]).status)
}

/// What holds of the bridge table at all times.
pub open spec fn table_wf(table: Seq<BridgeRow>) -> bool {
    unique_ids(table) && known_statuses(table)
}

/// A row as it is after a change of status.  The time of the change is
/// noted only where one is given.
pub open spec fn row_with_status(row: BridgeRow, status: Status, now: Option<int>) -> BridgeRow {
    BridgeRow {
        status: status.text(),
        change_time: match now {
            Some(t) => t,
            None => row.change_time,
        },
        ..row
    }
}

/// The table after the bridge of the given id has changed status.
pub open spec fn with_status(
    table: Seq<BridgeRow>,
    id: Seq<char>,
    status: Status,
    now: Option<int>,
) -> Seq<BridgeRow> {
    table.map_values(
        |row: BridgeRow|
            if row.bridge_id == id {
                row_with_status(row, status, now)
            } else {
                row
            },
    )
}

/// The table after a throughput has been measured on the bridge of the given
/// id.
pub open spec fn with_mbps(table: Seq<BridgeRow>, id: Seq<char>, mbps: int) -> Seq<BridgeRow> {
    table.map_values(
        |row: BridgeRow|
            if row.bridge_id == id {
                BridgeRow { last_mbps: mbps, ..row }
            } else {
                row
            },
    )
}

/// Rows of any id but the given one.
pub open spec fn other_than(id: Seq<char>) -> spec_fn(BridgeRow) -> bool {
    |row: BridgeRow| row.bridge_id != id
}

/// The table without the bridge of the given id.
pub open spec fn without(table: Seq<BridgeRow>, id: Seq<char>) -> Seq<BridgeRow> {
    table.filter(other_than(id))
}

/// The table with one more row, unless a row of that id is there already.
pub open spec fn with_row(table: Seq<BridgeRow>, row: BridgeRow) -> Seq<BridgeRow> {
    if has_id(table, row.bridge_id) {
        table
    } else {
        table.push(row)
    }
}

/// A change of status keeps the table well formed, and touches no other
/// bridge.
pub proof fn lemma_with_status_keeps_wf(
    table: Seq<BridgeRow>,
    id: Seq<char>,
    status: Status,
    now: Option<int>,
)
    requires
        table_wf(table),
    ensures
        table_wf(with_status(table, id, status, now)),
        with_status(table, id, status, now).len() == table.len(),
        forall|i: int|
            0 <= i < table.len() && (#[trigger] table[i]).bridge_id != id ==> with_status(
                table,
                id,
                status,
                now,
            )[i] == table[i],
{
    let after = with_status(table, id, status, now);
    lemma_status_text_round_trip(status);
    assert forall|i: int, j: int| 0 <= i < j < after.len() implies (
    #[trigger] after[i]).bridge_id != (#[trigger] after[j]).bridge_id by {
        assert(after[i].bridge_id == table[i].bridge_id);
        assert(after[j].bridge_id == table[j].bridge_id);
    }
    assert forall|i: int| 0 <= i < after.len() implies is_status_text(
        (#[trigger] after[i]).status,
    ) by {
        assert(is_status_text(table[i].status));
    }
}

/// A measurement keeps the table well formed.
pub proof fn lemma_with_mbps_keeps_wf(table: Seq<BridgeRow>, id: Seq<char>, mbps: int)
    requires
        table_wf(table),
    ensures
        table_wf(with_mbps(table, id, mbps)),
{
    let after = with_mbps(table, id, mbps);
    assert forall|i: int, j: int| 0 <= i < j < after.len() implies (
    #[trigger] after[i]).bridge_id != (#[trigger] after[j]).bridge_id by {
        assert(after[i].bridge_id == table[i].bridge_id);
        assert(after[j].bridge_id == table[j].bridge_id);
    }
    assert forall|i: int| 0 <= i < after.len() implies is_status_text(
        (#[trigger] after[i]).status,
    ) by {
        assert(is_status_text(table[i].status));
    }
}

/// Deleting a bridge keeps the table well formed, and leaves no row of its
/// id.
pub proof fn lemma_without_keeps_wf(table: Seq<BridgeRow>, id: Seq<char>)
    requires
        table_wf(table),
    ensures
        table_wf(without(table, id)),
        !has_id(without(table, id), id),
        forall|k: int|
            0 <= k < without(table, id).len() ==> table.contains(#[trigger] without(table, id)[k]),
    decreases table.len(),
{
    reveal(Seq::filter);
    let after = without(table, id);
    if table.len() > 0 {
        let front = table.drop_last();
        assert(table_wf(front)) by {
            assert forall|i: int, j: int| 0 <= i < j < front.len() implies (
            #[trigger] front[i]).bridge_id != (#[trigger] front[j]).bridge_id by {
                assert(front[i] == table[i] && front[j] == table[j]);
            }
            assert forall|i: int| 0 <= i < front.len() implies is_status_text(
                (#[trigger] front[i]).status,
            ) by {
                assert(front[i] == table[i]);
            }
        }
        lemma_without_keeps_wf(front, id);
        let short = without(front, id);
        assert forall|k: int| 0 <= k < after.len() implies table.contains(#[trigger] after[k]) by {
            if k < short.len() {
                assert(front.contains(short[k]));
                let at = choose|at: int| 0 <= at < front.len() && front[at] == short[k];
                assert(table[at] == short[k]);
            } else {
                assert(after[k] == table[table.len() - 1]);
            }
        }
        assert forall|i: int, j: int| 0 <= i < j < after.len() implies (
        #[trigger] after[i]).bridge_id != (#[trigger] after[j]).bridge_id by {
            if j < short.len() {
                assert(after[i] == short[i] && after[j] == short[j]);
            } else {
                assert(after[i] == short[i]);
                assert(front.contains(short[i]));
                let at = choose|at: int| 0 <= at < front.len() && front[at] == short[i];
                assert(table[at].bridge_id != table[table.len() - 1].bridge_id);
            }
        }
        assert forall|i: int| 0 <= i < after.len() implies is_status_text(
            (#[trigger] after[i]).status,
        ) by {
            let at = choose|at: int| 0 <= at < table.len() && table[at] == after[i];
            assert(is_status_text(table[at].status));
        }
        if has_id(after, id) {
            let k = choose|k: int| 0 <= k < after.len() && (#[trigger] after[k]).bridge_id == id;
            if k < short.len() {
                assert(short[k].bridge_id == id);
            }
        }
    }
}

/// A new row in a known status keeps the table well formed.
pub proof fn lemma_with_row_keeps_wf(table: Seq<BridgeRow>, row: BridgeRow)
    requires
        table_wf(table),
        is_status_text(row.status),
    ensures
        table_wf(with_row(table, row)),
{
    let after = with_row(table, row);
    if !has_id(table, row.bridge_id) {
        assert forall|i: int, j: int| 0 <= i < j < after.len() implies (
        #[trigger] after[i]).bridge_id != (#[trigger] after[j]).bridge_id by {
            if j < table.len() {
                assert(after[i] == table[i] && after[j] == table[j]);
            } else {
                assert(after[i] == table[i]);
            }
        }
        assert forall|i: int| 0 <= i < after.len() implies is_status_text(
            (#[trigger] after[i]).status,
        ) by {
            if i < table.len() {
                assert(after[i] == table[i]);
            }
        }
    }
}

/// Changes the status of the bridge of the given id, and with it the time of
/// the last change where one is given.  Says whether there is such a bridge.
pub fn set_status(rows: &mut Vec<BridgeInfo>, id: &str, status: Status, now: Option<i64>) -> (out:
    bool)
    ensures
        table_of(final(rows)@) == with_status(table_of(old(rows)@), id@, status, time_of(now)),
        out == has_id(table_of(old(rows)@), id@),
        table_wf(table_of(old(rows)@)) ==> table_wf(table_of(final(rows)@)),
{
    let ghost before = table_of(rows@);
    let ghost after = with_status(before, id@, status, time_of(now));
    let wanted = String::from_str(id);
    let mut found = false;
    let mut i: usize = 0;
    while i < rows.len()
        invariant
            wanted@ == id@,
            before == table_of(old(rows)@),
            after == with_status(before, id@, status, time_of(now)),
            rows@.len() == before.len(),
            i <= rows@.len(),
            forall|k: int| 0 <= k < i ==> (#[trigger] rows@[k])@ == after[k],
            forall|k: int| i <= k < rows@.len() ==> (#[trigger] rows@[k])@ == before[k],
            found == exists|k: int| 0 <= k < i && (#[trigger] before[k]).bridge_id == id@,
        decreases rows@.len() - i,
    {
        if rows[i].bridge_id == wanted {
            let change_time = match now {
                Some(t) => t,
                None => rows[i].change_time,
            };
            let row = BridgeInfo {
                bridge_id: rows[i].bridge_id.clone(),
                ip_addr: rows[i].ip_addr.clone(),
                alloc_group: rows[i].alloc_group.clone(),
                status: status.name(),
                change_time,
                last_mbps: rows[i].last_mbps,
            };
            rows.set(i, row);
            found = true;
            assert(before[i as int].bridge_id == id@);
        }
        i += 1;
    }
    proof {
        assert(table_of(rows@) =~= after);
        if table_wf(before) {
            lemma_with_status_keeps_wf(before, id@, status, time_of(now));
        }
    }
    found
}

/// A time, if any, as a mathematical integer.
pub open spec fn time_of(now: Option<i64>) -> Option<int> {
    match now {
        Some(t) => Some(t as int),
        None => None,
    }
}

/// Notes the throughput measured on the bridge of the given id.  Says
/// whether there is such a bridge.
pub fn set_last_mbps(rows: &mut Vec<BridgeInfo>, id: &str, mbps: u64) -> (out: bool)
    ensures
        table_of(final(rows)@) == with_mbps(table_of(old(rows)@), id@, mbps as int),
        out == has_id(table_of(old(rows)@), id@),
        table_wf(table_of(old(rows)@)) ==> table_wf(table_of(final(rows)@)),
{
    let ghost before = table_of(rows@);
    let ghost after = with_mbps(before, id@, mbps as int);
    let wanted = String::from_str(id);
    let mut found = false;
    let mut i: usize = 0;
    while i < rows.len()
        invariant
            wanted@ == id@,
            before == table_of(old(rows)@),
            after == with_mbps(before, id@, mbps as int),
            rows@.len() == before.len(),
            i <= rows@.len(),
            forall|k: int| 0 <= k < i ==> (#[trigger] rows@[k])@ == after[k],
            forall|k: int| i <= k < rows@.len() ==> (#[trigger] rows@[k])@ == before[k],
            found == exists|k: int| 0 <= k < i && (#[trigger] before[k]).bridge_id == id@,
        decreases rows@.len() - i,
    {
        if rows[i].bridge_id == wanted {
            let row = BridgeInfo {
                bridge_id: rows[i].bridge_id.clone(),
                ip_addr: rows[i].ip_addr.clone(),
                alloc_group: rows[i].alloc_group.clone(),
                status: rows[i].status.clone(),
                change_time: rows[i].change_time,
                last_mbps: mbps,
            };
            rows.set(i, row);
            found = true;
            assert(before[i as int].bridge_id == id@);
        }
        i += 1;
    }
    proof {
        assert(table_of(rows@) =~= after);
        if table_wf(before) {
            lemma_with_mbps_keeps_wf(before, id@, mbps as int);
        }
    }
    found
}

/// Deletes the bridge of the given id.  Says whether there was such a
/// bridge.
pub fn delete_bridge(rows: &mut Vec<BridgeInfo>, id: &str) -> (out: bool)
    ensures
        table_of(final(rows)@) == without(table_of(old(rows)@), id@),
        out == has_id(table_of(old(rows)@), id@),
        table_wf(table_of(old(rows)@)) ==> table_wf(table_of(final(rows)@)),
{
    let ghost before = table_of(rows@);
    let wanted = String::from_str(id);
    let mut kept: Vec<BridgeInfo> = Vec::new();
    let mut found = false;
    let mut i: usize = 0;
    assert(before.take(0).filter(other_than(id@)) =~= Seq::<BridgeRow>::empty()) by {
        reveal(Seq::filter);
    }
    assert(table_of(kept@) =~= Seq::<BridgeRow>::empty());
    while i < rows.len()
        invariant
            wanted@ == id@,
            before == table_of(rows@),
            i <= rows@.len(),
            table_of(kept@) == before.take(i as int).filter(other_than(id@)),
            found == exists|k: int| 0 <= k < i && (#[trigger] before[k]).bridge_id == id@,
        decreases rows@.len() - i,
    {
        let hit = rows[i].bridge_id == wanted;
        let ghost so_far = kept@;
        if hit {
            found = true;
            assert(before[i as int].bridge_id == id@);
        } else {
            kept.push(rows[i].clone());
        }
        proof {
            let next = before.take(i + 1);
            assert(next.last() == rows@[i as int]@);
            assert(other_than(id@)(next.last()) == !hit);
            assert(next =~= before.take(i as int).push(next.last()));
            before.take(i as int).lemma_filter_push(next.last(), other_than(id@));
            if !hit {
                assert(table_of(kept@) =~= table_of(so_far).push(rows@[i as int]@));
            }
        }
        i += 1;
    }
    proof {
        assert(before.take(rows@.len() as int) =~= before);
        if table_wf(before) {
            lemma_without_keeps_wf(before, id@);
        }
    }
    *rows = kept;
    found
}

/// Adds the row of a bridge that has just been set up, unless a row of its
/// id is there already.  Says whether the row was added.
pub fn insert_bridge(rows: &mut Vec<BridgeInfo>, row: BridgeInfo) -> (out: bool)
    ensures
        table_of(final(rows)@) == with_row(table_of(old(rows)@), row@),
        out == !has_id(table_of(old(rows)@), row@.bridge_id),
        table_wf(table_of(old(rows)@)) && is_status_text(row@.status) ==> table_wf(
            table_of(final(rows)@),
        ),
{
    let ghost before = table_of(rows@);
    if knows_id(rows, row.bridge_id.as_str()) {
        proof {
            if table_wf(before) && is_status_text(row@.status) {
                lemma_with_row_keeps_wf(before, row@);
            }
        }
        return false;
    }
    let ghost view = row@;
    rows.push(row);
    proof {
        assert(table_of(rows@) =~= before.push(view));
        if table_wf(before) && is_status_text(view.status) {
            lemma_with_row_keeps_wf(before, view);
        }
    }
    true
}

/// One change to the bridge table.
pub enum TableChange {
    /// A bridge has been set up and goes into reserve.
    Insert { bridge_id: Seq<char>, ip_addr: Seq<char>, alloc_group: Seq<char>, now: int },
    /// A bridge changes status; the time is noted where one is given.
    SetStatus { bridge_id: Seq<char>, status: Status, now: Option<int> },
    /// A throughput has been measured on a bridge.
    SetMbps { bridge_id: Seq<char>, mbps: int },
    /// A bridge is deleted.
    Delete { bridge_id: Seq<char> },
}

/// The table after one change.
pub open spec fn table_after(table: Seq<BridgeRow>, change: TableChange) -> Seq<BridgeRow> {
    match change {
        TableChange::Insert { bridge_id, ip_addr, alloc_group, now } => with_row(
            table,
            BridgeRow {
                bridge_id,
                ip_addr,
                alloc_group,
                status: reserve_text(),
                change_time: now,
                last_mbps: 0,
            },
        ),
        TableChange::SetStatus { bridge_id, status, now } => with_status(
            table,
            bridge_id,
            status,
            now,
        ),
        TableChange::SetMbps { bridge_id, mbps } => with_mbps(table, bridge_id, mbps),
        TableChange::Delete { bridge_id } => without(table, bridge_id),
    }
}

/// The table that a run of changes makes of the empty table.
pub open spec fn table_after_all(changes: Seq<TableChange>) -> Seq<BridgeRow>
    decreases changes.len(),
{
    if changes.len() == 0 {
        Seq::empty()
    } else {
        table_after(table_after_all(changes.drop_last()), changes.last())
    }
}

/// Whatever changes are made to the table, and in whatever order: every row
/// is in reserve, in the frontline or blocked, and no two rows share an id.
pub proof fn lemma_table_is_always_wf(changes: Seq<TableChange>)
    ensures
        table_wf(table_after_all(changes)),
    decreases changes.len(),
{
    if changes.len() > 0 {
        lemma_table_is_always_wf(changes.drop_last());
        let before = table_after_all(changes.drop_last());
        match changes.last() {
            TableChange::Insert { bridge_id, ip_addr, alloc_group, now } => {
                lemma_status_text_round_trip(Status::Reserve);
                lemma_with_row_keeps_wf(
                    before,
                    BridgeRow {
                        bridge_id,
                        ip_addr,
                        alloc_group,
                        status: reserve_text(),
                        change_time: now,
                        last_mbps: 0,
                    },
                );
            },
            TableChange::SetStatus { bridge_id, status, now } => {
                lemma_with_status_keeps_wf(before, bridge_id, status, now);
            },
            TableChange::SetMbps { bridge_id, mbps } => {
                lemma_with_mbps_keeps_wf(before, bridge_id, mbps);
            },
            TableChange::Delete { bridge_id } => {
                lemma_without_keeps_wf(before, bridge_id);
            },
        }
    }
}

/// One for a row that is counted, zero for one that is not.
pub open spec fn one_if_counted(counted: bool) -> int {
    if counted {
        1
    } else {
        0
    }
}

/// A change of status of a bridge that has no row changes nothing.
pub proof fn lemma_with_status_of_unknown_id(
    table: Seq<BridgeRow>,
    id: Seq<char>,
    status: Status,
    now: Option<int>,
)
    requires
        !has_id(table, id),
    ensures
        with_status(table, id, status, now) == table,
{
    assert forall|i: int| 0 <= i < table.len() implies with_status(table, id, status, now)[i]
        == table[i] by {
        assert(table[i].bridge_id != id);
    }
    assert(with_status(table, id, status, now) =~= table);
}

/// A change of status moves one row from the classes it was in to the
/// classes it is in afterwards, and leaves every count otherwise as it was.
pub proof fn lemma_count_with_status(
    table: Seq<BridgeRow>,
    status: Status,
    now: Option<int>,
    group: Seq<char>,
    class: RowClass,
    at: int,
)
    requires
        unique_ids(table),
        0 <= at < table.len(),
    ensures
        count_class(with_status(table, table[at].bridge_id, status, now), group, class)
            == count_class(table, group, class) - one_if_counted(in_class(table[at], group, class))
            + one_if_counted(in_class(row_with_status(table[at], status, now), group, class)),
    decreases table.len(),
{
    let id = table[at].bridge_id;
    let after = with_status(table, id, status, now);
    let front = table.drop_last();
    assert(after.drop_last() =~= with_status(front, id, status, now));
    assert(unique_ids(front)) by {
        assert forall|i: int, j: int| 0 <= i < j < front.len() implies (
        #[trigger] front[i]).bridge_id != (#[trigger] front[j]).bridge_id by {
            assert(front[i] == table[i] && front[j] == table[j]);
        }
    }
    if at == table.len() - 1 {
        if has_id(front, id) {
            let k = choose|k: int| 0 <= k < front.len() && (#[trigger] front[k]).bridge_id == id;
            assert(table[k].bridge_id == table[at].bridge_id);
        }
        lemma_with_status_of_unknown_id(front, id, status, now);
        assert(after.last() == row_with_status(table[at], status, now));
    } else {
        assert(front[at] == table[at]);
        lemma_count_with_status(front, status, now, group, class, at);
        assert(table.last().bridge_id != id) by {
            assert(table[at].bridge_id != table[table.len() - 1].bridge_id);
        }
        assert(after.last() == table.last());
    }
}

/// Deleting a bridge that has no row changes nothing.
pub proof fn lemma_without_unknown_id(table: Seq<BridgeRow>, id: Seq<char>)
    requires
        forall|i: int| 0 <= i < table.len() ==> other_than(id)(#[trigger] table[i]),
    ensures
        without(table, id) == table,
    decreases table.len(),
{
    if table.len() == 0 {
        reveal(Seq::filter);
    } else {
        let front = table.drop_last();
        assert forall|i: int| 0 <= i < front.len() implies other_than(id)(#[trigger] front[i]) by {
            assert(front[i] == table[i]);
        }
        lemma_without_unknown_id(front, id);
        assert(table =~= front.push(table.last()));
        assert(other_than(id)(table[table.len() - 1]));
        front.lemma_filter_push(table.last(), other_than(id));
    }
}

/// Deleting a bridge takes one row out of the classes it was in, and leaves
/// every count otherwise as it was.
pub proof fn lemma_count_without(
    table: Seq<BridgeRow>,
    group: Seq<char>,
    class: RowClass,
    at: int,
)
    requires
        unique_ids(table),
        0 <= at < table.len(),
    ensures
        count_class(without(table, table[at].bridge_id), group, class) == count_class(
            table,
            group,
            class,
        ) - one_if_counted(in_class(table[at], group, class)),
    decreases table.len(),
{
    let id = table[at].bridge_id;
    let front = table.drop_last();
    assert(table =~= front.push(table.last()));
    front.lemma_filter_push(table.last(), other_than(id));
    assert(unique_ids(front)) by {
        assert forall|i: int, j: int| 0 <= i < j < front.len() implies (
        #[trigger] front[i]).bridge_id != (#[trigger] front[j]).bridge_id by {
            assert(front[i] == table[i] && front[j] == table[j]);
        }
    }
    if at == table.len() - 1 {
        assert forall|i: int| 0 <= i < front.len() implies other_than(id)(#[trigger] front[i]) by {
            assert(table[i].bridge_id != table[at].bridge_id);
        }
        lemma_without_unknown_id(front, id);
        assert(without(table, id) == front);
    } else {
        assert(front[at] == table[at]);
        lemma_count_without(front, group, class, at);
        assert(table.last().bridge_id != id) by {
            assert(table[at].bridge_id != table[table.len() - 1].bridge_id);
        }
        let short = without(front, id);
        assert(without(table, id) == short.push(table.last()));
        assert(short.push(table.last()).drop_last() =~= short);
    }
}

/// Two tables whose rows are, one by one, in the same class are counted
/// alike.
pub proof fn lemma_count_alike(
    one: Seq<BridgeRow>,
    other: Seq<BridgeRow>,
    group: Seq<char>,
    class: RowClass,
)
    requires
        one.len() == other.len(),
        forall|i: int|
            0 <= i < one.len() ==> in_class(#[trigger] one[i], group, class) == in_class(
                other[i],
                group,
                class,
            ),
    ensures
        count_class(one, group, class) == count_class(other, group, class),
    decreases one.len(),
{
    if one.len() > 0 {
        let a = one.drop_last();
        let b = other.drop_last();
        assert forall|i: int| 0 <= i < a.len() implies in_class(#[trigger] a[i], group, class)
            == in_class(b[i], group, class) by {
            assert(a[i] == one[i] && b[i] == other[i]);
            assert(in_class(one[i], group, class) == in_class(other[i], group, class));
        }
        lemma_count_alike(a, b, group, class);
        assert(in_class(one[one.len() - 1], group, class) == in_class(
            other[one.len() - 1],
            group,
            class,
        ));
    }
}

/// Every row of the frontline fills a place in it: the frontline rows of a
/// group are never more than the rows that are held against its target.
pub proof fn lemma_frontline_within_load(table: Seq<BridgeRow>, group: Seq<char>)
    ensures
        count_class(table, group, RowClass::Frontline) <= count_class(
            table,
            group,
            RowClass::Load,
        ),
    decreases table.len(),
{
    if table.len() > 0 {
        lemma_frontline_within_load(table.drop_last(), group);
    }
}

/// Whether a change moves a row of the group into the frontline.
pub open spec fn promotes_into(table: Seq<BridgeRow>, change: TableChange, group: Seq<char>) -> bool {
    change matches TableChange::SetStatus { bridge_id, status, .. } && status == Status::Frontline
        && exists|i: int|
        0 <= i < table.len() && (#[trigger] table[i]).bridge_id == bridge_id && table[i].alloc_group
            == group
}

/// No change but a promotion within the group adds to the frontline rows of
/// the group.
pub proof fn lemma_only_promotion_fills_the_frontline(
    table: Seq<BridgeRow>,
    change: TableChange,
    group: Seq<char>,
)
    requires
        table_wf(table),
        !promotes_into(table, change, group),
    ensures
        count_class(table_after(table, change), group, RowClass::Frontline) <= count_class(
            table,
            group,
            RowClass::Frontline,
        ),
        table_wf(table_after(table, change)),
{
    assert(reserve_text()[0] == 'r');
    assert(frontline_text()[0] == 'f');
    let after = table_after(table, change);
    match change {
        TableChange::Insert { bridge_id, ip_addr, alloc_group, now } => {
            let row = BridgeRow {
                bridge_id,
                ip_addr,
                alloc_group,
                status: reserve_text(),
                change_time: now,
                last_mbps: 0,
            };
            lemma_status_text_round_trip(Status::Reserve);
            lemma_with_row_keeps_wf(table, row);
            if !has_id(table, bridge_id) {
                assert(table.push(row).drop_last() =~= table);
            }
        },
        TableChange::SetStatus { bridge_id, status, now } => {
            lemma_with_status_keeps_wf(table, bridge_id, status, now);
            if has_id(table, bridge_id) {
                let at = choose|at: int|
                    0 <= at < table.len() && (#[trigger] table[at]).bridge_id == bridge_id;
                lemma_count_with_status(table, status, now, group, RowClass::Frontline, at);
                if in_class(row_with_status(table[at], status, now), group, RowClass::Frontline) {
                    lemma_status_text_round_trip(status);
                    assert(status == Status::Frontline);
                    assert(table[at].alloc_group == group);
                }
            } else {
                lemma_with_status_of_unknown_id(table, bridge_id, status, now);
            }
        },
        TableChange::SetMbps { bridge_id, mbps } => {
            lemma_with_mbps_keeps_wf(table, bridge_id, mbps);
            lemma_count_alike(after, table, group, RowClass::Frontline);
        },
        TableChange::Delete { bridge_id } => {
            lemma_without_keeps_wf(table, bridge_id);
            if has_id(table, bridge_id) {
                let at = choose|at: int|
                    0 <= at < table.len() && (#[trigger] table[at]).bridge_id == bridge_id;
                lemma_count_without(table, group, RowClass::Frontline, at);
            } else {
                assert forall|i: int| 0 <= i < table.len() implies other_than(bridge_id)(
                    #[trigger] table[i],
                ) by {
                    assert(table[i].bridge_id != bridge_id);
                }
                lemma_without_unknown_id(table, bridge_id);
            }
        },
    }
}

} // verus!
