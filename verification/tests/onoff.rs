use dashmap::DashMap;
use phalanx::database::BridgeInfo;
use phalanx::loop_onoff::{
    finish_pass, has_changed, loop_onoff_once, new_memo, record_switch, switch_command,
    switch_for, Switch, SWITCH_OFF_COMMAND, SWITCH_ON_COMMAND,
};

fn onoff_row(id: &str, status: &str) -> BridgeInfo {
    BridgeInfo {
        bridge_id: id.into(),
        ip_addr: format!("10.1.0.{}", id.len()),
        alloc_group: "eu".into(),
        status: status.into(),
        change_time: 0,
        last_mbps: 0,
    }
}

fn planned_ids(rows: &[BridgeInfo], memo: &mut DashMap<String, String>) -> Vec<String> {
    let mut ids: Vec<String> =
        loop_onoff_once(rows.to_vec(), memo).into_iter().map(|t| t.bridge.bridge_id).collect();
    ids.sort();
    ids
}

#[test]
fn frontline_switches_on_and_the_rest_off() {
    assert_eq!(switch_for("frontline"), Switch::On);
    assert_eq!(switch_for("blocked"), Switch::Off);
    assert_eq!(switch_for("reserve"), Switch::Off);
}

#[test]
fn unknown_status_switches_nothing() {
    assert_eq!(switch_for("retired"), Switch::Keep);
    assert_eq!(switch_for(""), Switch::Keep);
    assert_eq!(switch_command(Switch::Keep), None);
}

#[test]
fn switch_commands_enable_or_disable_the_service() {
    assert_eq!(
        switch_command(Switch::On),
        Some("systemctl enable geph4-bridge; (systemctl is-active --quiet geph4-bridge || systemctl start geph4-bridge)")
    );
    assert_eq!(
        switch_command(Switch::Off),
        Some("systemctl stop geph4-bridge; systemctl disable geph4-bridge")
    );
    assert_eq!(switch_command(Switch::On), Some(SWITCH_ON_COMMAND));
    assert_eq!(switch_command(Switch::Off), Some(SWITCH_OFF_COMMAND));
}

#[test]
fn first_pass_acts_on_every_row() {
    let mut memo = new_memo();
    let rows = vec![onoff_row("a", "frontline"), onoff_row("bb", "reserve"), onoff_row("ccc", "blocked")];
    let tasks = loop_onoff_once(rows, &mut memo);
    assert_eq!(tasks.len(), 3);
    for t in &tasks {
        assert_eq!(t.switch, switch_for(&t.bridge.status));
    }
    assert_eq!(planned_ids(&[], &mut memo), Vec::<String>::new());
}

#[test]
fn remembered_status_is_read_back() {
    let mut memo = new_memo();
    let row = onoff_row("a", "frontline");
    assert!(has_changed(&mut memo, &row));
    record_switch(&mut memo, &row);
    assert!(!has_changed(&mut memo, &row));
    assert_eq!(memo.get("a").map(|v| v.value().clone()), Some("frontline".to_string()));
    assert!(has_changed(&mut memo, &onoff_row("a", "blocked")));
    assert!(has_changed(&mut memo, &onoff_row("b", "frontline")));
    record_switch(&mut memo, &onoff_row("a", "blocked"));
    assert!(has_changed(&mut memo, &row));
    assert_eq!(memo.len(), 1);
}

#[test]
fn second_pass_on_a_stable_table_does_nothing() {
    let mut memo = new_memo();
    let rows = vec![onoff_row("a", "frontline"), onoff_row("bb", "reserve"), onoff_row("ccc", "blocked")];
    let tasks = loop_onoff_once(rows.clone(), &mut memo);
    let done = vec![true; tasks.len()];
    finish_pass(&mut memo, &tasks, &done);
    assert_eq!(memo.len(), 3);
    let again = loop_onoff_once(rows.clone(), &mut memo);
    assert!(again.is_empty());
    finish_pass(&mut memo, &again, &Vec::new());
    assert_eq!(memo.len(), 3);
    assert!(loop_onoff_once(rows, &mut memo).is_empty());
}

#[test]
fn failed_action_comes_up_again() {
    let mut memo = new_memo();
    let rows = vec![onoff_row("a", "frontline"), onoff_row("bb", "reserve")];
    let tasks = loop_onoff_once(rows.clone(), &mut memo);
    let done: Vec<bool> = tasks.iter().map(|t| t.bridge.bridge_id == "a").collect();
    finish_pass(&mut memo, &tasks, &done);
    assert_eq!(planned_ids(&rows, &mut memo), vec!["bb"]);
    // a task without an entry counts as failed
    let tasks = loop_onoff_once(rows.clone(), &mut memo);
    finish_pass(&mut memo, &tasks, &Vec::new());
    assert_eq!(planned_ids(&rows, &mut memo), vec!["bb"]);
    let tasks = loop_onoff_once(rows.clone(), &mut memo);
    finish_pass(&mut memo, &tasks, &vec![true]);
    assert_eq!(planned_ids(&rows, &mut memo), Vec::<String>::new());
}

#[test]
fn only_a_changed_row_is_acted_upon() {
    let mut memo = new_memo();
    let mut rows = vec![onoff_row("a", "reserve"), onoff_row("bb", "reserve")];
    let tasks = loop_onoff_once(rows.clone(), &mut memo);
    finish_pass(&mut memo, &tasks, &vec![true, true]);
    rows[0].status = "frontline".into();
    let tasks = loop_onoff_once(rows.clone(), &mut memo);
    assert_eq!(tasks.len(), 1);
    assert_eq!(tasks[0].bridge.bridge_id, "a");
    assert_eq!(tasks[0].bridge.ip_addr, rows[0].ip_addr);
    assert_eq!(tasks[0].switch, Switch::On);
    finish_pass(&mut memo, &tasks, &vec![true]);
    assert!(loop_onoff_once(rows.clone(), &mut memo).is_empty());
    assert!(loop_onoff_once(rows, &mut memo).is_empty());
}

#[test]
fn pass_mixes_the_rows() {
    let mut memo = new_memo();
    let rows: Vec<BridgeInfo> = (0..100).map(|n| onoff_row(&format!("b{n:03}"), "reserve")).collect();
    let straight: Vec<String> = rows.iter().map(|r| r.bridge_id.clone()).collect();
    let mut mixed_once = false;
    for _ in 0..5 {
        let ids: Vec<String> =
            loop_onoff_once(rows.clone(), &mut memo).into_iter().map(|t| t.bridge.bridge_id).collect();
        if ids != straight {
            mixed_once = true;
        }
        let mut sorted = ids;
        sorted.sort();
        assert_eq!(sorted, straight);
    }
    assert!(mixed_once);
}

#[test]
fn new_memo_holds_nothing() {
    let mut memo = new_memo();
    assert!(memo.is_empty());
    assert!(has_changed(&mut memo, &onoff_row("a", "reserve")));
    assert!(has_changed(&mut memo, &onoff_row("", "")));
}
