use phalanx::database::BridgeInfo;
use phalanx::loop_prune::{delete_interval, loop_prune_for_group};

fn prune_row(id: &str, group: &str, change_time: i64, last_mbps: u64) -> BridgeInfo {
    BridgeInfo {
        bridge_id: id.into(),
        ip_addr: "10.3.0.1".into(),
        alloc_group: group.into(),
        status: "frontline".into(),
        change_time,
        last_mbps,
    }
}

#[test]
fn interval_is_lifetime_over_group_size() {
    // a day over four bridges: six hours
    assert_eq!(delete_interval(86_400, 4), 21_600_000);
    assert_eq!(delete_interval(86_400, 1), 86_400_000);
    assert_eq!(delete_interval(10, 3), 3_333);
    assert_eq!(delete_interval(0, 5), 0);
}

#[test]
fn empty_group_counts_as_one_bridge() {
    assert_eq!(delete_interval(86_400, 0), 86_400_000);
}

#[test]
fn interval_is_capped_at_the_largest_number() {
    assert_eq!(delete_interval(u64::MAX, 1), u64::MAX);
    assert_eq!(delete_interval(u64::MAX, 1_000), u64::MAX);
    assert_eq!(delete_interval(u64::MAX, 2_000), u64::MAX / 2);
}

#[test]
fn oldest_measured_row_is_retired() {
    let rows = vec![
        prune_row("young", "eu", 30, 5_000),
        prune_row("old", "eu", 10, 5_000),
        prune_row("older-but-idle", "eu", 1, 1_000),
        prune_row("oldest-elsewhere", "us", 0, 9_000),
        prune_row("middle", "eu", 20, 1_001),
    ];
    assert_eq!(loop_prune_for_group("eu", &rows), Some("old".to_string()));
    assert_eq!(loop_prune_for_group("us", &rows), Some("oldest-elsewhere".to_string()));
}

#[test]
fn unmeasured_rows_are_never_retired() {
    let rows = vec![prune_row("a", "eu", 1, 0), prune_row("b", "eu", 2, 1_000)];
    assert_eq!(loop_prune_for_group("eu", &rows), None);
    assert_eq!(loop_prune_for_group("eu", &Vec::new()), None);
    assert_eq!(loop_prune_for_group("nowhere", &rows), None);
}

#[test]
fn rows_of_the_same_age_are_retired_in_the_order_of_their_ids() {
    let rows = vec![
        prune_row("b", "eu", 10, 2_000),
        prune_row("a", "eu", 10, 2_000),
        prune_row("c", "eu", 10, 2_000),
    ];
    assert_eq!(loop_prune_for_group("eu", &rows), Some("a".to_string()));
}
