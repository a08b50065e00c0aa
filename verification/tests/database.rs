use phalanx::database::{
    count_rows, delete_bridge, first_row, insert_bridge, is_older, knows_id, oldest_row,
    row_in_class, set_last_mbps, set_status, BridgeInfo, RowClass, MEASURED_ABOVE,
};
use phalanx::status::Status;

fn db_row(id: &str, group: &str, status: &str, change_time: i64, last_mbps: u64) -> BridgeInfo {
    BridgeInfo {
        bridge_id: id.into(),
        ip_addr: format!("10.5.0.{}", change_time),
        alloc_group: group.into(),
        status: status.into(),
        change_time,
        last_mbps,
    }
}

fn db_table() -> Vec<BridgeInfo> {
    vec![
        db_row("a", "eu", "frontline", 5, 2_000),
        db_row("b", "eu", "reserve", 3, 0),
        db_row("c", "us", "frontline", 1, 9_000),
        db_row("d", "eu", "blocked", 2, 1_000),
        db_row("e", "eu", "frontline", 4, 1_001),
    ]
}

fn db_well_formed(rows: &[BridgeInfo]) -> bool {
    let unique = rows
        .iter()
        .enumerate()
        .all(|(i, r)| rows[i + 1..].iter().all(|o| o.bridge_id != r.bridge_id));
    let known = rows.iter().all(|r| Status::parse(&r.status).is_some());
    unique && known
}

#[test]
fn rows_are_counted_by_class_within_a_group() {
    let rows = db_table();
    assert_eq!(count_rows(&rows, "eu", RowClass::Any), 4);
    assert_eq!(count_rows(&rows, "eu", RowClass::Reserve), 1);
    assert_eq!(count_rows(&rows, "eu", RowClass::Frontline), 2);
    assert_eq!(count_rows(&rows, "eu", RowClass::Load), 3);
    assert_eq!(count_rows(&rows, "eu", RowClass::Measured), 2);
    assert_eq!(count_rows(&rows, "us", RowClass::Any), 1);
    assert_eq!(count_rows(&rows, "asia", RowClass::Any), 0);
    assert_eq!(count_rows(&Vec::new(), "eu", RowClass::Any), 0);
}

#[test]
fn measured_means_above_one_megabit() {
    assert_eq!(MEASURED_ABOVE, 1_000);
    assert!(!row_in_class(&db_row("x", "eu", "reserve", 0, 1_000), "eu", RowClass::Measured));
    assert!(row_in_class(&db_row("x", "eu", "reserve", 0, 1_001), "eu", RowClass::Measured));
    assert!(!row_in_class(&db_row("x", "us", "reserve", 0, 1_001), "eu", RowClass::Measured));
}

#[test]
fn row_of_unknown_status_is_in_no_status_class() {
    let odd = db_row("x", "eu", "retired", 0, 0);
    assert!(row_in_class(&odd, "eu", RowClass::Any));
    assert!(!row_in_class(&odd, "eu", RowClass::Reserve));
    assert!(!row_in_class(&odd, "eu", RowClass::Frontline));
    assert!(!row_in_class(&odd, "eu", RowClass::Load));
}

#[test]
fn first_and_oldest_rows_are_found() {
    let rows = db_table();
    assert_eq!(first_row(&rows, "eu", RowClass::Frontline), Some(0));
    assert_eq!(oldest_row(&rows, "eu", RowClass::Frontline), Some(4));
    assert_eq!(oldest_row(&rows, "eu", RowClass::Any), Some(3));
    assert_eq!(first_row(&rows, "us", RowClass::Reserve), None);
    assert_eq!(oldest_row(&rows, "us", RowClass::Reserve), None);
}

#[test]
fn older_means_earlier_change_then_smaller_id() {
    let a = db_row("a", "eu", "reserve", 1, 0);
    let b = db_row("b", "eu", "reserve", 1, 0);
    let c = db_row("0", "eu", "reserve", 2, 0);
    assert!(is_older(&a, &b));
    assert!(!is_older(&b, &a));
    assert!(!is_older(&a, &a));
    assert!(is_older(&b, &c));
    assert!(!is_older(&c, &a));
    let early = db_row("z", "eu", "reserve", i64::MIN, 0);
    assert!(is_older(&early, &a));
}

#[test]
fn ids_are_looked_up() {
    let rows = db_table();
    assert!(knows_id(&rows, "c"));
    assert!(!knows_id(&rows, "C"));
    assert!(!knows_id(&rows, ""));
    assert!(!knows_id(&Vec::new(), "a"));
}

#[test]
fn status_change_touches_one_bridge() {
    let mut rows = db_table();
    assert!(set_status(&mut rows, "b", Status::Frontline, Some(99)));
    assert_eq!(rows[1].status, "frontline");
    assert_eq!(rows[1].change_time, 99);
    assert_eq!(rows[1].ip_addr, "10.5.0.3");
    assert_eq!(rows[0].change_time, 5);
    assert!(set_status(&mut rows, "a", Status::Blocked, None));
    assert_eq!(rows[0].status, "blocked");
    assert_eq!(rows[0].change_time, 5);
    assert!(!set_status(&mut rows, "nobody", Status::Blocked, Some(1)));
    assert_eq!(rows.len(), 5);
    assert!(db_well_formed(&rows));
}

#[test]
fn measurement_is_noted_on_its_bridge() {
    let mut rows = db_table();
    assert!(set_last_mbps(&mut rows, "b", 123_400));
    assert_eq!(rows[1].last_mbps, 123_400);
    assert_eq!(rows[0].last_mbps, 2_000);
    assert!(!set_last_mbps(&mut rows, "nobody", 1));
    assert!(db_well_formed(&rows));
}

#[test]
fn deleted_bridge_is_gone() {
    let mut rows = db_table();
    assert!(delete_bridge(&mut rows, "c"));
    assert_eq!(rows.iter().map(|r| r.bridge_id.as_str()).collect::<Vec<_>>(), vec!["a", "b", "d", "e"]);
    assert!(!delete_bridge(&mut rows, "c"));
    assert_eq!(rows.len(), 4);
    assert!(db_well_formed(&rows));
}

#[test]
fn row_with_a_known_id_is_not_added() {
    let mut rows = db_table();
    assert!(!insert_bridge(&mut rows, db_row("a", "us", "reserve", 7, 0)));
    assert_eq!(rows.len(), 5);
    assert_eq!(rows[0].alloc_group, "eu");
    assert!(insert_bridge(&mut rows, db_row("f", "us", "reserve", 7, 0)));
    assert_eq!(rows.len(), 6);
    assert_eq!(rows[5].bridge_id, "f");
    assert!(db_well_formed(&rows));
}

#[test]
fn table_stays_well_formed_through_any_run_of_changes() {
    let mut rows: Vec<BridgeInfo> = Vec::new();
    let ids = ["a", "b", "c", "d"];
    let statuses = [Status::Reserve, Status::Frontline, Status::Blocked];
    for step in 0..200usize {
        let id = ids[(step * 7 + step / 3) % ids.len()];
        match step % 5 {
            0 | 1 => {
                insert_bridge(&mut rows, db_row(id, "eu", "reserve", step as i64, 0));
            }
            2 => {
                set_status(&mut rows, id, statuses[step % 3], Some(step as i64));
            }
            3 => {
                set_last_mbps(&mut rows, id, step as u64);
            }
            _ => {
                delete_bridge(&mut rows, id);
            }
        }
        assert!(db_well_formed(&rows));
    }
}
