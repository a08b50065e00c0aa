use phalanx::config::{GroupConfig, ProviderConfig, Service};
use phalanx::database::BridgeInfo;
use phalanx::loop_frontline::{
    adjust_target, apply_frontline_action, control_tick, current_live, delay_ms,
    frontline_targets, ideal_frontline, initial_adjusted, is_control_active,
    loop_frontline_inner, signal_mbps, FrontlineAction,
};
use phalanx::provider::hetzner::HetznerConfig;

fn frontline_group(frontline: usize, max_frontline: Option<usize>, target_mbps: u64) -> GroupConfig {
    GroupConfig {
        frontline,
        max_frontline,
        reserve: 2,
        override_group: None,
        no_antigfw: false,
        provider: ProviderConfig::Hetzner(HetznerConfig {
            api_token: "t".into(),
            server_type: "cx11".into(),
            location: "fsn1".into(),
            image: "debian-11".into(),
            sshkey_id: "1".into(),
        }),
        avg_lifetime_secs: 86_400,
        services: vec![Service::Geph5],
        max_bandwidth_gb: None,
        target_mbps,
        exit_country: None,
        exit_city: None,
        exit_total_ratelimit: None,
    }
}

fn frontline_row(id: &str, group: &str, status: &str, change_time: i64) -> BridgeInfo {
    BridgeInfo {
        bridge_id: id.into(),
        ip_addr: format!("10.0.0.{}", change_time),
        alloc_group: group.into(),
        status: status.into(),
        change_time,
        last_mbps: 0,
    }
}

#[test]
fn overload_scales_up_within_one_step() {
    // six frontline bridges at a load factor of 1.5: the ideal of nine is
    // held to eight, one step above the live count
    assert_eq!(adjust_target(6, 6, Some(20), 6, 150_000, 100_000), 8);
    assert_eq!(adjust_target(6, 6, Some(7), 6, 150_000, 100_000), 7);
    assert_eq!(adjust_target(6, 6, None, 6, 150_000, 100_000), 8);
    assert_eq!(delay_ms(150_000, 100_000), 300);
}

#[test]
fn signal_is_the_sample_a_tenth_of_the_way_down() {
    let samples = vec![150_000, 145_000, 148_000, 150_000, 152_000, 149_000];
    // fewer than ten samples: the largest
    assert_eq!(signal_mbps(&samples), 152_000);
    let ten: Vec<u64> = (1..=10).collect();
    assert_eq!(signal_mbps(&ten), 9);
    let twenty: Vec<u64> = (1..=20).rev().collect();
    assert_eq!(signal_mbps(&twenty), 18);
    let four: Vec<u64> = vec![4, 1, 3, 2];
    assert_eq!(signal_mbps(&four), 4);
    let five: Vec<u64> = vec![4, 1, 5, 3, 2];
    assert_eq!(signal_mbps(&five), 5);
    let nine: Vec<u64> = (1..=9).collect();
    assert_eq!(signal_mbps(&nine), 9);
    let fourteen: Vec<u64> = (1..=14).collect();
    assert_eq!(signal_mbps(&fourteen), 13);
    let fifteen: Vec<u64> = (1..=15).collect();
    assert_eq!(signal_mbps(&fifteen), 14);
    let nineteen: Vec<u64> = (1..=19).collect();
    assert_eq!(signal_mbps(&nineteen), 18);
    assert_eq!(signal_mbps(&vec![7]), 7);
    assert_eq!(signal_mbps(&vec![3, 3, 3]), 3);
}

#[test]
fn signal_of_no_samples_is_zero() {
    assert_eq!(signal_mbps(&Vec::new()), 0);
}

#[test]
fn delay_is_zero_up_to_a_load_factor_of_one_point_two() {
    assert_eq!(delay_ms(0, 100), 0);
    assert_eq!(delay_ms(100, 100), 0);
    assert_eq!(delay_ms(119, 100), 0);
    assert_eq!(delay_ms(120, 100), 0);
    assert_eq!(delay_ms(121, 100), 10);
    assert_eq!(delay_ms(200, 100), 800);
    assert_eq!(delay_ms(1_000, 3), 332_133);
}

#[test]
fn delay_is_capped_at_the_largest_number() {
    assert_eq!(delay_ms(u64::MAX, 1), u64::MAX);
}

#[test]
fn ideal_rounds_halves_upwards() {
    // 10 * 0.95 = 9.5
    assert_eq!(ideal_frontline(10, 95, 100), 10);
    // 10 * 0.94 = 9.4
    assert_eq!(ideal_frontline(10, 94, 100), 9);
    // 3 * 1.5 = 4.5, within [2, 4]
    assert_eq!(ideal_frontline(3, 150, 100), 4);
}

#[test]
fn ideal_stays_within_one_step_of_the_live_count() {
    assert_eq!(ideal_frontline(10, 0, 100), 9);
    assert_eq!(ideal_frontline(10, 1_000, 100), 13);
    assert_eq!(ideal_frontline(7, 1_000, 100), 9);
    assert_eq!(ideal_frontline(8, 1_000, 100), 10);
    assert_eq!(ideal_frontline(0, 1_000, 100), 0);
    assert_eq!(ideal_frontline(0, 0, 100), 0);
    assert_eq!(ideal_frontline(1, 0, 100), 0);
}

#[test]
fn light_load_scales_down_but_not_below_the_base() {
    assert_eq!(adjust_target(10, 4, Some(20), 10, 50, 100), 9);
    assert_eq!(adjust_target(10, 10, Some(20), 10, 50, 100), 10);
    assert_eq!(adjust_target(5, 4, None, 4, 0, 100), 4);
}

#[test]
fn middling_load_keeps_the_target() {
    assert_eq!(adjust_target(7, 4, Some(20), 10, 80, 100), 7);
    assert_eq!(adjust_target(7, 4, Some(20), 10, 100, 100), 7);
    assert_eq!(adjust_target(7, 4, Some(20), 10, 120, 100), 7);
    assert_eq!(adjust_target(7, 4, Some(20), 10, 121, 100), 12);
    assert_eq!(adjust_target(7, 4, Some(20), 10, 79, 100), 9);
}

#[test]
fn adjusted_target_stays_between_base_and_cap() {
    let base = 3;
    let cap = 12;
    for live in base..=cap {
        for signal in [0u64, 10, 79, 80, 100, 120, 121, 150, 400, 100_000] {
            for adjusted in base..=cap {
                let next = adjust_target(adjusted, base, Some(cap), live, signal, 100);
                assert!(base <= next && next <= cap, "{adjusted} {live} {signal} -> {next}");
            }
        }
    }
}

#[test]
fn scale_up_from_few_live_rows_can_land_below_the_base() {
    // a base of ten of which three are live: overload asks for four
    assert_eq!(adjust_target(10, 10, Some(20), 3, 150, 100), 4);
}

#[test]
fn initial_target_is_base_or_live_count() {
    assert_eq!(initial_adjusted(4, 2), 4);
    assert_eq!(initial_adjusted(4, 9), 9);
    assert_eq!(initial_adjusted(0, 0), 0);
}

#[test]
fn control_is_inactive_without_base_or_target() {
    let samples = vec![900_000, 900_000];
    for cfg in [frontline_group(0, Some(9), 100_000), frontline_group(4, Some(9), 0)] {
        assert!(!is_control_active(&cfg));
        let mut adjusted = 5;
        for live in 0..20 {
            let out = control_tick(&cfg, adjusted, live, &samples);
            assert_eq!(out.adjusted, 5);
            assert_eq!(out.delay_ms, None);
            adjusted = out.adjusted;
        }
    }
}

#[test]
fn control_tick_scales_and_publishes() {
    let cfg = frontline_group(6, Some(20), 100_000);
    assert!(is_control_active(&cfg));
    let samples = vec![150_000, 145_000, 148_000, 150_000, 152_000, 149_000];
    let out = control_tick(&cfg, 6, 6, &samples);
    assert_eq!(out.adjusted, 8);
    assert_eq!(out.delay_ms, Some(320));
    // ten bridges, the largest sample an outlier: the second largest counts
    let mut ten = vec![150_000; 10];
    ten[3] = 900_000;
    let out = control_tick(&cfg, 6, 6, &ten);
    assert_eq!(out.adjusted, 8);
    assert_eq!(out.delay_ms, Some(300));
    let calm = vec![100_000; 6];
    let out = control_tick(&cfg, 8, 6, &calm);
    assert_eq!(out.adjusted, 8);
    assert_eq!(out.delay_ms, Some(0));
}

#[test]
fn unconfigured_target_never_shows_overload() {
    let cfg = frontline_group(6, None, u64::MAX);
    let out = control_tick(&cfg, 9, 6, &vec![u64::MAX / 2; 6]);
    assert_eq!(out.delay_ms, Some(0));
    assert_eq!(out.adjusted, 6);
}

#[test]
fn below_target_the_first_reserve_of_the_group_is_promoted() {
    let rows = vec![
        frontline_row("a", "eu", "frontline", 1),
        frontline_row("b", "us", "reserve", 2),
        frontline_row("c", "eu", "reserve", 3),
        frontline_row("d", "eu", "reserve", 4),
    ];
    match loop_frontline_inner("eu", &rows, 2) {
        FrontlineAction::Promote(id) => assert_eq!(id, "c"),
        other => panic!("{other:?}"),
    }
}

#[test]
fn below_target_without_reserve_nothing_is_done() {
    let rows = vec![frontline_row("a", "eu", "frontline", 1), frontline_row("b", "us", "reserve", 2)];
    assert!(matches!(loop_frontline_inner("eu", &rows, 2), FrontlineAction::Nothing));
}

#[test]
fn blocked_rows_count_towards_the_frontline() {
    let rows = vec![
        frontline_row("a", "eu", "frontline", 1),
        frontline_row("b", "eu", "blocked", 2),
        frontline_row("c", "eu", "reserve", 3),
    ];
    assert!(matches!(loop_frontline_inner("eu", &rows, 2), FrontlineAction::Nothing));
    match loop_frontline_inner("eu", &rows, 3) {
        FrontlineAction::Promote(id) => assert_eq!(id, "c"),
        other => panic!("{other:?}"),
    }
}

#[test]
fn above_target_the_oldest_frontline_row_is_evicted() {
    let rows = vec![
        frontline_row("a", "eu", "frontline", 30),
        frontline_row("b", "eu", "frontline", 10),
        frontline_row("c", "eu", "blocked", 5),
        frontline_row("d", "us", "frontline", 1),
        frontline_row("e", "eu", "frontline", 20),
    ];
    match loop_frontline_inner("eu", &rows, 2) {
        FrontlineAction::Evict(id) => assert_eq!(id, "b"),
        other => panic!("{other:?}"),
    }
}

#[test]
fn rows_of_the_same_age_are_evicted_in_the_order_of_their_ids() {
    let rows = vec![
        frontline_row("pear", "eu", "frontline", 10),
        frontline_row("apple", "eu", "frontline", 10),
        frontline_row("fig", "eu", "frontline", 10),
    ];
    match loop_frontline_inner("eu", &rows, 1) {
        FrontlineAction::Evict(id) => assert_eq!(id, "apple"),
        other => panic!("{other:?}"),
    }
}

#[test]
fn above_target_with_only_blocked_rows_nothing_is_done() {
    let rows = vec![frontline_row("a", "eu", "blocked", 1), frontline_row("b", "eu", "blocked", 2)];
    assert!(matches!(loop_frontline_inner("eu", &rows, 1), FrontlineAction::Nothing));
}

#[test]
fn at_target_nothing_is_done() {
    let rows = vec![frontline_row("a", "eu", "frontline", 1), frontline_row("b", "eu", "reserve", 2)];
    assert!(matches!(loop_frontline_inner("eu", &rows, 1), FrontlineAction::Nothing));
}

#[test]
fn moves_are_carried_out_on_the_rows() {
    let mut rows = vec![
        frontline_row("a", "eu", "frontline", 1),
        frontline_row("b", "eu", "reserve", 2),
    ];
    apply_frontline_action(&mut rows, &FrontlineAction::Promote("b".into()), 77);
    assert_eq!(rows[1].status, "frontline");
    assert_eq!(rows[1].change_time, 77);
    assert_eq!(rows[0].change_time, 1);
    assert_eq!(current_live("eu", &rows), 2);
    apply_frontline_action(&mut rows, &FrontlineAction::Evict("a".into()), 78);
    assert_eq!(rows.len(), 1);
    assert_eq!(rows[0].bridge_id, "b");
    apply_frontline_action(&mut rows, &FrontlineAction::Nothing, 79);
    assert_eq!(rows.len(), 1);
}

#[test]
fn frontline_rows_of_the_group_are_measured() {
    let rows = vec![
        frontline_row("a", "eu", "frontline", 1),
        frontline_row("b", "eu", "reserve", 2),
        frontline_row("c", "us", "frontline", 3),
        frontline_row("d", "eu", "blocked", 4),
        frontline_row("e", "eu", "frontline", 5),
    ];
    let targets = frontline_targets("eu", &rows);
    let ids: Vec<&str> = targets.iter().map(|r| r.bridge_id.as_str()).collect();
    assert_eq!(ids, vec!["a", "e"]);
    assert_eq!(targets[1].ip_addr, rows[4].ip_addr);
    assert_eq!(targets.len(), current_live("eu", &rows));
    assert!(frontline_targets("asia", &rows).is_empty());
    assert!(frontline_targets("eu", &Vec::new()).is_empty());
}

#[test]
fn adjusted_target_stays_below_the_cap_whatever_the_base_rows() {
    let base = 4;
    let cap = 9;
    let mut adjusted = initial_adjusted(base, 2);
    for step in 0..200usize {
        let live = (step * 7) % (cap + 1);
        let signal = [0u64, 50, 79, 100, 121, 300, 10_000][step % 7];
        adjusted = adjust_target(adjusted, base, Some(cap), live, signal, 100);
        assert!(adjusted <= cap, "{step}: {adjusted}");
    }
}
