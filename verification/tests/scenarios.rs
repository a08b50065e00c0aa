use phalanx::config::{GroupConfig, ProviderConfig, Service};
use phalanx::database::{count_rows, delete_bridge, insert_bridge, BridgeInfo, RowClass};
use phalanx::loop_frontline::{
    apply_frontline_action, control_tick, current_live, initial_adjusted, loop_frontline_inner,
    FrontlineAction,
};
use phalanx::loop_gfw::{apply_verdict, gfw_verdict, is_blocked};
use phalanx::loop_onoff::{finish_pass, loop_onoff_once, new_memo, Switch};
use phalanx::loop_provision::{loop_provision_once, new_id, new_reserve_row};
use phalanx::loop_prune::loop_prune_for_group;
use phalanx::database::set_last_mbps;
use phalanx::measure::read_measurements;
use phalanx::provider::ip_fresher::{IpFresher, SeenIps};
use phalanx::provider::scaleway::{ScalewayConfig, ScalewayProvider};
use phalanx::provider::{server_name, RemoteServer};

fn scn_group(frontline: usize, reserve: usize, target_mbps: u64) -> GroupConfig {
    GroupConfig {
        frontline,
        max_frontline: Some(10),
        reserve,
        override_group: None,
        no_antigfw: false,
        provider: ProviderConfig::Scaleway(scn_scaleway()),
        avg_lifetime_secs: 24 * 3_600,
        services: vec![Service::Geph5],
        max_bandwidth_gb: None,
        target_mbps,
        exit_country: None,
        exit_city: None,
        exit_total_ratelimit: None,
    }
}

fn scn_scaleway() -> ScalewayConfig {
    ScalewayConfig {
        secret_key: "s".into(),
        zone: "fr-par-1".into(),
        project_id: "p".into(),
        commercial_type: "DEV1-S".into(),
        image: "debian".into(),
    }
}

/// A cloud that hands out one address after the other from a list.
struct ScnCloud {
    addresses: Vec<&'static str>,
    next: usize,
    servers: Vec<RemoteServer>,
}

impl ScnCloud {
    fn create(&mut self, provider: &IpFresher<ScalewayProvider>, ledger: &mut SeenIps, id: &str) -> String {
        loop {
            let ip = self.addresses[self.next % self.addresses.len()];
            self.next += 1;
            if provider.accept(ledger, ip) {
                self.servers.push(RemoteServer {
                    handle: format!("srv-{}", self.next),
                    name: server_name(provider, id),
                });
                return ip.to_string();
            }
        }
    }
}

fn scn_provision(
    cfg: &GroupConfig,
    provider: &IpFresher<ScalewayProvider>,
    cloud: &mut ScnCloud,
    ledger: &mut SeenIps,
    rows: &mut Vec<BridgeInfo>,
    now: i64,
) -> usize {
    let plan = loop_provision_once("eu", cfg, provider, &cloud.servers, &Vec::new(), rows);
    cloud.servers.retain(|s| !plan.delete.contains(&s.handle));
    for _ in 0..plan.create {
        let id = new_id();
        let ip = cloud.create(provider, ledger, &id);
        assert!(insert_bridge(rows, new_reserve_row(&id, &ip, "eu", now)));
    }
    plan.create
}

fn scn_settle_frontline(rows: &mut Vec<BridgeInfo>, adjusted: usize, mut now: i64) -> usize {
    let mut moves = 0;
    loop {
        let action = loop_frontline_inner("eu", rows, adjusted);
        if matches!(action, FrontlineAction::Nothing) {
            return moves;
        }
        now += 1;
        apply_frontline_action(rows, &action, now);
        moves += 1;
        assert!(moves < 100);
    }
}

#[test]
fn cold_start_converges_on_two_frontline_and_two_reserve() {
    let cfg = scn_group(2, 2, 1_000_000);
    let provider = IpFresher::new(ScalewayProvider::new(scn_scaleway()));
    let mut cloud = ScnCloud {
        addresses: vec!["198.51.100.1", "198.51.100.2", "198.51.100.2", "198.51.100.3", "198.51.100.4", "198.51.100.5"],
        next: 0,
        servers: Vec::new(),
    };
    let mut ledger = SeenIps::new();
    let mut rows: Vec<BridgeInfo> = Vec::new();
    let adjusted = initial_adjusted(cfg.frontline, current_live("eu", &rows));
    assert_eq!(adjusted, 2);
    for round in 0..10 {
        scn_provision(&cfg, &provider, &mut cloud, &mut ledger, &mut rows, round * 100);
        scn_settle_frontline(&mut rows, adjusted, round * 100);
    }
    assert_eq!(count_rows(&rows, "eu", RowClass::Any), 4);
    assert_eq!(count_rows(&rows, "eu", RowClass::Frontline), 2);
    assert_eq!(count_rows(&rows, "eu", RowClass::Reserve), 2);
    for (i, a) in rows.iter().enumerate() {
        for b in &rows[i + 1..] {
            assert_ne!(a.ip_addr, b.ip_addr);
            assert_ne!(a.bridge_id, b.bridge_id);
        }
    }
    // settled: another round changes nothing
    assert_eq!(scn_provision(&cfg, &provider, &mut cloud, &mut ledger, &mut rows, 5_000), 0);
    assert_eq!(scn_settle_frontline(&mut rows, adjusted, 5_000), 0);
    assert_eq!(cloud.servers.len(), 4);
}

#[test]
fn blocked_frontline_bridge_is_replaced_and_heals_into_reserve() {
    let mut rows = vec![
        new_reserve_row("one", "198.51.100.1", "eu", 1),
        new_reserve_row("two", "198.51.100.2", "eu", 2),
        new_reserve_row("three", "198.51.100.3", "eu", 3),
    ];
    assert_eq!(scn_settle_frontline(&mut rows, 2, 10), 2);
    assert_eq!(rows[0].status, "frontline");
    assert_eq!(rows[1].status, "frontline");
    let mut memo = new_memo();
    let tasks = loop_onoff_once(rows.clone(), &mut memo);
    finish_pass(&mut memo, &tasks, &vec![true; tasks.len()]);

    // the probe of the first bridge shows total loss
    let lost = "10 packets transmitted, 0 received, 100% packet loss, time 1000ms";
    let fine = "10 packets transmitted, 10 received, 0% packet loss, time 1000ms";
    let verdict = gfw_verdict(&rows[0].status, is_blocked(lost));
    apply_verdict(&mut rows, "one", verdict);
    for id in ["two", "three"] {
        let status = rows.iter().find(|r| r.bridge_id == id).unwrap().status.clone();
        apply_verdict(&mut rows, id, gfw_verdict(&status, is_blocked(fine)));
    }
    assert_eq!(rows[0].status, "blocked");

    // the blocked bridge still fills its place: nothing is promoted at a target of two
    assert_eq!(scn_settle_frontline(&mut rows, 2, 20), 0);
    // at a target of three the reserve bridge moves up
    assert_eq!(scn_settle_frontline(&mut rows, 3, 20), 1);
    assert_eq!(rows[2].status, "frontline");

    let tasks = loop_onoff_once(rows.clone(), &mut memo);
    let mut acted: Vec<(String, Switch)> =
        tasks.iter().map(|t| (t.bridge.bridge_id.clone(), t.switch)).collect();
    acted.sort_by(|a, b| a.0.cmp(&b.0));
    assert_eq!(acted, vec![("one".to_string(), Switch::Off), ("three".to_string(), Switch::On)]);
    finish_pass(&mut memo, &tasks, &vec![true; tasks.len()]);

    // later the probe passes again
    let verdict = gfw_verdict(&rows[0].status, is_blocked(fine));
    apply_verdict(&mut rows, "one", verdict);
    assert_eq!(rows[0].status, "reserve");
    let tasks = loop_onoff_once(rows.clone(), &mut memo);
    assert_eq!(tasks.len(), 1);
    assert_eq!(tasks[0].bridge.bridge_id, "one");
    assert_eq!(tasks[0].switch, Switch::Off);
}

#[test]
fn overload_scales_the_frontline_up() {
    let mut cfg = scn_group(6, 2, 100_000);
    cfg.max_frontline = Some(9);
    let answers: Vec<String> =
        ["150.0\n", "145.0\n", "148.0\n", "150.0\n", "152.0\n", "149.0\n"].iter().map(|s| s.to_string()).collect();
    let samples = read_measurements(&answers).unwrap();
    let out = control_tick(&cfg, 6, 6, &samples);
    assert_eq!(out.adjusted, 8);
    // of six samples the largest, 152, is the signal
    assert_eq!(out.delay_ms, Some(320));
    cfg.max_frontline = Some(7);
    assert_eq!(control_tick(&cfg, 6, 6, &samples).adjusted, 7);
}

#[test]
fn server_of_a_pruned_row_is_reaped_and_gets_no_new_row() {
    let cfg = scn_group(0, 1, 0);
    let provider = IpFresher::new(ScalewayProvider::new(scn_scaleway()));
    let mut rows = vec![new_reserve_row("keep", "198.51.100.1", "eu", 1), new_reserve_row("gone", "198.51.100.2", "eu", 0)];
    rows[1].last_mbps = 5_000;
    let mut servers = vec![
        RemoteServer { handle: "h1".into(), name: "keep".into() },
        RemoteServer { handle: "h2".into(), name: "gone".into() },
    ];
    let victim = loop_prune_for_group("eu", &rows);
    assert_eq!(victim, Some("gone".to_string()));
    assert!(delete_bridge(&mut rows, "gone"));
    let plan = loop_provision_once("eu", &cfg, &provider, &servers, &Vec::new(), &rows);
    assert_eq!(plan.delete, vec!["h2"]);
    assert_eq!(plan.create, 0);
    servers.retain(|s| !plan.delete.contains(&s.handle));
    assert_eq!(servers.len(), 1);
    assert_eq!(rows.len(), 1);
    assert_eq!(rows[0].bridge_id, "keep");
}

#[test]
fn used_address_is_never_handed_out_again() {
    let provider = IpFresher::new(ScalewayProvider::new(scn_scaleway()));
    let mut ledger = SeenIps::new();
    ledger.record_seen_ip("198.51.100.1");
    let mut cloud = ScnCloud {
        addresses: vec!["198.51.100.1", "198.51.100.1", "198.51.100.9"],
        next: 0,
        servers: Vec::new(),
    };
    let ip = cloud.create(&provider, &mut ledger, "acid-bell");
    assert_eq!(ip, "198.51.100.9");
    assert_eq!(cloud.next, 3);
    assert!(ledger.is_ip_seen("198.51.100.9"));
    assert!(ledger.is_ip_seen("198.51.100.1"));
}

#[test]
fn promotion_is_acted_upon_once() {
    let mut rows = vec![new_reserve_row("one", "198.51.100.1", "eu", 1)];
    let mut memo = new_memo();
    let tasks = loop_onoff_once(rows.clone(), &mut memo);
    finish_pass(&mut memo, &tasks, &vec![true]);
    apply_frontline_action(&mut rows, &FrontlineAction::Promote("one".into()), 5);
    let tasks = loop_onoff_once(rows.clone(), &mut memo);
    assert_eq!(tasks.len(), 1);
    assert_eq!(tasks[0].switch, Switch::On);
    assert_eq!(tasks[0].bridge.ip_addr, "198.51.100.1");
    finish_pass(&mut memo, &tasks, &vec![true]);
    for _ in 0..3 {
        assert!(loop_onoff_once(rows.clone(), &mut memo).is_empty());
    }
    apply_verdict(&mut rows, "one", gfw_verdict("frontline", true));
    assert_eq!(loop_onoff_once(rows.clone(), &mut memo).len(), 1);
}

#[test]
fn cap_holds_while_all_loops_work_on_the_group() {
    let base = 2usize;
    let cap = 5usize;
    let mut cfg = scn_group(base, 3, 100_000);
    cfg.max_frontline = Some(cap);
    let mut rows: Vec<BridgeInfo> = Vec::new();
    let mut adjusted = initial_adjusted(cfg.frontline, current_live("eu", &rows));
    let mut made = 0usize;
    let mut seed = 12345u64;
    for step in 0..3_000i64 {
        seed = seed.wrapping_mul(6364136223846793005).wrapping_add(1442695040888963407);
        let pick = (seed >> 33) as usize;
        match pick % 6 {
            0 => {
                let live = current_live("eu", &rows);
                let samples = vec![[0u64, 60_000, 100_000, 130_000, 400_000][pick % 5]; live];
                adjusted = control_tick(&cfg, adjusted, live, &samples).adjusted;
            }
            1 | 2 => {
                let action = loop_frontline_inner("eu", &rows, adjusted);
                apply_frontline_action(&mut rows, &action, step);
            }
            3 => {
                made += 1;
                let id = format!("bridge-{made}");
                insert_bridge(&mut rows, new_reserve_row(&id, &format!("10.9.{}.{}", made / 250, made % 250), "eu", step));
            }
            4 => {
                if !rows.is_empty() {
                    let at = pick % rows.len();
                    let (id, status) = (rows[at].bridge_id.clone(), rows[at].status.clone());
                    apply_verdict(&mut rows, &id, gfw_verdict(&status, pick % 3 == 0));
                    set_last_mbps(&mut rows, &id, (pick % 4_000) as u64);
                }
            }
            _ => {
                if let Some(id) = loop_prune_for_group("eu", &rows) {
                    delete_bridge(&mut rows, &id);
                }
            }
        }
        assert!(adjusted <= cap, "step {step}: adjusted {adjusted}");
        assert!(current_live("eu", &rows) <= cap, "step {step}");
    }
    assert!(made > 100);
}
