use phalanx::config::{
    GroupConfig, ProviderConfig, Service, EARENDIL_GIST, GEPH4_GIST, GEPH5_EXIT_SCRIPT, GEPH5_GIST,
    LIMIT_BANDWIDTH_GIST,
};
use phalanx::database::BridgeInfo;
use phalanx::loop_provision::{
    deploy_command, exit_override_command, exit_setup_command, join_words, limit_command,
    loop_provision_once, new_cachebust, new_id, new_reserve_row, provision_commands,
    runs_service, topup_count, MAX_BATCH,
};
use phalanx::provider::linode::{LinodeConfig, LinodeProvider};
use phalanx::provider::RemoteServer;

fn provision_group(services: Vec<Service>) -> GroupConfig {
    GroupConfig {
        frontline: 2,
        max_frontline: None,
        reserve: 2,
        override_group: None,
        no_antigfw: false,
        provider: ProviderConfig::Linode(provision_linode()),
        avg_lifetime_secs: 86_400,
        services,
        max_bandwidth_gb: None,
        target_mbps: 1_000_000,
        exit_country: None,
        exit_city: None,
        exit_total_ratelimit: None,
    }
}

fn provision_linode() -> LinodeConfig {
    LinodeConfig {
        api_token: "t".into(),
        region: "eu-west".into(),
        type_id: "g6-nanode-1".into(),
        image: "linode/debian11".into(),
        root_pass: "p".into(),
        authorized_keys: vec!["ssh-ed25519 AAAA".into()],
    }
}

fn provision_row(id: &str, group: &str, status: &str) -> BridgeInfo {
    BridgeInfo {
        bridge_id: id.into(),
        ip_addr: "10.2.0.1".into(),
        alloc_group: group.into(),
        status: status.into(),
        change_time: 0,
        last_mbps: 0,
    }
}

#[test]
fn full_reserve_creates_nothing() {
    assert_eq!(topup_count(2, 2), 0);
    assert_eq!(topup_count(3, 2), 0);
    assert_eq!(topup_count(0, 0), 0);
    assert_eq!(topup_count(usize::MAX, 0), 0);
}

#[test]
fn topup_fills_what_the_reserve_lacks() {
    assert_eq!(topup_count(0, 2), 2);
    assert_eq!(topup_count(1, 2), 1);
    assert_eq!(topup_count(10, 74), 64);
}

#[test]
fn topup_is_held_to_a_batch() {
    assert_eq!(MAX_BATCH, 64);
    assert_eq!(topup_count(0, 65), 64);
    assert_eq!(topup_count(0, 1_000), 64);
    assert_eq!(topup_count(0, usize::MAX), 64);
}

#[test]
fn passes_converge_on_the_target() {
    for target in [0usize, 1, 2, 64, 65, 200] {
        for start in [0usize, 1, 63, 64, 100, 300] {
            let mut reserve = start;
            for _ in 0..5 {
                reserve += topup_count(reserve, target);
            }
            assert_eq!(reserve, start.max(target));
            assert_eq!(topup_count(reserve, target), 0);
        }
    }
}

#[test]
fn deploy_command_pipes_the_script_into_a_shell() {
    assert_eq!(
        deploy_command(GEPH4_GIST, 42, "eu", "s3cr3t"),
        "wget -qO- https://gist.githubusercontent.com/nullchinchilla/746ec2007cc293af881f7354405cfb6e/raw/deploy-bridge-geph4.sh?cachebust=42 | env AGROUP=eu BSECRET=s3cr3t sh"
    );
    assert_eq!(
        deploy_command("http://x/y.sh", u64::MAX, "", ""),
        "wget -qO- http://x/y.sh?cachebust=18446744073709551615 | env AGROUP= BSECRET= sh"
    );
}

#[test]
fn exit_setup_runs_the_script_with_its_token() {
    assert_eq!(
        exit_setup_command("tok"),
        "wget -q -O /tmp/script.sh https://raw.githubusercontent.com/geph-official/geph5/master/deploy-exit.sh && AUTH_TOKEN=tok bash /tmp/script.sh"
    );
}

#[test]
fn exit_override_rewrites_what_is_set() {
    let mut cfg = provision_group(vec![Service::Geph5Exit]);
    cfg.exit_country = Some("CA".into());
    cfg.exit_total_ratelimit = Some(500);
    assert_eq!(
        exit_override_command(&cfg),
        "bash -c \"cp /etc/geph5-exit/config.yaml /etc/geph5-exit/config.yaml.orig\nsed -i 's/^country: .*/country: CA/' /etc/geph5-exit/config.yaml\necho 'total_ratelimit: 500' >> /etc/geph5-exit/config.yaml\nsystemctl restart geph5-exit\""
    );
    cfg.exit_country = None;
    cfg.exit_total_ratelimit = None;
    cfg.exit_city = Some("Montreal".into());
    assert_eq!(
        exit_override_command(&cfg),
        "bash -c \"cp /etc/geph5-exit/config.yaml /etc/geph5-exit/config.yaml.orig\nsed -i 's/^city: .*/city: Montreal/' /etc/geph5-exit/config.yaml\nsystemctl restart geph5-exit\""
    );
}

#[test]
fn limit_command_sets_the_traffic_limit() {
    assert_eq!(
        limit_command(7, 2_000),
        "wget -qO- https://gist.githubusercontent.com/nullchinchilla/4048244030910c0af9b61c42f98d8e65/raw/enforce-bandwidth-max.sh?cachebust=7 | env TRAFFIC_LIMIT_GB=2000 sh"
    );
}

#[test]
fn commands_follow_the_services_of_the_group() {
    let cfg = provision_group(vec![Service::Geph5]);
    assert!(runs_service(&cfg, Service::Geph5));
    assert!(!runs_service(&cfg, Service::Geph4));
    assert_eq!(
        provision_commands(&cfg, "eu", "sec", 9, "tok"),
        vec![deploy_command(GEPH5_GIST, 9, "eu", "sec")]
    );
    let cfg = provision_group(vec![Service::Earendil, Service::Geph5, Service::Geph4]);
    assert_eq!(
        provision_commands(&cfg, "eu", "sec", 9, "tok"),
        vec![
            deploy_command(GEPH4_GIST, 9, "eu", "sec"),
            deploy_command(GEPH5_GIST, 9, "eu", "sec"),
            deploy_command(EARENDIL_GIST, 9, "eu", "sec"),
        ]
    );
    assert!(provision_commands(&provision_group(Vec::new()), "eu", "sec", 9, "tok").is_empty());
}

#[test]
fn override_group_is_announced_in_place_of_the_group() {
    let mut cfg = provision_group(vec![Service::Geph4]);
    cfg.override_group = Some("eu-public".into());
    assert_eq!(
        provision_commands(&cfg, "eu", "sec", 1, "tok"),
        vec![deploy_command(GEPH4_GIST, 1, "eu-public", "sec")]
    );
}

#[test]
fn exit_nodes_are_set_up_and_then_overridden() {
    let mut cfg = provision_group(vec![Service::Geph5Exit]);
    assert_eq!(provision_commands(&cfg, "x", "sec", 1, "tok"), vec![exit_setup_command("tok")]);
    cfg.exit_city = Some("Oslo".into());
    cfg.max_bandwidth_gb = Some(100);
    assert_eq!(
        provision_commands(&cfg, "x", "sec", 1, "tok"),
        vec![exit_setup_command("tok"), exit_override_command(&cfg), limit_command(1, 100)]
    );
    assert!(exit_setup_command("tok").contains(GEPH5_EXIT_SCRIPT));
    assert!(limit_command(1, 100).contains(LIMIT_BANDWIDTH_GIST));
}

#[test]
fn overrides_are_for_exit_nodes_only() {
    let mut cfg = provision_group(vec![Service::Geph4]);
    cfg.exit_country = Some("CA".into());
    assert_eq!(
        provision_commands(&cfg, "eu", "sec", 1, "tok"),
        vec![deploy_command(GEPH4_GIST, 1, "eu", "sec")]
    );
}

#[test]
fn words_are_joined_by_dashes() {
    let words: Vec<String> = ["acid", "bell", "cube", "dove", "echo"].iter().map(|w| w.to_string()).collect();
    assert_eq!(join_words(&words), "acid-bell-cube-dove-echo");
    assert_eq!(join_words(&vec!["solo".to_string()]), "solo");
    assert_eq!(join_words(&Vec::new()), "");
    assert_eq!(join_words(&vec![String::new(), String::new()]), "-");
}

#[test]
fn new_ids_are_five_words_and_differ() {
    let id = new_id();
    assert!(id.matches('-').count() >= 4);
    assert!(id.split('-').all(|part| !part.is_empty()));
    assert!(id.chars().all(|c| c == '-' || c.is_ascii_lowercase()));
    let ids: Vec<String> = (0..20).map(|_| new_id()).collect();
    for (i, a) in ids.iter().enumerate() {
        for b in &ids[i + 1..] {
            assert_ne!(a, b);
        }
    }
}

#[test]
fn cachebusts_differ() {
    let seen: Vec<u64> = (0..8).map(|_| new_cachebust()).collect();
    assert!(seen.iter().any(|v| *v != seen[0]));
}

#[test]
fn fresh_bridge_goes_into_reserve() {
    let row = new_reserve_row("acid-bell", "203.0.113.9", "eu", 1_700_000_000_000_000);
    assert_eq!(row.bridge_id, "acid-bell");
    assert_eq!(row.ip_addr, "203.0.113.9");
    assert_eq!(row.alloc_group, "eu");
    assert_eq!(row.status, "reserve");
    assert_eq!(row.change_time, 1_700_000_000_000_000);
    assert_eq!(row.last_mbps, 0);
}

#[test]
fn pass_reaps_first_and_then_tops_up() {
    let provider = LinodeProvider::new(provision_linode());
    let mut cfg = provision_group(vec![Service::Geph5]);
    cfg.reserve = 3;
    let rows = vec![
        provision_row("kept", "eu", "reserve"),
        provision_row("live", "eu", "frontline"),
        provision_row("other", "us", "reserve"),
    ];
    let servers = vec![
        RemoteServer { handle: "1".into(), name: "bridge-kept".into() },
        RemoteServer { handle: "2".into(), name: "bridge-orphan".into() },
        RemoteServer { handle: "3".into(), name: "bridge-other".into() },
        RemoteServer { handle: "4".into(), name: "mailserver".into() },
    ];
    let plan = loop_provision_once("eu", &cfg, &provider, &servers, &Vec::new(), &rows);
    assert_eq!(plan.delete, vec!["2"]);
    assert_eq!(plan.create, 2);
}

#[test]
fn pass_over_a_full_reserve_creates_nothing() {
    let provider = LinodeProvider::new(provision_linode());
    let cfg = provision_group(vec![Service::Geph5]);
    let rows = vec![provision_row("a", "eu", "reserve"), provision_row("b", "eu", "reserve")];
    let plan = loop_provision_once("eu", &cfg, &provider, &Vec::new(), &Vec::new(), &rows);
    assert_eq!(plan.create, 0);
    assert!(plan.delete.is_empty());
}
