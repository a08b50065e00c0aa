//! Keeping a group's reserve filled: how many bridges to create, what to run
//! on a fresh server, and the row that a finished bridge gets.

use vstd::prelude::*;
use vstd::string::*;

use crate::chance::{random_u64, random_word};
use crate::config::{
    GroupConfig, Service, EARENDIL_GIST, GEPH4_GIST, GEPH5_EXIT_SCRIPT, GEPH5_GIST,
    LIMIT_BANDWIDTH_GIST,
};
use crate::database::{count_class, count_rows, table_of, BridgeInfo, BridgeRow, RowClass};
use crate::provider::{
    doomed_in, handles_of, retain_by_id, servers_of, texts_of, Provider, RemoteServer,
};
use crate::status::{reserve_text, Status};
use crate::text::{decimal, decimal_text};

verus! {

/// Most bridges that one pass creates.
pub const MAX_BATCH: usize = 64;

/// Number of bridges a pass creates: what the reserve lacks, but no more than
/// a batch.
pub open spec fn topup_of(reserve_count: int, reserve_target: int) -> int {
    if reserve_count >= reserve_target {
        0
    } else if reserve_target - reserve_count <= MAX_BATCH {
        reserve_target - reserve_count
    } else {
        MAX_BATCH as int
    }
}

/// Number of bridges a pass creates.
pub fn topup_count(reserve_count: usize, reserve_target: usize) -> (out: usize)
    ensures
        out == topup_of(reserve_count as int, reserve_target as int),
{
    if reserve_count >= reserve_target {
        0
    } else if reserve_target - reserve_count <= MAX_BATCH {
        reserve_target - reserve_count
    } else {
        MAX_BATCH
    }
}

/// The size of the reserve after `passes` passes, each of which creates what
/// it set out to create.
pub open spec fn reserve_after(reserve_count: int, reserve_target: int, passes: nat) -> int
    decreases passes,
{
    if passes == 0 {
        reserve_count
    } else {
        let before = reserve_after(reserve_count, reserve_target, (passes - 1) as nat);
        before + topup_of(before, reserve_target)
    }
}

/// A reserve that has reached its target makes a pass create nothing.
pub proof fn lemma_full_reserve_creates_nothing(reserve_count: int, reserve_target: int)
    requires
        reserve_count >= reserve_target,
    ensures
        topup_of(reserve_count, reserve_target) == 0,
{
}

/// A pass never overshoots: it lifts the reserve towards the target, by a
/// batch at most, and not beyond.
pub proof fn lemma_topup_never_overshoots(reserve_count: int, reserve_target: int)
    ensures
        0 <= topup_of(reserve_count, reserve_target) <= MAX_BATCH,
        reserve_count < reserve_target ==> reserve_count + topup_of(reserve_count, reserve_target)
            <= reserve_target,
        reserve_target - reserve_count <= MAX_BATCH ==> topup_of(
            reserve_count + topup_of(reserve_count, reserve_target),
            reserve_target,
        ) == 0,
{
}

/// Passes converge: after `n` of them the reserve holds `n` batches more, or
/// has reached its target and stays there.  However many passes run, and in
/// whatever order, the reserve ends at the same size.
pub proof fn lemma_passes_converge(reserve_count: int, reserve_target: int, passes: nat)
    ensures
        reserve_after(reserve_count, reserve_target, passes) == if reserve_count
            >= reserve_target {
            reserve_count
        } else if reserve_count + passes * MAX_BATCH >= reserve_target {
            reserve_target
        } else {
            reserve_count + passes * MAX_BATCH
        },
    decreases passes,
{
    if passes > 0 {
        lemma_passes_converge(reserve_count, reserve_target, (passes - 1) as nat);
        assert(passes * MAX_BATCH == (passes - 1) * MAX_BATCH + MAX_BATCH) by (nonlinear_arith);
    }
}

/// The name that fresh bridges of a group announce: the override, where the
/// group has one, else the group's own.
pub open spec fn remote_group_of(cfg: GroupConfig, alloc_group: Seq<char>) -> Seq<char> {
    match cfg.override_group {
        Some(name) => name@,
        None => alloc_group,
    }
}

/// The command that installs a service from its set-up script.
pub open spec fn deploy_command_of(
    url: Seq<char>,
    cachebust: nat,
    remote_group: Seq<char>,
    bridge_secret: Seq<char>,
) -> Seq<char> {
    "wget -qO- "@ + url + "?cachebust="@ + decimal(cachebust) + " | env AGROUP="@ + remote_group
        + " BSECRET="@ + bridge_secret + " sh"@
}

/// The command that sets an exit node up.
pub open spec fn exit_setup_command_of(auth_token: Seq<char>) -> Seq<char> {
    "wget -q -O /tmp/script.sh "@ + GEPH5_EXIT_SCRIPT@ + " && AUTH_TOKEN="@ + auth_token
        + " bash /tmp/script.sh"@
}

/// The line that overrides the country of an exit node, if one is set.
pub open spec fn country_line_of(cfg: GroupConfig) -> Seq<char> {
    match cfg.exit_country {
        Some(country) => "sed -i 's/^country: .*/country: "@ + country@
            + "/' /etc/geph5-exit/config.yaml\n"@,
        None => Seq::empty(),
    }
}

/// The line that overrides the city of an exit node, if one is set.
pub open spec fn city_line_of(cfg: GroupConfig) -> Seq<char> {
    match cfg.exit_city {
        Some(city) => "sed -i 's/^city: .*/city: "@ + city@ + "/' /etc/geph5-exit/config.yaml\n"@,
        None => Seq::empty(),
    }
}

/// The line that sets the total rate limit of an exit node, if one is set.
pub open spec fn ratelimit_line_of(cfg: GroupConfig) -> Seq<char> {
    match cfg.exit_total_ratelimit {
        Some(limit) => "echo 'total_ratelimit: "@ + decimal(limit as nat)
            + "' >> /etc/geph5-exit/config.yaml\n"@,
        None => Seq::empty(),
    }
}

/// Whether a group overrides anything in the settings of its exit nodes.
pub open spec fn overrides_exit(cfg: GroupConfig) -> bool {
    cfg.exit_country is Some || cfg.exit_city is Some || cfg.exit_total_ratelimit is Some
}

/// The command that rewrites the settings of an exit node and restarts it.
pub open spec fn exit_override_command_of(cfg: GroupConfig) -> Seq<char> {
    "bash -c \"cp /etc/geph5-exit/config.yaml /etc/geph5-exit/config.yaml.orig\n"@
        + country_line_of(cfg) + city_line_of(cfg) + ratelimit_line_of(cfg)
        + "systemctl restart geph5-exit\""@
}

/// The command that installs the enforcement of a traffic limit.
pub open spec fn limit_command_of(cachebust: nat, max_bandwidth_gb: nat) -> Seq<char> {
    "wget -qO- "@ + LIMIT_BANDWIDTH_GIST@ + "?cachebust="@ + decimal(cachebust)
        + " | env TRAFFIC_LIMIT_GB="@ + decimal(max_bandwidth_gb) + " sh"@
}

/// One command if the condition holds, none otherwise.
pub open spec fn one_if(cond: bool, command: Seq<char>) -> Seq<Seq<char>> {
    if cond {
        seq![command]
    } else {
        Seq::empty()
    }
}

/// Everything to run on a fresh server of a group, in order: one set-up
/// script per service the group runs, for exit nodes the overrides of their
/// settings, and last the traffic limit.
pub open spec fn commands_of(
    cfg: GroupConfig,
    alloc_group: Seq<char>,
    bridge_secret: Seq<char>,
    cachebust: nat,
    auth_token: Seq<char>,
) -> Seq<Seq<char>> {
    let group = remote_group_of(cfg, alloc_group);
    let runs = |s: Service| cfg.services@.contains(s);
    one_if(runs(Service::Geph4), deploy_command_of(GEPH4_GIST@, cachebust, group, bridge_secret))
        + one_if(
        runs(Service::Geph5),
        deploy_command_of(GEPH5_GIST@, cachebust, group, bridge_secret),
    ) + one_if(
        runs(Service::Earendil),
        deploy_command_of(EARENDIL_GIST@, cachebust, group, bridge_secret),
    ) + one_if(runs(Service::Geph5Exit), exit_setup_command_of(auth_token)) + one_if(
        runs(Service::Geph5Exit) && overrides_exit(cfg),
        exit_override_command_of(cfg),
    ) + match cfg.max_bandwidth_gb {
        Some(gb) => seq![limit_command_of(cachebust, gb as nat)],
        None => Seq::empty(),
    }
}

/// Whether a group runs a service.
pub fn runs_service(cfg: &GroupConfig, service: Service) -> (out: bool)
    ensures
        out == cfg.services@.contains(service),
{
    let mut i: usize = 0;
    while i < cfg.services.len()
        invariant
            i <= cfg.services@.len(),
            forall|k: int| 0 <= k < i ==> cfg.services@[k] != service,
        decreases cfg.services@.len() - i,
    {
        if cfg.services[i] == service {
            return true;
        }
        i += 1;
    }
    false
}

/// The command that installs a service from its set-up script.
pub fn deploy_command(url: &str, cachebust: u64, remote_group: &str, bridge_secret: &str) -> (out:
    String)
    ensures
        out@ == deploy_command_of(url@, cachebust as nat, remote_group@, bridge_secret@),
{
    let mut out = String::from_str("wget -qO- ");
    out.append(url);
    out.append("?cachebust=");
    out.append(decimal_text(cachebust).as_str());
    out.append(" | env AGROUP=");
    out.append(remote_group);
    out.append(" BSECRET=");
    out.append(bridge_secret);
    out.append(" sh");
    out
}

/// The command that sets an exit node up.
pub fn exit_setup_command(auth_token: &str) -> (out: String)
    ensures
        out@ == exit_setup_command_of(auth_token@),
{
    let mut out = String::from_str("wget -q -O /tmp/script.sh ");
    out.append(GEPH5_EXIT_SCRIPT);
    out.append(" && AUTH_TOKEN=");
    out.append(auth_token);
    out.append(" bash /tmp/script.sh");
    out
}

/// The command that rewrites the settings of an exit node and restarts it.
pub fn exit_override_command(cfg: &GroupConfig) -> (out: String)
    ensures
        out@ == exit_override_command_of(*cfg),
{
    let mut out = String::from_str(
        "bash -c \"cp /etc/geph5-exit/config.yaml /etc/geph5-exit/config.yaml.orig\n",
    );
    let ghost start = out@;
    match &cfg.exit_country {
        Some(country) => {
            out.append("sed -i 's/^country: .*/country: ");
            out.append(country.as_str());
            out.append("/' /etc/geph5-exit/config.yaml\n");
        },
        None => {},
    }
    assert(out@ =~= start + country_line_of(*cfg));
    match &cfg.exit_city {
        Some(city) => {
            out.append("sed -i 's/^city: .*/city: ");
            out.append(city.as_str());
            out.append("/' /etc/geph5-exit/config.yaml\n");
        },
        None => {},
    }
    assert(out@ =~= start + country_line_of(*cfg) + city_line_of(*cfg));
    match cfg.exit_total_ratelimit {
        Some(limit) => {
            out.append("echo 'total_ratelimit: ");
            out.append(decimal_text(limit).as_str());
            out.append("' >> /etc/geph5-exit/config.yaml\n");
        },
        None => {},
    }
    assert(out@ =~= start + country_line_of(*cfg) + city_line_of(*cfg) + ratelimit_line_of(*cfg));
    out.append("systemctl restart geph5-exit\"");
    out
}

/// The command that installs the enforcement of a traffic limit.
pub fn limit_command(cachebust: u64, max_bandwidth_gb: u64) -> (out: String)
    ensures
        out@ == limit_command_of(cachebust as nat, max_bandwidth_gb as nat),
{
    let mut out = String::from_str("wget -qO- ");
    out.append(LIMIT_BANDWIDTH_GIST);
    out.append("?cachebust=");
    out.append(decimal_text(cachebust).as_str());
    out.append(" | env TRAFFIC_LIMIT_GB=");
    out.append(decimal_text(max_bandwidth_gb).as_str());
    out.append(" sh");
    out
}

/// Everything to run on a fresh server of a group, in order.
pub fn provision_commands(
    cfg: &GroupConfig,
    alloc_group: &str,
    bridge_secret: &str,
    cachebust: u64,
    auth_token: &str,
) -> (out: Vec<String>)
    ensures
        texts_of(out@) == commands_of(
            *cfg,
            alloc_group@,
            bridge_secret@,
            cachebust as nat,
            auth_token@,
        ),
{
    let group: &str = match &cfg.override_group {
        Some(name) => name.as_str(),
        None => alloc_group,
    };
    assert(group@ == remote_group_of(*cfg, alloc_group@));
    let mut out: Vec<String> = Vec::new();
    let ghost c1 = one_if(
        cfg.services@.contains(Service::Geph4),
        deploy_command_of(GEPH4_GIST@, cachebust as nat, group@, bridge_secret@),
    );
    if runs_service(cfg, Service::Geph4) {
        out.push(deploy_command(GEPH4_GIST, cachebust, group, bridge_secret));
    }
    assert(texts_of(out@) =~= c1);
    let ghost c2 = c1 + one_if(
        cfg.services@.contains(Service::Geph5),
        deploy_command_of(GEPH5_GIST@, cachebust as nat, group@, bridge_secret@),
    );
    if runs_service(cfg, Service::Geph5) {
        out.push(deploy_command(GEPH5_GIST, cachebust, group, bridge_secret));
    }
    assert(texts_of(out@) =~= c2);
    let ghost c3 = c2 + one_if(
        cfg.services@.contains(Service::Earendil),
        deploy_command_of(EARENDIL_GIST@, cachebust as nat, group@, bridge_secret@),
    );
    if runs_service(cfg, Service::Earendil) {
        out.push(deploy_command(EARENDIL_GIST, cachebust, group, bridge_secret));
    }
    assert(texts_of(out@) =~= c3);
    let exit = runs_service(cfg, Service::Geph5Exit);
    let ghost c4 = c3 + one_if(exit, exit_setup_command_of(auth_token@));
    let ghost c5 = c4 + one_if(exit && overrides_exit(*cfg), exit_override_command_of(*cfg));
    if exit {
        out.push(exit_setup_command(auth_token));
        assert(texts_of(out@) =~= c4);
        if cfg.exit_country.is_some() || cfg.exit_city.is_some()
            || cfg.exit_total_ratelimit.is_some() {
            out.push(exit_override_command(cfg));
        }
    }
    assert(texts_of(out@) =~= c5);
    match cfg.max_bandwidth_gb {
        Some(gb) => {
            out.push(limit_command(cachebust, gb));
        },
        None => {},
    }
    assert(texts_of(out@) =~= c5 + match cfg.max_bandwidth_gb {
        Some(gb) => seq![limit_command_of(cachebust as nat, gb as nat)],
        None => Seq::empty(),
    });
    out
}

/// Words joined by dashes.
pub open spec fn dashed(words: Seq<Seq<char>>) -> Seq<char>
    decreases words.len(),
{
    if words.len() == 0 {
        Seq::empty()
    } else if words.len() == 1 {
        words[0]
    } else {
        dashed(words.drop_last()) + seq!['-'] + words.last()
    }
}

/// Joins words by dashes.
pub fn join_words(words: &Vec<String>) -> (out: String)
    ensures
        out@ == dashed(texts_of(words@)),
{
    let ghost texts = texts_of(words@);
    let mut out = String::new();
    let mut i: usize = 0;
    assert(texts.take(0) =~= Seq::<Seq<char>>::empty());
    proof {
        reveal_strlit("-");
    }
    while i < words.len()
        invariant
            texts == texts_of(words@),
            i <= words@.len(),
            out@ == dashed(texts.take(i as int)),
            "-"@ == seq!['-'],
        decreases words@.len() - i,
    {
        proof {
            let next = texts.take(i + 1);
            assert(next.drop_last() =~= texts.take(i as int));
            assert(next.last() == words@[i as int]@);
        }
        if i > 0 {
            out.append("-");
        }
        out.append(words[i].as_str());
        proof {
            if i == 0 {
                assert(out@ =~= words@[0]@);
            }
        }
        i += 1;
    }
    assert(texts.take(words@.len() as int) =~= texts);
    out
}

/// `id` is made of five words, none of them empty, joined by dashes.
pub open spec fn is_id_of(id: Seq<char>, words: Seq<Seq<char>>) -> bool {
    &&& words.len() == 5
    &&& forall|k: int| 0 <= k < words.len() ==> (#[trigger] words[k]).len() > 0
    &&& id == dashed(words)
}

/// A fresh bridge id: five random words of the large EFF word list, joined by
/// dashes.
pub fn new_id() -> (out: String)
    ensures
        exists|words: Seq<Seq<char>>| is_id_of(out@, words),
{
    let mut words: Vec<String> = Vec::new();
    words.push(random_word());
    words.push(random_word());
    words.push(random_word());
    words.push(random_word());
    words.push(random_word());
    let out = join_words(&words);
    assert(is_id_of(out@, texts_of(words@)));
    out
}

/// A number to put behind the address of a script so that no cache answers
/// for its server.
pub fn new_cachebust() -> (out: u64) {
    random_u64()
}

/// The row of a bridge that has just been set up: in reserve, with the time
/// of its creation and no throughput measured yet.
pub fn new_reserve_row(bridge_id: &str, ip_addr: &str, alloc_group: &str, now: i64) -> (out:
    BridgeInfo)
    ensures
        out@ == (BridgeRow {
            bridge_id: bridge_id@,
            ip_addr: ip_addr@,
            alloc_group: alloc_group@,
            status: reserve_text(),
            change_time: now as int,
            last_mbps: 0,
        }),
{
    BridgeInfo {
        bridge_id: String::from_str(bridge_id),
        ip_addr: String::from_str(ip_addr),
        alloc_group: String::from_str(alloc_group),
        status: Status::Reserve.name(),
        change_time: now,
        last_mbps: 0,
    }
}

/// What one pass over a group is to do.
#[derive(Debug)]
pub struct ProvisionPlan {
    /// Handles of the servers to delete, in the order of the listing.
    pub delete: Vec<String>,
    /// Number of bridges to create.
    pub create: usize,
}

/// Plans one pass over a group: first the servers to delete, those that no
/// row stands for; then how many bridges to create, so that the reserve
/// reaches its target.
pub fn loop_provision_once<P: Provider>(
    alloc_group: &str,
    cfg: &GroupConfig,
    provider: &P,
    servers: &Vec<RemoteServer>,
    creating: &Vec<String>,
    rows: &Vec<BridgeInfo>,
) -> (out: ProvisionPlan)
    ensures
        texts_of(out.delete@) == handles_of(
            servers_of(servers@).filter(
                doomed_in(provider.spec_prefix(), table_of(rows@), creating@),
            ),
        ),
        out.create == topup_of(
            count_class(table_of(rows@), alloc_group@, RowClass::Reserve) as int,
            cfg.reserve as int,
        ),
{
    let delete = retain_by_id(provider, servers, rows, creating);
    let reserve_count = count_rows(rows, alloc_group, RowClass::Reserve);
    let create = topup_count(reserve_count, cfg.reserve);
    ProvisionPlan { delete, create }
}

} // verus!
