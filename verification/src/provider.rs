//! Drivers: what the controller needs to know of a cloud backend in order to
//! decide, and the decisions it takes on a backend's answers.
//!
//! A driver names the servers it creates after the bridge they carry: a
//! prefix of its own, then the bridge id.  Servers whose name starts with the
//! prefix are the fleet's; any other server on the account is left alone.

pub mod hetzner;
pub mod ip_fresher;
pub mod lightsail;
pub mod linode;
pub mod oneprovider;
pub mod ovh;
pub mod scaleway;
pub mod serverspace;
pub mod vultr;

use vstd::prelude::*;
use vstd::string::*;

use crate::database::{has_id, knows_id, table_of, BridgeInfo, BridgeRow};
use crate::text::{contains, has_prefix, join, occurs_in, strip_prefix};

verus! {

/// A server as a backend lists it.
#[derive(Debug)]
pub struct RemoteServer {
    /// What the backend wants to be told in order to delete the server.
    pub handle: String,
    /// The name the server was created under.
    pub name: String,
}

/// What a listed server says.
pub struct ServerView {
    pub handle: Seq<char>,
    pub name: Seq<char>,
}

impl View for RemoteServer {
    type V = ServerView;

    open spec fn view(&self) -> ServerView {
        ServerView { handle: self.handle@, name: self.name@ }
    }
}

/// What a list of servers says.
pub open spec fn servers_of(servers: Seq<RemoteServer>) -> Seq<ServerView> {
    servers.map_values(|s: RemoteServer| s@)
}

/// What the controller needs to know of a driver.
pub trait Provider {
    /// What the driver puts before a bridge id to name a server.
    spec fn spec_prefix(&self) -> Seq<char>;

    /// Whether the addresses the driver hands out are checked against the
    /// ledger of addresses the fleet has used.
    spec fn spec_rotates_ips(&self) -> bool;

    /// What the driver puts before a bridge id to name a server.
    fn prefix(&self) -> (out: String)
        ensures
            out@ == self.spec_prefix(),
    ;

    /// Whether the addresses the driver hands out are checked against the
    /// ledger of addresses the fleet has used.
    fn rotates_ips(&self) -> (out: bool)
        ensures
            out == self.spec_rotates_ips(),
    ;
}

/// The bridge id that a server name stands for.
pub open spec fn id_in_name(prefix: Seq<char>, name: Seq<char>) -> Seq<char> {
    name.subrange(prefix.len() as int, name.len() as int)
}

/// Whether one of the ids in flight is the given one.
pub open spec fn in_flight(creating: Seq<String>, id: Seq<char>) -> bool {
    exists|k: int| 0 <= k < creating.len() && (#[trigger] creating[k])@ == id
}

/// Whether a listed server is to be deleted: it carries the driver's prefix,
/// no row has the id in its name, and no bridge of that id is being created.
pub open spec fn doomed(
    prefix: Seq<char>,
    table: Seq<BridgeRow>,
    creating: Seq<String>,
    server: ServerView,
) -> bool {
    &&& has_prefix(server.name, prefix)
    &&& !has_id(table, id_in_name(prefix, server.name))
    &&& !in_flight(creating, id_in_name(prefix, server.name))
}

/// `doomed`, as a predicate on servers.
pub open spec fn doomed_in(
    prefix: Seq<char>,
    table: Seq<BridgeRow>,
    creating: Seq<String>,
) -> spec_fn(ServerView) -> bool {
    |server: ServerView| doomed(prefix, table, creating, server)
}

/// The handles of a list of servers.
pub open spec fn handles_of(servers: Seq<ServerView>) -> Seq<Seq<char>> {
    servers.map_values(|s: ServerView| s.handle)
}

/// What a list of texts says.
pub open spec fn texts_of(texts: Seq<String>) -> Seq<Seq<char>> {
    texts.map_values(|t: String| t@)
}

/// The name under which a driver creates the server for a bridge.
pub fn server_name<P: Provider>(provider: &P, id: &str) -> (out: String)
    ensures
        out@ == provider.spec_prefix() + id@,
{
    let prefix = provider.prefix();
    join(prefix.as_str(), id)
}

/// The bridge id a server was created for, or `None` for a server that is
/// not the fleet's.
pub fn bridge_id_of<P: Provider>(provider: &P, name: &str) -> (out: Option<String>)
    ensures
        out is Some <==> has_prefix(name@, provider.spec_prefix()),
        out matches Some(id) ==> id@ == id_in_name(provider.spec_prefix(), name@),
{
    let prefix = provider.prefix();
    let out = strip_prefix(name, prefix.as_str());
    proof {
        if out is Some {
            assert(out.unwrap()@ =~= id_in_name(provider.spec_prefix(), name@));
        }
    }
    out
}

/// Whether a bridge of the given id is being created.
pub fn is_in_flight(creating: &Vec<String>, id: &str) -> (out: bool)
    ensures
        out == in_flight(creating@, id@),
{
    let wanted = String::from_str(id);
    let mut k: usize = 0;
    while k < creating.len()
        invariant
            wanted@ == id@,
            k <= creating@.len(),
            forall|j: int| 0 <= j < k ==> (#[trigger] creating@[j])@ != id@,
        decreases creating@.len() - k,
    {
        if creating[k] == wanted {
            return true;
        }
        k += 1;
    }
    false
}

/// Whether a listed server is to be deleted.
pub fn is_doomed<P: Provider>(
    provider: &P,
    rows: &Vec<BridgeInfo>,
    creating: &Vec<String>,
    server: &RemoteServer,
) -> (out: bool)
    ensures
        out == doomed(provider.spec_prefix(), table_of(rows@), creating@, server@),
{
    match bridge_id_of(provider, server.name.as_str()) {
        Some(id) => !knows_id(rows, id.as_str()) && !is_in_flight(creating, id.as_str()),
        None => false,
    }
}

/// Reconciles a backend with the bridge table: of the servers the backend
/// lists, says which to delete, by handle and in the order of the listing.
/// Kept are the servers that a row stands for, those of bridges that are
/// being created, and those that are not the fleet's.
pub fn retain_by_id<P: Provider>(
    provider: &P,
    servers: &Vec<RemoteServer>,
    rows: &Vec<BridgeInfo>,
    creating: &Vec<String>,
) -> (out: Vec<String>)
    ensures
        texts_of(out@) == handles_of(
            servers_of(servers@).filter(
                doomed_in(provider.spec_prefix(), table_of(rows@), creating@),
            ),
        ),
{
    let ghost listed = servers_of(servers@);
    let ghost gone = doomed_in(provider.spec_prefix(), table_of(rows@), creating@);
    let mut out: Vec<String> = Vec::new();
    let mut i: usize = 0;
    assert(listed.take(0).filter(gone) =~= Seq::<ServerView>::empty()) by {
        reveal(Seq::filter);
    }
    assert(texts_of(out@) =~= handles_of(listed.take(0).filter(gone)));
    while i < servers.len()
        invariant
            listed == servers_of(servers@),
            gone == doomed_in(provider.spec_prefix(), table_of(rows@), creating@),
            i <= servers@.len(),
            texts_of(out@) == handles_of(listed.take(i as int).filter(gone)),
        decreases servers@.len() - i,
    {
        let hit = is_doomed(provider, rows, creating, &servers[i]);
        let ghost before = out@;
        if hit {
            out.push(servers[i].handle.clone());
        }
        proof {
            let next = listed.take(i + 1);
            assert(next.last() == servers@[i as int]@);
            assert(gone(next.last()) == hit);
            assert(next =~= listed.take(i as int).push(next.last()));
            listed.take(i as int).lemma_filter_push(next.last(), gone);
            if hit {
                assert(texts_of(out@) =~= texts_of(before).push(servers@[i as int].handle@));
                assert(handles_of(listed.take(i as int).filter(gone).push(next.last()))
                    =~= handles_of(listed.take(i as int).filter(gone)).push(next.last().handle));
            }
        }
        i += 1;
    }
    assert(listed.take(servers@.len() as int) =~= listed);
    out
}

/// The opposite of `doomed`, as a predicate on servers.
pub open spec fn kept_in(
    prefix: Seq<char>,
    table: Seq<BridgeRow>,
    creating: Seq<String>,
) -> spec_fn(ServerView) -> bool {
    |server: ServerView| !doomed(prefix, table, creating, server)
}

/// Some listed server carries the name of the bridge.
pub open spec fn has_server(listed: Seq<ServerView>, prefix: Seq<char>, id: Seq<char>) -> bool {
    exists|k: int| 0 <= k < listed.len() && (#[trigger] listed[k]).name == prefix + id
}

/// Once the doomed servers of a listing are gone, and while no bridge is
/// being created, every server of the fleet that is left has a row.  No row
/// loses its server: a row that had a server before has one after.
pub proof fn lemma_reconciled(prefix: Seq<char>, table: Seq<BridgeRow>, listed: Seq<ServerView>)
    ensures
        ({
            let left = listed.filter(kept_in(prefix, table, Seq::<String>::empty()));
            &&& forall|k: int|
                0 <= k < left.len() && has_prefix((#[trigger] left[k]).name, prefix) ==> has_id(
                    table,
                    id_in_name(prefix, left[k].name),
                )
            &&& forall|i: int|
                0 <= i < table.len() && has_server(listed, prefix, (#[trigger] table[i]).bridge_id)
                    ==> has_server(left, prefix, table[i].bridge_id)
        }),
{
    let none = Seq::<String>::empty();
    let keep = kept_in(prefix, table, none);
    let left = listed.filter(keep);
    assert forall|k: int|
        0 <= k < left.len() && has_prefix((#[trigger] left[k]).name, prefix) implies has_id(
        table,
        id_in_name(prefix, left[k].name),
    ) by {
        listed.lemma_filter_pred(keep, k);
        assert(!doomed(prefix, table, none, left[k]));
        assert(!in_flight(none, id_in_name(prefix, left[k].name)));
    }
    assert forall|i: int|
        0 <= i < table.len() && has_server(
            listed,
            prefix,
            (#[trigger] table[i]).bridge_id,
        ) implies has_server(left, prefix, table[i].bridge_id) by {
        let id = table[i].bridge_id;
        let k = choose|k: int| 0 <= k < listed.len() && (#[trigger] listed[k]).name == prefix + id;
        assert(id_in_name(prefix, listed[k].name) =~= id);
        assert(has_id(table, id));
        assert(keep(listed[k]));
        listed.lemma_filter_contains(keep, k);
        let j = choose|j: int| 0 <= j < left.len() && left[j] == listed[k];
        assert(left[j].name == prefix + id);
    }
}

/// A server of a bridge that is being created is never doomed, and neither
/// is a server that a row stands for.
pub proof fn lemma_in_flight_is_kept(
    prefix: Seq<char>,
    table: Seq<BridgeRow>,
    creating: Seq<String>,
    server: ServerView,
)
    requires
        has_prefix(server.name, prefix),
        in_flight(creating, id_in_name(prefix, server.name)) || has_id(
            table,
            id_in_name(prefix, server.name),
        ),
    ensures
        !doomed(prefix, table, creating, server),
{
}

/// The text by which a command-line tool of a backend tells of a failure.
pub open spec fn error_mark() -> Seq<char> {
    seq!['A', 'n', ' ', 'e', 'r', 'r', 'o', 'r']
}

/// What a finished command on this machine means: it has failed if it ended
/// with a status other than zero or wrote of an error; what it wrote to the
/// error stream then tells why.  Any other command yields what it printed.
pub fn system_outcome(success: bool, stdout: String, stderr: String) -> (out: Result<
    String,
    String,
>)
    ensures
        out == if occurs_in(stderr@, error_mark()) || !success {
            Err::<String, String>(stderr)
        } else {
            Ok::<String, String>(stdout)
        },
{
    proof {
        reveal_strlit("An error");
        assert("An error"@ =~= error_mark());
    }
    if contains(stderr.as_str(), "An error") || !success {
        Err(stderr)
    } else {
        Ok(stdout)
    }
}

/// The command that tells whether a host takes connections on port 22.
pub open spec fn reachability_command_of(ip: Seq<char>) -> Seq<char> {
    "nc -vzw 2 "@ + ip + " 22"@
}

/// The command that tells whether a host takes connections on port 22.
pub fn reachability_command(ip: &str) -> (out: String)
    ensures
        out@ == reachability_command_of(ip@),
{
    let mut out = String::from_str("nc -vzw 2 ");
    out.append(ip);
    out.append(" 22");
    out
}

} // verus!
