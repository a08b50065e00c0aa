//! Running a command on a bridge: how the remote shell is called, and what
//! its answer means.

use vstd::prelude::*;
use vstd::string::*;

use crate::provider::texts_of;

verus! {

/// Seconds after which a remote command is given up.
pub const SSH_TIMEOUT_SECS: u64 = 300;

/// Most remote commands that run at the same time.
pub const SSH_MAX_SESSIONS: usize = 512;

/// Why a remote command failed.
#[derive(Clone, Copy, Debug, PartialEq, Eq, Structural)]
pub enum SshError {
    /// No answer within the time allowed.
    Timeout,
    /// The command ended with a status other than zero.
    Failed,
}

/// The arguments with which `ssh` is called to run a command on a host as
/// root: compression on, no checking of host keys, no record of them.
pub open spec fn ssh_arguments_of(host: Seq<char>, cmd: Seq<char>) -> Seq<Seq<char>> {
    seq![
        "-C"@,
        "-o"@,
        "ConnectTimeout=300"@,
        "-o"@,
        "StrictHostKeyChecking=no"@,
        "-o"@,
        "UserKnownHostsFile=/dev/null"@,
        "root@"@ + host,
        cmd,
    ]
}

/// The arguments with which `ssh` is called to run a command on a host.
pub fn ssh_arguments(host: &str, cmd: &str) -> (out: Vec<String>)
    ensures
        texts_of(out@) == ssh_arguments_of(host@, cmd@),
{
    let mut out: Vec<String> = Vec::new();
    out.push(String::from_str("-C"));
    out.push(String::from_str("-o"));
    out.push(String::from_str("ConnectTimeout=300"));
    out.push(String::from_str("-o"));
    out.push(String::from_str("StrictHostKeyChecking=no"));
    out.push(String::from_str("-o"));
    out.push(String::from_str("UserKnownHostsFile=/dev/null"));
    out.push(String::from_str("root@").concat(host));
    out.push(String::from_str(cmd));
    assert(texts_of(out@) =~= ssh_arguments_of(host@, cmd@));
    out
}

/// What a finished call of the remote shell means: a call that ran out of
/// time has failed whatever else is known of it; one that ended with a
/// status other than zero has failed; any other yields what the command
/// printed.
pub fn ssh_outcome(timed_out: bool, success: bool, stdout: String) -> (out: Result<String, SshError>)
    ensures
        out == if timed_out {
            Err::<String, SshError>(SshError::Timeout)
        } else if !success {
            Err::<String, SshError>(SshError::Failed)
        } else {
            Ok::<String, SshError>(stdout)
        },
{
    if timed_out {
        Err(SshError::Timeout)
    } else if !success {
        Err(SshError::Failed)
    } else {
        Ok(stdout)
    }
}

} // verus!
