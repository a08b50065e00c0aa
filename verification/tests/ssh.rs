use phalanx::ssh::{ssh_arguments, ssh_outcome, SshError, SSH_MAX_SESSIONS, SSH_TIMEOUT_SECS};

#[test]
fn ssh_is_called_as_root_without_host_key_checks() {
    assert_eq!(
        ssh_arguments("198.51.100.7", "uptime"),
        vec![
            "-C",
            "-o",
            "ConnectTimeout=300",
            "-o",
            "StrictHostKeyChecking=no",
            "-o",
            "UserKnownHostsFile=/dev/null",
            "root@198.51.100.7",
            "uptime",
        ]
    );
}

#[test]
fn script_is_passed_as_one_argument() {
    let args = ssh_arguments("h", "a; b | c \"d e\"");
    assert_eq!(args.len(), 9);
    assert_eq!(args[8], "a; b | c \"d e\"");
}

#[test]
fn ssh_limits() {
    assert_eq!(SSH_TIMEOUT_SECS, 300);
    assert_eq!(SSH_MAX_SESSIONS, 512);
}

#[test]
fn successful_call_yields_what_was_printed() {
    assert_eq!(ssh_outcome(false, true, "ok\n".to_string()), Ok("ok\n".to_string()));
}

#[test]
fn failed_status_fails_the_call() {
    assert_eq!(ssh_outcome(false, false, "partial".to_string()), Err(SshError::Failed));
}

#[test]
fn timeout_fails_the_call() {
    assert_eq!(ssh_outcome(true, true, "late".to_string()), Err(SshError::Timeout));
    assert_eq!(ssh_outcome(true, false, String::new()), Err(SshError::Timeout));
}
