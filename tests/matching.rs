use getpid::matcher::{find_process, MatchError};
use getpid::process::Process;
use getpid::text::basename;

fn rec(pid: usize, cmd: &str) -> Process {
    Process { pid, cmd: cmd.to_string(), full_cmd_path: None, args: None }
}

#[test]
fn unique_name_gives_its_pid() {
    let snapshot = vec![rec(100, "sshd"), rec(205, "bash")];
    let found = find_process(snapshot, "bash").unwrap();
    assert_eq!(found.pid, 205);
    assert_eq!(found.cmd, "bash");
}

#[test]
fn absent_name_is_not_found() {
    let snapshot = vec![rec(100, "sshd"), rec(205, "bash")];
    assert_eq!(find_process(snapshot, "nginx"), Err(MatchError::NotFound("nginx".to_string())));
}

#[test]
fn shared_name_is_ambiguous_with_count() {
    let snapshot = vec![rec(100, "sshd"), rec(205, "bash"), rec(310, "bash")];
    assert_eq!(
        find_process(snapshot, "bash"),
        Err(MatchError::Ambiguous("bash".to_string(), 2))
    );
}

#[test]
fn three_sharing_a_name_count_three() {
    let snapshot = vec![rec(1, "sh"), rec(2, "/bin/sh"), rec(3, "sh")];
    assert_eq!(find_process(snapshot, "sh"), Err(MatchError::Ambiguous("sh".to_string(), 3)));
}

#[test]
fn empty_snapshot_finds_nothing() {
    assert_eq!(find_process(vec![], "bash"), Err(MatchError::NotFound("bash".to_string())));
}

#[test]
fn path_like_record_matches_its_basename() {
    let snapshot = vec![rec(7, "/usr/bin/foo"), rec(8, "bar")];
    assert_eq!(find_process(snapshot, "foo").unwrap().pid, 7);
}

#[test]
fn short_record_matches_same_name() {
    let snapshot = vec![rec(9, "foo")];
    assert_eq!(find_process(snapshot, "foo").unwrap().pid, 9);
}

#[test]
fn path_target_does_not_match_short_record() {
    let snapshot = vec![rec(9, "foo")];
    assert_eq!(
        find_process(snapshot, "/usr/bin/foo"),
        Err(MatchError::NotFound("/usr/bin/foo".to_string()))
    );
}

#[test]
fn matching_is_exact() {
    let snapshot = vec![rec(1, "Bash"), rec(2, "bash2"), rec(3, "bas")];
    assert_eq!(find_process(snapshot, "bash"), Err(MatchError::NotFound("bash".to_string())));
}

#[test]
fn found_record_keeps_its_fields() {
    let p = Process {
        pid: 42,
        cmd: "sshd".to_string(),
        full_cmd_path: Some("/usr/sbin/sshd".to_string()),
        args: Some(vec!["-D".to_string()]),
    };
    let found = find_process(vec![rec(1, "init"), p.clone()], "sshd").unwrap();
    assert_eq!(found, p);
}

#[test]
fn basename_takes_last_segment() {
    assert_eq!(basename("/usr/bin/foo"), "foo");
    assert_eq!(basename("foo"), "foo");
    assert_eq!(basename("/usr/bin/"), "");
    assert_eq!(basename(""), "");
}
