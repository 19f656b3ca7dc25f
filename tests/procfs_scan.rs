use getpid::procfs::{candidate_pids, get_cmd_line, get_info_for, get_processes, ProcEntry, ProcFiles};

fn entry(name: &str, is_dir: bool) -> ProcEntry {
    ProcEntry { name: name.to_string(), is_dir }
}

#[test]
fn non_integer_directories_are_excluded() {
    let entries = vec![
        entry("self", true),
        entry("42x", true),
        entry("123", true),
        entry("77", false),
        entry("1", true),
    ];
    assert_eq!(candidate_pids(&entries), vec![123, 1]);
}

#[test]
fn vanished_process_gives_no_record() {
    assert_eq!(get_info_for(123, None, None, None), None);
    let candidates = vec![
        ProcFiles { pid: 123, comm: None, cmdline: None, exe: None },
        ProcFiles {
            pid: 124,
            comm: Some("bash\n".to_string()),
            cmdline: Some("-bash\0".to_string()),
            exe: Some("/usr/bin/bash".to_string()),
        },
    ];
    let entries = vec![entry("123", true), entry("124", true)];
    let snapshot = get_processes(&entries, candidates);
    assert_eq!(snapshot.len(), 1);
    assert_eq!(snapshot[0].pid, 124);
    assert_eq!(snapshot[0].cmd, "bash");
    assert_eq!(snapshot[0].full_cmd_path, Some("/usr/bin/bash".to_string()));
    assert_eq!(snapshot[0].args, Some(vec![]));
}

fn readable_files(pid: usize, name: &str) -> ProcFiles {
    ProcFiles {
        pid,
        comm: Some(format!("{}\n", name)),
        cmdline: Some(format!("{}\0", name)),
        exe: Some(format!("/bin/{}", name)),
    }
}

#[test]
fn only_listed_numeric_directories_give_records() {
    let entries = vec![entry("self", true), entry("42x", true), entry("7", true), entry("8", false)];
    let candidates = vec![readable_files(7, "init"), readable_files(8, "x"), readable_files(42, "y")];
    let snapshot = get_processes(&entries, candidates);
    assert_eq!(snapshot.len(), 1);
    assert_eq!(snapshot[0].pid, 7);
    assert_eq!(snapshot[0].cmd, "init");
}

#[test]
fn unreadable_link_or_arguments_skip_the_process() {
    let entries = vec![entry("5", true), entry("6", true), entry("7", true)];
    let mut no_exe = readable_files(5, "a");
    no_exe.exe = None;
    let mut no_args = readable_files(6, "b");
    no_args.cmdline = None;
    let snapshot = get_processes(&entries, vec![no_exe, no_args, readable_files(7, "c")]);
    assert_eq!(snapshot.len(), 1);
    assert_eq!(snapshot[0].pid, 7);
}

#[test]
fn unreadable_path_and_arguments_are_absent() {
    assert_eq!(get_info_for(9, Some("sshd\n".to_string()), None, None), None);
    assert_eq!(get_info_for(9, Some("sshd\n".to_string()), Some("sshd\0".to_string()), None), None);
    assert_eq!(get_info_for(9, Some("sshd\n".to_string()), None, Some("/usr/sbin/sshd".to_string())), None);
    let p = get_info_for(
        9,
        Some("sshd\n".to_string()),
        Some("/usr/sbin/sshd\0-D\0".to_string()),
        Some("/usr/sbin/sshd".to_string()),
    )
    .unwrap();
    assert_eq!(p.pid, 9);
    assert_eq!(p.cmd, "sshd");
    assert_eq!(p.full_cmd_path, Some("/usr/sbin/sshd".to_string()));
    assert_eq!(p.args, Some(vec!["-D".to_string()]));
}

#[test]
fn command_line_is_split_at_nulls() {
    assert_eq!(get_cmd_line("/usr/sbin/sshd\0-D\0-e\0"), vec!["-D", "-e"]);
    assert_eq!(get_cmd_line("/usr/sbin/sshd\0-D"), vec!["-D"]);
    assert_eq!(get_cmd_line("a\0\0b\0"), vec!["", "b"]);
    assert_eq!(get_cmd_line(""), Vec::<String>::new());
    assert_eq!(get_cmd_line("\0"), Vec::<String>::new());
}
