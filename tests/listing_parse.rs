use getpid::error::EnumerationError;
use getpid::listing::{parse_header, parse_line, get_processes, Columns};

#[test]
fn header_gives_column_offsets() {
    assert_eq!(parse_header("PID ARGS COMM"), Ok(Columns { args: 4, comm: 9 }));
    assert_eq!(parse_header("  PID ARGS         COMM"), Ok(Columns { args: 6, comm: 19 }));
}

#[test]
fn header_missing_column_is_fatal() {
    assert_eq!(parse_header("PID ARGS"), Err(EnumerationError::MissingColumn("COMM".to_string())));
    assert_eq!(parse_header("PID COMM"), Err(EnumerationError::MissingColumn("ARGS".to_string())));
    assert_eq!(parse_header("ARGS COMM"), Err(EnumerationError::MissingColumn("PID".to_string())));
}

#[test]
fn header_out_of_order_is_fatal() {
    assert_eq!(
        parse_header("COMM ARGS PID"),
        Err(EnumerationError::MalformedLine("COMM ARGS PID".to_string()))
    );
}

#[test]
fn data_line_is_cut_at_offsets() {
    let cols = Columns { args: 6, comm: 19 };
    let p = parse_line("  100 sshd -D -e   sshd", cols).unwrap();
    assert_eq!(p.pid, 100);
    assert_eq!(p.cmd, "sshd");
    assert_eq!(p.args, Some(vec!["-D".to_string(), "-e".to_string()]));
    assert_eq!(p.full_cmd_path, None);
}

#[test]
fn short_data_line_is_an_error() {
    let cols = parse_header("PID ARGS COMM").unwrap();
    assert_eq!(
        parse_line("12 ab", cols),
        Err(EnumerationError::MalformedLine("12 ab".to_string()))
    );
}

#[test]
fn data_line_without_pid_is_an_error() {
    let cols = Columns { args: 4, comm: 9 };
    assert_eq!(
        parse_line("abc x    y", cols),
        Err(EnumerationError::MalformedLine("abc x    y".to_string()))
    );
}

#[test]
fn whole_listing_parses() {
    let text = "  PID ARGS         COMM\n  100 sshd -D      /usr/sbin/sshd\n  205 -bash        bash\n";
    let snapshot = get_processes(text).unwrap();
    assert_eq!(snapshot.len(), 2);
    assert_eq!(snapshot[0].pid, 100);
    assert_eq!(snapshot[0].cmd, "/usr/sbin/sshd");
    assert_eq!(snapshot[1].pid, 205);
    assert_eq!(snapshot[1].cmd, "bash");
    assert_eq!(snapshot[1].args, Some(vec![]));
}

#[test]
fn listing_with_short_line_fails() {
    let text = "PID ARGS COMM\n1   init init\n2 x\n";
    assert_eq!(get_processes(text), Err(EnumerationError::MalformedLine("2 x".to_string())));
}

#[test]
fn listing_without_header_columns_fails() {
    assert_eq!(
        get_processes("USER TIME\n"),
        Err(EnumerationError::MissingColumn("PID".to_string()))
    );
}
