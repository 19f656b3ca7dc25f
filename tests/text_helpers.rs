use getpid::text::{find, parse_pid, split_fields, split_tail, strip_trailing, trim};

#[test]
fn parse_pid_accepts_positive_decimal() {
    assert_eq!(parse_pid("123"), Some(123));
    assert_eq!(parse_pid("007"), Some(7));
}

#[test]
fn parse_pid_rejects_other_text() {
    assert_eq!(parse_pid("self"), None);
    assert_eq!(parse_pid("42x"), None);
    assert_eq!(parse_pid(""), None);
    assert_eq!(parse_pid("0"), None);
    assert_eq!(parse_pid("+5"), None);
    assert_eq!(parse_pid("-5"), None);
}

#[test]
fn parse_pid_rejects_overflow() {
    let too_big = format!("{}0", usize::MAX);
    assert_eq!(parse_pid(&too_big), None);
    assert_eq!(parse_pid(&usize::MAX.to_string()), Some(usize::MAX));
}

#[test]
fn trim_strips_spaces_only() {
    assert_eq!(trim("  a b  "), "a b");
    assert_eq!(trim("   "), "");
    assert_eq!(trim("\ta\n"), "\ta\n");
}

#[test]
fn strip_trailing_removes_one() {
    assert_eq!(strip_trailing("bash\n", '\n'), "bash");
    assert_eq!(strip_trailing("bash\n\n", '\n'), "bash\n");
    assert_eq!(strip_trailing("bash", '\n'), "bash");
}

#[test]
fn split_fields_keeps_empty_pieces() {
    assert_eq!(split_fields("a,b,,c", ','), vec!["a", "b", "", "c"]);
    assert_eq!(split_fields("", ','), vec![""]);
    assert_eq!(split_fields(",", ','), vec!["", ""]);
}

#[test]
fn split_tail_drops_first() {
    assert_eq!(split_tail("prog -a b", ' '), vec!["-a", "b"]);
    assert_eq!(split_tail("prog", ' '), Vec::<String>::new());
    assert_eq!(split_tail("", ' '), Vec::<String>::new());
}

#[test]
fn find_gives_first_offset() {
    assert_eq!(find("PID ARGS COMM", "ARGS"), Some(4));
    assert_eq!(find("PID ARGS COMM", "COMM"), Some(9));
    assert_eq!(find("PID ARGS", "COMM"), None);
    assert_eq!(find("abab", "ab"), Some(0));
    assert_eq!(find("ab", "abc"), None);
}
