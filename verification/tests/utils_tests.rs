use rkh_chk::error::{IntErrorKind, MyError};
use rkh_chk::utils::{
    command_outcome, find_changed_files, find_offset, rkhunter_propupd_rpm, rkhunter_update,
    rpm_query_command, run_cmd_lenient, run_cmd_strict, yes_no_answer, INVALID_OFFSET, OFFSET_OOB,
    SCAN_SECTION_NOT_FOUND,
};

fn args(v: &[&str]) -> Vec<String> {
    v.iter().map(|s| s.to_string()).collect()
}

fn runtime(r: Result<usize, MyError>) -> String {
    match r {
        Err(MyError::Runtime(m)) => m,
        other => panic!("expected a runtime error, got {:?}", other),
    }
}

#[test]
fn find_offset_defaults_to_last() {
    assert_eq!(find_offset(args(&["rkh-chk"]), 10).unwrap(), 0);
    assert_eq!(find_offset(args(&[]), 10).unwrap(), 0);
    assert_eq!(find_offset(args(&["rkh-chk", "last"]), 10).unwrap(), 0);
    assert_eq!(find_offset(args(&["rkh-chk", "LaSt"]), 10).unwrap(), 0);
}

#[test]
fn find_offset_reads_last_n() {
    assert_eq!(find_offset(args(&["rkh-chk", "last-1"]), 10).unwrap(), 1);
    assert_eq!(find_offset(args(&["rkh-chk", "LAST-3"]), 10).unwrap(), 3);
    assert_eq!(find_offset(args(&["rkh-chk", "last-10"]), 10).unwrap(), 10);
    assert_eq!(find_offset(args(&["rkh-chk", "last-+4"]), 10).unwrap(), 4);
}

#[test]
fn find_offset_out_of_bounds() {
    assert_eq!(runtime(find_offset(args(&["rkh-chk", "last-11"]), 10)), OFFSET_OOB);
    assert_eq!(runtime(find_offset(args(&["rkh-chk", "last-1"]), 0)), OFFSET_OOB);
}

#[test]
fn find_offset_invalid_form() {
    assert_eq!(runtime(find_offset(args(&["rkh-chk", "first"]), 10)), INVALID_OFFSET);
    assert_eq!(runtime(find_offset(args(&["rkh-chk", "last1"]), 10)), INVALID_OFFSET);
    assert_eq!(runtime(find_offset(args(&["rkh-chk", ""]), 10)), INVALID_OFFSET);
    assert_eq!(runtime(find_offset(args(&["rkh-chk", "last-0"]), 10)), INVALID_OFFSET);
    assert_eq!(runtime(find_offset(args(&["rkh-chk", "LAST-00"]), 10)), INVALID_OFFSET);
}

#[test]
fn find_offset_parse_errors() {
    match find_offset(args(&["rkh-chk", "last-x"]), 10) {
        Err(MyError::Parse(k)) => assert_eq!(k, IntErrorKind::InvalidDigit),
        other => panic!("unexpected {:?}", other),
    }
    match find_offset(args(&["rkh-chk", "last-"]), 10) {
        Err(MyError::Parse(k)) => assert_eq!(k, IntErrorKind::Empty),
        other => panic!("unexpected {:?}", other),
    }
    match find_offset(args(&["rkh-chk", "last--1"]), 10) {
        Err(MyError::Parse(k)) => assert_eq!(k, IntErrorKind::InvalidDigit),
        other => panic!("unexpected {:?}", other),
    }
    match find_offset(args(&["rkh-chk", "last-+"]), 10) {
        Err(MyError::Parse(k)) => assert_eq!(k, IntErrorKind::InvalidDigit),
        other => panic!("unexpected {:?}", other),
    }
    match find_offset(args(&["rkh-chk", "last-99999999999999999999999"]), 10) {
        Err(MyError::Parse(k)) => assert_eq!(k, IntErrorKind::PosOverflow),
        other => panic!("unexpected {:?}", other),
    }
}

fn log(v: &[&str]) -> Vec<String> {
    v.iter().map(|s| s.to_string()).collect()
}

fn sample_log() -> Vec<String> {
    log(&[
        "[10:00:00] Info: Starting test name 'filesystem'",
        "[10:00:01] ---------------------- Start Rootkit Hunter Scan ----------------------",
        "[10:00:02] Warning: The file properties have changed:",
        "[10:00:02]          File: /usr/bin/old",
        "[10:00:03] ----------------------- End Rootkit Hunter Scan -----------------------",
        "[11:00:01] ---------------------- Start Rootkit Hunter Scan ----------------------",
        "[11:00:02] Warning: The file properties have changed:",
        "[11:00:02]          File: /usr/bin/less",
        "[11:00:02]          Current inode: 5249925    Stored inode: 5245064",
        "[11:00:03] Warning: The file properties have changed:",
        "[11:00:03] Warning: The file properties have changed:",
        "[11:00:03]          File: /usr/sbin/grpck  ",
        "[11:00:04] Warning: The file properties have changed:",
        "[11:00:04]          Current hash: abc",
        "[11:00:04]          File: /usr/bin/not-reported",
        "[11:00:05] ----------------------- End Rootkit Hunter Scan -----------------------",
        "[11:00:06] Warning: The file properties have changed:",
        "[11:00:06]          File: /usr/bin/after-end",
    ])
}

#[test]
fn find_changed_files_last_section() {
    // log lines carry a timestamp before the markers, so `File:` lines do not
    // open with the prefix: only lines opening with it (after white space) count
    let r = find_changed_files(sample_log(), 0).unwrap();
    assert!(r.is_empty());
}

#[test]
fn find_changed_files_readme_example() {
    let lines = log(&[
        " ---------------------- Start Rootkit Hunter Scan ----------------------",
        " Warning: The file properties have changed:",
        "          File: /usr/bin/less",
        "          Current inode: 5249925    Stored inode: 5245064",
        "",
        " ----------------------- End Rootkit Hunter Scan -----------------------",
    ]);
    assert_eq!(find_changed_files(lines, 0).unwrap(), vec!["/usr/bin/less".to_string()]);
}

fn two_sections() -> Vec<String> {
    log(&[
        "Start Rootkit Hunter Scan",
        "Warning: The file properties have changed:",
        "   File: /usr/bin/old",
        "End Rootkit Hunter Scan",
        "Start Rootkit Hunter Scan",
        "Warning: The file properties have changed:",
        "\tFile: /usr/bin/less ",
        "Warning: The file properties have changed:",
        "Warning: The file properties have changed:",
        "File:   /usr/sbin/grpck",
        "Warning: The file properties have changed:",
        "   Current hash: abc",
        "   File: /usr/bin/not-reported",
        "End Rootkit Hunter Scan",
        "Warning: The file properties have changed:",
        "   File: /usr/bin/after-end",
    ])
}

#[test]
fn find_changed_files_offsets() {
    assert_eq!(
        find_changed_files(two_sections(), 0).unwrap(),
        vec!["/usr/bin/less".to_string(), "/usr/sbin/grpck".to_string()]
    );
    assert_eq!(
        find_changed_files(two_sections(), 1).unwrap(),
        vec!["/usr/bin/old".to_string()]
    );
}

#[test]
fn find_changed_files_missing_section() {
    match find_changed_files(two_sections(), 2) {
        Err(MyError::Runtime(m)) => assert_eq!(m, SCAN_SECTION_NOT_FOUND),
        other => panic!("unexpected {:?}", other),
    }
    match find_changed_files(vec![], 0) {
        Err(MyError::Runtime(m)) => assert_eq!(m, SCAN_SECTION_NOT_FOUND),
        other => panic!("unexpected {:?}", other),
    }
}

#[test]
fn find_changed_files_unclosed_section() {
    let lines = log(&[
        "Start Rootkit Hunter Scan",
        "Warning: The file properties have changed:",
        "File: /a",
    ]);
    assert_eq!(find_changed_files(lines, 0).unwrap(), vec!["/a".to_string()]);
}

#[test]
fn yes_no_answers() {
    assert_eq!(yes_no_answer("y\n"), Some(true));
    assert_eq!(yes_no_answer("  YES  \n"), Some(true));
    assert_eq!(yes_no_answer("n\n"), Some(false));
    assert_eq!(yes_no_answer("No\n"), Some(false));
    assert_eq!(yes_no_answer("\n"), Some(false));
    assert_eq!(yes_no_answer(""), Some(false));
    assert_eq!(yes_no_answer("maybe\n"), None);
    assert_eq!(yes_no_answer("y es\n"), None);
}

#[test]
fn commands() {
    let r = run_cmd_strict("ls", &["-l", "/tmp"]);
    assert_eq!(r.program, "ls");
    assert_eq!(r.args, vec!["-l".to_string(), "/tmp".to_string()]);
    assert!(r.strict);
    let r = run_cmd_lenient("rpm", &["-qf", "/x"]);
    assert!(!r.strict);
    let r = rkhunter_update();
    assert_eq!(r.program, "rkhunter");
    assert_eq!(r.args, vec!["--update".to_string(), "--propupd".to_string()]);
    assert!(!r.strict);
    let r = rkhunter_propupd_rpm("less");
    assert_eq!(r.args, vec!["--propupd".to_string(), "less".to_string()]);
    let r = rpm_query_command("/usr/bin/less");
    assert_eq!(r.program, "rpm");
    assert_eq!(r.args, vec!["-qf".to_string(), "/usr/bin/less".to_string()]);
}

#[test]
fn command_outcome_lines() {
    let lenient = run_cmd_lenient("rpm", &["-qf", "/x"]);
    let r = command_outcome(&lenient, false, b"one\r\ntwo\nthree\n", b"err").unwrap();
    assert_eq!(r, vec!["one".to_string(), "two".to_string(), "three".to_string()]);
    let r = command_outcome(&lenient, true, b"", b"").unwrap();
    assert!(r.is_empty());
    let r = command_outcome(&lenient, true, b"a\n\nb", b"").unwrap();
    assert_eq!(r, vec!["a".to_string(), "".to_string(), "b".to_string()]);
    let r = command_outcome(&lenient, true, b"bad \xff byte", b"").unwrap();
    assert_eq!(r, vec!["bad \u{fffd} byte".to_string()]);
}

#[test]
fn command_outcome_strict_failure() {
    let strict = run_cmd_strict("dnf", &["history"]);
    match command_outcome(&strict, false, b"out", b"no such command\n") {
        Err(MyError::Command((c, e))) => {
            assert_eq!(c, "dnf");
            assert_eq!(e, "no such command\n");
        }
        other => panic!("unexpected {:?}", other),
    }
    assert_eq!(command_outcome(&strict, true, b"out", b"").unwrap(), vec!["out".to_string()]);
}

#[test]
fn find_changed_files_section_opening_at_last_line() {
    let lines = log(&[
        "Start Rootkit Hunter Scan",
        "Warning: The file properties have changed:",
        "File: /a",
        "End Rootkit Hunter Scan",
        "Start Rootkit Hunter Scan",
    ]);
    assert!(find_changed_files(lines.clone(), 0).unwrap().is_empty());
    assert_eq!(find_changed_files(lines, 1).unwrap(), vec!["/a".to_string()]);
}
