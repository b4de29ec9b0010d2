use rkh_chk::error::MyError;
use rkh_chk::rpm::{rpm_name, FindRpmsOutcome, RpmQueryOutcome};
use rkh_chk::utils::{find_rpms, rpm_query};

fn lines(v: &[&str]) -> Vec<String> {
    v.iter().map(|s| s.to_string()).collect()
}

#[test]
fn rpm_name_strips_version_release_arch() {
    assert_eq!(rpm_name("less-692-6.fc44.x86_64"), "less");
    assert_eq!(rpm_name("python3-libs-3.12.1-1.fc39.x86_64"), "python3-libs");
    assert_eq!(rpm_name("kernel-core-6.8.5-301.fc40.x86_64"), "kernel-core");
    assert_eq!(rpm_name("shadow-utils-4.15.1-2.fc41.x86_64"), "shadow-utils");
}

#[test]
fn rpm_name_without_version_keeps_whole_name() {
    assert_eq!(rpm_name("foo-bar"), "foo-bar");
    assert_eq!(rpm_name("foo"), "foo");
    assert_eq!(rpm_name(""), "");
}

#[test]
fn rpm_name_leading_digit_keeps_whole_name() {
    assert_eq!(rpm_name("1abc-2-3"), "1abc-2-3");
}

#[test]
fn rpm_name_is_idempotent_on_examples() {
    for n in ["less-692-6.fc44.x86_64", "a--1", "-1-2", "x-y-z", "pkg-v1-2"] {
        let once = rpm_name(n);
        assert_eq!(rpm_name(&once), once);
    }
}

#[test]
fn rpm_name_empty_pieces() {
    // the first piece that opens with a digit is the version
    assert_eq!(rpm_name("a--1"), "a-");
    assert_eq!(rpm_name("-1-2"), "");
    assert_eq!(rpm_name("pkg-v1-2"), "pkg-v1");
}

#[test]
fn rpm_query_owned() {
    let r = rpm_query("/usr/bin/less", Ok(lines(&["less-692-6.fc44.x86_64"]))).unwrap();
    match r {
        RpmQueryOutcome::OwnedBy(x) => assert_eq!(x, "less"),
        _ => panic!("expected an owner"),
    }
}

#[test]
fn rpm_query_not_owned() {
    let r = rpm_query(
        "/usr/sbin/grpck",
        Ok(lines(&["file /usr/sbin/grpck is not owned by any package"])),
    )
    .unwrap();
    match r {
        RpmQueryOutcome::NotOwned(x) => assert_eq!(x, "/usr/sbin/grpck"),
        _ => panic!("expected no owner"),
    }
}

#[test]
fn rpm_query_too_many_lines() {
    let r = rpm_query("/x", Ok(lines(&["a-1", "b-2"])));
    match r {
        Err(MyError::Runtime(m)) => {
            assert_eq!(m, "Wasn't expecting more than 1 RPM providing `/x`; found 2. Break..")
        }
        _ => panic!("expected an error"),
    }
    let r = rpm_query("/y", Ok(vec![]));
    match r {
        Err(MyError::Runtime(m)) => {
            assert_eq!(m, "Wasn't expecting more than 1 RPM providing `/y`; found 0. Break..")
        }
        _ => panic!("expected an error"),
    }
}

#[test]
fn rpm_query_passes_command_error() {
    let r = rpm_query("/x", Err(MyError::IO("boom".to_string())));
    match r {
        Err(MyError::IO(m)) => assert_eq!(m, "boom"),
        _ => panic!("expected the command's error"),
    }
}

#[test]
fn find_rpms_collects_each_once() {
    let files = lines(&["/usr/bin/less", "/usr/bin/lessecho", "/usr/sbin/grpck", "/usr/bin/vi"]);
    let outputs = vec![
        Ok(lines(&["less-692-6.fc44.x86_64"])),
        Ok(lines(&["less-692-6.fc44.x86_64"])),
        Ok(lines(&["file /usr/sbin/grpck is not owned by any package"])),
        Ok(lines(&["vim-minimal-9.1.1-1.fc40.x86_64"])),
    ];
    let o = find_rpms(files, outputs).unwrap();
    assert_eq!(o.rpms, vec!["less".to_string(), "vim-minimal".to_string()]);
    assert_eq!(o.unclaimed_files, vec!["/usr/sbin/grpck".to_string()]);
}

#[test]
fn find_rpms_stops_at_first_failure() {
    let files = lines(&["/a", "/b", "/c"]);
    let outputs = vec![
        Ok(lines(&["a-1"])),
        Ok(lines(&["b-1", "b2-1"])),
        Err(MyError::IO("later".to_string())),
    ];
    match find_rpms(files, outputs) {
        Err(MyError::Runtime(m)) => {
            assert_eq!(m, "Wasn't expecting more than 1 RPM providing `/b`; found 2. Break..")
        }
        _ => panic!("expected the first failure"),
    }
}

#[test]
fn find_rpms_empty() {
    let o = find_rpms(vec![], vec![]).unwrap();
    assert!(o.rpms.is_empty());
    assert!(o.unclaimed_files.is_empty());
}

#[test]
fn record_adds_once_and_keeps_state_on_error() {
    let mut o = FindRpmsOutcome::new();
    o.record("/usr/bin/less", Ok(lines(&["less-692-6.fc44.x86_64"]))).unwrap();
    o.record("/usr/bin/lesskey", Ok(lines(&["less-692-6.fc44.x86_64"]))).unwrap();
    o.record("/usr/sbin/grpck", Ok(lines(&["file /usr/sbin/grpck is not owned by any package"]))).unwrap();
    assert_eq!(o.rpms, vec!["less".to_string()]);
    assert_eq!(o.unclaimed_files, vec!["/usr/sbin/grpck".to_string()]);
    match o.record("/x", Ok(vec![])) {
        Err(MyError::Runtime(m)) => {
            assert_eq!(m, "Wasn't expecting more than 1 RPM providing `/x`; found 0. Break..")
        }
        other => panic!("unexpected {:?}", other),
    }
    assert_eq!(o.rpms, vec!["less".to_string()]);
    assert_eq!(o.unclaimed_files, vec!["/usr/sbin/grpck".to_string()]);
}
