use rkh_chk::dnf::{DnfAction, DnfEvent, DnfHistory, DnfHistoryFrames, DnfReason};
use rkh_chk::error::{IntErrorKind, MyError};

fn runtime<T: std::fmt::Debug>(r: Result<T, MyError>) -> String {
    match r {
        Err(MyError::Runtime(m)) => m,
        other => panic!("expected a runtime error, got {:?}", other),
    }
}

#[test]
fn action_try_from() {
    assert_eq!(DnfAction::try_from("Install").unwrap(), DnfAction::Install);
    assert_eq!(DnfAction::try_from(" Upgrade ").unwrap(), DnfAction::Upgrade);
    assert_eq!(DnfAction::try_from("Remove").unwrap(), DnfAction::Remove);
    assert_eq!(DnfAction::try_from("Replaced").unwrap(), DnfAction::Replaced);
    assert_eq!(runtime(DnfAction::try_from(" Upgraded ")), "Unknown DNF Action: Upgraded");
}

#[test]
fn reason_try_from() {
    assert_eq!(DnfReason::try_from("Dependency").unwrap(), DnfReason::Dependency);
    assert_eq!(DnfReason::try_from("Weak Dependency").unwrap(), DnfReason::WeakDependency);
    assert_eq!(DnfReason::try_from("Group").unwrap(), DnfReason::Group);
    assert_eq!(DnfReason::try_from(" User").unwrap(), DnfReason::User);
    assert_eq!(DnfReason::try_from("External User").unwrap(), DnfReason::ExternalUser);
    assert_eq!(runtime(DnfReason::try_from("Weak  Dependency")), "Unknown DNF Reason: Weak  Dependency");
}

#[test]
fn labels_are_padded() {
    assert_eq!(DnfAction::Install.label(), "Install  ");
    assert_eq!(DnfAction::Replaced.label(), "Replace  ");
    assert_eq!(DnfReason::WeakDependency.label(), "Weak Dependency    ");
    assert_eq!(DnfReason::User.label(), "User               ");
}

#[test]
fn event_try_from_simple() {
    let e = DnfEvent::try_from("Upgrade   less-692-6.fc44.x86_64   User   updates").unwrap();
    assert_eq!(e.action, DnfAction::Upgrade);
    assert_eq!(e.rpm, "less-692-6.fc44.x86_64");
    assert_eq!(e.reason, DnfReason::User);
    assert_eq!(e.repository, "updates");
}

#[test]
fn event_try_from_two_word_reasons() {
    let e = DnfEvent::try_from("Install foo-1.0-1.x86_64 Weak Dependency fedora").unwrap();
    assert_eq!(e.reason, DnfReason::WeakDependency);
    assert_eq!(e.repository, "fedora");
    let e = DnfEvent::try_from("Remove bar-2.0-1.noarch External User @System").unwrap();
    assert_eq!(e.action, DnfAction::Remove);
    assert_eq!(e.reason, DnfReason::ExternalUser);
    assert_eq!(e.repository, "@System");
}

#[test]
fn event_try_from_errors() {
    assert_eq!(runtime(DnfEvent::try_from("Erase a-1 User r")), "Unknown DNF Action: Erase");
    assert_eq!(runtime(DnfEvent::try_from("Install a-1 Weak User r")), "Unknown Weak xxx DNF Reason");
    assert_eq!(
        runtime(DnfEvent::try_from("Install a-1 External Dependency r")),
        "Unknown External xxx DNF Reason"
    );
    assert_eq!(runtime(DnfEvent::try_from("Install a-1 Other r")), "Unknown DN Readon: Other");
}

#[test]
fn event_render_cuts_and_pads() {
    let e = DnfEvent::try_from("Upgrade less-692-6.fc44.x86_64 User updates").unwrap();
    let row = e.render();
    assert_eq!(
        row,
        format!("Upgrade    {:<44}  User                 updates", "less-692-6.fc44.x86_64")
    );
    let long = "a".repeat(50);
    let e = DnfEvent::try_from(&format!("Install {} Group fedora", long)).unwrap();
    assert_eq!(
        e.render(),
        format!("Install    {}  Group                fedora", "a".repeat(44))
    );
}

fn history_lines(events: &[&str]) -> Vec<String> {
    let mut v: Vec<String> = vec![
        "Transaction ID : 829".to_string(),
        "Begin time     : 2024-07-01 12:00:00".to_string(),
        "Begin rpmdb    : abc".to_string(),
        "End time       : 2024-07-01 12:00:10 (10 seconds)".to_string(),
        "End rpmdb      : def".to_string(),
        "User           : root <root>".to_string(),
        "Return-Code    : Success".to_string(),
        "Releasever     : 40".to_string(),
        "Description    : dnf upgrade less".to_string(),
        "Comment        :".to_string(),
        "Packages Altered:".to_string(),
        "    Action   Package   Reason   Repository".to_string(),
    ];
    for e in events {
        v.push(e.to_string());
    }
    v
}

#[test]
fn history_parses() {
    let lines = history_lines(&[
        "    Upgrade  less-692-6.fc44.x86_64  User  updates",
        "",
        "    Upgraded less-685-3.fc44.x86_64  User  @System",
    ]);
    // "Upgraded" is no action: the reading fails on that line
    assert_eq!(
        runtime(DnfHistory::try_from_cmd_output(lines, "UTC")),
        "Unknown DNF Action: Upgraded"
    );
    let lines = history_lines(&[
        "    Upgrade  less-692-6.fc44.x86_64  User  updates",
        "",
        "    Install  lesspipe-1.0-1.noarch  Weak Dependency  fedora",
    ]);
    let h = DnfHistory::try_from_cmd_output(lines, "UTC").unwrap();
    assert_eq!(h.transaction_id, 829);
    assert_eq!(h.description, "dnf upgrade less");
    assert_eq!(h.events.len(), 2);
    assert_eq!(h.events[1].rpm, "lesspipe-1.0-1.noarch");
    assert!(h.contains_rpm("less"));
    assert!(h.contains_rpm("lesspipe"));
    assert!(!h.contains_rpm("vim"));
    assert!(h.begin_time.text().starts_with("2024-07-01T12:00:00"));
    assert_eq!(h.begin_time.second(), 1719835200);
    assert_eq!(h.begin_time.nanosecond(), 0);
    assert_eq!(h.begin_time.zone_name(), Some("UTC".to_string()));
    assert_eq!(h.begin_time.local().parts(), (2024, 7, 1, 12, 0, 0, 0));
}

#[test]
fn history_errors() {
    let short: Vec<String> = history_lines(&[]).into_iter().take(12).collect();
    assert_eq!(
        runtime(DnfHistory::try_from_cmd_output(short, "UTC")),
        "DNF History Info output MUST be at least 13 lines long"
    );
    let mut lines = history_lines(&["Install a-1 User r"]);
    lines[0] = "Transaction: 829".to_string();
    assert_eq!(
        runtime(DnfHistory::try_from_cmd_output(lines, "UTC")),
        "DNF History Info line #0 is NOT Transaction ID"
    );
    let mut lines = history_lines(&["Install a-1 User r"]);
    lines[0] = "Transaction ID : 8x".to_string();
    match DnfHistory::try_from_cmd_output(lines, "UTC") {
        Err(MyError::Parse(k)) => assert_eq!(k, IntErrorKind::InvalidDigit),
        other => panic!("unexpected {:?}", other),
    }
    let mut lines = history_lines(&["Install a-1 User r"]);
    lines[1] = "Begin: 2024-07-01".to_string();
    assert_eq!(
        runtime(DnfHistory::try_from_cmd_output(lines, "UTC")),
        "DNF History Info line #1 is NOT Begin time"
    );
    let mut lines = history_lines(&["Install a-1 User r"]);
    lines[1] = "Begin time     : yesterday".to_string();
    match DnfHistory::try_from_cmd_output(lines, "UTC") {
        Err(MyError::DateTime(_)) => {}
        other => panic!("unexpected {:?}", other),
    }
    let mut lines = history_lines(&["Install a-1 User r"]);
    lines[8] = "Command        : dnf".to_string();
    assert_eq!(
        runtime(DnfHistory::try_from_cmd_output(lines, "UTC")),
        "DNF History Info line #8 is NOT Description"
    );
    let lines = history_lines(&["", "   "]);
    assert_eq!(
        runtime(DnfHistory::try_from_cmd_output(lines, "UTC")),
        "Invalid DNF History builder"
    );
}

#[test]
fn history_unknown_zone_is_a_date_time_error() {
    let lines = history_lines(&["Install a-1 User r"]);
    match DnfHistory::try_from_cmd_output(lines, "Nowhere/Atlantis") {
        Err(MyError::DateTime(_)) => {}
        other => panic!("unexpected {:?}", other),
    }
}

#[test]
fn parse_cmd_output_detects_missing_words() {
    let lines = history_lines(&["Install a-1 User"]);
    assert!(DnfHistory::parse_cmd_output(lines, "UTC").is_none());
    // an earlier error comes first
    let mut lines = history_lines(&["Install a-1 User"]);
    lines[0] = "nope".to_string();
    assert!(DnfHistory::parse_cmd_output(lines, "UTC").unwrap().is_err());
    let lines = history_lines(&["Install a-1 User r"]);
    assert!(DnfHistory::parse_cmd_output(lines, "UTC").unwrap().is_ok());
}

#[test]
fn details_lines_filter_events() {
    let lines = history_lines(&[
        "Upgrade less-692-6.fc44.x86_64 User updates",
        "Install vim-minimal-9.1-1.x86_64 Dependency fedora",
    ]);
    let h = DnfHistory::try_from_cmd_output(lines, "UTC").unwrap();
    let out = h.details_lines(&vec!["vim".to_string()]);
    assert_eq!(out.len(), 7);
    assert_eq!(out[0], "Transaction: #829");
    assert!(out[1].starts_with("When       : "));
    assert_eq!(out[2], "Description: dnf upgrade less");
    assert_eq!(out[3], "Events:");
    assert_eq!(out[6], format!("  {}", h.events[1].render()));
    assert!(h.details_lines(&vec!["emacs".to_string()]).is_empty());
    let text = h.render();
    assert!(text.starts_with("Transaction: #829When       : "));
    assert!(text.ends_with(&h.events[1].render()));
}

#[test]
fn frames_search() {
    let mut frames = DnfHistoryFrames::new();
    assert!(frames.is_empty());
    let rpms = vec!["less".to_string(), "vim".to_string()];
    assert!(frames.needs_more(&rpms, 2));
    assert_eq!(frames.next_frame_argument(3, 2).unwrap(), "last-3");
    let h = DnfHistory::try_from_cmd_output(
        history_lines(&["Upgrade less-692-6.fc44.x86_64 User updates"]),
        "UTC",
    )
    .unwrap();
    frames = frames.grow(h);
    assert_eq!(frames.len(), 1);
    assert!(frames.contains_rpm("less", 0));
    assert!(!frames.contains_rpm("vim", 0));
    assert!(frames.needs_more(&rpms, 2));
    assert!(!frames.needs_more(&vec!["less".to_string()], 2));
    assert!(!frames.needs_more(&rpms, 0));
    assert_eq!(frames.next_frame_argument(3, 2).unwrap(), "last-4");
    assert_eq!(
        runtime(frames.next_frame_argument(3, 0)),
        "Maximum DNF History frames count reached"
    );
    let out = frames.details_lines(&rpms);
    assert_eq!(out[0], "----- DNF History Info Record(s) -----");
    assert_eq!(out[out.len() - 1], "-----");
    assert_eq!(out.len(), 2 + 7);
}

#[test]
fn labels_read_back() {
    for r in [
        DnfReason::Dependency,
        DnfReason::WeakDependency,
        DnfReason::Group,
        DnfReason::User,
        DnfReason::ExternalUser,
    ] {
        assert_eq!(DnfReason::try_from(&r.label()).unwrap(), r);
    }
    for a in [DnfAction::Install, DnfAction::Upgrade, DnfAction::Remove] {
        assert_eq!(DnfAction::try_from(&a.label()).unwrap(), a);
    }
    // `Replaced` is shown as `Replace`, which names no action
    assert!(DnfAction::try_from(&DnfAction::Replaced.label()).is_err());
}

#[test]
fn frame_argument_reads_back_as_offset() {
    let frames = DnfHistoryFrames::new();
    for offset in [1usize, 3, 10, 12345] {
        let arg = frames.next_frame_argument(offset, 2).unwrap();
        let args = vec!["rkh-chk".to_string(), arg];
        assert_eq!(rkh_chk::utils::find_offset(args, usize::MAX).unwrap(), offset);
    }
}

#[test]
fn begin_time_seen_in_configured_zone() {
    let lines = history_lines(&["Install a-1 User r"]);
    let h = DnfHistory::try_from_cmd_output(lines, "europe/paris").unwrap();
    assert_eq!(h.begin_time.second(), 1719835200);
    assert_eq!(h.begin_time.zone_name(), Some("Europe/Paris".to_string()));
    assert!(h.begin_time.text().starts_with("2024-07-01T14:00:00+02:00"));
    assert_eq!(h.begin_time.local().parts(), (2024, 7, 1, 14, 0, 0, 0));
}

#[test]
fn parsed_output_matches_direct_reading() {
    let lines = history_lines(&["Install a-1 User r"]);
    let h = DnfHistory::parse_cmd_output(lines, "UTC").unwrap().unwrap();
    assert_eq!(h.transaction_id, 829);
    assert_eq!(h.description, "dnf upgrade less");
    assert_eq!(h.events.len(), 1);
    assert_eq!(h.events[0].rpm, "a-1");
    assert_eq!(h.begin_time.second(), 1719835200);
    let short: Vec<String> = history_lines(&[]).into_iter().take(12).collect();
    match DnfHistory::parse_cmd_output(short, "UTC") {
        Some(Err(MyError::Runtime(m))) => {
            assert_eq!(m, "DNF History Info output MUST be at least 13 lines long")
        }
        other => panic!("unexpected {:?}", other),
    }
    let lacking = history_lines(&["Install a-1 User"]);
    assert!(DnfHistory::parse_cmd_output(lacking, "UTC").is_none());
}

#[test]
fn relevant_frames_mention_a_package() {
    let with_less = DnfHistory::try_from_cmd_output(
        history_lines(&["Upgrade less-692-6.fc44.x86_64 User updates"]),
        "UTC",
    )
    .unwrap();
    let with_vim = DnfHistory::try_from_cmd_output(
        history_lines(&["Install vim-minimal-9.1-1.x86_64 Dependency fedora"]),
        "UTC",
    )
    .unwrap();
    let frames = DnfHistoryFrames::new().grow(with_vim).grow(with_less);
    let rpms = vec!["less".to_string()];
    assert!(!frames.mentions_any(&rpms, 0));
    assert!(frames.mentions_any(&rpms, 1));
    assert!(frames.mentions("less"));
    assert!(!frames.mentions("emacs"));
    let asked = vec!["emacs".to_string(), "less".to_string(), "vim-minimal".to_string(), "nano".to_string()];
    assert_eq!(frames.unfound(&asked), vec!["emacs".to_string(), "nano".to_string()]);
    let kept = frames.relevant(&rpms);
    assert_eq!(kept.len(), 1);
    assert!(kept.contains_rpm("less", 0));
}

#[test]
fn rendered_rows_read_back() {
    for line in [
        "Install less-692-6.fc44.x86_64 User updates",
        "Upgrade foo-1.0-1.noarch Weak Dependency fedora",
        "Remove bar-2.0-1.noarch External User @System",
        "Install baz-3-1.x86_64 Group fedora",
        "Upgrade qux-4-1.x86_64 Dependency updates",
    ] {
        let e = DnfEvent::try_from(line).unwrap();
        let back = DnfEvent::try_from(&e.render()).unwrap();
        assert_eq!(back.action, e.action);
        assert_eq!(back.rpm, e.rpm);
        assert_eq!(back.reason, e.reason);
        assert_eq!(back.repository, e.repository);
    }
}

#[test]
fn history_reading_ignores_spacing() {
    let a = history_lines(&["Upgrade less-692-6.fc44.x86_64 User updates"]);
    let mut b = a.clone();
    b[0] = "   Transaction ID : 829  ".to_string();
    b[3] = "anything at all".to_string();
    b[8] = "\tDescription    : dnf upgrade less ".to_string();
    b[10] = "".to_string();
    b[12] = "  Upgrade less-692-6.fc44.x86_64 User updates\t".to_string();
    let ha = DnfHistory::try_from_cmd_output(a, "UTC").unwrap();
    let hb = DnfHistory::try_from_cmd_output(b, "UTC").unwrap();
    assert_eq!(ha.transaction_id, hb.transaction_id);
    assert_eq!(ha.description, hb.description);
    assert_eq!(ha.events.len(), hb.events.len());
    assert_eq!(ha.events[0].rpm, hb.events[0].rpm);
    assert_eq!(ha.begin_time.second(), hb.begin_time.second());
}
