use rkh_chk::dnf::{DnfHistory, DnfHistoryFrames};
use rkh_chk::rpm::FindRpmsOutcome;
use rkh_chk::workflow::{next_action, Action, Event, Workflow, UPDATE_NOTICE, UPDATE_PROMPT};

fn strings(v: &[&str]) -> Vec<String> {
    v.iter().map(|s| s.to_string()).collect()
}

fn outcome(rpms: &[&str], unclaimed: &[&str]) -> FindRpmsOutcome {
    let mut o = FindRpmsOutcome::new();
    o.rpms = strings(rpms);
    o.unclaimed_files = strings(unclaimed);
    o
}

#[test]
fn no_changed_files_stops() {
    let (s, a) = next_action(Workflow::Start, Event::Files(vec![]));
    assert!(matches!(s, Workflow::Finished));
    assert!(matches!(a, Action::Finish));
}

#[test]
fn changed_files_are_queried() {
    let (s, a) = next_action(Workflow::Start, Event::Files(strings(&["/a"])));
    assert!(matches!(s, Workflow::Querying));
    match a {
        Action::QueryRpms(f) => assert_eq!(f, strings(&["/a"])),
        other => panic!("unexpected {:?}", other),
    }
}

#[test]
fn unclaimed_files_offer_update_then_stop() {
    let (s, a) = next_action(Workflow::Querying, Event::Owners(outcome(&["less"], &["/x"])));
    match a {
        Action::Ask(p) => assert_eq!(p, UPDATE_PROMPT),
        other => panic!("unexpected {:?}", other),
    }
    let (s, a) = next_action(s, Event::Answer(true));
    match a {
        Action::Run(c, notice) => {
            assert_eq!(notice, UPDATE_NOTICE);
            assert_eq!(c.program, "rkhunter");
            assert_eq!(c.args, strings(&["--update", "--propupd"]));
        }
        other => panic!("unexpected {:?}", other),
    }
    let (s, a) = next_action(s, Event::Done);
    assert!(matches!(s, Workflow::Finished));
    assert!(matches!(a, Action::Finish));
}

#[test]
fn declined_update_goes_on_with_packages() {
    let (s, _) = next_action(Workflow::Querying, Event::Owners(outcome(&["less"], &["/x"])));
    let (_, a) = next_action(s, Event::Answer(false));
    match a {
        Action::FindHistory(r) => assert_eq!(r, strings(&["less"])),
        other => panic!("unexpected {:?}", other),
    }
    let (s, a) = next_action(Workflow::Querying, Event::Owners(outcome(&[], &["/x"])));
    assert!(matches!(a, Action::Ask(_)));
    let (s2, a) = next_action(s, Event::Answer(false));
    assert!(matches!(s2, Workflow::Finished));
    assert!(matches!(a, Action::Finish));
}

fn frame(event: &str) -> DnfHistory {
    let mut v: Vec<String> = strings(&[
        "Transaction ID : 829",
        "Begin time     : 2024-07-01 12:00:00",
        "", "", "", "", "", "",
        "Description    : dnf upgrade",
        "", "", "",
    ]);
    v.push(event.to_string());
    DnfHistory::try_from_cmd_output(v, "UTC").unwrap()
}

#[test]
fn packages_are_shown_and_asked_one_by_one() {
    let (s, a) = next_action(Workflow::Querying, Event::Owners(outcome(&["less", "vim"], &[])));
    assert!(matches!(a, Action::FindHistory(_)));
    let frames = DnfHistoryFrames::new()
        .grow(frame("Install emacs-29-1.x86_64 User fedora"))
        .grow(frame("Upgrade less-692-6.fc44.x86_64 User updates"));
    let (s, a) = next_action(s, Event::Frames(frames));
    match a {
        Action::Show(lines) => {
            // only the frame that mentions a package is shown
            assert_eq!(lines.len(), 2 + 7);
            assert_eq!(lines[0], "----- DNF History Info Record(s) -----");
            assert_eq!(lines[8], "-----");
        }
        other => panic!("unexpected {:?}", other),
    }
    let (s, a) = next_action(s, Event::Done);
    match a {
        Action::Ask(p) => assert_eq!(p, "Invoke rkhunter update for package 'less'"),
        other => panic!("unexpected {:?}", other),
    }
    let (s, a) = next_action(s, Event::Answer(true));
    match a {
        Action::Run(c, notice) => {
            assert_eq!(c.args, strings(&["--propupd", "less"]));
            assert_eq!(notice, "About to run 'rkhunter --propupd less'. Shouldn't take long...");
        }
        other => panic!("unexpected {:?}", other),
    }
    let (s, a) = next_action(s, Event::Done);
    assert!(matches!(a, Action::Separate));
    let (s, a) = next_action(s, Event::Done);
    match a {
        Action::Ask(p) => assert_eq!(p, "Invoke rkhunter update for package 'vim'"),
        other => panic!("unexpected {:?}", other),
    }
    let (s, a) = next_action(s, Event::Answer(false));
    assert!(matches!(a, Action::Separate));
    let (s, a) = next_action(s, Event::Done);
    assert!(matches!(s, Workflow::Finished));
    assert!(matches!(a, Action::Finish));
}

#[test]
fn unexpected_event_stops() {
    let (s, a) = next_action(Workflow::Start, Event::Done);
    assert!(matches!(s, Workflow::Finished));
    assert!(matches!(a, Action::Finish));
}
