//! The decisions of the tool's workflow, from the changed files of a scan
//! section to the `rkhunter` commands to run: each step takes the state and
//! what the last action brought, and gives the next state and action.

use vstd::prelude::*;
use vstd::string::StringExecFns;
use crate::dnf::{mentioning_frames, shows_frames, DnfHistoryFrames};
use crate::rpm::FindRpmsOutcome;
use crate::text::views_of;
use crate::utils::{rkhunter_propupd_rpm, rkhunter_update, CommandRequest};

verus! {

/// The question asked when some changed files belong to no package.
pub const UPDATE_PROMPT: &'static str = "Invoke rkhunter --update --propupd";

/// What is told before the whole database is updated.
pub const UPDATE_NOTICE: &'static str = "About to update rkhunter. This may take a while...";

/// What is told before the database is updated for one package.
pub open spec fn package_notice(rpm: Seq<char>) -> Seq<char> {
    "About to run 'rkhunter --propupd "@ + rpm + "'. Shouldn't take long..."@
}

/// The question asked for each package that owns changed files.
pub open spec fn package_prompt(rpm: Seq<char>) -> Seq<char> {
    "Invoke rkhunter update for package '"@ + rpm + "'"@
}

/// Where the workflow stands.
#[derive(Debug)]
pub enum Workflow {
    /// Waiting for the changed files of the scan section.
    Start,
    /// Waiting for the packages that own the changed files.
    Querying,
    /// Asked whether to update the whole database; the packages to deal
    /// with otherwise.
    AskedUpdate(Vec<String>),
    /// Waiting for `rkhunter --update --propupd` to end.
    Updating,
    /// Waiting for the DNF history of the packages.
    Searching(Vec<String>),
    /// Waiting for the DNF history to be shown.
    Showing(Vec<String>),
    /// Asked whether to update the package at the index.
    AskedPackage(Vec<String>, usize),
    /// Waiting for `rkhunter --propupd` of the package at the index to end.
    RunningPackage(Vec<String>, usize),
    /// Waiting for the line that closes the package at the index.
    Separating(Vec<String>, usize),
    /// Done.
    Finished,
}

/// What the last action brought.
#[derive(Debug)]
pub enum Event {
    /// The changed files of the scan section.
    Files(Vec<String>),
    /// The packages that own the changed files, and the unclaimed files.
    Owners(FindRpmsOutcome),
    /// The user's answer to the question asked.
    Answer(bool),
    /// The DNF history frames read for the packages.
    Frames(DnfHistoryFrames),
    /// The action was carried out.
    Done,
}

/// What to do next.
#[derive(Debug)]
pub enum Action {
    /// Find the packages that own these changed files.
    QueryRpms(Vec<String>),
    /// Ask the user this yes/no question.
    Ask(String),
    /// Tell the user this notice, then run this command.
    Run(CommandRequest, String),
    /// Read the DNF history of these packages.
    FindHistory(Vec<String>),
    /// Show these lines.
    Show(Vec<String>),
    /// Close the package's part of the output with an empty line.
    Separate,
    /// Stop.
    Finish,
}

/// The workflow stops.
pub open spec fn finishes(r: (Workflow, Action)) -> bool {
    r.0 is Finished && r.1 is Finish
}

/// The workflow goes on to the DNF history of `rpms`, or stops when there is
/// no package.
pub open spec fn searches(r: (Workflow, Action), rpms: Seq<String>) -> bool {
    if rpms.len() == 0 {
        finishes(r)
    } else {
        (r.0 matches Workflow::Searching(v) && v@ == rpms) && (r.1 matches Action::FindHistory(w)
            && w@ == rpms)
    }
}

/// The workflow asks about the package at index `i`, or stops after the last.
pub open spec fn asks_package(r: (Workflow, Action), rpms: Seq<String>, i: int) -> bool {
    if 0 <= i < rpms.len() {
        (r.0 matches Workflow::AskedPackage(v, k) && v@ == rpms && k == i) && (r.1 matches Action::Ask(
            p,
        ) && p@ == package_prompt(rpms[i]@))
    } else {
        finishes(r)
    }
}

/// A copy of the strings.
fn copy_strings(v: &Vec<String>) -> (r: Vec<String>)
    ensures
        r@ == v@,
{
    let mut r: Vec<String> = Vec::new();
    let n = v.len();
    for i in 0..n
        invariant
            n == v@.len(),
            r@ == v@.take(i as int),
    {
        r.push(v[i].clone());
        assert(v@.take(i + 1) =~= v@.take(i as int).push(v@[i as int]));
    }
    assert(v@.take(n as int) =~= v@);
    r
}

fn go_search(rpms: Vec<String>) -> (r: (Workflow, Action))
    ensures
        searches(r, rpms@),
{
    if rpms.len() == 0 {
        (Workflow::Finished, Action::Finish)
    } else {
        let copy = copy_strings(&rpms);
        (Workflow::Searching(rpms), Action::FindHistory(copy))
    }
}

fn go_ask(rpms: Vec<String>, i: usize) -> (r: (Workflow, Action))
    ensures
        asks_package(r, rpms@, i as int),
{
    if i < rpms.len() {
        let mut prompt = "Invoke rkhunter update for package '".to_owned();
        prompt.append(rpms[i].as_str());
        prompt.append("'");
        (Workflow::AskedPackage(rpms, i), Action::Ask(prompt))
    } else {
        (Workflow::Finished, Action::Finish)
    }
}

/// The next state and action of the workflow. No changed files means stop.
/// Unclaimed files mean offer `rkhunter --update --propupd`; after a yes,
/// run it and stop. Otherwise read the DNF history of the packages, show
/// the frames that mention them, and ask once per package, running
/// `rkhunter --propupd <rpm>` exactly on a yes, each package closed by an
/// empty line. An event that does not fit the state stops the workflow.
pub fn next_action(state: Workflow, event: Event) -> (r: (Workflow, Action))
    ensures
        match (state, event) {
            (Workflow::Start, Event::Files(fs)) => if fs@.len() == 0 {
                finishes(r)
            } else {
                r.0 is Querying && (r.1 matches Action::QueryRpms(q) && q@ == fs@)
            },
            (Workflow::Querying, Event::Owners(o)) => if o.unclaimed_files@.len() > 0 {
                (r.0 matches Workflow::AskedUpdate(v) && v@ == o.rpms@) && (r.1 matches Action::Ask(
                    p,
                ) && p@ == UPDATE_PROMPT@)
            } else {
                searches(r, o.rpms@)
            },
            (Workflow::AskedUpdate(_), Event::Answer(true)) => r.0 is Updating && (r.1 matches Action::Run(
                c,
                n,
            ) && n@ == UPDATE_NOTICE@ && c.program@ == "rkhunter"@ && views_of(c.args@) == seq!["--update"@, "--propupd"@]
                && !c.strict),
            (Workflow::AskedUpdate(rpms), Event::Answer(false)) => searches(r, rpms@),
            (Workflow::Updating, Event::Done) => finishes(r),
            (Workflow::Searching(rpms), Event::Frames(f)) => (r.0 matches Workflow::Showing(v) && v@
                == rpms@) && (r.1 matches Action::Show(lines) && shows_frames(
                mentioning_frames(f@, views_of(rpms@)),
                views_of(rpms@),
                views_of(lines@),
            )),
            (Workflow::Showing(rpms), Event::Done) => asks_package(r, rpms@, 0),
            (Workflow::AskedPackage(rpms, i), Event::Answer(true)) => if i < rpms@.len() {
                (r.0 matches Workflow::RunningPackage(v, k) && v@ == rpms@ && k == i) && (r.1 matches Action::Run(
                    c,
                    n,
                ) && n@ == package_notice(rpms@[i as int]@) && c.program@ == "rkhunter"@ && views_of(c.args@) == seq![
                    "--propupd"@,
                    rpms@[i as int]@,
                ] && !c.strict)
            } else {
                finishes(r)
            },
            (Workflow::AskedPackage(rpms, i), Event::Answer(false)) => if i < rpms@.len() {
                (r.0 matches Workflow::Separating(v, k) && v@ == rpms@ && k == i) && r.1 is Separate
            } else {
                finishes(r)
            },
            (Workflow::RunningPackage(rpms, i), Event::Done) => (r.0 matches Workflow::Separating(v, k)
                && v@ == rpms@ && k == i) && r.1 is Separate,
            (Workflow::Separating(rpms, i), Event::Done) => if i < rpms@.len() {
                asks_package(r, rpms@, i + 1)
            } else {
                finishes(r)
            },
            _ => finishes(r),
        },
{
    match (state, event) {
        (Workflow::Start, Event::Files(fs)) => {
            if fs.len() == 0 {
                (Workflow::Finished, Action::Finish)
            } else {
                (Workflow::Querying, Action::QueryRpms(fs))
            }
        },
        (Workflow::Querying, Event::Owners(o)) => {
            if o.unclaimed_files.len() > 0 {
                (Workflow::AskedUpdate(o.rpms), Action::Ask(UPDATE_PROMPT.to_owned()))
            } else {
                go_search(o.rpms)
            }
        },
        (Workflow::AskedUpdate(rpms), Event::Answer(yes)) => {
            if yes {
                (Workflow::Updating, Action::Run(rkhunter_update(), UPDATE_NOTICE.to_owned()))
            } else {
                go_search(rpms)
            }
        },
        (Workflow::Updating, Event::Done) => (Workflow::Finished, Action::Finish),
        (Workflow::Searching(rpms), Event::Frames(f)) => {
            let lines = f.relevant(&rpms).details_lines(&rpms);
            (Workflow::Showing(rpms), Action::Show(lines))
        },
        (Workflow::Showing(rpms), Event::Done) => go_ask(rpms, 0),
        (Workflow::AskedPackage(rpms, i), Event::Answer(yes)) => {
            if i < rpms.len() {
                if yes {
                    let command = rkhunter_propupd_rpm(rpms[i].as_str());
                    let mut notice = "About to run 'rkhunter --propupd ".to_owned();
                    notice.append(rpms[i].as_str());
                    notice.append("'. Shouldn't take long...");
                    (Workflow::RunningPackage(rpms, i), Action::Run(command, notice))
                } else {
                    (Workflow::Separating(rpms, i), Action::Separate)
                }
            } else {
                (Workflow::Finished, Action::Finish)
            }
        },
        (Workflow::RunningPackage(rpms, i), Event::Done) => (
            Workflow::Separating(rpms, i),
            Action::Separate,
        ),
        (Workflow::Separating(rpms, i), Event::Done) => {
            if i < rpms.len() {
                go_ask(rpms, i + 1)
            } else {
                (Workflow::Finished, Action::Finish)
            }
        },
        _ => (Workflow::Finished, Action::Finish),
    }
}

} // verus!
