//! Artifacts and functions related to the DNF software package manager, as
//! used in this tool's context: parsing the output of `dnf history info`.

use vstd::prelude::*;
use vstd::string::StringExecFns;
use crate::config::UTC_TZ_NAME;
use crate::error::{IntErrorKind, MyError};
use crate::text::{
    all_white, is_white, lemma_trim_plain, lemma_words_concat, lemma_words_single, no_white,
    spaces, chars_eq, chars_of_all, decimal, decimal_chars, fit_to, fit_to_chars, from_chars, pad_right, pad_right_chars,
    parse_usize, parse_usize_chars, slice_chars, starts_with, starts_with_chars, to_chars, trim,
    trim_chars, views_of, words, words_chars,
};
use crate::time::{
    datetime_in_tz, instant_nanos, parse_datetime, parsed_datetime, utc_nanos, zone_named,
    zoned_in_tz, zoned_text, CivilTime, CivilView, ZonedTime, ZonedView,
};

verus! {

/// Enumeration of DNF Actions that appear in a `DnfEvent`.
#[derive(Clone, Copy, Debug, PartialEq, Eq, Structural)]
pub enum DnfAction {
    /// A new package was installed.
    Install,
    /// A newer version of a package replaced a previously installed one.
    Upgrade,
    /// A previously installed package was removed.
    Remove,
    /// A new package was installed replacing an obsolete one.
    Replaced,
}

/// The action that a (trimmed) word names.
pub open spec fn action_named(word: Seq<char>) -> Option<DnfAction> {
    if word == "Install"@ {
        Some(DnfAction::Install)
    } else if word == "Upgrade"@ {
        Some(DnfAction::Upgrade)
    } else if word == "Remove"@ {
        Some(DnfAction::Remove)
    } else if word == "Replaced"@ {
        Some(DnfAction::Replaced)
    } else {
        None
    }
}

/// The word shown for an action.
pub open spec fn action_word(a: DnfAction) -> Seq<char> {
    match a {
        DnfAction::Install => "Install"@,
        DnfAction::Upgrade => "Upgrade"@,
        DnfAction::Remove => "Remove"@,
        DnfAction::Replaced => "Replace"@,
    }
}

impl DnfAction {
    /// Reads an action from its name, white space around it ignored.
    pub fn try_from(value: &str) -> (r: Result<DnfAction, MyError>)
        ensures
            match action_named(trim(value@)) {
                Some(a) => r == Ok::<DnfAction, MyError>(a),
                None => r matches Err(MyError::Runtime(m)) && m@ == "Unknown DNF Action: "@ + trim(
                    value@,
                ),
            },
    {
        let t = trim_chars(&to_chars(value));
        if chars_eq(&t, &to_chars("Install")) {
            Ok(DnfAction::Install)
        } else if chars_eq(&t, &to_chars("Upgrade")) {
            Ok(DnfAction::Upgrade)
        } else if chars_eq(&t, &to_chars("Remove")) {
            Ok(DnfAction::Remove)
        } else if chars_eq(&t, &to_chars("Replaced")) {
            Ok(DnfAction::Replaced)
        } else {
            let mut msg = "Unknown DNF Action: ".to_owned();
            msg.append(from_chars(&t).as_str());
            Err(MyError::Runtime(msg))
        }
    }

    /// The action as shown in a table: its word padded to 9 characters.
    pub fn label(&self) -> (r: String)
        ensures
            r@ == pad_right(action_word(*self), 9),
    {
        let word = match self {
            DnfAction::Install => to_chars("Install"),
            DnfAction::Upgrade => to_chars("Upgrade"),
            DnfAction::Remove => to_chars("Remove"),
            DnfAction::Replaced => to_chars("Replace"),
        };
        from_chars(&pad_right_chars(&word, 9))
    }
}

/// Enumeration of DNF Reasons that appear in a `DnfEvent`.
#[derive(Clone, Copy, Debug, PartialEq, Eq, Structural)]
pub enum DnfReason {
    /// A required dependency of another package.
    Dependency,
    /// A weak dependency pulled by another package.
    WeakDependency,
    /// Package installed as part of a group.
    Group,
    /// Package requested by a user.
    User,
    /// Package with lost or unknown metadata.
    ExternalUser,
}

/// The reason that a (trimmed) text names.
pub open spec fn reason_named(text: Seq<char>) -> Option<DnfReason> {
    if text == "Dependency"@ {
        Some(DnfReason::Dependency)
    } else if text == "Weak Dependency"@ {
        Some(DnfReason::WeakDependency)
    } else if text == "Group"@ {
        Some(DnfReason::Group)
    } else if text == "User"@ {
        Some(DnfReason::User)
    } else if text == "External User"@ {
        Some(DnfReason::ExternalUser)
    } else {
        None
    }
}

/// The words shown for a reason.
pub open spec fn reason_words(r: DnfReason) -> Seq<char> {
    match r {
        DnfReason::Dependency => "Dependency"@,
        DnfReason::WeakDependency => "Weak Dependency"@,
        DnfReason::Group => "Group"@,
        DnfReason::User => "User"@,
        DnfReason::ExternalUser => "External User"@,
    }
}

impl DnfReason {
    /// Reads a reason from its name, white space around it ignored.
    pub fn try_from(value: &str) -> (r: Result<DnfReason, MyError>)
        ensures
            match reason_named(trim(value@)) {
                Some(a) => r == Ok::<DnfReason, MyError>(a),
                None => r matches Err(MyError::Runtime(m)) && m@ == "Unknown DNF Reason: "@ + trim(
                    value@,
                ),
            },
    {
        let t = trim_chars(&to_chars(value));
        if chars_eq(&t, &to_chars("Dependency")) {
            Ok(DnfReason::Dependency)
        } else if chars_eq(&t, &to_chars("Weak Dependency")) {
            Ok(DnfReason::WeakDependency)
        } else if chars_eq(&t, &to_chars("Group")) {
            Ok(DnfReason::Group)
        } else if chars_eq(&t, &to_chars("User")) {
            Ok(DnfReason::User)
        } else if chars_eq(&t, &to_chars("External User")) {
            Ok(DnfReason::ExternalUser)
        } else {
            let mut msg = "Unknown DNF Reason: ".to_owned();
            msg.append(from_chars(&t).as_str());
            Err(MyError::Runtime(msg))
        }
    }

    /// The reason as shown in a table: its words padded to 19 characters.
    pub fn label(&self) -> (r: String)
        ensures
            r@ == pad_right(reason_words(*self), 19),
    {
        let words = match self {
            DnfReason::Dependency => to_chars("Dependency"),
            DnfReason::WeakDependency => to_chars("Weak Dependency"),
            DnfReason::Group => to_chars("Group"),
            DnfReason::User => to_chars("User"),
            DnfReason::ExternalUser => to_chars("External User"),
        };
        from_chars(&pad_right_chars(&words, 19))
    }
}


/// Structure representing one line from the "Packages altered" section of
/// a `dnf history info ...` command.
#[derive(Clone, Debug)]
pub struct DnfEvent {
    /// The DNF Action that is responsible for the event.
    pub action: DnfAction,
    /// The full name of the RPM package involved.
    pub rpm: String,
    /// The DNF Reason (essentially the command) that created this event.
    pub reason: DnfReason,
    /// The DNF Repository where the RPM comes from.
    pub repository: String,
}

/// An event as plain values: action, package, reason, repository.
pub type EventView = (DnfAction, Seq<char>, DnfReason, Seq<char>);

impl DnfEvent {
    /// This event as plain values.
    pub open spec fn view_tuple(&self) -> EventView {
        (self.action, self.rpm@, self.reason, self.repository@)
    }
}

/// The reason that the words of an event line give from their third word
/// on, with the index of the repository word that follows; reasons may take
/// two words. An error carries its message; `None` when a second word is
/// wanted but missing.
pub open spec fn event_reason(toks: Seq<Seq<char>>) -> Option<Result<(DnfReason, int), Seq<char>>> {
    let w1 = toks[2];
    if w1 == "Dependency"@ {
        Some(Ok((DnfReason::Dependency, 3)))
    } else if w1 == "Group"@ {
        Some(Ok((DnfReason::Group, 3)))
    } else if w1 == "User"@ {
        Some(Ok((DnfReason::User, 3)))
    } else if w1 == "Weak"@ {
        if toks.len() < 4 {
            None
        } else if toks[3] == "Dependency"@ {
            Some(Ok((DnfReason::WeakDependency, 4)))
        } else {
            Some(Err("Unknown Weak xxx DNF Reason"@))
        }
    } else if w1 == "External"@ {
        if toks.len() < 4 {
            None
        } else if toks[3] == "User"@ {
            Some(Ok((DnfReason::ExternalUser, 4)))
        } else {
            Some(Err("Unknown External xxx DNF Reason"@))
        }
    } else {
        Some(Err("Unknown DN Readon: "@ + w1))
    }
}

/// What reading an event line gives: the event, or the message of the
/// error; `None` when the line lacks a word that the reading takes.
/// The words are: action, package, reason (one or two words), repository.
pub open spec fn event_fate(line: Seq<char>) -> Option<Result<EventView, Seq<char>>> {
    let toks = words(line);
    if toks.len() == 0 {
        None
    } else {
        match action_named(trim(toks[0])) {
            None => Some(Err("Unknown DNF Action: "@ + trim(toks[0]))),
            Some(a) => if toks.len() < 3 {
                None
            } else {
                match event_reason(toks) {
                    None => None,
                    Some(Err(m)) => Some(Err(m)),
                    Some(Ok((reason, k))) => if toks.len() <= k {
                        None
                    } else {
                        Some(Ok((a, toks[1], reason, toks[k])))
                    },
                }
            },
        }
    }
}

/// An event as a table row: action, package cut or padded to 44
/// characters, reason, repository, two spaces apart.
pub open spec fn event_row(e: EventView) -> Seq<char> {
    pad_right(action_word(e.0), 9) + "  "@ + fit_to(e.1, 44) + "  "@ + pad_right(reason_words(e.2), 19)
        + "  "@ + e.3
}

struct DnfEventBuilder {
    _action: Option<DnfAction>,
    _rpm: Option<String>,
    _reason: Option<DnfReason>,
    _repository: Option<String>,
}

impl DnfEventBuilder {
    fn new() -> (b: Self)
        ensures
            b._action is None,
            b._rpm is None,
            b._reason is None,
            b._repository is None,
    {
        DnfEventBuilder { _action: None, _rpm: None, _reason: None, _repository: None }
    }

    fn try_with_action(self, s: &str) -> (r: Result<Self, MyError>)
        ensures
            match action_named(trim(s@)) {
                Some(a) => r matches Ok(b) && b._action == Some(a) && b._rpm == self._rpm
                    && b._reason == self._reason && b._repository == self._repository,
                None => r matches Err(MyError::Runtime(m)) && m@ == "Unknown DNF Action: "@ + trim(
                    s@,
                ),
            },
    {
        let action = DnfAction::try_from(s)?;
        let mut b = self;
        b._action = Some(action);
        Ok(b)
    }

    fn with_rpm(self, s: &str) -> (b: Self)
        ensures
            b._rpm matches Some(x) && x@ == s@,
            b._action == self._action,
            b._reason == self._reason,
            b._repository == self._repository,
    {
        let mut b = self;
        b._rpm = Some(s.to_owned());
        b
    }

    fn with_reason(self, reason: DnfReason) -> (b: Self)
        ensures
            b._reason == Some(reason),
            b._action == self._action,
            b._rpm == self._rpm,
            b._repository == self._repository,
    {
        let mut b = self;
        b._reason = Some(reason);
        b
    }

    fn with_repository(self, s: &str) -> (b: Self)
        ensures
            b._repository matches Some(x) && x@ == s@,
            b._action == self._action,
            b._rpm == self._rpm,
            b._reason == self._reason,
    {
        let mut b = self;
        b._repository = Some(s.to_owned());
        b
    }

    fn is_valid(&self) -> (r: bool)
        ensures
            r == (self._action is Some && self._rpm is Some && self._reason is Some
                && self._repository is Some),
    {
        self._action.is_some() && self._rpm.is_some() && self._reason.is_some()
            && self._repository.is_some()
    }

    fn build(&self) -> (r: Result<DnfEvent, MyError>)
        ensures
            match (self._action, self._rpm, self._reason, self._repository) {
                (Some(a), Some(rpm), Some(reason), Some(repo)) => r matches Ok(e) && e.action == a
                    && e.rpm@ == rpm@ && e.reason == reason && e.repository@ == repo@,
                _ => r matches Err(MyError::Runtime(m)) && m@ == "Invalid DNF Event builder"@,
            },
    {
        match (&self._action, &self._rpm, &self._reason, &self._repository) {
            (Some(a), Some(rpm), Some(reason), Some(repo)) => Ok(
                DnfEvent { action: *a, rpm: rpm.clone(), reason: *reason, repository: repo.clone() },
            ),
            _ => Err(MyError::Runtime("Invalid DNF Event builder".to_owned())),
        }
    }
}

impl DnfEvent {
    /// Reads one line of the "Packages altered" section: the action, the
    /// package, the reason (one or two words) and the repository, separated
    /// by white space.
    ///
    /// Returns an error for an unknown action or reason.
    pub fn try_from(value: &str) -> (r: Result<DnfEvent, MyError>)
        requires
            event_fate(value@) is Some,
        ensures
            match event_fate(value@) {
                Some(Ok(e)) => r matches Ok(x) && x.view_tuple() == e,
                Some(Err(m)) => r matches Err(MyError::Runtime(x)) && x@ == m,
                None => false,
            },
    {
        let toks = words_chars(&to_chars(value));
        let ghost tv = toks@.map_values(|p: Vec<char>| p@);
        assert(tv == words(value@));
        assert(tv[0] == toks@[0]@);
        let mut builder = DnfEventBuilder::new();
        builder = builder.try_with_action(from_chars(&toks[0]).as_str())?;
        assert(tv[1] == toks@[1]@);
        assert(tv[2] == toks@[2]@);
        builder = builder.with_rpm(from_chars(&toks[1]).as_str());
        let word1 = &toks[2];
        let reason;
        let repo_index: usize;
        if chars_eq(word1, &to_chars("Dependency")) {
            reason = DnfReason::Dependency;
            repo_index = 3;
        } else if chars_eq(word1, &to_chars("Group")) {
            reason = DnfReason::Group;
            repo_index = 3;
        } else if chars_eq(word1, &to_chars("User")) {
            reason = DnfReason::User;
            repo_index = 3;
        } else if chars_eq(word1, &to_chars("Weak")) {
            assert(tv[3] == toks@[3]@);
            if chars_eq(&toks[3], &to_chars("Dependency")) {
                reason = DnfReason::WeakDependency;
                repo_index = 4;
            } else {
                return Err(MyError::Runtime("Unknown Weak xxx DNF Reason".to_owned()));
            }
        } else if chars_eq(word1, &to_chars("External")) {
            assert(tv[3] == toks@[3]@);
            if chars_eq(&toks[3], &to_chars("User")) {
                reason = DnfReason::ExternalUser;
                repo_index = 4;
            } else {
                return Err(MyError::Runtime("Unknown External xxx DNF Reason".to_owned()));
            }
        } else {
            let mut msg = "Unknown DN Readon: ".to_owned();
            msg.append(from_chars(word1).as_str());
            return Err(MyError::Runtime(msg));
        }
        builder = builder.with_reason(reason);
        assert(tv[repo_index as int] == toks@[repo_index as int]@);
        builder = builder.with_repository(from_chars(&toks[repo_index]).as_str());
        builder.build()
    }

    /// The event as a table row: action, package cut or padded to 44
    /// characters, reason, repository, two spaces apart.
    pub fn render(&self) -> (r: String)
        ensures
            r@ == event_row(self.view_tuple()),
    {
        let mut r = self.action.label();
        r.append("  ");
        r.append(from_chars(&fit_to_chars(&to_chars(self.rpm.as_str()), 44)).as_str());
        r.append("  ");
        r.append(self.reason.label().as_str());
        r.append("  ");
        r.append(self.repository.as_str());
        r
    }
}


/// What opens the first line of `dnf history info` output.
pub const TRANSACTION_ID: &'static str = "Transaction ID : ";

/// What opens the second line of `dnf history info` output.
pub const BEGIN_TIME: &'static str = "Begin time     : ";

/// What opens the ninth line of `dnf history info` output.
pub const DESCRIPTION: &'static str = "Description    : ";

/// Summary of DNF transactions gleaned from the output of a `dnf history info`
/// call. We also call this a DNF History Frame.
#[derive(Debug)]
pub struct DnfHistory {
    /// The ID of the DNF transaction that generated this history record.
    pub transaction_id: usize,
    /// The description which usually is the invoked command proper.
    pub description: String,
    /// The transaction's start time, in the configured time zone.
    pub begin_time: ZonedTime,
    /// What was done during this DNF call.
    pub events: Vec<DnfEvent>,
}

/// The events as plain values.
pub open spec fn event_views(events: Seq<DnfEvent>) -> Seq<EventView> {
    events.map_values(|e: DnfEvent| e.view_tuple())
}

/// The transaction id that the first line names: an error is why its number
/// failed to parse, or `None` when the line does not open as it should.
pub open spec fn transaction_id_of(lines: Seq<Seq<char>>) -> Result<usize, Option<IntErrorKind>> {
    let t = trim(lines[0]);
    if !starts_with(t, TRANSACTION_ID@) {
        Err(None)
    } else {
        match parse_usize(t.skip(TRANSACTION_ID@.len() as int)) {
            Ok(v) => Ok(v),
            Err(k) => Err(Some(k)),
        }
    }
}

/// The begin time text that the second line holds, if it opens as it should.
pub open spec fn begin_text_of(lines: Seq<Seq<char>>) -> Option<Seq<char>> {
    let t = trim(lines[1]);
    if starts_with(t, BEGIN_TIME@) {
        Some(t.skip(BEGIN_TIME@.len() as int))
    } else {
        None
    }
}

/// The description that the ninth line holds.
pub open spec fn description_of(lines: Seq<Seq<char>>) -> Seq<char> {
    trim(lines[8]).skip(DESCRIPTION@.len() as int)
}

/// What reading the lines from the third up to, not including, `upto` gives:
/// the events read so far, or the message of the first error; `None` when an
/// event line lacks a word that its reading takes. The ninth line must open
/// with the description prefix; each non-blank line from the thirteenth on is
/// an event (see `event_fate`); other lines are ignored. Lines are trimmed.
pub open spec fn body_fate(lines: Seq<Seq<char>>, upto: int) -> Option<Result<Seq<EventView>, Seq<char>>>
    decreases upto,
{
    if upto <= 2 {
        Some(Ok(seq![]))
    } else {
        let i = upto - 1;
        let t = trim(lines[i]);
        match body_fate(lines, upto - 1) {
            Some(Ok(evts)) => if i == 8 {
                if starts_with(t, DESCRIPTION@) {
                    Some(Ok(evts))
                } else {
                    Some(Err("DNF History Info line #8 is NOT Description"@))
                }
            } else if i > 11 && t.len() > 0 {
                match event_fate(t) {
                    None => None,
                    Some(Err(m)) => Some(Err(m)),
                    Some(Ok(e)) => Some(Ok(evts.push(e))),
                }
            } else {
                Some(Ok(evts))
            },
            other => other,
        }
    }
}

/// Once reading fails, reading more lines fails the same way.
pub proof fn lemma_body_fate_sticks(lines: Seq<Seq<char>>, a: int, b: int)
    requires
        a <= b,
        !(body_fate(lines, a) matches Some(Ok(_))),
    ensures
        body_fate(lines, b) == body_fate(lines, a),
    decreases b - a,
{
    if a < b {
        lemma_body_fate_sticks(lines, a, b - 1);
    }
}

/// Two outputs that the reading cannot tell apart: as many lines, each pair
/// the same once trimmed, except lines 3 to 8 and 10 to 12 (counting from
/// 1), which the reading ignores.
pub open spec fn read_alike(a: Seq<Seq<char>>, b: Seq<Seq<char>>) -> bool {
    &&& a.len() == b.len()
    &&& forall|i: int|
        0 <= i < a.len() ==> (2 <= i <= 7 || 9 <= i <= 11 || trim(#[trigger] a[i]) == trim(b[i]))
}

proof fn lemma_body_fate_alike(a: Seq<Seq<char>>, b: Seq<Seq<char>>, upto: int)
    requires
        read_alike(a, b),
        upto <= a.len(),
    ensures
        body_fate(a, upto) == body_fate(b, upto),
    decreases upto,
{
    if upto > 2 {
        lemma_body_fate_alike(a, b, upto - 1);
        let i = upto - 1;
        if !(2 <= i <= 7 || 9 <= i <= 11) {
            assert(trim(a[i]) == trim(b[i]));
        }
    }
}

/// Outputs that differ only in white space around lines, or in the lines
/// that the reading ignores, read the same: the transaction id, the begin
/// time text, the description and the events (or the error) agree, and so
/// does whether an event line lacks a word.
pub proof fn lemma_history_reading_ignores_spacing(a: Seq<Seq<char>>, b: Seq<Seq<char>>)
    requires
        read_alike(a, b),
    ensures
        a.len() >= 13 ==> {
            &&& transaction_id_of(a) == transaction_id_of(b)
            &&& begin_text_of(a) == begin_text_of(b)
            &&& description_of(a) == description_of(b)
            &&& body_fate(a, a.len() as int) == body_fate(b, b.len() as int)
        },
        history_panics(a) == history_panics(b),
{
    if a.len() >= 13 {
        assert(trim(a[0]) == trim(b[0]));
        assert(trim(a[1]) == trim(b[1]));
        assert(trim(a[8]) == trim(b[8]));
        lemma_body_fate_alike(a, b, a.len() as int);
    }
}

/// Reading the output fails, as the reading is written, by taking a word
/// that an event line lacks (after all the checks that come before it pass).
pub open spec fn history_panics(lines: Seq<Seq<char>>) -> bool {
    &&& lines.len() >= 13
    &&& transaction_id_of(lines) is Ok
    &&& begin_text_of(lines) matches Some(b) && parsed_datetime(b) is Some
    &&& body_fate(lines, lines.len() as int) is None
}

struct DnfHistoryBuilder {
    _transaction_id: Option<usize>,
    _description: Option<String>,
    _begin_time: Option<ZonedTime>,
    _events: Vec<DnfEvent>,
}

impl DnfHistoryBuilder {
    fn new() -> (b: Self)
        ensures
            b._transaction_id is None,
            b._description is None,
            b._begin_time is None,
            b._events@.len() == 0,
    {
        DnfHistoryBuilder {
            _transaction_id: None,
            _description: None,
            _begin_time: None,
            _events: Vec::new(),
        }
    }

    fn with_transaction_id(self, id: usize) -> (b: Self)
        ensures
            b._transaction_id == Some(id),
            b._description == self._description,
            b._begin_time == self._begin_time,
            b._events == self._events,
    {
        let mut b = self;
        b._transaction_id = Some(id);
        b
    }

    fn with_description(self, description: &str) -> (b: Self)
        ensures
            b._description matches Some(d) && d@ == description@,
            b._transaction_id == self._transaction_id,
            b._begin_time == self._begin_time,
            b._events == self._events,
    {
        let mut b = self;
        b._description = Some(description.to_owned());
        b
    }

    fn with_begin_time(self, begin_time: ZonedTime) -> (b: Self)
        ensures
            b._begin_time == Some(begin_time),
            b._transaction_id == self._transaction_id,
            b._description == self._description,
            b._events == self._events,
    {
        let mut b = self;
        b._begin_time = Some(begin_time);
        b
    }

    fn add_event(self, dnf_event: DnfEvent) -> (b: Self)
        ensures
            b._events@ == self._events@.push(dnf_event),
            b._transaction_id == self._transaction_id,
            b._description == self._description,
            b._begin_time == self._begin_time,
    {
        let mut b = self;
        b._events.push(dnf_event);
        b
    }

    fn is_valid(&self) -> (r: bool)
        ensures
            r == (self._transaction_id is Some && self._begin_time is Some
                && self._description is Some && self._events@.len() > 0),
    {
        self._transaction_id.is_some() && self._begin_time.is_some() && self._description.is_some()
            && self._events.len() > 0
    }

    fn build(self) -> (r: Result<DnfHistory, MyError>)
        ensures
            match (self._transaction_id, self._description, self._begin_time) {
                (Some(id), Some(d), Some(t)) => if self._events@.len() > 0 {
                    r matches Ok(h) && h.transaction_id == id && h.description@ == d@
                        && h.begin_time == t && h.events@ == self._events@
                } else {
                    r matches Err(MyError::Runtime(m)) && m@ == "Invalid DNF History builder"@
                },
                _ => r matches Err(MyError::Runtime(m)) && m@ == "Invalid DNF History builder"@,
            },
    {
        if !self.is_valid() {
            return Err(MyError::Runtime("Invalid DNF History builder".to_owned()));
        }
        match (self._transaction_id, self._description, self._begin_time) {
            (Some(id), Some(d), Some(t)) => Ok(
                DnfHistory { transaction_id: id, description: d, begin_time: t, events: self._events },
            ),
            _ => Err(MyError::Runtime("Invalid DNF History builder".to_owned())),
        }
    }
}

/// `u` is the civil time `c` read in UTC: the zone is UTC, its clock reads
/// `c`, and the instant is `c` taken as UTC.
pub open spec fn utc_reading(c: CivilView, u: ZonedView) -> bool {
    &&& zone_named(u.2, "utc"@)
    &&& u.3 == c
    &&& instant_nanos(u.0, u.1) == utc_nanos(c)
}

/// The begin time `b` is the civil time `c` read as UTC, seen in the zone
/// `timezone`: the zone is that one, and the instant is `c` taken as UTC.
pub open spec fn begun_at(c: CivilView, timezone: Seq<char>, b: ZonedView) -> bool {
    &&& zone_named(b.2, timezone)
    &&& instant_nanos(b.0, b.1) == utc_nanos(c)
}

/// The civil begin time, read as UTC, seen in the zone `timezone`. An error
/// of the time zone database is returned as a date-time error.
pub fn begin_time_in(begin_time: CivilTime, timezone: &str) -> (r: Result<ZonedTime, MyError>)
    ensures
        r matches Ok(b) ==> begun_at(begin_time@, timezone@, b@),
        r matches Err(e) ==> e is DateTime,
{
    proof {
        reveal_strlit("utc");
    }
    let begin_time_utc = match datetime_in_tz(&begin_time, UTC_TZ_NAME) {
        Ok(z) => z,
        Err(e) => {
            return Err(MyError::DateTime(e));
        },
    };
    assert(utc_reading(begin_time@, begin_time_utc@));
    match zoned_in_tz(&begin_time_utc, timezone) {
        Ok(z) => Ok(z),
        Err(e) => Err(MyError::DateTime(e)),
    }
}

/// What reading the lines `all` of `dnf history info` output, with the
/// begin time seen in the zone `timezone`, may give: each error that comes
/// before the time zone database is asked, exactly; after it, a date-time
/// error, or else what `from_parts` gives, with the begin time being the
/// one listed, read as UTC and seen in `timezone` (see `begun_at`).
pub open spec fn history_outcome(all: Seq<Seq<char>>, timezone: Seq<char>, r: Result<DnfHistory, MyError>) -> bool {
    if all.len() < 13 {
        r matches Err(MyError::Runtime(m)) && m@ == "DNF History Info output MUST be at least 13 lines long"@
    } else {
        match transaction_id_of(all) {
            Err(None) => r matches Err(MyError::Runtime(m)) && m@
                == "DNF History Info line #0 is NOT Transaction ID"@,
            Err(Some(k)) => r == Err::<DnfHistory, MyError>(MyError::Parse(k)),
            Ok(id) => match begin_text_of(all) {
                None => r matches Err(MyError::Runtime(m)) && m@
                    == "DNF History Info line #1 is NOT Begin time"@,
                Some(b) => match parsed_datetime(b) {
                    None => r matches Err(MyError::DateTime(_)),
                    Some(c) => match body_fate(all, all.len() as int) {
                        Some(Ok(evts)) => if evts.len() > 0 {
                            (r matches Err(MyError::DateTime(_))) || (r matches Ok(h)
                                && h.transaction_id == id && h.description@ == description_of(all)
                                && event_views(h.events@) == evts && begun_at(c, timezone, h.begin_time@))
                        } else {
                            (r matches Err(MyError::DateTime(_))) || (r matches Err(MyError::Runtime(m))
                                && m@ == "Invalid DNF History builder"@)
                        },
                        Some(Err(m)) => (r matches Err(MyError::DateTime(_))) || (r matches Err(
                            MyError::Runtime(x),
                        ) && x@ == m),
                        None => false,
                    },
                },
            },
        }
    }
}

/// Outputs that differ only in white space around lines, or in the lines
/// that the reading ignores, may give the same results: whatever reading one
/// may give (see `history_outcome`), reading the other may give too, in any
/// time zone.
pub proof fn lemma_history_outcome_ignores_spacing(
    a: Seq<Seq<char>>,
    b: Seq<Seq<char>>,
    timezone: Seq<char>,
    r: Result<DnfHistory, MyError>,
)
    requires
        read_alike(a, b),
    ensures
        history_outcome(a, timezone, r) == history_outcome(b, timezone, r),
        history_panics(a) == history_panics(b),
{
    lemma_history_reading_ignores_spacing(a, b);
}

impl DnfHistory {
    /// Reads the lines of `dnf history info` output from the third on, for a
    /// transaction whose id and begin time were read from the first two.
    pub fn from_parts(lines: &Vec<String>, transaction_id: usize, begin_time: ZonedTime) -> (r:
        Result<DnfHistory, MyError>)
        requires
            lines@.len() >= 13,
            body_fate(views_of(lines@), lines@.len() as int) is Some,
        ensures
            match body_fate(views_of(lines@), lines@.len() as int) {
                Some(Ok(evts)) => if evts.len() > 0 {
                    r matches Ok(h) && h.transaction_id == transaction_id && h.begin_time
                        == begin_time && h.description@ == description_of(views_of(lines@))
                        && event_views(h.events@) == evts
                } else {
                    r matches Err(MyError::Runtime(m)) && m@ == "Invalid DNF History builder"@
                },
                Some(Err(m)) => r matches Err(MyError::Runtime(x)) && x@ == m,
                None => false,
            },
    {
        let ls = chars_of_all(lines);
        let ghost all = views_of(lines@);
        let n = ls.len();
        let description_prefix = to_chars(DESCRIPTION);
        let mut builder = DnfHistoryBuilder::new().with_transaction_id(transaction_id).with_begin_time(
            begin_time,
        );
        let mut i: usize = 2;
        while i < n
            invariant
                n == all.len() >= 13,
                n == lines@.len(),
                all == views_of(lines@),
                all == ls@.map_values(|v: Vec<char>| v@),
                description_prefix@ == DESCRIPTION@,
                2 <= i <= n,
                body_fate(all, n as int) is Some,
                body_fate(all, i as int) matches Some(Ok(evts)) && event_views(builder._events@) == evts,
                builder._transaction_id == Some(transaction_id),
                builder._begin_time == Some(begin_time),
                i > 8 ==> (builder._description matches Some(d) && d@ == description_of(all)),
            decreases n - i,
        {
            let t = trim_chars(&ls[i]);
            assert(t@ == trim(all[i as int]));
            let ghost evts = event_views(builder._events@);
            if i == 8 {
                if !starts_with_chars(&t, &description_prefix) {
                    proof {
                        assert(body_fate(all, i + 1) == Some(
                            Err::<Seq<EventView>, Seq<char>>(
                                "DNF History Info line #8 is NOT Description"@,
                            ),
                        ));
                        lemma_body_fate_sticks(all, i + 1, n as int);
                    }
                    return Err(
                        MyError::Runtime("DNF History Info line #8 is NOT Description".to_owned()),
                    );
                }
                let d = slice_chars(&t, description_prefix.len(), t.len());
                assert(d@ =~= description_of(all));
                builder = builder.with_description(from_chars(&d).as_str());
            } else if i > 11 && t.len() > 0 {
                proof {
                    if event_fate(t@) is None {
                        lemma_body_fate_sticks(all, i + 1, n as int);
                    }
                }
                let evt = match DnfEvent::try_from(from_chars(&t).as_str()) {
                    Ok(e) => e,
                    Err(e) => {
                        proof {
                            let m = event_fate(t@)->0->Err_0;
                            assert(body_fate(all, i + 1) == Some(Err::<Seq<EventView>, Seq<char>>(m)));
                            lemma_body_fate_sticks(all, i + 1, n as int);
                        }
                        return Err(e);
                    },
                };
                builder = builder.add_event(evt);
                assert(event_views(builder._events@) =~= evts.push(evt.view_tuple()));
            }
            i += 1;
        }
        builder.build()
    }

    /// Given the output of a successful `dnf history info xxx` call, parses
    /// its lines: the transaction id, the begin time (placed in the zone
    /// `timezone`), the description, and the events.
    pub fn try_from_cmd_output(lines: Vec<String>, timezone: &str) -> (r: Result<Self, MyError>)
        requires
            !history_panics(views_of(lines@)),
        ensures
            history_outcome(views_of(lines@), timezone@, r),
    {
        let ghost all = views_of(lines@);
        if lines.len() < 13 {
            return Err(
                MyError::Runtime("DNF History Info output MUST be at least 13 lines long".to_owned()),
            );
        }
        let first = trim_chars(&to_chars(lines[0].as_str()));
        let id_prefix = to_chars(TRANSACTION_ID);
        if !starts_with_chars(&first, &id_prefix) {
            return Err(MyError::Runtime("DNF History Info line #0 is NOT Transaction ID".to_owned()));
        }
        let digits = slice_chars(&first, id_prefix.len(), first.len());
        assert(digits@ =~= trim(all[0]).skip(TRANSACTION_ID@.len() as int));
        let id = match parse_usize_chars(&digits) {
            Ok(v) => v,
            Err(k) => {
                return Err(MyError::Parse(k));
            },
        };
        let second = trim_chars(&to_chars(lines[1].as_str()));
        let time_prefix = to_chars(BEGIN_TIME);
        if !starts_with_chars(&second, &time_prefix) {
            return Err(MyError::Runtime("DNF History Info line #1 is NOT Begin time".to_owned()));
        }
        let text = from_chars(&slice_chars(&second, time_prefix.len(), second.len()));
        assert(text@ =~= begin_text_of(all)->0);
        let time = match parse_datetime(text.as_str()) {
            Ok(t) => t,
            Err(e) => {
                return Err(MyError::DateTime(e));
            },
        };
        let begin = begin_time_in(time, timezone)?;
        let r = DnfHistory::from_parts(&lines, id, begin);
        assert(parsed_datetime(begin_text_of(all)->0) == Some(time@));
        r
    }

    /// Reads `dnf history info` output as `try_from_cmd_output` does, where
    /// that reading completes: `None` on the outputs where an event line lacks
    /// a word that its reading takes.
    pub fn parse_cmd_output(lines: Vec<String>, timezone: &str) -> (r: Option<Result<Self, MyError>>)
        ensures
            r is None <==> history_panics(views_of(lines@)),
            r matches Some(x) ==> history_outcome(views_of(lines@), timezone@, x),
    {
        let ghost all = views_of(lines@);
        if lines.len() >= 13 {
            let first = trim_chars(&to_chars(lines[0].as_str()));
            let second = trim_chars(&to_chars(lines[1].as_str()));
            let id_prefix = to_chars(TRANSACTION_ID);
            let time_prefix = to_chars(BEGIN_TIME);
            if starts_with_chars(&first, &id_prefix) && starts_with_chars(&second, &time_prefix) {
                let digits = slice_chars(&first, id_prefix.len(), first.len());
                assert(digits@ =~= trim(all[0]).skip(TRANSACTION_ID@.len() as int));
                let text = from_chars(&slice_chars(&second, time_prefix.len(), second.len()));
                assert(text@ =~= begin_text_of(all)->0);
                if parse_usize_chars(&digits).is_ok() && parse_datetime(text.as_str()).is_ok()
                    && !body_completes(&lines) {
                    return None;
                }
            }
        }
        Some(DnfHistory::try_from_cmd_output(lines, timezone))
    }
}

/// Whether reading an event line succeeds (`Some(true)`), fails with an
/// error (`Some(false)`), or lacks a word (`None`).
fn event_outcome(line: &Vec<char>) -> (r: Option<bool>)
    ensures
        r == match event_fate(line@) {
            None => None,
            Some(Ok(_)) => Some(true),
            Some(Err(_)) => Some(false),
        },
{
    let toks = words_chars(line);
    let ghost tv = toks@.map_values(|p: Vec<char>| p@);
    if toks.len() == 0 {
        return None;
    }
    assert(tv[0] == toks@[0]@);
    if DnfAction::try_from(from_chars(&toks[0]).as_str()).is_err() {
        return Some(false);
    }
    if toks.len() < 3 {
        return None;
    }
    assert(tv[2] == toks@[2]@);
    let word1 = &toks[2];
    let repo_index: usize;
    if chars_eq(word1, &to_chars("Dependency")) || chars_eq(word1, &to_chars("Group")) || chars_eq(
        word1,
        &to_chars("User"),
    ) {
        repo_index = 3;
    } else if chars_eq(word1, &to_chars("Weak")) {
        if toks.len() < 4 {
            return None;
        }
        assert(tv[3] == toks@[3]@);
        if !chars_eq(&toks[3], &to_chars("Dependency")) {
            return Some(false);
        }
        repo_index = 4;
    } else if chars_eq(word1, &to_chars("External")) {
        if toks.len() < 4 {
            return None;
        }
        assert(tv[3] == toks@[3]@);
        if !chars_eq(&toks[3], &to_chars("User")) {
            return Some(false);
        }
        repo_index = 4;
    } else {
        return Some(false);
    }
    if toks.len() <= repo_index {
        None
    } else {
        Some(true)
    }
}

/// Whether reading the lines from the third on completes (see `body_fate`).
fn body_completes(lines: &Vec<String>) -> (r: bool)
    ensures
        r == (body_fate(views_of(lines@), lines@.len() as int) is Some),
{
    let ls = chars_of_all(lines);
    let ghost all = views_of(lines@);
    let n = ls.len();
    let description_prefix = to_chars(DESCRIPTION);
    let mut i: usize = 2;
    assert(n == lines@.len());
    if n < 2 {
        assert(body_fate(all, n as int) == Some(Ok::<Seq<EventView>, Seq<char>>(seq![])));
        return true;
    }
    while i < n
        invariant
            n == all.len(),
            n == lines@.len(),
            all == views_of(lines@),
            all == ls@.map_values(|v: Vec<char>| v@),
            description_prefix@ == DESCRIPTION@,
            2 <= i <= n,
            body_fate(all, i as int) matches Some(Ok(_)),
        decreases n - i,
    {
        let t = trim_chars(&ls[i]);
        assert(t@ == trim(all[i as int]));
        if i == 8 {
            if !starts_with_chars(&t, &description_prefix) {
                proof {
                    assert(body_fate(all, i + 1) is Some);
                    assert(!(body_fate(all, i + 1) matches Some(Ok(_))));
                    lemma_body_fate_sticks(all, i + 1, n as int);
                }
                return true;
            }
        } else if i > 11 && t.len() > 0 {
            match event_outcome(&t) {
                None => {
                    proof {
                        assert(body_fate(all, i + 1) is None);
                        lemma_body_fate_sticks(all, i + 1, n as int);
                    }
                    return false;
                },
                Some(false) => {
                    proof {
                        assert(body_fate(all, i + 1) is Some);
                        assert(!(body_fate(all, i + 1) matches Some(Ok(_))));
                        lemma_body_fate_sticks(all, i + 1, n as int);
                    }
                    return true;
                },
                Some(true) => {},
            }
        }
        i += 1;
    }
    true
}


/// The first heading line of an event table.
pub const EVENTS_HEADING: &'static str = "  Action     RPM                                           Reason               Repository";

/// The second heading line of an event table.
pub const EVENTS_RULE: &'static str = "  ---------  --------------------------------------------  -------------------  -----------";

/// The package is one of `rpms` or, more precisely, its full name opens
/// with one of them.
pub open spec fn concerns_any(rpm: Seq<char>, rpms: Seq<Seq<char>>) -> bool {
    exists|j: int| 0 <= j < rpms.len() && starts_with(rpm, #[trigger] rpms[j])
}

/// The rows, each indented by two spaces, of the events that concern any of
/// `rpms`, in order.
pub open spec fn concerned_rows(events: Seq<EventView>, rpms: Seq<Seq<char>>) -> Seq<Seq<char>>
    decreases events.len(),
{
    if events.len() == 0 {
        seq![]
    } else {
        let before = concerned_rows(events.drop_last(), rpms);
        if concerns_any(events.last().1, rpms) {
            before.push("  "@ + event_row(events.last()))
        } else {
            before
        }
    }
}

/// Whether one of `rpms` opens `rpm`.
fn concerns_any_exec(rpm: &Vec<char>, rpms: &Vec<Vec<char>>) -> (r: bool)
    ensures
        r == concerns_any(rpm@, rpms@.map_values(|p: Vec<char>| p@)),
{
    let ghost views = rpms@.map_values(|p: Vec<char>| p@);
    let n = rpms.len();
    for j in 0..n
        invariant
            n == rpms@.len(),
            views == rpms@.map_values(|p: Vec<char>| p@),
            forall|k: int| 0 <= k < j ==> !starts_with(rpm@, #[trigger] views[k]),
    {
        assert(views[j as int] == rpms@[j as int]@);
        if starts_with_chars(rpm, &rpms[j]) {
            return true;
        }
    }
    false
}

/// `lines` show the frame `h`, limited to the events that concern any of
/// `rpms`: nothing when no event does; otherwise the transaction id, the
/// begin time (as jiff's `Display` writes it), the description, the table
/// headings, and the rows of those events.
pub open spec fn shows_frame(h: DnfHistory, rpms: Seq<Seq<char>>, lines: Seq<Seq<char>>) -> bool {
    let rows = concerned_rows(event_views(h.events@), rpms);
    if rows.len() == 0 {
        lines.len() == 0
    } else {
        &&& lines.len() == 6 + rows.len()
        &&& lines[0] == "Transaction: #"@ + decimal(h.transaction_id as nat)
        &&& lines[1] == "When       : "@ + h.begin_time@.4
        &&& lines[2] == "Description: "@ + h.description@
        &&& lines[3] == "Events:"@
        &&& lines[4] == EVENTS_HEADING@
        &&& lines[5] == EVENTS_RULE@
        &&& lines.skip(6) == rows
    }
}

/// The rows of all events, glued together.
pub open spec fn all_rows(events: Seq<EventView>) -> Seq<char>
    decreases events.len(),
{
    if events.len() == 0 {
        seq![]
    } else {
        all_rows(events.drop_last()) + event_row(events.last())
    }
}

impl DnfHistory {
    /// The designated package is mentioned in at least one event of this
    /// frame: some event's package name opens with it.
    pub open spec fn mentions(&self, rpm: Seq<char>) -> bool {
        exists|i: int| 0 <= i < self.events@.len() && starts_with(#[trigger] self.events@[i].rpm@, rpm)
    }

    /// Returns TRUE if the designated `rpm` is mentioned in at least one of
    /// the DNF events of this frame. Returns FALSE otherwise.
    pub fn contains_rpm(&self, rpm: &str) -> (r: bool)
        ensures
            r == self.mentions(rpm@),
    {
        let target = to_chars(rpm);
        let n = self.events.len();
        for i in 0..n
            invariant
                n == self.events@.len(),
                target@ == rpm@,
                forall|k: int| 0 <= k < i ==> !starts_with(#[trigger] self.events@[k].rpm@, rpm@),
        {
            if starts_with_chars(&to_chars(self.events[i].rpm.as_str()), &target) {
                return true;
            }
        }
        false
    }

    /// The lines that show this frame, limited to the events that concern
    /// the designated RPMs; no lines when no event does. The second line
    /// shows the begin time.
    pub fn details_lines(&self, rpms: &Vec<String>) -> (r: Vec<String>)
        ensures
            shows_frame(*self, views_of(rpms@), views_of(r@)),
    {
        let targets = chars_of_all(rpms);
        let ghost evs = event_views(self.events@);
        let mut rows: Vec<String> = Vec::new();
        let n = self.events.len();
        for i in 0..n
            invariant
                n == self.events@.len(),
                evs == event_views(self.events@),
                targets@.map_values(|p: Vec<char>| p@) == views_of(rpms@),
                views_of(rows@) == concerned_rows(evs.take(i as int), views_of(rpms@)),
        {
            let evt = &self.events[i];
            assert(evs.take(i + 1).drop_last() =~= evs.take(i as int));
            assert(evs.take(i + 1).last() == evt.view_tuple());
            let ghost before = views_of(rows@);
            if concerns_any_exec(&to_chars(evt.rpm.as_str()), &targets) {
                let mut row = "  ".to_owned();
                row.append(evt.render().as_str());
                rows.push(row);
                assert(views_of(rows@) =~= before.push("  "@ + event_row(evt.view_tuple())));
            }
        }
        assert(evs.take(n as int) =~= evs);
        let mut out: Vec<String> = Vec::new();
        if rows.len() == 0 {
            return out;
        }
        let mut l0 = "Transaction: #".to_owned();
        l0.append(from_chars(&decimal_chars(self.transaction_id)).as_str());
        out.push(l0);
        let mut l1 = "When       : ".to_owned();
        l1.append(zoned_text(&self.begin_time).as_str());
        out.push(l1);
        let mut l2 = "Description: ".to_owned();
        l2.append(self.description.as_str());
        out.push(l2);
        out.push("Events:".to_owned());
        out.push(EVENTS_HEADING.to_owned());
        out.push(EVENTS_RULE.to_owned());
        let m = rows.len();
        for k in 0..m
            invariant
                m == rows@.len(),
                out@.len() == 6 + k,
                out@[0]@ == "Transaction: #"@ + decimal(self.transaction_id as nat),
                out@[1]@ == "When       : "@ + self.begin_time@.4,
                out@[2]@ == "Description: "@ + self.description@,
                out@[3]@ == "Events:"@,
                out@[4]@ == EVENTS_HEADING@,
                out@[5]@ == EVENTS_RULE@,
                forall|j: int| 0 <= j < k ==> #[trigger] out@[6 + j]@ == rows@[j]@,
        {
            out.push(rows[k].clone());
        }
        assert forall|j: int| 0 <= j < m implies views_of(out@).skip(6)[j] == views_of(rows@)[j] by {
            assert(out@[6 + j]@ == rows@[j]@);
        }
        assert(views_of(out@).skip(6) =~= views_of(rows@));
        out
    }

    /// The frame as one text, as its `Display` writes it: the transaction
    /// id, begin time, description, table headings and rows, with no line
    /// breaks between them.
    pub fn render(&self) -> (r: String)
        ensures
            r@ == "Transaction: #"@ + decimal(self.transaction_id as nat) + "When       : "@
                + self.begin_time@.4 + "Description: "@ + self.description@ + "Events:"@ + EVENTS_HEADING@
                    + EVENTS_RULE@ + all_rows(event_views(self.events@)),
    {
        let mut r = "Transaction: #".to_owned();
        r.append(from_chars(&decimal_chars(self.transaction_id)).as_str());
        r.append("When       : ");
        let when = zoned_text(&self.begin_time);
        r.append(when.as_str());
        r.append("Description: ");
        r.append(self.description.as_str());
        r.append("Events:");
        r.append(EVENTS_HEADING);
        r.append(EVENTS_RULE);
        let ghost head = r@;
        let ghost evs = event_views(self.events@);
        let n = self.events.len();
        for i in 0..n
            invariant
                n == self.events@.len(),
                evs == event_views(self.events@),
                r@ == head + all_rows(evs.take(i as int)),
        {
            assert(evs.take(i + 1).drop_last() =~= evs.take(i as int));
            assert(evs.take(i + 1).last() == self.events@[i as int].view_tuple());
            r.append(self.events[i].render().as_str());
        }
        assert(evs.take(n as int) =~= evs);
        assert(r@ =~= "Transaction: #"@ + decimal(self.transaction_id as nat) + "When       : "@
            + when@ + "Description: "@ + self.description@ + "Events:"@ + EVENTS_HEADING@
            + EVENTS_RULE@ + all_rows(evs));
        r
    }
}

/// Structure representing a collection of `dnf history info` frames. While
/// the search gathers them, the frame at index N is the one of
/// `last-(offset+N)`; `relevant` then keeps those that show one or more DNF
/// events pertaining to installed RPMs that own one or more changed files.
#[derive(Debug)]
pub struct DnfHistoryFrames {
    pub(crate) frames: Vec<DnfHistory>,
}

impl View for DnfHistoryFrames {
    type V = Seq<DnfHistory>;

    closed spec fn view(&self) -> Seq<DnfHistory> {
        self.frames@
    }
}

/// `lines` show the frames, each limited to the events that concern any of
/// `rpms` (see `shows_frame`), between an opening and a closing line.
pub open spec fn shows_frames(frames: Seq<DnfHistory>, rpms: Seq<Seq<char>>, lines: Seq<Seq<char>>) -> bool {
    exists|groups: Seq<Seq<Seq<char>>>|
        {
            &&& groups.len() == frames.len()
            &&& forall|i: int|
                0 <= i < groups.len() ==> shows_frame(#[trigger] frames[i], rpms, groups[i])
            &&& lines == seq!["----- DNF History Info Record(s) -----"@] + groups.flatten() + seq![
                "-----"@,
            ]
        }
}

/// The frame mentions one of the packages.
pub open spec fn mentions_any(h: DnfHistory, rpms: Seq<Seq<char>>) -> bool {
    exists|j: int| 0 <= j < rpms.len() && h.mentions(#[trigger] rpms[j])
}

/// The frames that mention one of the packages, in order.
pub open spec fn mentioning_frames(frames: Seq<DnfHistory>, rpms: Seq<Seq<char>>) -> Seq<DnfHistory>
    decreases frames.len(),
{
    if frames.len() == 0 {
        seq![]
    } else {
        let before = mentioning_frames(frames.drop_last(), rpms);
        if mentions_any(frames.last(), rpms) {
            before.push(frames.last())
        } else {
            before
        }
    }
}

proof fn lemma_mentioning_frames(frames: Seq<DnfHistory>, rpms: Seq<Seq<char>>)
    ensures
        forall|i: int| 0 <= i < mentioning_frames(frames, rpms).len() ==> mentions_any(
            #[trigger] mentioning_frames(frames, rpms)[i],
            rpms,
        ),
    decreases frames.len(),
{
    if frames.len() > 0 {
        lemma_mentioning_frames(frames.drop_last(), rpms);
        let before = mentioning_frames(frames.drop_last(), rpms);
        let all = mentioning_frames(frames, rpms);
        assert forall|i: int| 0 <= i < all.len() implies mentions_any(#[trigger] all[i], rpms) by {
            if i < before.len() {
                assert(all[i] == before[i]);
            }
        }
    }
}

/// Some frame of `frames` mentions the package.
pub open spec fn found_in(frames: Seq<DnfHistory>, rpm: Seq<char>) -> bool {
    exists|k: int| 0 <= k < frames.len() && (#[trigger] frames[k]).mentions(rpm)
}

/// The packages, in order, that no frame of `frames` mentions.
pub open spec fn unfound(frames: Seq<DnfHistory>, rpms: Seq<Seq<char>>) -> Seq<Seq<char>>
    decreases rpms.len(),
{
    if rpms.len() == 0 {
        Seq::empty()
    } else {
        let rest = unfound(frames, rpms.drop_last());
        if found_in(frames, rpms.last()) {
            rest
        } else {
            rest.push(rpms.last())
        }
    }
}

/// Another frame is wanted: one of the packages is mentioned in no frame yet,
/// and at most `max_dnf_deja_vu` frames were read.
pub open spec fn wants_frame(frames: Seq<DnfHistory>, rpms: Seq<Seq<char>>, max_dnf_deja_vu: usize) -> bool {
    frames.len() <= max_dnf_deja_vu && exists|j: int| 0 <= j < rpms.len() && !found_in(frames, #[trigger] rpms[j])
}

/// The search never wants a frame past the allowed count: while it wants
/// one, asking for it (`next_frame_argument`) succeeds; once more than
/// `max_dnf_deja_vu` frames are held it wants none, so it asks for at most
/// `max_dnf_deja_vu + 1` frames.
pub proof fn lemma_search_bounded(frames: Seq<DnfHistory>, rpms: Seq<Seq<char>>, max_dnf_deja_vu: usize)
    ensures
        wants_frame(frames, rpms, max_dnf_deja_vu) ==> frames.len() <= max_dnf_deja_vu,
        frames.len() > max_dnf_deja_vu ==> !wants_frame(frames, rpms, max_dnf_deja_vu),
{
}

/// When the search wants no more frames, each package is mentioned in some
/// frame, or the allowed count of frames was read.
pub proof fn lemma_search_done(frames: Seq<DnfHistory>, rpms: Seq<Seq<char>>, max_dnf_deja_vu: usize)
    requires
        !wants_frame(frames, rpms, max_dnf_deja_vu),
    ensures
        frames.len() > max_dnf_deja_vu || forall|j: int| 0 <= j < rpms.len() ==> found_in(frames, #[trigger] rpms[j]),
{
}

/// Once a package is found in the frames held, it stays found as frames
/// are added.
pub proof fn lemma_found_stays(frames: Seq<DnfHistory>, frame: DnfHistory, rpm: Seq<char>)
    requires
        found_in(frames, rpm),
    ensures
        found_in(frames.push(frame), rpm),
{
    let k = choose|k: int| 0 <= k < frames.len() && (#[trigger] frames[k]).mentions(rpm);
    assert(frames.push(frame)[k] == frames[k]);
}

/// Index of the first frame that mentions the package, or the number of
/// frames when none does.
pub open spec fn first_mention(frames: Seq<DnfHistory>, rpm: Seq<char>) -> nat
    decreases frames.len(),
{
    if frames.len() == 0 {
        0
    } else if frames[0].mentions(rpm) {
        0
    } else {
        1 + first_mention(frames.drop_first(), rpm)
    }
}

/// How many frames scanning for one package reads, frame after frame from
/// the first, stopping at the first that mentions it or after the frame at
/// index `max_dnf_deja_vu`.
pub open spec fn frames_needed(frames: Seq<DnfHistory>, rpm: Seq<char>, max_dnf_deja_vu: usize) -> nat {
    (if first_mention(frames, rpm) < max_dnf_deja_vu {
        first_mention(frames, rpm)
    } else {
        max_dnf_deja_vu as nat
    }) + 1
}

/// How many frames scanning for each package in turn reads in all: the
/// most that one of them needs (none for no package).
pub open spec fn most_frames_needed(frames: Seq<DnfHistory>, rpms: Seq<Seq<char>>, max_dnf_deja_vu: usize) -> nat
    decreases rpms.len(),
{
    if rpms.len() == 0 {
        0
    } else {
        let a = most_frames_needed(frames, rpms.drop_last(), max_dnf_deja_vu);
        let b = frames_needed(frames, rpms.last(), max_dnf_deja_vu);
        if a < b {
            b
        } else {
            a
        }
    }
}

proof fn lemma_first_mention(frames: Seq<DnfHistory>, rpm: Seq<char>, k: int)
    requires
        0 <= k <= frames.len(),
    ensures
        found_in(frames.take(k), rpm) <==> first_mention(frames, rpm) < k,
        first_mention(frames, rpm) <= frames.len(),
    decreases frames.len(),
{
    if frames.len() > 0 {
        let rest = frames.drop_first();
        if k > 0 {
            lemma_first_mention(rest, rpm, k - 1);
            if found_in(frames.take(k), rpm) && !frames[0].mentions(rpm) {
                let j = choose|j: int| 0 <= j < k && (#[trigger] frames.take(k)[j]).mentions(rpm);
                assert(j != 0);
                assert(rest.take(k - 1)[j - 1] == frames.take(k)[j]);
            }
            if first_mention(frames, rpm) < k {
                if frames[0].mentions(rpm) {
                    assert(frames.take(k)[0] == frames[0]);
                } else {
                    let j = choose|j: int| 0 <= j < k - 1 && (#[trigger] rest.take(k - 1)[j]).mentions(rpm);
                    assert(frames.take(k)[j + 1] == rest.take(k - 1)[j]);
                }
            }
        } else {
            lemma_first_mention(rest, rpm, 0);
        }
    }
}

proof fn lemma_most_frames_needed(frames: Seq<DnfHistory>, rpms: Seq<Seq<char>>, max_dnf_deja_vu: usize)
    ensures
        forall|j: int| 0 <= j < rpms.len() ==> frames_needed(frames, #[trigger] rpms[j], max_dnf_deja_vu)
            <= most_frames_needed(frames, rpms, max_dnf_deja_vu),
        rpms.len() == 0 ==> most_frames_needed(frames, rpms, max_dnf_deja_vu) == 0,
        rpms.len() > 0 ==> exists|j: int| 0 <= j < rpms.len() && frames_needed(frames, #[trigger] rpms[j], max_dnf_deja_vu)
            == most_frames_needed(frames, rpms, max_dnf_deja_vu),
    decreases rpms.len(),
{
    if rpms.len() > 0 {
        let init = rpms.drop_last();
        lemma_most_frames_needed(frames, init, max_dnf_deja_vu);
        assert forall|j: int| 0 <= j < rpms.len() implies frames_needed(frames, #[trigger] rpms[j], max_dnf_deja_vu)
            <= most_frames_needed(frames, rpms, max_dnf_deja_vu) by {
            if j < rpms.len() - 1 {
                assert(rpms[j] == init[j]);
            }
        }
        let last = rpms.len() - 1;
        if init.len() > 0 {
            let j = choose|j: int| 0 <= j < init.len() && frames_needed(frames, #[trigger] init[j], max_dnf_deja_vu)
                == most_frames_needed(frames, init, max_dnf_deja_vu);
            assert(rpms[j] == init[j]);
        }
        assert(rpms[last] == rpms.last());
    }
}

/// The search reads exactly the frames that scanning for each package in
/// turn reads, frame after frame from `last-offset` back, stopping for a
/// package at the first frame that mentions it or after the frame at index
/// `max_dnf_deja_vu`: when the frames held are those the search gathered
/// (it wanted another frame before each one, and wants none now), their
/// number is the most that scanning for one package needs.
pub proof fn lemma_search_reads_per_package_scan(
    frames: Seq<DnfHistory>,
    rpms: Seq<Seq<char>>,
    max_dnf_deja_vu: usize,
)
    requires
        !wants_frame(frames, rpms, max_dnf_deja_vu),
        forall|k: int| 0 <= k < frames.len() ==> wants_frame(#[trigger] frames.take(k), rpms, max_dnf_deja_vu),
    ensures
        frames.len() == most_frames_needed(frames, rpms, max_dnf_deja_vu),
{
    let n = frames.len();
    lemma_most_frames_needed(frames, rpms, max_dnf_deja_vu);
    assert(frames.take(n as int) =~= frames);
    // every package's scan fits in the frames held
    assert forall|j: int| 0 <= j < rpms.len() implies frames_needed(frames, #[trigger] rpms[j], max_dnf_deja_vu)
        <= n by {
        lemma_first_mention(frames, rpms[j], n as int);
        if n <= max_dnf_deja_vu {
            assert(found_in(frames, rpms[j]));
        }
    }
    if rpms.len() > 0 {
        let j = choose|j: int| 0 <= j < rpms.len() && frames_needed(frames, #[trigger] rpms[j], max_dnf_deja_vu)
            == most_frames_needed(frames, rpms, max_dnf_deja_vu);
        assert(frames_needed(frames, rpms[j], max_dnf_deja_vu) <= n);
        if n > 0 {
            // before the last frame was read, some package was found in none
            let before = frames.take(n - 1);
            assert(wants_frame(before, rpms, max_dnf_deja_vu));
            let i = choose|i: int| 0 <= i < rpms.len() && !found_in(before, #[trigger] rpms[i]);
            lemma_first_mention(frames, rpms[i], n - 1);
            assert(frames_needed(frames, rpms[i], max_dnf_deja_vu) >= n);
        }
    } else {
        if n > 0 {
            assert(wants_frame(frames.take(0), rpms, max_dnf_deja_vu));
        }
    }
}

/// Each reason reads back from the words shown for it.
pub proof fn lemma_reason_words_read_back(r: DnfReason)
    ensures
        reason_named(trim(reason_words(r))) == Some(r),
{
    reveal_strlit("Dependency");
    reveal_strlit("Weak Dependency");
    reveal_strlit("Group");
    reveal_strlit("User");
    reveal_strlit("External User");
    assert(trim(reason_words(r)) == reason_words(r)) by {
        lemma_trim_plain(reason_words(r));
    }
}

/// Each action other than `Replaced` reads back from the word shown for it;
/// `Replaced` is shown as `Replace`, which names no action.
pub proof fn lemma_action_word_read_back(a: DnfAction)
    ensures
        a != DnfAction::Replaced ==> action_named(trim(action_word(a))) == Some(a),
        a == DnfAction::Replaced ==> action_named(trim(action_word(a))) is None,
{
    reveal_strlit("Install");
    reveal_strlit("Upgrade");
    reveal_strlit("Remove");
    reveal_strlit("Replaced");
    reveal_strlit("Replace");
    assert(trim(action_word(a)) == action_word(a)) by {
        lemma_trim_plain(action_word(a));
    }
    if a == DnfAction::Replaced {
        assert("Replace"@.len() != "Replaced"@.len());
    }
}

/// The words shown for a reason, as they read apart.
pub open spec fn reason_split(r: DnfReason) -> Seq<Seq<char>> {
    match r {
        DnfReason::Dependency => seq!["Dependency"@],
        DnfReason::WeakDependency => seq!["Weak"@, "Dependency"@],
        DnfReason::Group => seq!["Group"@],
        DnfReason::User => seq!["User"@],
        DnfReason::ExternalUser => seq!["External"@, "User"@],
    }
}

proof fn lemma_white_spaces(n: nat)
    ensures
        all_white(spaces(n) + "  "@),
        (spaces(n) + "  "@).len() > 0,
{
    reveal_strlit("  ");
    let ws = spaces(n) + "  "@;
    assert forall|i: int| 0 <= i < ws.len() implies is_white(#[trigger] ws[i]) by {
        if i < n {
            assert(ws[i] == ' ');
        } else {
            assert(ws[i] == "  "@[i - n]);
        }
    }
}

proof fn lemma_reason_split(r: DnfReason)
    ensures
        words(reason_words(r)) == reason_split(r),
        reason_words(r).len() <= 19,
{
    reveal_strlit("Dependency");
    reveal_strlit("Weak Dependency");
    reveal_strlit("Group");
    reveal_strlit("User");
    reveal_strlit("External User");
    reveal_strlit("Weak");
    reveal_strlit("External");
    reveal_strlit(" ");
    match r {
        DnfReason::WeakDependency => {
            assert("Weak Dependency"@ =~= "Weak"@ + " "@ + "Dependency"@);
            assert(all_white(" "@));
            lemma_words_concat("Weak"@, " "@, "Dependency"@);
            lemma_words_single("Weak"@);
            lemma_words_single("Dependency"@);
            assert(seq!["Weak"@] + seq!["Dependency"@] =~= seq!["Weak"@, "Dependency"@]);
        },
        DnfReason::ExternalUser => {
            assert("External User"@ =~= "External"@ + " "@ + "User"@);
            assert(all_white(" "@));
            lemma_words_concat("External"@, " "@, "User"@);
            lemma_words_single("External"@);
            lemma_words_single("User"@);
            assert(seq!["External"@] + seq!["User"@] =~= seq!["External"@, "User"@]);
        },
        DnfReason::Dependency => {
            lemma_words_single("Dependency"@);
        },
        DnfReason::Group => {
            lemma_words_single("Group"@);
        },
        DnfReason::User => {
            lemma_words_single("User"@);
        },
    }
}

/// An event row reads back as the event: reading the row that `render`
/// writes gives the same action, package, reason and repository, for an
/// action other than `Replaced` (shown as `Replace`, which names no action),
/// a package name of at most 44 characters (longer ones are cut), and
/// package and repository names that are not empty and hold no white space.
pub proof fn lemma_event_row_reads_back(e: EventView)
    requires
        e.0 != DnfAction::Replaced,
        0 < e.1.len() <= 44,
        no_white(e.1),
        e.3.len() > 0,
        no_white(e.3),
    ensures
        event_fate(event_row(e)) == Some(Ok::<EventView, Seq<char>>(e)),
{
    reveal_strlit("Install");
    reveal_strlit("Upgrade");
    reveal_strlit("Remove");
    reveal_strlit("Replaced");
    reveal_strlit("Replace");
    reveal_strlit("Dependency");
    reveal_strlit("Group");
    reveal_strlit("User");
    reveal_strlit("Weak");
    reveal_strlit("External");
    reveal_strlit("  ");
    let (a, rpm, reason, repo) = e;
    let aw = action_word(a);
    let rw = reason_words(reason);
    lemma_reason_split(reason);
    assert(aw.len() <= 9);
    let w1 = spaces((9 - aw.len()) as nat) + "  "@;
    let w2 = spaces((44 - rpm.len()) as nat) + "  "@;
    let w3 = spaces((19 - rw.len()) as nat) + "  "@;
    lemma_white_spaces((9 - aw.len()) as nat);
    lemma_white_spaces((44 - rpm.len()) as nat);
    lemma_white_spaces((19 - rw.len()) as nat);
    let tail3 = rw + w3 + repo;
    let tail2 = rpm + w2 + tail3;
    let row = event_row(e);
    assert(pad_right(aw, 9) =~= aw + spaces((9 - aw.len()) as nat));
    assert(fit_to(rpm, 44) =~= rpm + spaces((44 - rpm.len()) as nat));
    assert(pad_right(rw, 19) =~= rw + spaces((19 - rw.len()) as nat));
    assert(row =~= aw + w1 + tail2);
    lemma_words_concat(aw, w1, tail2);
    lemma_words_concat(rpm, w2, tail3);
    lemma_words_concat(rw, w3, repo);
    assert(no_white(aw) && aw.len() > 0);
    lemma_words_single(aw);
    lemma_words_single(rpm);
    lemma_words_single(repo);
    let toks = words(row);
    assert(toks =~= seq![aw, rpm] + reason_split(reason) + seq![repo]);
    lemma_action_word_read_back(a);
    assert(toks[0] == aw);
    assert(toks[1] == rpm);
    assert("Weak"@[0] != "User"@[0]);
    match reason {
        DnfReason::WeakDependency => {
            assert(toks[2] == "Weak"@);
            assert(toks[3] == "Dependency"@);
            assert(toks[4] == repo);
        },
        DnfReason::ExternalUser => {
            assert(toks[2] == "External"@);
            assert(toks[3] == "User"@);
            assert(toks[4] == repo);
        },
        _ => {
            assert(toks[3] == repo);
        },
    }
}

/// The word that names each action in `dnf history info` output.
pub open spec fn names_action(word: Seq<char>, a: DnfAction) -> bool {
    ||| word == "Install"@ && a == DnfAction::Install
    ||| word == "Upgrade"@ && a == DnfAction::Upgrade
    ||| word == "Remove"@ && a == DnfAction::Remove
    ||| word == "Replaced"@ && a == DnfAction::Replaced
}

/// An event line, as `dnf history info` writes one, reads as its event: the
/// word naming the action (`Replaced` included), the package, the reason and
/// the repository, one space apart, give that action, package, reason and
/// repository, whatever the action.
pub proof fn lemma_event_line_reads(word: Seq<char>, e: EventView)
    requires
        names_action(word, e.0),
        e.1.len() > 0,
        no_white(e.1),
        e.3.len() > 0,
        no_white(e.3),
    ensures
        event_fate(word + " "@ + e.1 + " "@ + reason_words(e.2) + " "@ + e.3) == Some(
            Ok::<EventView, Seq<char>>(e),
        ),
{
    reveal_strlit("Install");
    reveal_strlit("Upgrade");
    reveal_strlit("Remove");
    reveal_strlit("Replaced");
    reveal_strlit("Dependency");
    reveal_strlit("Group");
    reveal_strlit("User");
    reveal_strlit("Weak");
    reveal_strlit("External");
    reveal_strlit(" ");
    let (a, rpm, reason, repo) = e;
    let rw = reason_words(reason);
    lemma_reason_split(reason);
    let sp = " "@;
    assert(all_white(sp) && sp.len() > 0);
    let tail3 = rw + sp + repo;
    let tail2 = rpm + sp + tail3;
    let line = word + " "@ + e.1 + " "@ + reason_words(e.2) + " "@ + e.3;
    assert(line =~= word + sp + tail2);
    assert(word.len() > 0 && no_white(word));
    lemma_words_concat(word, sp, tail2);
    lemma_words_concat(rpm, sp, tail3);
    lemma_words_concat(rw, sp, repo);
    lemma_words_single(word);
    lemma_words_single(rpm);
    lemma_words_single(repo);
    let toks = words(line);
    assert(toks =~= seq![word, rpm] + reason_split(reason) + seq![repo]);
    assert(toks[0] == word);
    lemma_trim_plain(word);
    assert(action_named(trim(toks[0])) == Some(a));
    assert(toks[1] == rpm);
    assert("Weak"@[0] != "User"@[0]);
    match reason {
        DnfReason::WeakDependency => {
            assert(toks[2] == "Weak"@);
            assert(toks[3] == "Dependency"@);
            assert(toks[4] == repo);
        },
        DnfReason::ExternalUser => {
            assert(toks[2] == "External"@);
            assert(toks[3] == "User"@);
            assert(toks[4] == repo);
        },
        _ => {
            assert(toks[3] == repo);
        },
    }
}

/// A frame mentions a package exactly when the package name of one of its
/// events opens with the name asked for, whichever event that is.
pub proof fn lemma_mentions_some_event(h: DnfHistory, rpm: Seq<char>)
    ensures
        h.mentions(rpm) <==> exists|i: int|
            0 <= i < h.events@.len() && rpm.len() <= (#[trigger] h.events@[i]).rpm@.len()
                && h.events@[i].rpm@.subrange(0, rpm.len() as int) == rpm,
{
    if h.mentions(rpm) {
        let i = choose|i: int| 0 <= i < h.events@.len() && starts_with(#[trigger] h.events@[i].rpm@, rpm);
        assert(h.events@[i].rpm@.subrange(0, rpm.len() as int) =~= h.events@[i].rpm@.take(rpm.len() as int));
    }
    if exists|i: int|
        0 <= i < h.events@.len() && rpm.len() <= (#[trigger] h.events@[i]).rpm@.len()
            && h.events@[i].rpm@.subrange(0, rpm.len() as int) == rpm {
        let i = choose|i: int|
            0 <= i < h.events@.len() && rpm.len() <= (#[trigger] h.events@[i]).rpm@.len()
                && h.events@[i].rpm@.subrange(0, rpm.len() as int) == rpm;
        assert(h.events@[i].rpm@.subrange(0, rpm.len() as int) =~= h.events@[i].rpm@.take(rpm.len() as int));
        assert(starts_with(h.events@[i].rpm@, rpm));
    }
}

/// Shown details of a frame give, on their second line, the frame's begin
/// time, whole, as jiff's `Display` writes it, after the `When` label.
pub proof fn lemma_details_show_begin_time(h: DnfHistory, rpms: Seq<Seq<char>>, lines: Seq<Seq<char>>)
    requires
        shows_frame(h, rpms, lines),
        lines.len() > 0,
    ensures
        lines[1] == "When       : "@ + h.begin_time@.4,
        lines[1].len() == "When       : "@.len() + h.begin_time@.4.len(),
{
}

/// A frame read from `dnf history info` output begins at the time its
/// second line lists, read as UTC: the instant of its begin time is that
/// civil time taken as UTC, and it is seen in the zone asked for.
pub proof fn lemma_begin_time_is_listed_time_as_utc(
    lines: Seq<Seq<char>>,
    timezone: Seq<char>,
    h: DnfHistory,
)
    requires
        history_outcome(lines, timezone, Ok(h)),
    ensures
        begin_text_of(lines) matches Some(b) && parsed_datetime(b) matches Some(c) && instant_nanos(
            h.begin_time@.0,
            h.begin_time@.1,
        ) == utc_nanos(c) && zone_named(h.begin_time@.2, timezone),
{
}

impl Default for DnfHistoryFrames {
    fn default() -> (r: Self)
        ensures
            r@.len() == 0,
    {
        DnfHistoryFrames { frames: Vec::new() }
    }
}

impl DnfHistoryFrames {
    /// An empty collection.
    pub fn new() -> (r: Self)
        ensures
            r@.len() == 0,
    {
        DnfHistoryFrames { frames: Vec::new() }
    }

    /// Adds a DNF History frame.
    pub fn grow(self, frame: DnfHistory) -> (r: Self)
        ensures
            r@ == self@.push(frame),
    {
        let mut frames = self.frames;
        frames.push(frame);
        DnfHistoryFrames { frames }
    }

    /// The argument of the `dnf history info` call whose frame comes next:
    /// `last-N` with `N` being `offset` plus the number of frames held.
    ///
    /// Returns an error when more than `max_dnf_deja_vu` frames are held.
    pub fn next_frame_argument(&self, offset: usize, max_dnf_deja_vu: usize) -> (r: Result<String, MyError>)
        requires
            self@.len() <= max_dnf_deja_vu ==> offset + self@.len() <= usize::MAX,
        ensures
            self@.len() > max_dnf_deja_vu ==> (r matches Err(MyError::Runtime(m)) && m@
                == "Maximum DNF History frames count reached"@),
            self@.len() <= max_dnf_deja_vu ==> (r matches Ok(s) && s@ == "last-"@ + decimal(
                (offset + self@.len()) as nat,
            )),
    {
        let len = self.frames.len();
        if len > max_dnf_deja_vu {
            return Err(MyError::Runtime("Maximum DNF History frames count reached".to_owned()));
        }
        let mut arg = "last-".to_owned();
        arg.append(from_chars(&decimal_chars(offset + len)).as_str());
        Ok(arg)
    }

    /// Returns the size of this collection.
    pub fn len(&self) -> (r: usize)
        ensures
            r == self@.len(),
    {
        self.frames.len()
    }

    /// Returns whether this collection is empty.
    pub fn is_empty(&self) -> (r: bool)
        ensures
            r == (self@.len() == 0),
    {
        self.frames.len() == 0
    }

    /// Returns TRUE if the given RPM is mentioned in any DNF event within the
    /// frame at the given index. Returns FALSE otherwise.
    pub fn contains_rpm(&self, rpm: &str, ndx: usize) -> (r: bool)
        requires
            ndx < self@.len(),
        ensures
            r == self@[ndx as int].mentions(rpm@),
    {
        self.frames[ndx].contains_rpm(rpm)
    }

    /// Whether the search for the designated RPMs wants another frame: one of
    /// them is mentioned in no frame held yet, and at most `max_dnf_deja_vu`
    /// frames are held.
    pub fn needs_more(&self, rpms: &Vec<String>, max_dnf_deja_vu: usize) -> (r: bool)
        ensures
            r == wants_frame(self@, views_of(rpms@), max_dnf_deja_vu),
    {
        let ghost targets = views_of(rpms@);
        if self.frames.len() > max_dnf_deja_vu {
            return false;
        }
        let m = rpms.len();
        for j in 0..m
            invariant
                m == rpms@.len(),
                targets == views_of(rpms@),
                self.frames@.len() <= max_dnf_deja_vu,
                forall|k: int| 0 <= k < j ==> found_in(self@, #[trigger] targets[k]),
        {
            let n = self.frames.len();
            let mut found = false;
            let mut i: usize = 0;
            while i < n && !found
                invariant
                    n == self@.len(),
                    n == self.frames@.len(),
                    j < m == rpms@.len(),
                    i <= n,
                    forall|k: int| 0 <= k < i ==> !(#[trigger] self@[k]).mentions(rpms@[j as int]@),
                    found ==> i < n && self@[i as int].mentions(rpms@[j as int]@),
                decreases n - i, (if found { 0int } else { 1int }),
            {
                if self.frames[i].contains_rpm(rpms[j].as_str()) {
                    found = true;
                } else {
                    i += 1;
                }
            }
            assert(targets[j as int] == rpms@[j as int]@);
            if !found {
                assert(!found_in(self@, targets[j as int]));
                return true;
            }
        }
        false
    }

    /// Whether some frame mentions the RPM.
    pub fn mentions(&self, rpm: &str) -> (r: bool)
        ensures
            r == found_in(self@, rpm@),
    {
        let n = self.frames.len();
        for i in 0..n
            invariant
                n == self@.len(),
                forall|k: int| 0 <= k < i ==> !(#[trigger] self@[k]).mentions(rpm@),
        {
            if self.frames[i].contains_rpm(rpm) {
                return true;
            }
        }
        false
    }

    /// The designated RPMs, in order, that no frame mentions: those the
    /// search gave up on.
    pub fn unfound(&self, rpms: &Vec<String>) -> (r: Vec<String>)
        ensures
            views_of(r@) == unfound(self@, views_of(rpms@)),
    {
        let ghost targets = views_of(rpms@);
        let mut out: Vec<String> = Vec::new();
        let m = rpms.len();
        for j in 0..m
            invariant
                m == rpms@.len(),
                targets == views_of(rpms@),
                views_of(out@) == unfound(self@, targets.take(j as int)),
        {
            assert(targets.take(j + 1).drop_last() =~= targets.take(j as int));
            assert(targets.take(j + 1).last() == rpms@[j as int]@);
            if !self.mentions(rpms[j].as_str()) {
                let ghost before = out@;
                out.push(rpms[j].clone());
                assert(views_of(out@) =~= views_of(before).push(rpms@[j as int]@));
            }
        }
        assert(targets.take(m as int) =~= targets);
        out
    }

    /// Whether the frame at `ndx` mentions one of the designated RPMs.
    pub fn mentions_any(&self, rpms: &Vec<String>, ndx: usize) -> (r: bool)
        requires
            ndx < self@.len(),
        ensures
            r == mentions_any(self@[ndx as int], views_of(rpms@)),
    {
        let m = rpms.len();
        for j in 0..m
            invariant
                m == rpms@.len(),
                ndx < self@.len(),
                forall|k: int| 0 <= k < j ==> !self@[ndx as int].mentions(#[trigger] views_of(rpms@)[k]),
        {
            if self.contains_rpm(rpms[j].as_str(), ndx) {
                assert(views_of(rpms@)[j as int] == rpms@[j as int]@);
                return true;
            }
        }
        false
    }

    /// The frames that mention one of the designated RPMs, in order: the
    /// DNF history records that pertain to them.
    pub fn relevant(self, rpms: &Vec<String>) -> (r: Self)
        ensures
            r@ == mentioning_frames(self@, views_of(rpms@)),
            forall|i: int| 0 <= i < r@.len() ==> mentions_any(#[trigger] r@[i], views_of(rpms@)),
    {
        let ghost all = self@;
        let ghost targets = views_of(rpms@);
        let mut kept: Vec<DnfHistory> = Vec::new();
        let mut i: usize = 0;
        let n = self.frames.len();
        for frame in it: self.frames
            invariant
                n == all.len(),
                it.seq() == all,
                i == it.index(),
                targets == views_of(rpms@),
                kept@ == mentioning_frames(all.take(i as int), targets),
        {
            assert(all.take(i + 1).drop_last() =~= all.take(i as int));
            assert(all.take(i + 1).last() == frame);
            let single = DnfHistoryFrames { frames: vec![frame] };
            assert(single@[0] == frame);
            let keep = single.mentions_any(rpms, 0);
            let mut v = single.frames;
            let frame = v.pop().unwrap();
            if keep {
                kept.push(frame);
            }
            i += 1;
        }
        assert(all.take(all.len() as int) =~= all);
        proof {
            lemma_mentioning_frames(all, targets);
        }
        DnfHistoryFrames { frames: kept }
    }

    /// The lines that show the frames, limited to the events that concern
    /// the designated RPMs, between an opening and a closing line.
    pub fn details_lines(&self, rpms: &Vec<String>) -> (r: Vec<String>)
        ensures
            shows_frames(self@, views_of(rpms@), views_of(r@)),
    {
        let mut out: Vec<String> = Vec::new();
        out.push("----- DNF History Info Record(s) -----".to_owned());
        let ghost mut groups: Seq<Seq<Seq<char>>> = seq![];
        let n = self.frames.len();
        for i in 0..n
            invariant
                n == self.frames@.len(),
                groups.len() == i,
                forall|j: int|
                    0 <= j < i ==> shows_frame(#[trigger] self@[j], views_of(rpms@), groups[j]),
                views_of(out@) == seq!["----- DNF History Info Record(s) -----"@] + groups.flatten(),
        {
            let lines = self.frames[i].details_lines(rpms);
            let ghost start = views_of(out@);
            let m = lines.len();
            for k in 0..m
                invariant
                    m == lines@.len(),
                    views_of(out@) == start + views_of(lines@).take(k as int),
            {
                let ghost before = views_of(out@);
                out.push(lines[k].clone());
                assert(views_of(out@) =~= before.push(lines@[k as int]@));
                assert(views_of(lines@).take(k + 1) =~= views_of(lines@).take(k as int).push(lines@[k as int]@));
                assert(views_of(out@) =~= start + views_of(lines@).take(k + 1));
            }
            assert(views_of(lines@).take(m as int) =~= views_of(lines@));
            proof {
                let g = groups;
                groups = groups.push(views_of(lines@));
                g.lemma_flatten_push(views_of(lines@));
                assert forall|j: int| 0 <= j < i + 1 implies shows_frame(
                    #[trigger] self@[j],
                    views_of(rpms@),
                    groups[j],
                ) by {
                    if j < i {
                        assert(groups[j] == g[j]);
                    }
                }
            }
        }
        let ghost before = views_of(out@);
        out.push("-----".to_owned());
        assert(views_of(out@) =~= before.push("-----"@));
        assert(views_of(out@) =~= seq!["----- DNF History Info Record(s) -----"@] + groups.flatten()
            + seq!["-----"@]);
        assert(groups.len() == self@.len());
        assert(forall|i: int|
            0 <= i < groups.len() ==> shows_frame(#[trigger] self@[i], views_of(rpms@), groups[i]));
        out
    }
}

} // verus!
