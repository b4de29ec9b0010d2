//! The calls into `jiff` that the parsers make, and the `jiff` types that
//! their values carry. The contents of these values are opaque here.

use vstd::prelude::*;

verus! {

#[verifier::external_type_specification]
#[verifier::external_body]
pub struct ExJiffError(jiff::Error);

#[verifier::external_type_specification]
#[verifier::external_body]
pub struct ExDateTime(jiff::civil::DateTime);

#[verifier::external_type_specification]
#[verifier::external_body]
pub struct ExZoned(jiff::Zoned);

/// A civil date and time as plain numbers: year, month, day, hour, minute,
/// second and nanosecond.
pub type CivilView = (i16, i8, i8, i8, i8, i8, i32);

/// The civil datetime that jiff's default parser reads from the text, or
/// `None` when it refuses the text.
pub uninterp spec fn parsed_datetime(text: Seq<char>) -> Option<(i16, i8, i8, i8, i8, i8, i32)>;

/// A civil date and time, with no time zone: the numbers it is made of, read
/// from the `jiff::civil::DateTime` it holds.
#[derive(Clone, Copy, Debug)]
pub struct CivilTime {
    year: i16,
    month: i8,
    day: i8,
    hour: i8,
    minute: i8,
    second: i8,
    nanosecond: i32,
    datetime: jiff::civil::DateTime,
}

impl View for CivilTime {
    type V = CivilView;

    closed spec fn view(&self) -> CivilView {
        (self.year, self.month, self.day, self.hour, self.minute, self.second, self.nanosecond)
    }
}

impl CivilTime {
    /// The numbers of this date and time: year, month, day, hour, minute,
    /// second and nanosecond.
    pub fn parts(&self) -> (r: CivilView)
        ensures
            r == self@,
    {
        (self.year, self.month, self.day, self.hour, self.minute, self.second, self.nanosecond)
    }
}

/// `a` comes before `b` in time, comparing year, month, day, hour, minute,
/// second and nanosecond in turn.
pub open spec fn civil_before(a: CivilView, b: CivilView) -> bool {
    ||| a.0 < b.0
    ||| a.0 == b.0 && a.1 < b.1
    ||| a.0 == b.0 && a.1 == b.1 && a.2 < b.2
    ||| a.0 == b.0 && a.1 == b.1 && a.2 == b.2 && a.3 < b.3
    ||| a.0 == b.0 && a.1 == b.1 && a.2 == b.2 && a.3 == b.3 && a.4 < b.4
    ||| a.0 == b.0 && a.1 == b.1 && a.2 == b.2 && a.3 == b.3 && a.4 == b.4 && a.5 < b.5
    ||| a.0 == b.0 && a.1 == b.1 && a.2 == b.2 && a.3 == b.3 && a.4 == b.4 && a.5 == b.5 && a.6 < b.6
}

/// `local` is how the civil time `c`, placed in a zone by jiff's default
/// ("compatible") rule, reads on that zone's clock: `c` itself, or, where
/// the zone's clocks skip over `c` (a gap), a later time.
pub open spec fn placed_reading(c: CivilView, local: CivilView) -> bool {
    local == c || civil_before(c, local)
}

/// Whether `y` is a leap year of the Gregorian calendar.
pub open spec fn is_leap_year(y: int) -> bool {
    (y % 4 == 0 && y % 100 != 0) || y % 400 == 0
}

/// The number of leap years before the year `y`, counted from a fixed year
/// (only differences of it matter).
pub open spec fn leap_years_before(y: int) -> int {
    (y - 1) / 4 - (y - 1) / 100 + (y - 1) / 400
}

/// The number of days in the months of a year that come before month `m`.
pub open spec fn days_before_month(m: int, leap: bool) -> int {
    let days: int = if m <= 1 {
        0
    } else if m == 2 {
        31
    } else if m == 3 {
        59
    } else if m == 4 {
        90
    } else if m == 5 {
        120
    } else if m == 6 {
        151
    } else if m == 7 {
        181
    } else if m == 8 {
        212
    } else if m == 9 {
        243
    } else if m == 10 {
        273
    } else if m == 11 {
        304
    } else {
        334
    };
    if leap && m > 2 {
        days + 1
    } else {
        days
    }
}

/// The number of days from 1970-01-01 to the day `d` of month `m` of year
/// `y` (negative before it).
pub open spec fn days_since_epoch(y: int, m: int, d: int) -> int {
    365 * (y - 1970) + (leap_years_before(y) - leap_years_before(1970)) + days_before_month(
        m,
        is_leap_year(y),
    ) + d - 1
}

/// The Unix time, in whole seconds, of the civil time `c` read as UTC (its
/// nanoseconds left out).
pub open spec fn utc_second(c: CivilView) -> int {
    days_since_epoch(c.0 as int, c.1 as int, c.2 as int) * 86400 + c.3 * 3600 + c.4 * 60 + c.5
}

/// The Unix time, in nanoseconds, of the civil time `c` read as UTC.
pub open spec fn utc_nanos(c: CivilView) -> int {
    utc_second(c) * 1_000_000_000 + c.6
}

/// The instant that seconds and nanoseconds since the Unix epoch (of one
/// sign, as jiff gives them) stand for, in nanoseconds.
pub open spec fn instant_nanos(second: i64, nanosecond: i32) -> int {
    second * 1_000_000_000 + nanosecond
}

/// The number of days of month `m` of year `y`.
pub open spec fn month_length(y: int, m: int) -> int {
    if m == 2 {
        if is_leap_year(y) {
            29
        } else {
            28
        }
    } else if m == 4 || m == 6 || m == 9 || m == 11 {
        30
    } else {
        31
    }
}

/// Unix time starts at 1970-01-01 00:00:00 UTC.
pub proof fn lemma_utc_second_epoch(n: i32)
    ensures
        utc_second((1970, 1, 1, 0, 0, 0, n)) == 0,
        utc_nanos((1970, 1, 1, 0, 0, 0, n)) == n,
{
}

/// Within a day, a second, a minute and an hour later on the clock are 1,
/// 60 and 3600 seconds later in Unix time; a day later within a month is
/// 86400 seconds later.
pub proof fn lemma_utc_second_clock_steps(c: CivilView)
    ensures
        c.5 < 59 ==> utc_second((c.0, c.1, c.2, c.3, c.4, (c.5 + 1) as i8, c.6)) == utc_second(c) + 1,
        c.4 < 59 ==> utc_second((c.0, c.1, c.2, c.3, (c.4 + 1) as i8, c.5, c.6)) == utc_second(c) + 60,
        c.3 < 23 ==> utc_second((c.0, c.1, c.2, (c.3 + 1) as i8, c.4, c.5, c.6)) == utc_second(c)
            + 3600,
        c.2 < month_length(c.0 as int, c.1 as int) ==> utc_second(
            (c.0, c.1, (c.2 + 1) as i8, c.3, c.4, c.5, c.6),
        ) == utc_second(c) + 86400,
{
}

/// The last second of a day is followed by the first second of the next:
/// 23:59:59 on the last day of a month, and on the last day of a year, is
/// one second before 00:00:00 of the day that follows.
pub proof fn lemma_utc_second_day_rollover(y: i16, m: i8)
    requires
        1 <= m <= 12,
        y < i16::MAX,
    ensures
        m < 12 ==> utc_second((y, (m + 1) as i8, 1, 0, 0, 0, 0)) == utc_second(
            (y, m, month_length(y as int, m as int) as i8, 23, 59, 59, 0),
        ) + 1,
        m == 12 ==> utc_second(((y + 1) as i16, 1, 1, 0, 0, 0, 0)) == utc_second((y, 12, 31, 23, 59, 59, 0))
            + 1,
{
    if m == 12 {
        lemma_leap_years_step(y as int);
    }
}

/// One more year counted is one more leap year exactly when that year is a
/// leap year.
proof fn lemma_leap_years_step(y: int)
    ensures
        leap_years_before(y + 1) == leap_years_before(y) + if is_leap_year(y) {
            1int
        } else {
            0int
        },
{
    lemma_floor_step(y, 4);
    lemma_floor_step(y, 100);
    lemma_floor_step(y, 400);
}

proof fn lemma_floor_step(y: int, k: int)
    requires
        k > 0,
    ensures
        y / k - (y - 1) / k == if y % k == 0 {
            1int
        } else {
            0int
        },
{
    vstd::arithmetic::div_mod::lemma_fundamental_div_mod(y, k);
    vstd::arithmetic::div_mod::lemma_fundamental_div_mod(y - 1, k);
    assert(y / k - (y - 1) / k == if y % k == 0 { 1int } else { 0int }) by (nonlinear_arith)
        requires
            k > 0,
            y == k * (y / k) + y % k,
            y - 1 == k * ((y - 1) / k) + (y - 1) % k,
            0 <= y % k < k,
            0 <= (y - 1) % k < k,
    ;
}

/// `jiff::civil::DateTime::from_str`. Claimed: the outcome depends on the
/// text alone (named `parsed_datetime`), and the numbers of the datetime
/// read are those the parser gives.
#[verifier::external_body]
pub(crate) fn parse_datetime(text: &str) -> (r: Result<CivilTime, jiff::Error>)
    ensures
        match r {
            Ok(c) => parsed_datetime(text@) == Some(c@),
            Err(_) => parsed_datetime(text@) is None,
        },
{
    match <jiff::civil::DateTime as std::str::FromStr>::from_str(text) {
        Ok(d) => Ok(CivilTime { year: d.year(), month: d.month(), day: d.day(), hour: d.hour(),
            minute: d.minute(), second: d.second(), nanosecond: d.subsec_nanosecond(), datetime: d }),
        Err(e) => Err(e),
    }
}

/// A character with ASCII upper case letters made lower case.
pub open spec fn ascii_lower(c: char) -> char {
    if 'A' <= c && c <= 'Z' {
        (c as int + 32) as char
    } else {
        c
    }
}

/// Two names that are equal up to the letter case of ASCII letters.
pub open spec fn same_name(a: Seq<char>, b: Seq<char>) -> bool {
    a.len() == b.len() && forall|i: int| 0 <= i < a.len() ==> ascii_lower(a[i]) == ascii_lower(b[i])
}

/// `found` is the name of the zone that looking `name` up in the time zone
/// database gives: the zone named, up to ASCII letter case; `Etc/Unknown`
/// gives a zone without a name.
pub open spec fn zone_named(found: Option<Seq<char>>, name: Seq<char>) -> bool {
    match found {
        Some(n) => same_name(n, name),
        None => same_name(name, "etc/unknown"@),
    }
}

/// An instant seen in a time zone: the seconds and nanoseconds since the
/// Unix epoch, the zone's name and the civil time on the zone's clock, read
/// from the `jiff::Zoned` it holds.
#[derive(Debug)]
pub struct ZonedTime {
    second: i64,
    nanosecond: i32,
    zone: Option<String>,
    local: CivilTime,
    text: String,
    zoned: jiff::Zoned,
}

/// What a `ZonedTime` holds: seconds and nanoseconds since the Unix epoch,
/// the zone's name, the civil time on the zone's clock, and the text that
/// jiff's `Display` of it writes.
pub type ZonedView = (i64, i32, Option<Seq<char>>, CivilView, Seq<char>);

impl View for ZonedTime {
    type V = ZonedView;

    closed spec fn view(&self) -> ZonedView {
        (
            self.second,
            self.nanosecond,
            match self.zone {
                Some(n) => Some(n@),
                None => None,
            },
            self.local@,
            self.text@,
        )
    }
}

impl ZonedTime {
    /// Whole seconds since the Unix epoch.
    pub fn second(&self) -> (r: i64)
        ensures
            r == self@.0,
    {
        self.second
    }

    /// Nanoseconds past the whole second.
    pub fn nanosecond(&self) -> (r: i32)
        ensures
            r == self@.1,
    {
        self.nanosecond
    }

    /// The name of the time zone, if it has one.
    pub fn zone_name(&self) -> (r: Option<String>)
        ensures
            match r {
                Some(n) => self@.2 == Some(n@),
                None => self@.2 is None,
            },
    {
        match &self.zone {
            Some(n) => Some(n.clone()),
            None => None,
        }
    }

    /// The civil date and time on the zone's clock.
    pub fn local(&self) -> (r: CivilTime)
        ensures
            r@ == self@.3,
    {
        self.local
    }

    /// The text of this time, as jiff's `Display` of `Zoned` writes it.
    pub fn text(&self) -> (r: String)
        ensures
            r@ == self@.4,
    {
        zoned_text(self)
    }
}

/// `jiff::civil::DateTime::in_tz`: the civil time placed in the named zone,
/// by jiff's default ("compatible") rule. Claimed of every success: the zone
/// is the one named (see `zone_named`), and the zone's clock reads the civil
/// time given, or a later one where the zone's clocks skip over it (see
/// `placed_reading`). Where the zone is named `utc` (in any letter case),
/// jiff gives its built-in UTC zone, whose offset is always 0, without asking
/// the time zone database: the clock reads the civil time given and the
/// instant is that time read as UTC. Not claimed: for other zones, the
/// instant, which rests on the zone's rules as the time zone database found
/// on the machine holds them; and whether it succeeds.
#[verifier::external_body]
pub(crate) fn datetime_in_tz(c: &CivilTime, zone: &str) -> (r: Result<ZonedTime, jiff::Error>)
    ensures
        r matches Ok(z) ==> zone_named(z@.2, zone@) && placed_reading(c@, z@.3),
        r matches Ok(z) ==> (same_name(zone@, "utc"@) ==> z@.3 == c@ && instant_nanos(z@.0, z@.1)
            == utc_nanos(c@)),
{
    match c.datetime.in_tz(zone) {
        Ok(z) => {
            let (t, l) = (z.timestamp(), z.datetime());
            let local = CivilTime { year: l.year(), month: l.month(), day: l.day(), hour: l.hour(),
                minute: l.minute(), second: l.second(), nanosecond: l.subsec_nanosecond(), datetime: l };
            let zone = z.time_zone().iana_name().map(str::to_owned);
            let text = z.to_string();
            Ok(ZonedTime { second: t.as_second(), nanosecond: t.subsec_nanosecond(), zone, local, text, zoned: z })
        },
        Err(e) => Err(e),
    }
}

/// `jiff::Zoned::in_tz`: the same instant seen in the named zone. Claimed of
/// every success: the instant is unchanged and the zone is the one named
/// (see `zone_named`). Not claimed: whether it succeeds, and the civil time
/// on the new zone's clock, which rest on the time zone database found on
/// the machine.
#[verifier::external_body]
pub(crate) fn zoned_in_tz(t: &ZonedTime, zone: &str) -> (r: Result<ZonedTime, jiff::Error>)
    ensures
        r matches Ok(u) ==> u@.0 == t@.0 && u@.1 == t@.1 && zone_named(u@.2, zone@),
{
    match t.zoned.in_tz(zone) {
        Ok(z) => {
            let (s, l) = (z.timestamp(), z.datetime());
            let local = CivilTime { year: l.year(), month: l.month(), day: l.day(), hour: l.hour(),
                minute: l.minute(), second: l.second(), nanosecond: l.subsec_nanosecond(), datetime: l };
            let zone = z.time_zone().iana_name().map(str::to_owned);
            let text = z.to_string();
            Ok(ZonedTime { second: s.as_second(), nanosecond: s.subsec_nanosecond(), zone, local, text, zoned: z })
        },
        Err(e) => Err(e),
    }
}

/// `jiff::tz::TimeZone::get`, keeping the name of the zone found. Claimed of
/// every success: the zone found is the one named (see `zone_named`). Not
/// claimed: whether it succeeds, which rests on the time zone database found
/// on the machine.
#[verifier::external_body]
pub(crate) fn lookup_zone(zone: &str) -> (r: Result<Option<String>, jiff::Error>)
    ensures
        r matches Ok(found) ==> zone_named(
            match found {
                Some(n) => Some(n@),
                None => None,
            },
            zone@,
        ),
{
    match jiff::tz::TimeZone::get(zone) {
        Ok(z) => Ok(z.iana_name().map(str::to_owned)),
        Err(e) => Err(e),
    }
}

/// The `Display` text of a `jiff::Zoned`. Claimed: it is the text written
/// when the `ZonedTime` was made, `Display` being a function of the value.
#[verifier::external_body]
pub(crate) fn zoned_text(z: &ZonedTime) -> (r: String)
    ensures
        r@ == z@.4,
{
    format!("{}", z.zoned)
}

/// The `Debug` text of a `jiff::Error`. Nothing is claimed of it.
#[verifier::external_body]
pub(crate) fn jiff_error_text(e: &jiff::Error) -> (r: String) {
    format!("{:?}", e)
}

} // verus!
