//! Instants on the UTC time line and the whole seconds and minutes between them.

use vstd::prelude::*;
use vstd::string::*;
use crate::text::opt_text;

verus! {

/// A point in time: whole seconds since 1970-01-01T00:00:00Z and the
/// nanoseconds that follow them. Nanoseconds of a second or more stand for a
/// leap second: the instant then lies in the second that was put in behind
/// `secs`.
#[derive(Clone, Copy, Debug, PartialEq, Eq, Structural)]
pub struct UtcInstant {
    pub secs: i64,
    pub nanos: u32,
}

/// The nanoseconds in a second.
pub const NANOS_PER_SEC: i128 = 1_000_000_000;

/// The seconds in a day.
pub const SECS_PER_DAY: i128 = 86_400;

/// `n` divided by `unit`, rounded toward zero.
pub open spec fn toward_zero(n: int, unit: int) -> int
    recommends
        unit > 0,
{
    if n >= 0 {
        n / unit
    } else {
        -((-n) / unit)
    }
}

/// The whole minutes in a number of seconds, rounded toward zero.
pub open spec fn whole_minutes(seconds: int) -> int {
    toward_zero(seconds, 60)
}

/// The second that a leap second between two instants adds to, or takes
/// from, the seconds from `from` to `to`. A leap second is counted by the
/// time of day alone: it adds one where `from` lies in a leap second and `to`
/// is later in the day, and takes one where `to` lies in a leap second and
/// `from` is later in the day. This is how `chrono` subtracts two dates and
/// times, so that instants parsed by it are counted as it counts them.
pub open spec fn leap_adjust(from: UtcInstant, to: UtcInstant) -> int {
    if to.second_of_day() > from.second_of_day() && from.in_leap_second() {
        1
    } else if to.second_of_day() < from.second_of_day() && to.in_leap_second() {
        -1
    } else {
        0
    }
}

/// The nanoseconds from `from` to `to`; negative where `to` is the earlier.
pub open spec fn nanos_between(from: UtcInstant, to: UtcInstant) -> int {
    (to.secs - from.secs + leap_adjust(from, to)) * NANOS_PER_SEC + (to.nanos - from.nanos)
}

/// The whole seconds from `from` to `to`, rounded toward zero; negative where
/// `to` is the earlier.
pub open spec fn seconds_between(from: UtcInstant, to: UtcInstant) -> int {
    toward_zero(nanos_between(from, to), NANOS_PER_SEC as int)
}

/// The second of the day in which a number of seconds since the epoch falls.
fn day_second(secs: i64) -> (r: i128)
    ensures
        r == secs as int % SECS_PER_DAY as int,
{
    let wide: i128 = secs as i128;
    if wide >= 0 {
        wide % SECS_PER_DAY
    } else {
        let back: i128 = (-wide) % SECS_PER_DAY;
        if back == 0 {
            0
        } else {
            SECS_PER_DAY - back
        }
    }
}

impl UtcInstant {
    /// The second of the day, from 0 to 86399, in which the instant falls.
    pub open spec fn second_of_day(self) -> int {
        self.secs as int % SECS_PER_DAY as int
    }

    /// The instant lies in a leap second.
    pub open spec fn in_leap_second(self) -> bool {
        self.nanos >= NANOS_PER_SEC
    }

    /// `self` is later than `other`: by the seconds, and by the nanoseconds
    /// where the seconds are the same, as `chrono` orders dates and times.
    pub open spec fn later_than(self, other: UtcInstant) -> bool {
        self.secs > other.secs || (self.secs == other.secs && self.nanos > other.nanos)
    }

    /// Whether `self` is later than `other`.
    pub fn is_after(&self, other: &UtcInstant) -> (r: bool)
        ensures
            r == self.later_than(*other),
    {
        self.secs > other.secs || (self.secs == other.secs && self.nanos > other.nanos)
    }

    /// The whole seconds from `now` until `self`.
    pub fn seconds_after(&self, now: &UtcInstant) -> (r: i128)
        ensures
            r == seconds_between(*now, *self),
    {
        let mine = day_second(self.secs);
        let theirs = day_second(now.secs);
        let adjust: i128 = if mine > theirs && now.nanos >= 1_000_000_000 {
            1
        } else if mine < theirs && self.nanos >= 1_000_000_000 {
            -1
        } else {
            0
        };
        let seconds: i128 = self.secs as i128 - now.secs as i128 + adjust;
        let diff: i128 = seconds * NANOS_PER_SEC + (self.nanos as i128 - now.nanos as i128);
        if diff >= 0 {
            diff / NANOS_PER_SEC
        } else {
            -((-diff) / NANOS_PER_SEC)
        }
    }
}

/// The instant that an RFC 3339 date-and-time text stands for, `None` where
/// the text is no such date and time.
pub uninterp spec fn rfc3339_instant(text: Seq<char>) -> Option<UtcInstant>;

/// The RFC 3339 text, in UTC, of the instant `secs` seconds after the epoch:
/// `None` where the calendar does not reach that far.
pub uninterp spec fn rfc3339_text(secs: i64) -> Option<Seq<char>>;

/// What the instant `secs` seconds after the epoch looks like, in UTC, when
/// written after a `strftime` pattern: `None` where the calendar does not
/// reach that far, or where the pattern cannot be written.
pub uninterp spec fn formatted_text(secs: i64, pattern: Seq<char>) -> Option<Seq<char>>;

/// The pattern of a calendar day: `YYYY-MM-DD`.
pub open spec fn day_pattern() -> Seq<char> {
    "%Y-%m-%d"@
}

/// Calls `chrono::DateTime::parse_from_rfc3339` and hands back the parsed
/// instant as its `timestamp()` and `timestamp_subsec_nanos()`. The contract
/// only gives that result its name: the same text always parses to the same
/// instant, or never parses.
#[verifier::external_body]
pub(crate) fn parse_rfc3339(text: &str) -> (r: Option<UtcInstant>)
    ensures
        r == rfc3339_instant(text@),
{
    match chrono::DateTime::parse_from_rfc3339(text) {
        Ok(parsed) => Some(
            UtcInstant { secs: parsed.timestamp(), nanos: parsed.timestamp_subsec_nanos() },
        ),
        Err(_) => None,
    }
}

/// Calls `chrono::DateTime::to_rfc3339` on the UTC date and time that
/// `chrono::DateTime::from_timestamp` makes of `secs`; `None` where it makes
/// none. The contract gives the text its name, and says that the epoch itself
/// has a text: chrono defines that date and time as `UNIX_EPOCH`.
#[verifier::external_body]
pub(crate) fn format_rfc3339(secs: i64) -> (r: Option<String>)
    ensures
        opt_text(r) == rfc3339_text(secs),
        secs == 0 ==> r is Some,
{
    chrono::DateTime::from_timestamp(secs, 0).map(|at| at.to_rfc3339())
}

/// Calls `chrono::DateTime::format` with `pattern` on the UTC date and time
/// that `chrono::DateTime::from_timestamp` makes of `secs`, and writes the
/// result out with `DelayedFormat::write_to`; `None` where there is no such
/// date and time, or where the writing fails, as it does for a pattern that
/// chrono does not know. The contract only gives the text its name.
#[verifier::external_body]
pub(crate) fn format_with(secs: i64, pattern: &str) -> (r: Option<String>)
    ensures
        opt_text(r) == formatted_text(secs, pattern@),
{
    let at = chrono::DateTime::from_timestamp(secs, 0)?;
    let mut out = String::new();
    match at.format(pattern).write_to(&mut out) {
        Ok(()) => Some(out),
        Err(_) => None,
    }
}

/// The date and time that an event carries for `secs`: its RFC 3339 text,
/// and that of the epoch where the calendar does not reach as far as `secs`.
pub open spec fn date_time_or_epoch(secs: i64) -> Seq<char> {
    match rfc3339_text(secs) {
        Some(text) => text,
        None => rfc3339_text(0)->0,
    }
}

/// The day that an event carries for `secs`: its `YYYY-MM-DD` text, and that
/// of the epoch where the calendar does not reach as far as `secs`; nothing
/// where the epoch has no such text either.
pub open spec fn day_or_epoch(secs: i64) -> Seq<char> {
    match formatted_text(secs, day_pattern()) {
        Some(text) => text,
        None => match formatted_text(0, day_pattern()) {
            Some(text) => text,
            None => Seq::empty(),
        },
    }
}

/// Writes the date and time of `secs` seconds after the epoch.
pub fn date_time_string(secs: i64) -> (r: String)
    ensures
        r@ == date_time_or_epoch(secs),
{
    match format_rfc3339(secs) {
        Some(text) => text,
        None => match format_rfc3339(0) {
            Some(text) => text,
            None => String::new(),
        },
    }
}

/// Writes the day of `secs` seconds after the epoch.
pub fn day_string(secs: i64) -> (r: String)
    ensures
        r@ == day_or_epoch(secs),
{
    match format_with(secs, "%Y-%m-%d") {
        Some(text) => text,
        None => match format_with(0, "%Y-%m-%d") {
            Some(text) => text,
            None => String::new(),
        },
    }
}

/// The instant that an event's date-and-time text stands for: `None` where
/// the event has no such text or the text does not parse.
pub open spec fn event_instant(date_time: Option<Seq<char>>) -> Option<UtcInstant> {
    match date_time {
        Some(text) => rfc3339_instant(text),
        None => None,
    }
}

/// Resolves an event's date-and-time text to an instant.
pub fn parse_event_time(date_time_str: &Option<String>) -> (r: Option<UtcInstant>)
    ensures
        r == event_instant(opt_text(*date_time_str)),
{
    match date_time_str {
        Some(text) => parse_rfc3339(text.as_str()),
        None => None,
    }
}

} // verus!
