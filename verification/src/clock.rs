//! Instants of time.

use crate::number::decimal;
use vstd::prelude::*;

verus! {

/// An instant: seconds since the start of 1970 in UTC, and nanoseconds beyond them.
#[derive(Clone, Copy, Debug, PartialEq, Eq, Structural)]
pub struct Timestamp {
    pub secs: i64,
    pub nanos: u32,
}

/// The first second of the first year that the calendar knows.
pub const EARLIEST: i64 = -8_334_601_228_800;

/// The last second of the last year that the calendar knows.
pub const LATEST: i64 = 8_210_266_876_799;

/// The seconds of a day.
pub const DAY: i64 = 86_400;

/// The most seconds that a span of time can have.
pub const LONGEST: i64 = 9_223_372_036_854_775;

/// The notation of timestamps in the context of a command: seconds since 1970.
pub const TIMESTAMP_FORMAT: &'static str = "%s";

impl Timestamp {
    /// An instant within the calendar.
    pub open spec fn valid(self) -> bool {
        &&& EARLIEST <= self.secs <= LATEST
        &&& self.nanos < 1_000_000_000
    }

    /// An instant that a clock can show: not before 1970.
    pub open spec fn current(self) -> bool {
        self.valid() && 0 <= self.secs
    }
}

/// A whole number in decimal notation.
pub open spec fn signed_decimal(n: int) -> Seq<char> {
    if n < 0 {
        seq!['-'] + decimal((-n) as nat)
    } else {
        decimal(n as nat)
    }
}

/// The timestamp of the instant one day before `now`.
pub open spec fn day_before_text(now: Timestamp) -> Seq<char> {
    signed_decimal(now.secs - DAY)
}

/// `chrono::Local::now` reads the system clock. The instant it gives is not
/// before 1970 (it panics otherwise), lies within chrono's calendar, and its
/// nanoseconds are those of the clock, below one second. Which instant it is,
/// is the clock's to say.
#[verifier::external_body]
pub(crate) fn local_now() -> (now: Timestamp)
    ensures
        now.current(),
{
    let now = chrono::Local::now();
    Timestamp { secs: now.timestamp(), nanos: now.timestamp_subsec_nanos() }
}

/// `chrono::TimeDelta::try_days` gives the span of that many days of 86400
/// seconds, or nothing if that is beyond what a span can hold. The span is
/// handed on in seconds.
#[verifier::external_body]
fn days_in_seconds(days: i64) -> (secs: Option<i64>)
    ensures
        match secs {
            Some(s) => s == days * DAY && -LONGEST <= s <= LONGEST,
            None => !(-LONGEST <= days * DAY <= LONGEST),
        },
{
    match chrono::TimeDelta::try_days(days) {
        Some(span) => Some(span.num_seconds()),
        None => None,
    }
}

/// Subtracting a `chrono::TimeDelta` of whole seconds from a
/// `chrono::DateTime` moves the instant back by that many seconds and keeps the
/// nanoseconds. The result must lie within the calendar.
#[verifier::external_body]
fn earlier(at: Timestamp, secs: i64) -> (then: Timestamp)
    requires
        at.valid(),
        -LONGEST <= secs <= LONGEST,
        EARLIEST <= at.secs - secs <= LATEST,
    ensures
        then.secs == at.secs - secs,
        then.nanos == at.nanos,
{
    let at = chrono::DateTime::from_timestamp(at.secs, at.nanos).unwrap();
    let then = at - chrono::TimeDelta::seconds(secs);
    Timestamp { secs: then.timestamp(), nanos: then.timestamp_subsec_nanos() }
}

/// `chrono::DateTime::format` with the pattern `%s` writes the seconds since
/// 1970 in decimal notation, whatever the time zone.
#[verifier::external_body]
fn format_timestamp(at: Timestamp, format: &str) -> (text: String)
    requires
        at.valid(),
        format@ == "%s"@,
    ensures
        text@ == signed_decimal(at.secs as int),
{
    chrono::DateTime::from_timestamp(at.secs, at.nanos).unwrap().format(format).to_string()
}

/// The timestamp of the instant one day before `now`, as text.
pub fn day_before(now: Timestamp) -> (text: String)
    requires
        now.current(),
    ensures
        text@ == day_before_text(now),
{
    let day = days_in_seconds(1).unwrap();
    format_timestamp(earlier(now, day), TIMESTAMP_FORMAT)
}

} // verus!
