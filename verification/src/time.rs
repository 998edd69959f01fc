//! Points in time and lengths of time as plain numbers, the wall clock, and
//! the RFC 3339 text of an instant as chrono writes and reads it.

use vstd::prelude::*;

verus! {

/// Nanoseconds in one second.
pub const NANOS_PER_SEC: u32 = 1_000_000_000;

/// Nanoseconds in one millisecond.
pub const NANOS_PER_MILLI: u32 = 1_000_000;

/// A point in time: seconds since 1970-01-01T00:00:00Z and nanoseconds since
/// the start of that second.
#[derive(Clone, Copy, Debug, PartialEq, Eq, Structural)]
pub struct Instant {
    /// Whole seconds since the epoch; negative before it.
    pub secs: i64,
    /// Nanoseconds since the start of the second. chrono counts on beyond
    /// 999,999,999 within a leap second.
    pub nanos: u32,
}

/// A length of time that is not negative: whole seconds and nanoseconds.
#[derive(Clone, Copy, Debug, PartialEq, Eq, Structural)]
pub struct TimeSpan {
    /// Whole seconds.
    pub secs: u64,
    /// Nanoseconds on top of the seconds; chrono takes fewer than
    /// 1,000,000,000.
    pub nanos: u32,
}

/// An instant as the system clock gives it: not before the Unix epoch, and
/// with fewer nanoseconds than a second has.
pub open spec fn clock_instant(at: Instant) -> bool {
    at.secs >= 0 && at.nanos < NANOS_PER_SEC
}

/// The instant of a clock reading of `secs` seconds and `nanos` nanoseconds
/// since the Unix epoch; none where the seconds are more than an `Instant`
/// can count.
pub open spec fn instant_of_reading(secs: u64, nanos: u32) -> Option<Instant> {
    if secs > i64::MAX {
        None
    } else {
        Some(Instant { secs: secs as i64, nanos })
    }
}

impl Instant {
    /// The instant of a clock reading of `secs` seconds and `nanos`
    /// nanoseconds since the Unix epoch.
    pub fn from_reading(secs: u64, nanos: u32) -> (r: Option<Instant>)
        ensures
            r == instant_of_reading(secs, nanos),
    {
        if secs > i64::MAX as u64 {
            None
        } else {
            Some(Instant { secs: secs as i64, nanos })
        }
    }

    /// `self` is strictly after `other`: by the seconds, then by the
    /// nanoseconds.
    pub open spec fn after(self, other: Instant) -> bool {
        self.secs > other.secs || (self.secs == other.secs && self.nanos > other.nanos)
    }

    /// Nanoseconds from `earlier` to `self`; negative where `self` is the
    /// earlier one.
    pub open spec fn nanos_since(self, earlier: Instant) -> int {
        (self.secs - earlier.secs) * NANOS_PER_SEC + (self.nanos - earlier.nanos)
    }

    /// Whether `self` is strictly after `other`.
    pub fn is_after(&self, other: &Instant) -> (r: bool)
        ensures
            r == self.after(*other),
    {
        self.secs > other.secs || (self.secs == other.secs && self.nanos > other.nanos)
    }

    /// Whether more than `limit` nanoseconds have passed from `start` to
    /// `self`.
    pub fn exceeds(&self, start: &Instant, limit: u128) -> (r: bool)
        ensures
            r == (self.nanos_since(*start) > limit),
    {
        let secs: i128 = self.secs as i128 - start.secs as i128;
        let nanos: i128 = self.nanos as i128 - start.nanos as i128;
        let elapsed: i128 = secs * 1_000_000_000 + nanos;
        elapsed > 0 && elapsed as u128 > limit
    }
}

impl TimeSpan {
    /// The length in nanoseconds.
    pub open spec fn total_nanos(self) -> nat {
        (self.secs * NANOS_PER_SEC + self.nanos) as nat
    }

    /// A span of `secs` seconds.
    pub fn from_secs(secs: u64) -> (span: TimeSpan)
        ensures
            span.total_nanos() == secs * NANOS_PER_SEC,
            span.nanos == 0,
    {
        TimeSpan { secs, nanos: 0 }
    }

    /// A span of `millis` milliseconds.
    pub fn from_millis(millis: u64) -> (span: TimeSpan)
        ensures
            span.total_nanos() == millis * NANOS_PER_MILLI,
            span.nanos < NANOS_PER_SEC,
    {
        let secs: u64 = millis / 1000;
        let rest: u64 = millis % 1000;
        TimeSpan { secs, nanos: (rest as u32) * 1_000_000 }
    }
}

/// The RFC 3339 text that chrono writes for the instant `secs`, `nanos`;
/// `None` where chrono has no date for it.
pub uninterp spec fn rfc3339_text(secs: i64, nanos: u32) -> Option<Seq<char>>;

/// The instant that chrono reads from RFC 3339 text, as seconds and
/// nanoseconds; `None` where the text is not RFC 3339.
pub uninterp spec fn rfc3339_instant(text: Seq<char>) -> Option<(i64, u32)>;

/// The instant that chrono reaches from `secs`, `nanos` by adding a span of
/// `span_secs` seconds and `span_nanos` nanoseconds; `None` where an
/// argument or the sum is out of chrono's range.
pub uninterp spec fn instant_plus(secs: i64, nanos: u32, span_secs: i64, span_nanos: u32) -> Option<
    (i64, u32),
>;

/// The characters of an optional string.
pub open spec fn text_view(t: Option<String>) -> Option<Seq<char>> {
    match t {
        Some(s) => Some(s@),
        None => None,
    }
}

/// A reading of the system clock, which verified code only hands on.
#[verifier::external_type_specification]
#[verifier::external_body]
pub struct ExSystemTime(std::time::SystemTime);

/// `std::time::SystemTime::now`: the present reading of the system clock.
/// Nothing is claimed of it.
pub assume_specification[ std::time::SystemTime::now ]() -> (t: std::time::SystemTime)
;

/// `std::time::Duration::as_secs`: the whole seconds of a duration.
pub assume_specification[ std::time::Duration::as_secs ](d: &std::time::Duration) -> (secs: u64)
;

/// `std::time::Duration::subsec_nanos`: the part of a duration below one
/// second, in nanoseconds, which is less than 1,000,000,000.
pub assume_specification[ std::time::Duration::subsec_nanos ](d: &std::time::Duration) -> (nanos:
    u32)
    ensures
        nanos < 1_000_000_000,
;

/// Calls `SystemTime::duration_since` with `UNIX_EPOCH`: the time from the
/// epoch to the reading `t`; `None` where `t` is before the epoch.
#[verifier::external_body]
fn since_epoch(t: &std::time::SystemTime) -> (r: Option<std::time::Duration>) {
    match t.duration_since(std::time::UNIX_EPOCH) {
        Ok(d) => Some(d),
        Err(_) => None,
    }
}

/// Calls `DateTime::to_rfc3339` on the UTC date and time that
/// `DateTime::from_timestamp` makes of `secs` and `nanos`. The text is a
/// function of the two numbers alone.
#[verifier::external_body]
fn chrono_to_rfc3339(secs: i64, nanos: u32) -> (r: Option<String>)
    ensures
        text_view(r) == rfc3339_text(secs, nanos),
{
    match chrono::DateTime::from_timestamp(secs, nanos) {
        Some(at) => Some(at.to_rfc3339()),
        None => None,
    }
}

/// Calls `DateTime::parse_from_rfc3339` and gives the instant read as
/// `timestamp()` and `timestamp_subsec_nanos()`. The result is a function of
/// the text alone.
#[verifier::external_body]
fn chrono_parse_rfc3339(text: &str) -> (r: Option<(i64, u32)>)
    ensures
        r == rfc3339_instant(text@),
{
    match chrono::DateTime::parse_from_rfc3339(text) {
        Ok(at) => Some((at.timestamp(), at.timestamp_subsec_nanos())),
        Err(_) => None,
    }
}

/// Calls `DateTime::checked_add_signed` on the date and time that
/// `DateTime::from_timestamp` makes of `secs` and `nanos`, with the
/// `TimeDelta` that `TimeDelta::new` makes of the span. The result is a
/// function of the four numbers alone. From a start outside a leap second
/// chrono adds as if there were no leap seconds: the sum is outside a leap
/// second too and lies the span after the start, counted in nanoseconds.
#[verifier::external_body]
fn chrono_add(secs: i64, nanos: u32, span_secs: i64, span_nanos: u32) -> (r: Option<(i64, u32)>)
    ensures
        r == instant_plus(secs, nanos, span_secs, span_nanos),
        r matches Some((sum_secs, sum_nanos)) ==> nanos < NANOS_PER_SEC ==> sum_nanos
            < NANOS_PER_SEC && sum_secs * NANOS_PER_SEC + sum_nanos == secs * NANOS_PER_SEC
            + nanos + span_secs * NANOS_PER_SEC + span_nanos,
{
    let start = chrono::DateTime::from_timestamp(secs, nanos)?;
    let span = chrono::TimeDelta::new(span_secs, span_nanos)?;
    let end = start.checked_add_signed(span)?;
    Some((end.timestamp(), end.timestamp_subsec_nanos()))
}

/// `std::time::Duration::as_nanos`: the length in nanoseconds.
pub assume_specification[ std::time::Duration::as_nanos ](d: &std::time::Duration) -> (n: u128)
;

/// The instant that `t` spells out, if `t` is RFC 3339 text.
pub open spec fn instant_of_text(t: Seq<char>) -> Option<Instant> {
    match rfc3339_instant(t) {
        Some((secs, nanos)) => Some(Instant { secs, nanos }),
        None => None,
    }
}

/// The text of `at`, if chrono has a date for it.
pub open spec fn text_of_instant(at: Instant) -> Option<Seq<char>> {
    rfc3339_text(at.secs, at.nanos)
}

/// The instant `span` after `at`, if chrono can reach it.
pub open spec fn instant_after(at: Instant, span: TimeSpan) -> Option<Instant> {
    if span.secs > i64::MAX {
        None
    } else {
        match instant_plus(at.secs, at.nanos, span.secs as i64, span.nanos) {
            Some((secs, nanos)) => Some(Instant { secs, nanos }),
            None => None,
        }
    }
}

/// The present instant by the system clock: the instant of the clock's
/// reading, which `Instant::from_reading` gives for every reading. `None`
/// where the clock stands before the Unix epoch, which only the clock
/// decides, or where the reading has no instant.
pub fn now() -> (r: Option<Instant>)
    ensures
        r matches Some(at) ==> clock_instant(at),
{
    let reading = std::time::SystemTime::now();
    match since_epoch(&reading) {
        Some(d) => Instant::from_reading(d.as_secs(), d.subsec_nanos()),
        None => None,
    }
}

/// The RFC 3339 text of `at`.
pub fn to_rfc3339(at: &Instant) -> (r: Option<String>)
    ensures
        text_view(r) == text_of_instant(*at),
{
    chrono_to_rfc3339(at.secs, at.nanos)
}

/// The instant that `text` spells out.
pub fn parse_rfc3339(text: &str) -> (r: Option<Instant>)
    ensures
        r == instant_of_text(text@),
{
    match chrono_parse_rfc3339(text) {
        Some((secs, nanos)) => Some(Instant { secs, nanos }),
        None => None,
    }
}

/// The instant `span` after `at`, as chrono adds. From an instant outside a
/// leap second the sum lies exactly `span` after `at`.
pub fn add_span(at: &Instant, span: &TimeSpan) -> (r: Option<Instant>)
    ensures
        r == instant_after(*at, *span),
        r matches Some(end) ==> at.nanos < NANOS_PER_SEC ==> end.nanos < NANOS_PER_SEC
            && end.nanos_since(*at) == span.total_nanos(),
{
    if span.secs > i64::MAX as u64 {
        return None;
    }
    match chrono_add(at.secs, at.nanos, span.secs as i64, span.nanos) {
        Some((secs, nanos)) => Some(Instant { secs, nanos }),
        None => None,
    }
}

} // verus!
