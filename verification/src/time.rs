//! Instants on the UTC time line, held as whole seconds and nanoseconds.
//!
//! The calendar work (text form, parsing, the system clock) is done by `chrono`;
//! this module keeps the two integers that the vault's rules read and compares
//! and subtracts them itself.

use vstd::prelude::*;


verus! {

/// Seconds of `-262143-01-01T00:00:00Z`, the first instant `chrono` can hold.
pub const MIN_SECS: i64 = -8_334_601_228_800;

/// Seconds of `+262142-12-31T23:59:59Z`, the last whole second `chrono` can hold.
pub const MAX_SECS: i64 = 8_210_266_876_799;

/// Nanoseconds in one second.
pub const NANOS_PER_SEC: u32 = 1_000_000_000;

/// An instant: seconds since 1970-01-01T00:00:00Z and nanoseconds into that second.
#[derive(Clone, Copy, Debug, PartialEq, Eq, Structural)]
pub struct Timestamp {
    pub secs: i64,
    pub nanos: u32,
}

/// What `chrono::DateTime::<Utc>::to_rfc3339` writes for the instant made by
/// `DateTime::from_timestamp(secs, nanos)`, or `None` where that instant does not exist.
pub uninterp spec fn rfc3339_text(secs: i64, nanos: u32) -> Option<Seq<char>>;

/// What `chrono::DateTime::<Utc>::to_string` writes for the instant made by
/// `DateTime::from_timestamp(secs, nanos)`: date, time and `UTC`, for a
/// reader, or `None` where that instant does not exist.
pub uninterp spec fn display_text(secs: i64, nanos: u32) -> Option<Seq<char>>;

/// The seconds and sub-second nanoseconds of the instant that
/// `str::parse::<chrono::DateTime<chrono::Utc>>` reads from `text`, or `None`
/// where it rejects the text.
pub uninterp spec fn parsed_datetime(text: Seq<char>) -> Option<(i64, u32)>;

/// Whether the pair is a calendar instant without leap-second notation.
pub open spec fn in_range(secs: i64, nanos: u32) -> bool {
    MIN_SECS <= secs <= MAX_SECS && nanos < NANOS_PER_SEC
}

impl Timestamp {
    /// The instants this type is meant to hold.
    pub open spec fn wf(self) -> bool {
        in_range(self.secs, self.nanos)
    }

    /// Strictly earlier on the time line.
    pub open spec fn precedes(self, other: Timestamp) -> bool {
        self.secs < other.secs || (self.secs == other.secs && self.nanos < other.nanos)
    }

    /// The instant as one count of nanoseconds since the epoch.
    pub open spec fn total_nanos(self) -> int {
        self.secs * 1_000_000_000 + self.nanos
    }

    /// The text form of the instant.
    pub open spec fn text(self) -> Seq<char> {
        rfc3339_text(self.secs, self.nanos).unwrap()
    }

    /// The instant as a reader is shown it.
    pub open spec fn shown(self) -> Seq<char> {
        display_text(self.secs, self.nanos).unwrap()
    }

    /// What `parse` makes of a text.
    pub open spec fn parsed(text: Seq<char>) -> Option<Timestamp> {
        match parsed_datetime(text) {
            Some((secs, nanos)) => if in_range(secs, nanos) {
                Some(Timestamp { secs, nanos })
            } else {
                None
            },
            None => None,
        }
    }

    /// Builds an instant from its two parts, if they name one.
    pub fn from_parts(secs: i64, nanos: u32) -> (t: Option<Timestamp>)
        ensures
            t == if in_range(secs, nanos) {
                Some(Timestamp { secs, nanos })
            } else {
                None
            },
    {
        if MIN_SECS <= secs && secs <= MAX_SECS && nanos < NANOS_PER_SEC {
            Some(Timestamp { secs, nanos })
        } else {
            None
        }
    }

    /// The current instant of the system clock.
    pub fn now() -> (t: Timestamp)
        ensures
            t.wf(),
            t.secs >= 0,
    {
        clock_now()
    }

    /// Whether `self` is strictly earlier than `other`.
    pub fn is_before(&self, other: &Timestamp) -> (b: bool)
        ensures
            b == self.precedes(*other),
    {
        self.secs < other.secs || (self.secs == other.secs && self.nanos < other.nanos)
    }

    /// The RFC 3339 text of the instant, as stored in the vault.
    pub fn to_rfc3339(&self) -> (s: String)
        requires
            self.wf(),
        ensures
            s@ == self.text(),
            rfc3339_text(self.secs, self.nanos) is Some,
    {
        match format_rfc3339(self.secs, self.nanos) {
            Some(s) => s,
            None => String::new(),
        }
    }

    /// The instant as a reader is shown it: date, time and `UTC`.
    pub fn display(&self) -> (s: String)
        requires
            self.wf(),
        ensures
            s@ == self.shown(),
            display_text(self.secs, self.nanos) is Some,
    {
        match format_display(self.secs, self.nanos) {
            Some(s) => s,
            None => String::new(),
        }
    }

    /// Reads an instant from its text. Texts that `chrono` rejects, and texts
    /// that name a leap second, give `None`.
    pub fn parse(text: &str) -> (t: Option<Timestamp>)
        ensures
            t == Timestamp::parsed(text@),
            t matches Some(ts) ==> ts.wf(),
    {
        match parse_datetime(text) {
            Some((secs, nanos)) => Timestamp::from_parts(secs, nanos),
            None => None,
        }
    }
}

/// Calls `chrono::Utc::now`. The clock is read from the system, so nothing is
/// claimed of the value but what holds of every `DateTime<Utc>` that the call can
/// return: it is built from a non-negative duration since the epoch, inside
/// `chrono`'s range, with less than a second of nanoseconds.
#[verifier::external_body]
fn clock_now() -> (t: Timestamp)
    ensures
        0 <= t.secs <= MAX_SECS,
        t.nanos < NANOS_PER_SEC,
{
    let dt = chrono::Utc::now();
    Timestamp { secs: dt.timestamp(), nanos: dt.timestamp_subsec_nanos() }
}

/// Calls `chrono::DateTime::from_timestamp` and, where that gives an instant,
/// `DateTime::to_rfc3339` on it. The text is named, not described. The instant
/// exists for every second in `chrono`'s range when the nanoseconds stay below
/// one second.
#[verifier::external_body]
fn format_rfc3339(secs: i64, nanos: u32) -> (r: Option<String>)
    ensures
        match r {
            Some(s) => rfc3339_text(secs, nanos) == Some(s@),
            None => rfc3339_text(secs, nanos) is None,
        },
        in_range(secs, nanos) ==> r is Some,
{
    match chrono::DateTime::from_timestamp(secs, nanos) {
        Some(dt) => Some(dt.to_rfc3339()),
        None => None,
    }
}

/// Calls `chrono::DateTime::from_timestamp` and, where that gives an instant,
/// `to_string` on it. The text is named, not described. The instant exists
/// for every second in `chrono`'s range when the nanoseconds stay below one
/// second.
#[verifier::external_body]
fn format_display(secs: i64, nanos: u32) -> (r: Option<String>)
    ensures
        match r {
            Some(s) => display_text(secs, nanos) == Some(s@),
            None => display_text(secs, nanos) is None,
        },
        in_range(secs, nanos) ==> r is Some,
{
    match chrono::DateTime::from_timestamp(secs, nanos) {
        Some(dt) => Some(dt.to_string()),
        None => None,
    }
}

/// Calls `str::parse::<chrono::DateTime<chrono::Utc>>` and hands back
/// `timestamp()` and `timestamp_subsec_nanos()` of what it read. The pair, or
/// the refusal, is named, not described.
#[verifier::external_body]
fn parse_datetime(text: &str) -> (r: Option<(i64, u32)>)
    ensures
        r == parsed_datetime(text@),
{
    match text.parse::<chrono::DateTime<chrono::Utc>>() {
        Ok(dt) => Some((dt.timestamp(), dt.timestamp_subsec_nanos())),
        Err(_) => None,
    }
}

} // verus!
