//! Points in time on the UTC scale, and the calendar functions the queue needs of them.

use std::str::FromStr;

use vstd::prelude::*;

verus! {

/// Unix time of the first second that a date-time can hold (-262143-01-01T00:00:00Z).
pub const MIN_SECS: i64 = -8_334_601_228_800;

/// Unix time of the last second that a date-time can hold (+262142-12-31T23:59:59Z).
pub const MAX_SECS: i64 = 8_210_266_876_799;

/// Nanoseconds in a second.
pub const NANOS_PER_SEC: u32 = 1_000_000_000;

/// A point in time: whole seconds since the Unix epoch and the nanoseconds that follow them.
///
/// A leap second is written as the 59th second of its minute with a billion nanoseconds or more.
pub struct Instant {
    pub secs: int,
    pub nanos: int,
}

impl Instant {
    /// Whether a date-time can hold this point.
    pub open spec fn representable(self) -> bool {
        &&& MIN_SECS <= self.secs <= MAX_SECS
        &&& 0 <= self.nanos < 2 * NANOS_PER_SEC
        &&& self.nanos >= NANOS_PER_SEC ==> self.secs % 60 == 59
    }

    /// Whether this point lies inside a leap second.
    pub open spec fn is_leap(self) -> bool {
        self.nanos >= NANOS_PER_SEC
    }

    /// Whether the clock can read this point: a date-time since the Unix epoch, outside leap
    /// seconds.
    pub open spec fn is_clock_reading(self) -> bool {
        self.representable() && !self.is_leap() && self.secs >= 0
    }

    /// Whether this point is at or before `other`.
    pub open spec fn at_or_before(self, other: Instant) -> bool {
        self.secs < other.secs || (self.secs == other.secs && self.nanos <= other.nanos)
    }

    /// Whether this point is strictly before `other`.
    pub open spec fn before(self, other: Instant) -> bool {
        self.secs < other.secs || (self.secs == other.secs && self.nanos < other.nanos)
    }

    /// The point `seconds` later.
    pub open spec fn plus(self, seconds: int) -> Instant {
        Instant { secs: self.secs + seconds, nanos: self.nanos }
    }

    /// Whether the point `seconds` later is one that a date-time can hold.
    ///
    /// Only asked of points outside leap seconds, such as every reading of the clock.
    pub open spec fn can_add(self, seconds: int) -> bool {
        &&& !self.is_leap()
        &&& MIN_SECS <= self.secs + seconds <= MAX_SECS
    }
}

/// Whole seconds from `earlier` to `later`, rounded toward zero.
///
/// A leap second counts as a second of its own where the time of day of the other point lies
/// on its far side.
pub open spec fn elapsed_seconds(later: Instant, earlier: Instant) -> int {
    let later_time = later.secs % 86_400;
    let earlier_time = earlier.secs % 86_400;
    let leap: int = if later_time > earlier_time && earlier.is_leap() {
        1
    } else if later_time < earlier_time && later.is_leap() {
        -1
    } else {
        0
    };
    let total = (later.secs - earlier.secs + leap) * 1_000_000_000 + (later.nanos
        - earlier.nanos);
    if total >= 0 {
        total / 1_000_000_000
    } else {
        -((-total) / 1_000_000_000)
    }
}

/// A point in time that a date-time can hold.
#[derive(Clone, Copy, Debug, PartialEq, Eq, Structural, Hash)]
pub struct Timestamp {
    secs: i64,
    nanos: u32,
}

impl View for Timestamp {
    type V = Instant;

    closed spec fn view(&self) -> Instant {
        Instant { secs: self.secs as int, nanos: self.nanos as int }
    }
}

impl Timestamp {
    /// Every timestamp is one that a date-time can hold.
    #[verifier::type_invariant]
    spec fn well_formed(self) -> bool {
        self@.representable()
    }

    /// The timestamp `nanos` nanoseconds after the Unix second `secs`, if a date-time can hold it.
    pub fn new(secs: i64, nanos: u32) -> (timestamp: Option<Timestamp>)
        ensures
            timestamp is Some <==> (Instant {
                secs: secs as int,
                nanos: nanos as int,
            }).representable(),
            timestamp matches Some(t) ==> t@ == (Instant { secs: secs as int, nanos: nanos as int }),
    {
        if secs < MIN_SECS || secs > MAX_SECS || nanos >= 2 * NANOS_PER_SEC {
            return None;
        }
        // The first representable second opens a minute.
        let second_of_minute: i64 = (secs - MIN_SECS) % 60;
        if nanos >= NANOS_PER_SEC && second_of_minute != 59 {
            return None;
        }
        Some(Timestamp { secs, nanos })
    }

    /// Whole seconds since the Unix epoch.
    pub fn secs(&self) -> (secs: i64)
        ensures
            secs == self@.secs,
    {
        self.secs
    }

    /// Nanoseconds since the last whole second.
    pub fn nanos(&self) -> (nanos: u32)
        ensures
            nanos == self@.nanos,
    {
        self.nanos
    }

    /// Whether this point is at or before `other`.
    pub fn at_or_before(&self, other: &Timestamp) -> (r: bool)
        ensures
            r == self@.at_or_before(other@),
    {
        self.secs < other.secs || (self.secs == other.secs && self.nanos <= other.nanos)
    }

    /// Whether `seconds` can be added without leaving the range of a date-time.
    pub fn can_add(&self, seconds: i64) -> (r: bool)
        ensures
            r == self@.can_add(seconds as int),
    {
        proof {
            use_type_invariant(self);
        }
        if self.nanos >= NANOS_PER_SEC {
            return false;
        }
        match self.secs.checked_add(seconds) {
            Some(sum) => MIN_SECS <= sum && sum <= MAX_SECS,
            None => false,
        }
    }
}

/// Reads the clock through `chrono::Utc::now`.
///
/// Trusted: the reading is a date-time, not before the Unix epoch and outside leap seconds, since
/// the clock counts from the epoch with a fraction below one second. Which point it is, is left open. The call
/// panics while the clock of the system stands before the epoch, which no argument can rule out.
#[verifier::external_body]
pub(crate) fn utc_now() -> (now: Timestamp)
    ensures
        now@.is_clock_reading(),
{
    let now = chrono::Utc::now();
    Timestamp { secs: now.timestamp(), nanos: now.timestamp_subsec_nanos() }
}

/// Adds whole seconds through `chrono`'s `DateTime + TimeDelta::seconds(..)`.
///
/// Trusted: outside leap seconds the sum keeps its nanoseconds and moves by exactly `seconds`.
/// The addition panics where the sum is no date-time, which `requires` leaves out.
#[verifier::external_body]
pub(crate) fn add_seconds(time: Timestamp, seconds: i64) -> (sum: Timestamp)
    requires
        time@.can_add(seconds as int),
    ensures
        sum@ == time@.plus(seconds as int),
{
    let start = chrono::DateTime::<chrono::Utc>::from_timestamp(time.secs, time.nanos).unwrap();
    let sum = start + chrono::Duration::seconds(seconds);
    Timestamp { secs: sum.timestamp(), nanos: sum.timestamp_subsec_nanos() }
}

/// Subtracts through `chrono`'s `DateTime - DateTime` and `TimeDelta::num_seconds`.
///
/// Trusted: the difference is taken in nanoseconds, with `chrono`'s count of leap seconds, and
/// cut to whole seconds toward zero.
#[verifier::external_body]
pub(crate) fn seconds_between(later: Timestamp, earlier: Timestamp) -> (seconds: i64)
    ensures
        seconds == elapsed_seconds(later@, earlier@),
{
    let later = chrono::DateTime::<chrono::Utc>::from_timestamp(later.secs, later.nanos).unwrap();
    let earlier =
        chrono::DateTime::<chrono::Utc>::from_timestamp(earlier.secs, earlier.nanos).unwrap();
    (later - earlier).num_seconds()
}

/// The first point after `after` that the cron expression fires at; none where the expression
/// does not parse or fires no more.
pub uninterp spec fn cron_next(expression: Seq<char>, after: Instant) -> Option<Instant>;

/// Parses with `cron::Schedule::from_str` and takes the first item of `Schedule::after`.
///
/// Trusted: what comes back is determined by the expression and the starting point, and a point
/// that comes back lies in a later second than the start. The search starts one second after
/// `after`; that addition panics at the end of the calendar, which `requires` leaves out.
#[verifier::external_body]
pub(crate) fn next_cron_time(expression: &str, after: Timestamp) -> (next: Option<Timestamp>)
    requires
        after@.secs < MAX_SECS,
    ensures
        next is Some <==> cron_next(expression@, after@) is Some,
        next matches Some(t) ==> {
            &&& cron_next(expression@, after@) == Some(t@)
            &&& after@.secs < t@.secs
        },
{
    let after = chrono::DateTime::<chrono::Utc>::from_timestamp(after.secs, after.nanos).unwrap();
    let schedule = cron::Schedule::from_str(expression).ok()?;
    let next = schedule.after(&after).next()?;
    Some(Timestamp { secs: next.timestamp(), nanos: next.timestamp_subsec_nanos() })
}

} // verus!
