//! UTC instants as the service stores them: whole seconds since the Unix epoch
//! and a sub-second nanosecond part, within the range that `chrono` represents.

use vstd::prelude::*;

verus! {

/// Nanoseconds in one second.
pub const NANOS_PER_SEC: u32 = 1_000_000_000;

/// Seconds in one hour.
pub const SECS_PER_HOUR: i64 = 3600;

/// First second representable as a UTC date-time (-262143-01-01T00:00:00Z).
pub const MIN_UTC_SECS: i64 = -8_334_601_228_800;

/// Last second representable as a UTC date-time (+262142-12-31T23:59:59Z).
pub const MAX_UTC_SECS: i64 = 8_210_266_876_799;

/// Start of the last hour that is representable as a UTC date-time.
pub const LAST_HOUR_START_SECS: i64 = 8_210_266_873_200;

/// An instant in UTC: `secs` whole seconds after the Unix epoch plus `nanos`.
#[derive(Clone, Copy, Debug, PartialEq, Eq, Structural)]
pub struct Timestamp {
    pub secs: i64,
    pub nanos: u32,
}

/// Whether `secs` lies in the range of UTC date-times.
pub open spec fn secs_in_utc_range(secs: int) -> bool {
    MIN_UTC_SECS <= secs <= MAX_UTC_SECS
}

/// Tells whether `chrono` can build a UTC date-time from `secs` whole seconds
/// after the epoch.
///
/// Calls `chrono::TimeZone::timestamp_opt` on `Utc` with no nanoseconds and
/// reports whether the result is a single date-time. `chrono` turns the seconds
/// into a day count and a time of day and accepts exactly the days of years
/// -262143 through 262142, which is the range stated here.
#[verifier::external_body]
fn utc_timestamp_exists(secs: i64) -> (res: bool)
    ensures
        res == secs_in_utc_range(secs as int),
{
    chrono::TimeZone::timestamp_opt(&chrono::Utc, secs, 0).single().is_some()
}

impl Timestamp {
    /// A valid instant: a sub-second part below one second and a second count
    /// that `chrono` accepts.
    pub open spec fn wf(self) -> bool {
        &&& self.nanos < NANOS_PER_SEC
        &&& secs_in_utc_range(self.secs as int)
    }

    /// The instant as nanoseconds after the epoch.
    pub open spec fn total_nanos(self) -> int {
        self.secs * 1_000_000_000 + self.nanos
    }

    /// Builds the instant `secs` seconds and `nanos` nanoseconds after the
    /// epoch; `None` when `nanos` is not below one second or the seconds lie
    /// outside the range of UTC date-times.
    pub fn from_unix(secs: i64, nanos: u32) -> (res: Option<Timestamp>)
        ensures
            res matches Some(t) ==> t.secs == secs && t.nanos == nanos && t.wf(),
            res is None <==> !(nanos < NANOS_PER_SEC && secs_in_utc_range(secs as int)),
    {
        if nanos < NANOS_PER_SEC && utc_timestamp_exists(secs) {
            Some(Timestamp { secs, nanos })
        } else {
            None
        }
    }

    /// Whether `self` comes strictly before `other`.
    pub open spec fn precedes(self, other: Timestamp) -> bool {
        self.total_nanos() < other.total_nanos()
    }

    /// Whether `self` comes strictly before `other`.
    pub fn is_before(&self, other: &Timestamp) -> (res: bool)
        requires
            self.nanos < NANOS_PER_SEC,
            other.nanos < NANOS_PER_SEC,
        ensures
            res == self.precedes(*other),
            res == (self.secs < other.secs || (self.secs == other.secs && self.nanos < other.nanos)),
    {
        self.secs < other.secs || (self.secs == other.secs && self.nanos < other.nanos)
    }
}

/// The start of the hour that holds `secs`, in seconds after the epoch.
pub open spec fn spec_hour_start(secs: int) -> int {
    secs - secs % (SECS_PER_HOUR as int)
}

/// The instant at the start of the hour that holds `t`: its minutes, seconds
/// and nanoseconds set to zero.
pub open spec fn spec_truncate_to_hour(t: Timestamp) -> Timestamp {
    Timestamp { secs: spec_hour_start(t.secs as int) as i64, nanos: 0 }
}

/// Whole seconds from `from` to `to`, counted as `chrono` counts the seconds of
/// the difference of two date-times: the difference of the second counts, less
/// one when the sub-second part of `to` is the smaller.
pub open spec fn seconds_between(from: Timestamp, to: Timestamp) -> int {
    to.secs - from.secs - (if to.nanos < from.nanos { 1int } else { 0int })
}

/// The instant at the start of the hour that holds `t`.
pub fn truncate_to_hour(t: Timestamp) -> (res: Timestamp)
    requires
        t.wf(),
    ensures
        res == spec_truncate_to_hour(t),
        res.wf(),
        res.nanos == 0,
        res.secs % SECS_PER_HOUR == 0,
        res.secs <= t.secs < res.secs + SECS_PER_HOUR,
{
    let r = match t.secs.checked_rem_euclid(SECS_PER_HOUR) {
        Some(r) => r,
        None => 0,
    };
    assert(MIN_UTC_SECS % SECS_PER_HOUR == 0);
    Timestamp { secs: t.secs - r, nanos: 0 }
}

/// Whole seconds from `from` to `to` when `from` does not come after `to`.
pub fn whole_seconds_between(from: Timestamp, to: Timestamp) -> (res: i64)
    requires
        from.wf(),
        to.wf(),
        !to.precedes(from),
    ensures
        res == seconds_between(from, to),
        res >= 0,
        res * 1_000_000_000 <= to.total_nanos() - from.total_nanos() < (res + 1) * 1_000_000_000,
{
    proof {
        lemma_seconds_between_is_floor(from, to);
    }
    if to.nanos < from.nanos {
        to.secs - from.secs - 1
    } else {
        to.secs - from.secs
    }
}

/// The whole seconds from `from` to `to` are the nanoseconds between them
/// divided by a billion, rounded down.
pub proof fn lemma_seconds_between_is_floor(from: Timestamp, to: Timestamp)
    requires
        from.wf(),
        to.wf(),
    ensures
        seconds_between(from, to) * 1_000_000_000 <= to.total_nanos() - from.total_nanos() < (
        seconds_between(from, to) + 1) * 1_000_000_000,
{
}

/// Instants are ordered by their seconds, then by their nanoseconds.
pub proof fn lemma_precedes_orders_seconds_then_nanos(a: Timestamp, b: Timestamp)
    requires
        a.nanos < NANOS_PER_SEC,
        b.nanos < NANOS_PER_SEC,
    ensures
        a.precedes(b) <==> (a.secs < b.secs || (a.secs == b.secs && a.nanos < b.nanos)),
{
}

} // verus!
