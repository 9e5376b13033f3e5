//! The uptime shown by the status endpoint: whole seconds, built from the
//! clock or from a span given in seconds and nanoseconds.

use vstd::prelude::*;
use crate::clock::now_unix_seconds;
use crate::duration::{
    abs, clamp_i64, distance, duration_text, magnitude, render, seconds_between, trunc_div,
    SECONDS_PER_DAY, SECONDS_PER_HOUR, SECONDS_PER_MINUTE,
};

verus! {

/// A signed span of time: whole seconds and a nanosecond part that has the
/// same sign and stays under one second.
#[derive(Debug, Clone, Copy, PartialEq, Eq, Structural)]
pub struct TimeSpan {
    pub seconds: i64,
    pub nanoseconds: i32,
}

impl TimeSpan {
    pub open spec fn wf(&self) -> bool {
        &&& -1_000_000_000 < self.nanoseconds < 1_000_000_000
        &&& self.seconds > 0 ==> self.nanoseconds >= 0
        &&& self.seconds < 0 ==> self.nanoseconds <= 0
    }

    pub fn new(seconds: i64, nanoseconds: i32) -> (r: TimeSpan)
        requires
            -1_000_000_000 < nanoseconds < 1_000_000_000,
            seconds > 0 ==> nanoseconds >= 0,
            seconds < 0 ==> nanoseconds <= 0,
        ensures
            r.wf(),
            r.seconds == seconds,
            r.nanoseconds == nanoseconds,
    {
        TimeSpan { seconds, nanoseconds }
    }
}

/// A span of time counted in whole seconds.
#[derive(Debug, Clone, Copy, PartialEq, Eq, Structural)]
pub struct FiniteDuration {
    pub seconds: i64,
}

impl FiniteDuration {
    pub fn from_days(days: i64) -> (r: FiniteDuration)
        requires
            i64::MIN <= days * 86400 <= i64::MAX,
        ensures
            r.seconds == days * 86400,
    {
        FiniteDuration { seconds: days * SECONDS_PER_DAY }
    }

    pub fn from_hours(hours: i64) -> (r: FiniteDuration)
        requires
            i64::MIN <= hours * 3600 <= i64::MAX,
        ensures
            r.seconds == hours * 3600,
    {
        FiniteDuration { seconds: hours * SECONDS_PER_HOUR }
    }

    pub fn from_minutes(minutes: i64) -> (r: FiniteDuration)
        requires
            i64::MIN <= minutes * 60 <= i64::MAX,
        ensures
            r.seconds == minutes * 60,
    {
        FiniteDuration { seconds: minutes * SECONDS_PER_MINUTE }
    }

    pub fn from_seconds(seconds: i64) -> (r: FiniteDuration)
        ensures
            r.seconds == seconds,
    {
        FiniteDuration { seconds }
    }

    /// The whole seconds of a span; the sub-second part is dropped, which
    /// rounds toward zero.
    pub fn from(d: TimeSpan) -> (r: FiniteDuration)
        requires
            d.wf(),
        ensures
            r.seconds == d.seconds,
    {
        FiniteDuration { seconds: d.seconds }
    }

    /// The span from `then` to `now` (seconds since the epoch).
    pub fn between(now: i64, then: i64) -> (r: FiniteDuration)
        ensures
            r.seconds == clamp_i64(now - then),
    {
        FiniteDuration { seconds: seconds_between(now, then) }
    }

    /// The span from `then` (seconds since the epoch) to the current time;
    /// it is `between` applied to whatever the clock reads.
    pub fn between_now_and(then: i64) -> (r: FiniteDuration) {
        let now = now_unix_seconds();
        FiniteDuration::between(now, then)
    }

    /// Whole days, rounded toward zero.
    pub fn days(&self) -> (r: i64)
        ensures
            r == trunc_div(self.seconds as int, 86400),
    {
        self.seconds / SECONDS_PER_DAY
    }

    /// Whole hours, rounded toward zero.
    pub fn hours(&self) -> (r: i64)
        ensures
            r == trunc_div(self.seconds as int, 3600),
    {
        self.seconds / SECONDS_PER_HOUR
    }

    /// Whole minutes, rounded toward zero.
    pub fn minutes(&self) -> (r: i64)
        ensures
            r == trunc_div(self.seconds as int, 60),
    {
        self.seconds / SECONDS_PER_MINUTE
    }

    /// The distance between two spans, capped at `i64::MAX` seconds.
    pub fn difference(&self, other: &FiniteDuration) -> (r: FiniteDuration)
        ensures
            r.seconds == distance(self.seconds as int, other.seconds as int),
    {
        let d: i128 = self.seconds as i128 - other.seconds as i128;
        let m: i128 = if d < 0 {
            -d
        } else {
            d
        };
        if m > i64::MAX as i128 {
            FiniteDuration { seconds: i64::MAX }
        } else {
            FiniteDuration { seconds: m as i64 }
        }
    }

    /// The compact text of the span's length, e.g. `1d12h1s`; `0s` when empty.
    pub fn to_string(&self) -> (r: String)
        ensures
            r@ == duration_text(abs(self.seconds as int) as nat),
    {
        render(magnitude(self.seconds))
    }
}

impl core::ops::Sub<FiniteDuration> for FiniteDuration {
    type Output = FiniteDuration;

    fn sub(self, other: FiniteDuration) -> FiniteDuration {
        self.difference(&other)
    }
}

impl vstd::std_specs::ops::SubSpecImpl<FiniteDuration> for FiniteDuration {
    open spec fn obeys_sub_spec() -> bool {
        true
    }

    open spec fn sub_req(self, other: FiniteDuration) -> bool {
        true
    }

    open spec fn sub_spec(self, other: FiniteDuration) -> FiniteDuration {
        FiniteDuration { seconds: distance(self.seconds as int, other.seconds as int) as i64 }
    }
}

} // verus!
