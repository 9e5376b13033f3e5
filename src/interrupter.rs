//! The self-termination guard: repeated refusals from the origin may ask the
//! supervisor to stop the process, but only once a grace period has passed
//! since startup, and only once.

use vstd::prelude::*;
use crate::clock::now_unix_seconds;

verus! {

/// The default grace period: thirty minutes.
pub const DEFAULT_GRACE_SECONDS: i64 = 1800;

/// Startup time and grace period (seconds), and whether termination has
/// been requested. It starts in the running state; the first honoured
/// request moves it to the terminal state, where it stays.
#[derive(Debug)]
pub struct Interrupter {
    startup: i64,
    grace: i64,
    signalled: bool,
}

impl Interrupter {
    pub closed spec fn startup(&self) -> int {
        self.startup as int
    }

    pub closed spec fn grace(&self) -> int {
        self.grace as int
    }

    /// Whether termination has already been requested.
    pub closed spec fn signalled(&self) -> bool {
        self.signalled
    }

    /// Whether a request to terminate made at `now` is honoured: the guard
    /// is still running and more than the grace period has passed.
    pub open spec fn signals_at(&self, now: int) -> bool {
        !self.signalled() && now - self.startup() > self.grace()
    }

    /// The guard after a request to terminate made at `now`.
    pub closed spec fn after(&self, now: int) -> Interrupter {
        Interrupter { signalled: self.signalled || self.signals_at(now), ..*self }
    }

    /// How many of the requests made at the times `times`, one after the
    /// other, are honoured.
    pub open spec fn signal_count(&self, times: Seq<int>) -> nat
        decreases times.len(),
    {
        if times.len() == 0 {
            0
        } else {
            (if self.signals_at(times[0]) {
                1nat
            } else {
                0nat
            }) + self.after(times[0]).signal_count(times.drop_first())
        }
    }

    pub proof fn lemma_after(&self, now: int)
        ensures
            self.after(now).startup() == self.startup(),
            self.after(now).grace() == self.grace(),
            self.after(now).signalled() == (self.signalled() || self.signals_at(now)),
    {
    }

    /// A running guard that started at `startup` (seconds since the epoch)
    /// with a grace period of `grace` seconds.
    pub fn with_grace(startup: i64, grace: i64) -> (r: Interrupter)
        ensures
            r.startup() == startup,
            r.grace() == grace,
            !r.signalled(),
    {
        Interrupter { startup, grace, signalled: false }
    }

    /// A running guard started now, with the default grace period.
    pub fn new() -> (r: Interrupter)
        ensures
            r.grace() == DEFAULT_GRACE_SECONDS,
            !r.signalled(),
    {
        Interrupter::with_grace(now_unix_seconds(), DEFAULT_GRACE_SECONDS)
    }

    pub fn startup_time(&self) -> (r: i64)
        ensures
            r == self.startup(),
    {
        self.startup
    }

    pub fn grace_period(&self) -> (r: i64)
        ensures
            r == self.grace(),
    {
        self.grace
    }

    pub fn is_signalled(&self) -> (r: bool)
        ensures
            r == self.signalled(),
    {
        self.signalled
    }

    /// A request to terminate made at `now`: true when it is honoured, in
    /// which case the caller sends the termination signal.
    pub fn interrupt_at(&mut self, now: i64) -> (r: bool)
        ensures
            r == old(self).signals_at(now as int),
            *final(self) == old(self).after(now as int),
            final(self).signalled() == (old(self).signalled() || r),
            final(self).startup() == old(self).startup(),
            final(self).grace() == old(self).grace(),
    {
        let elapsed: i128 = now as i128 - self.startup as i128;
        if !self.signalled && elapsed > self.grace as i128 {
            self.signalled = true;
            true
        } else {
            false
        }
    }

    /// A request to terminate made at the current time.
    pub fn interrupt(&mut self) -> (r: bool)
        ensures
            exists|now: int| r == old(self).signals_at(now) && *final(self) == old(self).after(now),
    {
        let now = now_unix_seconds();
        self.interrupt_at(now)
    }

    /// A request to terminate that skips the grace period, for an operator:
    /// honoured unless termination was already requested.
    pub fn interrupt_now(&mut self) -> (r: bool)
        ensures
            r == !old(self).signalled(),
            final(self).signalled(),
            final(self).startup() == old(self).startup(),
            final(self).grace() == old(self).grace(),
    {
        let r = !self.signalled;
        self.signalled = true;
        r
    }
}

/// Within the grace period no request to terminate is honoured, however many
/// are made.
pub proof fn lemma_no_signal_within_grace(guard: Interrupter, times: Seq<int>)
    requires
        forall|k: int| 0 <= k < times.len() ==> #[trigger] times[k] - guard.startup() <= guard.grace(),
    ensures
        guard.signal_count(times) == 0,
        forall|k: int| 0 <= k < times.len() ==> !guard.signals_at(#[trigger] times[k]),
    decreases times.len(),
{
    if times.len() > 0 {
        let rest = times.drop_first();
        let next = guard.after(times[0]);
        guard.lemma_after(times[0]);
        assert forall|k: int| 0 <= k < rest.len() implies #[trigger] rest[k] - next.startup() <= next.grace() by {
            assert(rest[k] == times[k + 1]);
        }
        lemma_no_signal_within_grace(next, rest);
    }
}

proof fn lemma_signalled_stays(guard: Interrupter, times: Seq<int>)
    requires
        guard.signalled(),
    ensures
        guard.signal_count(times) == 0,
    decreases times.len(),
{
    if times.len() > 0 {
        guard.lemma_after(times[0]);
        lemma_signalled_stays(guard.after(times[0]), times.drop_first());
    }
}

/// Once the grace period has passed, a running guard honours exactly one of
/// any number (at least one) of requests to terminate.
pub proof fn lemma_signals_exactly_once(guard: Interrupter, times: Seq<int>)
    requires
        !guard.signalled(),
        times.len() >= 1,
        forall|k: int| 0 <= k < times.len() ==> #[trigger] times[k] - guard.startup() > guard.grace(),
    ensures
        guard.signal_count(times) == 1,
{
    guard.lemma_after(times[0]);
    lemma_signalled_stays(guard.after(times[0]), times.drop_first());
}

} // verus!
