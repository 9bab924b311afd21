//! The timer entity: a named countdown with an optional running state.

use vstd::prelude::*;

verus! {

/// Nanoseconds in one second; sub-second remainders stay below this bound.
pub const NANOS_PER_SEC: u32 = 1_000_000_000;

/// A non-negative time span: whole seconds plus a sub-second remainder in
/// nanoseconds.
#[derive(Clone, Copy, PartialEq, Eq, Structural, Debug)]
pub struct Dur {
    pub secs: u64,
    pub nanos: u32,
}

impl Dur {
    /// A well-formed span keeps its nanosecond remainder below one second.
    pub open spec fn wf(self) -> bool {
        self.nanos < NANOS_PER_SEC
    }

    /// The whole span as a single nanosecond count.
    pub open spec fn total_nanos(self) -> int {
        self.secs * (NANOS_PER_SEC as int) + self.nanos
    }

    /// A span of whole seconds.
    pub fn from_secs(secs: u64) -> (r: Dur)
        ensures
            r.wf(),
            r.secs == secs,
            r.nanos == 0,
            r.total_nanos() == secs * (NANOS_PER_SEC as int),
    {
        Dur { secs, nanos: 0 }
    }
}

/// The mathematical value of a timer: its name, its configured duration, and
/// the instant it was last started (`None` while it is not running).
pub ghost struct TimerModel {
    pub name: Seq<char>,
    pub duration: Dur,
    pub started: Option<u64>,
}

/// One named countdown.  `started` is transient running state: `None` means
/// not running, `Some(t)` means running since instant `t` (a nanosecond
/// count on the host's monotonic clock).
#[derive(Clone, Debug)]
pub struct Timer {
    pub name: String,
    pub duration: Dur,
    pub started: Option<u64>,
}

impl View for Timer {
    type V = TimerModel;

    open spec fn view(&self) -> TimerModel {
        TimerModel { name: self.name@, duration: self.duration, started: self.started }
    }
}

/// The remaining time, in nanoseconds, of a countdown of span `d` whose start
/// lies `elapsed` nanoseconds in the past: the span minus the elapsed time,
/// floored at zero.  An expired countdown stays at zero; it is never negative.
pub open spec fn spec_remaining(d: Dur, elapsed: int) -> int {
    if elapsed >= d.total_nanos() {
        0
    } else {
        d.total_nanos() - elapsed
    }
}

/// The timer value after a restart at instant `now`: running since `now`,
/// whatever it was doing before.
pub open spec fn spec_restart(t: TimerModel, now: u64) -> TimerModel {
    TimerModel { started: Some(now), ..t }
}

impl Timer {
    /// A new timer that is not running.
    pub fn new(name: String, duration: Dur) -> (r: Timer)
        ensures
            r@.name == name@,
            r@.duration == duration,
            r@.started is None,
    {
        Timer { name, duration, started: None }
    }

    /// (Re)arm the countdown from instant `now`, unconditionally: a restart
    /// while already running re-arms from the current moment, it is not a
    /// toggle.
    pub fn restart(&mut self, now: u64)
        ensures
            final(self)@ == spec_restart(old(self)@, now),
    {
        self.started = Some(now);
    }

    /// The remaining time of this running countdown at instant `now`,
    /// clamped at zero once expired (the timer is not auto-stopped).
    pub fn elapsed_remaining(&self, now: u64) -> (r: Dur)
        requires
            self@.started is Some,
            now >= self@.started->Some_0,
            self@.duration.wf(),
        ensures
            r.wf(),
            r.total_nanos() == spec_remaining(self@.duration, now - self@.started->Some_0),
    {
        let started = match self.started {
            Some(s) => s,
            None => 0,
        };
        let elapsed: u64 = now - started;
        proof {
            vstd::arithmetic::mul::lemma_mul_inequality(
                self.duration.secs as int,
                u64::MAX as int,
                NANOS_PER_SEC as int,
            );
        }
        let total: u128 = (self.duration.secs as u128) * (NANOS_PER_SEC as u128)
            + (self.duration.nanos as u128);
        if (elapsed as u128) >= total {
            Dur { secs: 0, nanos: 0 }
        } else {
            let rem: u128 = total - (elapsed as u128);
            proof {
                lemma_rem_bounds(self.duration, rem as int);
            }
            Dur { secs: (rem / (NANOS_PER_SEC as u128)) as u64, nanos: (rem % (NANOS_PER_SEC as u128)) as u32 }
        }
    }
}

/// A remainder of at most a well-formed span's nanosecond count splits into a
/// second count that fits the span's own and a sub-second part below one
/// second.
proof fn lemma_rem_bounds(d: Dur, rem: int)
    requires
        d.wf(),
        0 <= rem <= d.total_nanos(),
    ensures
        0 <= rem / (NANOS_PER_SEC as int) <= d.secs,
        0 <= rem % (NANOS_PER_SEC as int) < NANOS_PER_SEC,
        (rem / (NANOS_PER_SEC as int)) * (NANOS_PER_SEC as int) + rem % (NANOS_PER_SEC as int) == rem,
{
    let n = NANOS_PER_SEC as int;
    vstd::arithmetic::div_mod::lemma_fundamental_div_mod(rem, n);
    vstd::arithmetic::div_mod::lemma_mod_bound(rem, n);
    vstd::arithmetic::div_mod::lemma_div_is_ordered(rem, d.total_nanos(), n);
    assert(d.total_nanos() / n == d.secs) by {
        vstd::arithmetic::div_mod::lemma_fundamental_div_mod_converse(
            d.total_nanos(),
            n,
            d.secs as int,
            d.nanos as int,
        );
    }
    vstd::arithmetic::div_mod::lemma_div_pos_is_pos(rem, n);
}

/// Later restart always wins: restarting at `t1` and then at `t2` leaves the
/// timer exactly as a single restart at `t2` would, whatever its prior
/// running state.
pub proof fn lemma_restart_last_wins(t: TimerModel, t1: u64, t2: u64)
    ensures
        spec_restart(spec_restart(t, t1), t2) == spec_restart(t, t2),
        spec_restart(spec_restart(t, t1), t2).started == Some(t2),
{
}

/// Remaining time never increases as time passes, and never goes below zero:
/// once expired it stays clamped at zero.
pub proof fn lemma_remaining_monotone(d: Dur, e1: int, e2: int)
    requires
        0 <= e1 <= e2,
    ensures
        spec_remaining(d, e1) >= spec_remaining(d, e2) >= 0,
        e2 >= d.total_nanos() ==> spec_remaining(d, e2) == 0,
{
}

} // verus!
