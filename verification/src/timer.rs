//! Wall-clock-driven 60Hz countdown timers.
//!
//! A timer records an 8-bit starting value and the millisecond timestamp at
//! which it was set; reads compute the elapsed whole 16ms ticks lazily and
//! clamp the decayed value at zero.  The mutating read divides the tick count
//! by a configurable time scale and clears the timer once exhausted; the
//! non-mutating peek ignores the time scale and never alters state.

use vstd::prelude::*;

verus! {

/// A countdown timer decaying at roughly 60Hz (one tick per 16ms).
#[derive(Debug)]
pub struct Timer60Hz {
    /// The value the timer was last set to.
    pub val: u8,
    /// Millisecond timestamp of the last `set`; `None` means expired/inactive.
    pub t: Option<u64>,
    /// Divisor applied to the tick count by the mutating read path only.
    pub time_scale: u64,
}

/// Whole 16ms ticks contained in `elapsed_ms`, slowed down by `time_scale`.
pub open spec fn ticks_of(elapsed_ms: u64, time_scale: u64) -> int {
    elapsed_ms as int / 16 / time_scale as int
}

/// The decayed value: `val` minus the elapsed ticks, clamped at zero.
pub open spec fn spec_decay(val: u8, elapsed_ms: u64, time_scale: u64) -> u8 {
    if ticks_of(elapsed_ms, time_scale) > val as int {
        0u8
    } else {
        (val as int - ticks_of(elapsed_ms, time_scale)) as u8
    }
}

/// What a mutating read returns when `e` milliseconds have elapsed.
pub open spec fn timer_read_value(t: Timer60Hz, e: u64) -> u8 {
    match t.t {
        None => 0u8,
        Some(_) => spec_decay(t.val, e, t.time_scale),
    }
}

/// The timer state a mutating read leaves behind when `e` milliseconds have
/// elapsed: expiry strictly past `val` ticks clears the timer.
pub open spec fn timer_after_read(t: Timer60Hz, e: u64) -> Timer60Hz {
    match t.t {
        None => t,
        Some(_) => if ticks_of(e, t.time_scale) > t.val as int {
            Timer60Hz { val: 0u8, t: None, time_scale: t.time_scale }
        } else {
            t
        },
    }
}

/// What a non-mutating peek returns when `e` milliseconds have elapsed: the
/// time scale is deliberately not applied on this path.
pub open spec fn peek_value(t: Timer60Hz, e: u64) -> u8 {
    match t.t {
        None => 0u8,
        Some(_) => spec_decay(t.val, e, 1),
    }
}

/// Relies on std::time::SystemTime::now and duration_since(UNIX_EPOCH) for a
/// wall-clock millisecond reading; nothing is promised of the value returned,
/// callers state what holds of every outcome.  The wall clock may step
/// backwards between readings; the callers clamp such a step to zero elapsed
/// time.
#[verifier::external_body]
fn now_millis() -> u64 {
    match std::time::SystemTime::now().duration_since(std::time::UNIX_EPOCH) {
        Ok(d) => d.as_millis() as u64,
        Err(_) => 0,
    }
}

/// The decayed value of a timer set to `val` after `elapsed_ms` milliseconds,
/// with the tick rate slowed down by `time_scale`.
pub fn decayed(val: u8, elapsed_ms: u64, time_scale: u64) -> (r: u8)
    requires
        time_scale >= 1,
    ensures
        r == spec_decay(val, elapsed_ms, time_scale),
{
    let ticks: u64 = elapsed_ms / 16 / time_scale;
    if ticks > val as u64 {
        0
    } else {
        val - (ticks as u8)
    }
}

impl Timer60Hz {
    /// A timer may not carry a zero time scale: the mutating read divides the
    /// tick count by it.
    pub open spec fn wf(&self) -> bool {
        self.time_scale >= 1
    }

    /// An inactive timer with the default time scale.
    pub fn new() -> (r: Self)
        ensures
            r.val == 0,
            r.t is None,
            r.time_scale == 1,
            r.wf(),
    {
        Self { val: 0, t: None, time_scale: 1 }
    }

    /// An inactive timer whose mutating reads tick slower by `scale`.
    pub fn with_time_scale(scale: u64) -> (r: Self)
        requires
            scale >= 1,
        ensures
            r.val == 0,
            r.t is None,
            r.time_scale == scale,
            r.wf(),
    {
        Self { val: 0, t: None, time_scale: scale }
    }

    /// Replaces the time scale without disturbing the running countdown.
    pub fn set_time_scale(&mut self, scale: u64)
        requires
            scale >= 1,
        ensures
            final(self).val == old(self).val,
            final(self).t == old(self).t,
            final(self).time_scale == scale,
            final(self).wf(),
    {
        self.time_scale = scale;
    }

    /// Starts (or restarts) the countdown from `v`, recording the present
    /// moment; even `v == 0` re-arms the clock.
    pub fn set(&mut self, v: u8)
        ensures
            final(self).val == v,
            final(self).t is Some,
            final(self).time_scale == old(self).time_scale,
            old(self).wf() ==> final(self).wf(),
    {
        self.t = Some(now_millis());
        self.val = v;
    }

    /// The mutating read: returns the decayed value for the wall-clock time
    /// that has elapsed, clearing the timer once strictly more than `val`
    /// ticks have passed.
    pub fn get(&mut self) -> (r: u8)
        requires
            old(self).wf(),
        ensures
            final(self).wf(),
            exists|e: u64|
                r == timer_read_value(*old(self), e) && *final(self) == timer_after_read(
                    *old(self),
                    e,
                ),
    {
        match self.t {
            None => {
                proof {
                    assert(0u8 == timer_read_value(*old(self), 0) && *self == timer_after_read(
                        *old(self),
                        0,
                    ));
                }
                0
            },
            Some(t0) => {
                let now = now_millis();
                let elapsed: u64 = if now >= t0 {
                    now - t0
                } else {
                    0
                };
                let ticks: u64 = elapsed / 16 / self.time_scale;
                let v: u8 = decayed(self.val, elapsed, self.time_scale);
                if ticks > self.val as u64 {
                    self.val = 0;
                    self.t = None;
                }
                proof {
                    assert(v == timer_read_value(*old(self), elapsed) && *self == timer_after_read(
                        *old(self),
                        elapsed,
                    ));
                }
                v
            },
        }
    }

    /// The non-mutating peek: an equivalent decayed value, computed without
    /// the time scale and without touching the timer state.
    pub fn get_no_mod(&self) -> (r: u8)
        ensures
            exists|e: u64| r == peek_value(*self, e),
    {
        match self.t {
            None => {
                proof {
                    assert(0u8 == peek_value(*self, 0));
                }
                0
            },
            Some(t0) => {
                let now = now_millis();
                let elapsed: u64 = if now >= t0 {
                    now - t0
                } else {
                    0
                };
                let r: u8 = decayed(self.val, elapsed, 1);
                proof {
                    assert(r == peek_value(*self, elapsed));
                }
                r
            },
        }
    }
}

/// Timer decay law: a timer set to `v` reads back `v` at once, `v - k` after
/// `k` whole 16ms ticks for `k <= v`, and 0 once strictly more than `v` ticks
/// have passed, after which the timer is cleared and every later read still
/// returns 0 without re-arming.
pub proof fn lemma_timer_decay(v: u8, n0: u64, e: u64, k: u64)
    ensures
        ({
            let armed = Timer60Hz { val: v, t: Some(n0), time_scale: 1u64 };
            &&& (e < 16 ==> timer_read_value(armed, e) == v)
            &&& (e as int / 16 == k && k <= v ==> timer_read_value(armed, e) == v - k)
            &&& (e as int / 16 > v ==> timer_read_value(armed, e) == 0 && timer_after_read(
                armed,
                e,
            ).t is None && forall|e2: u64|
                timer_read_value(timer_after_read(armed, e), e2) == 0)
        }),
{
    let armed = Timer60Hz { val: v, t: Some(n0), time_scale: 1u64 };
    assert(ticks_of(e, 1) == e as int / 16);
}

} // verus!
