//! The pace of the timer that drives sweeping and drawing.

use vstd::prelude::*;

verus! {

/// The period of the timer, in milliseconds.
pub const TICK_MS: u64 = 60;

/// The timer producer's state: its period and when it last fired, both in
/// milliseconds.
#[derive(Debug, Clone, Copy, PartialEq, Eq, Structural)]
pub struct Ticker {
    /// The time between two ticks.
    pub period: u64,
    /// When the last tick was due.
    pub last_tick: u64,
}

/// The time that has passed from `since` to `now`; none if `now` is earlier.
pub open spec fn elapsed(since: u64, now: u64) -> nat {
    if now >= since {
        (now - since) as nat
    } else {
        0
    }
}

impl Ticker {
    /// A ticker that counts from `now`.
    pub fn new(period: u64, now: u64) -> (ticker: Ticker)
        ensures
            ticker == (Ticker { period, last_tick: now }),
    {
        Ticker { period, last_tick: now }
    }

    /// How long the producer may wait for input at `now` before the next
    /// tick is due: what is left of the period, and nothing once it is over.
    pub fn timeout(&self, now: u64) -> (wait: u64)
        ensures
            wait == if elapsed(self.last_tick, now) >= self.period {
                0
            } else {
                self.period - elapsed(self.last_tick, now)
            },
    {
        let passed = now.saturating_sub(self.last_tick);
        self.period.saturating_sub(passed)
    }

    /// Whether a tick is due at `now`: a full period has passed since the
    /// last one. If so, the ticker starts over from `now`.
    pub fn tick(&mut self, now: u64) -> (due: bool)
        ensures
            due == (elapsed(old(self).last_tick, now) >= old(self).period),
            final(self).period == old(self).period,
            final(self).last_tick == if due {
                now
            } else {
                old(self).last_tick
            },
    {
        let passed = now.saturating_sub(self.last_tick);
        if passed >= self.period {
            self.last_tick = now;
            true
        } else {
            false
        }
    }
}

} // verus!
