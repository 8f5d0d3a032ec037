//! Repeating interval timers that carry leftover time from one step to the
//! next, so that every completed interval fires exactly once.
use vstd::arithmetic::div_mod::*;
use vstd::prelude::*;

verus! {

/// Period of the passive income timer.
pub const ACCRUAL_PERIOD_NANOS: u64 = 1_000_000_000;

/// Period of the save timer.
pub const SAVE_PERIOD_NANOS: u64 = 1_000_000_000;

/// Period of the coin marker fading timer.
pub const FADE_PERIOD_NANOS: u64 = 40_000_000;

/// A repeating timer: `elapsed` nanoseconds have passed since it last fired,
/// and it fires every `period` nanoseconds.
#[derive(PartialEq, Eq, Structural, Clone, Copy, Debug)]
pub struct IntervalTimer {
    pub period: u64,
    pub elapsed: u64,
}

/// How often a timer fires when `delta` nanoseconds pass.
pub open spec fn fires_after(t: IntervalTimer, delta: int) -> int {
    (t.elapsed + delta) / (t.period as int)
}

/// A timer after `delta` nanoseconds have passed: the time left over past
/// the last completed interval.
pub open spec fn timer_after(t: IntervalTimer, delta: int) -> IntervalTimer {
    IntervalTimer { elapsed: ((t.elapsed + delta) % (t.period as int)) as u64, ..t }
}

/// The sum of the time steps in `deltas`.
pub open spec fn total_time(deltas: Seq<u64>) -> int
    decreases deltas.len(),
{
    if deltas.len() == 0 {
        0
    } else {
        total_time(deltas.drop_last()) + deltas.last()
    }
}

/// Splitting the time that passes into two steps changes neither how often
/// the timer fires in all nor the time left over.
pub proof fn lemma_timer_split(t: IntervalTimer, d1: int, d2: int)
    requires
        t.wf(),
        d1 >= 0,
        d2 >= 0,
    ensures
        fires_after(t, d1) + fires_after(timer_after(t, d1), d2) == fires_after(t, d1 + d2),
        timer_after(timer_after(t, d1), d2) == timer_after(t, d1 + d2),
{
    let p = t.period as int;
    let x = t.elapsed + d1;
    lemma_fundamental_div_mod(x, p);
    let q1 = x / p;
    let r1 = x % p;
    lemma_fundamental_div_mod(r1 + d2, p);
    let q2 = (r1 + d2) / p;
    let r2 = (r1 + d2) % p;
    assert(x + d2 == (q1 + q2) * p + r2) by (nonlinear_arith)
        requires
            x == p * q1 + r1,
            r1 + d2 == p * q2 + r2,
    ;
    lemma_fundamental_div_mod_converse(x + d2, p, q1 + q2, r2);
}

impl IntervalTimer {
    /// The period is positive and the time left over is less than it.
    pub open spec fn wf(&self) -> bool {
        self.period > 0 && self.elapsed < self.period
    }

    /// A timer that fires every `period` nanoseconds, with no time passed.
    pub fn new(period: u64) -> (t: IntervalTimer)
        requires
            period > 0,
        ensures
            t.wf(),
            t.period == period,
            t.elapsed == 0,
    {
        IntervalTimer { period, elapsed: 0 }
    }

    /// Lets `delta` nanoseconds pass and returns how many intervals were
    /// completed; the time past the last of them is kept for the next step.
    pub fn tick(&mut self, delta: u64) -> (fires: u64)
        requires
            old(self).wf(),
        ensures
            final(self).wf(),
            fires == fires_after(*old(self), delta as int),
            *final(self) == timer_after(*old(self), delta as int),
    {
        let total: u128 = self.elapsed as u128 + delta as u128;
        let p = self.period as u128;
        let fires = total / p;
        let rest = total % p;
        assert(fires <= delta) by (nonlinear_arith)
            requires
                total == self.elapsed + delta,
                self.elapsed < p,
                p > 0,
                fires == total / p,
        ;
        self.elapsed = rest as u64;
        fires as u64
    }
}

/// The timers that drive the periodic work of the game.
#[derive(PartialEq, Eq, Structural, Clone, Copy, Debug)]
pub struct GameTimers {
    pub save: IntervalTimer,
    pub accrual: IntervalTimer,
    pub coin_fade: IntervalTimer,
}

impl GameTimers {
    pub open spec fn wf(&self) -> bool {
        self.save.wf() && self.accrual.wf() && self.coin_fade.wf()
    }
}

/// The game's timers with no time passed: saving and income every second,
/// coin markers fading every 40 milliseconds.
pub fn setup_timers() -> (t: GameTimers)
    ensures
        t.wf(),
        t.save == (IntervalTimer { period: SAVE_PERIOD_NANOS, elapsed: 0 }),
        t.accrual == (IntervalTimer { period: ACCRUAL_PERIOD_NANOS, elapsed: 0 }),
        t.coin_fade == (IntervalTimer { period: FADE_PERIOD_NANOS, elapsed: 0 }),
{
    GameTimers {
        save: IntervalTimer::new(SAVE_PERIOD_NANOS),
        accrual: IntervalTimer::new(ACCRUAL_PERIOD_NANOS),
        coin_fade: IntervalTimer::new(FADE_PERIOD_NANOS),
    }
}

} // verus!
