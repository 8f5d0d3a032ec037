//! Passive income: each completed accrual interval adds the income rate to
//! the currency once, however the passing time is split into steps.
use crate::click::{add_capped, capped, mul_capped};
use crate::state::{Player, PlayerView};
use crate::timer::{fires_after, lemma_timer_split, timer_after, total_time, IntervalTimer};
use vstd::arithmetic::div_mod::*;
use vstd::prelude::*;

verus! {

/// The state after `ticks` accrual ticks: the income rate is added to the
/// currency once per tick, and the currency stops at `u128::MAX`.
pub open spec fn after_accrual(m: PlayerView, ticks: int) -> PlayerView {
    PlayerView { droodles: capped(m.droodles + m.dps * ticks), ..m }
}

/// The accrual timer and the state after the steps of `deltas`, each a
/// number of nanoseconds, one after the other.
pub open spec fn accrual_run(t: IntervalTimer, m: PlayerView, deltas: Seq<u64>) -> (
    IntervalTimer,
    PlayerView,
)
    decreases deltas.len(),
{
    if deltas.len() == 0 {
        (t, m)
    } else {
        let before = accrual_run(t, m, deltas.drop_last());
        (
            timer_after(before.0, deltas.last() as int),
            after_accrual(before.1, fires_after(before.0, deltas.last() as int)),
        )
    }
}

/// Accruing `k1` ticks and then `k2` is accruing `k1 + k2` at once.
pub proof fn lemma_accrual_adds(m: PlayerView, k1: int, k2: int)
    requires
        k1 >= 0,
        k2 >= 0,
    ensures
        after_accrual(after_accrual(m, k1), k2) == after_accrual(m, k1 + k2),
{
    assert(m.dps * k1 + m.dps * k2 == m.dps * (k1 + k2)) by (nonlinear_arith);
    assert(m.dps * k1 >= 0 && m.dps * k2 >= 0) by (nonlinear_arith)
        requires
            k1 >= 0,
            k2 >= 0,
            m.dps >= 0,
    ;
}

/// However the passing time is cut into steps, the accrual timer fires
/// once per completed interval of the whole, and the currency grows by the
/// income rate times that number: exactly, where it stays within a `u128`.
pub proof fn lemma_accrual_conservation(t: IntervalTimer, m: PlayerView, deltas: Seq<u64>)
    requires
        t.wf(),
    ensures
        ({
            let k = fires_after(t, total_time(deltas));
            &&& accrual_run(t, m, deltas) == (timer_after(t, total_time(deltas)), after_accrual(m, k))
            &&& m.droodles + m.dps * k <= u128::MAX ==> accrual_run(t, m, deltas).1.droodles
                == m.droodles + m.dps * k
        }),
    decreases deltas.len(),
{
    let p = t.period as int;
    if deltas.len() > 0 {
        let init = deltas.drop_last();
        let last = deltas.last() as int;
        lemma_accrual_conservation(t, m, init);
        lemma_total_time_nonneg(init);
        let s = total_time(init);
        let t1 = timer_after(t, s);
        lemma_timer_split(t, s, last);
        lemma_div_pos_is_pos(t.elapsed + s, p);
        lemma_div_pos_is_pos(t1.elapsed + last, p);
        lemma_accrual_adds(m, fires_after(t, s), fires_after(t1, last));
    } else {
        lemma_small_mod(t.elapsed as nat, p as nat);
        lemma_basic_div(t.elapsed as int, p);
        assert(m.dps * 0 == 0);
    }
    let k = fires_after(t, total_time(deltas));
    lemma_total_time_nonneg(deltas);
    lemma_div_pos_is_pos(t.elapsed + total_time(deltas), p);
    assert(m.dps * k >= 0) by (nonlinear_arith)
        requires
            k >= 0,
            m.dps >= 0,
    ;
}

proof fn lemma_total_time_nonneg(deltas: Seq<u64>)
    ensures
        total_time(deltas) >= 0,
    decreases deltas.len(),
{
    if deltas.len() > 0 {
        lemma_total_time_nonneg(deltas.drop_last());
    }
}

/// Adds `ticks` times the income rate to the currency, which stops at
/// `u128::MAX`.
pub fn accrue(player: &mut Player, ticks: u64)
    ensures
        final(player)@ == after_accrual(old(player)@, ticks as int),
        old(player).wf() ==> final(player).wf(),
{
    let gain = mul_capped(player.dps, ticks as u128);
    proof {
        assert(player.dps * ticks >= 0) by (nonlinear_arith)
            requires
                ticks >= 0,
                player.dps >= 0,
        ;
    }
    player.droodles = add_capped(player.droodles, gain);
}

/// Lets `delta` nanoseconds pass on the accrual timer and adds the income
/// rate to the currency once per completed interval. Returns the number of
/// intervals completed.
pub fn calculate_dps(timer: &mut IntervalTimer, player: &mut Player, delta: u64) -> (ticks: u64)
    requires
        old(timer).wf(),
    ensures
        final(timer).wf(),
        ticks == fires_after(*old(timer), delta as int),
        *final(timer) == timer_after(*old(timer), delta as int),
        final(player)@ == after_accrual(old(player)@, ticks as int),
        old(player).wf() ==> final(player).wf(),
{
    let ticks = timer.tick(delta);
    accrue(player, ticks);
    ticks
}

} // verus!
