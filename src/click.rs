//! Click rewards: an ordinary click grants the click strength; one roll in
//! fifty is a bonus that grants the click strength times the income rate,
//! and never less than a fixed floor.
use crate::state::{Player, PlayerView};
use vstd::prelude::*;

verus! {

/// A bonus comes on one roll out of this many.
pub const BONUS_ODDS: u8 = 50;

/// The least that a bonus grants, in tenths.
pub const BONUS_FLOOR: u128 = 1000;

/// Coin markers shown for a bonus; an ordinary click shows one.
pub const BONUS_MARKERS: usize = 8;

/// Which kind of reward a click earned.
#[derive(PartialEq, Eq, Structural, Clone, Copy, Debug)]
pub enum ClickKind {
    Normal,
    Bonus,
}

/// What a click earned.
#[derive(PartialEq, Eq, Structural, Clone, Copy, Debug)]
pub struct ClickOutcome {
    pub kind: ClickKind,
    pub reward: u128,
}

/// `x`, or `u128::MAX` where `x` is larger.
pub open spec fn capped(x: int) -> u128 {
    if x > u128::MAX {
        u128::MAX
    } else {
        x as u128
    }
}

/// What a bonus grants: click strength times income rate, at least the floor.
pub open spec fn bonus_reward(m: PlayerView) -> int {
    let product = m.click_strength * m.dps;
    if product > BONUS_FLOOR {
        product
    } else {
        BONUS_FLOOR as int
    }
}

/// What a click of kind `kind` grants.
pub open spec fn click_reward(m: PlayerView, kind: ClickKind) -> int {
    match kind {
        ClickKind::Bonus => bonus_reward(m),
        ClickKind::Normal => m.click_strength as int,
    }
}

/// The state after a click of kind `kind`: its reward is added to the
/// currency, which stops at `u128::MAX`.
pub open spec fn after_click(m: PlayerView, kind: ClickKind) -> PlayerView {
    PlayerView { droodles: capped(m.droodles + click_reward(m, kind)), ..m }
}

/// `a + b`, or `u128::MAX` where the sum is larger.
pub fn add_capped(a: u128, b: u128) -> (r: u128)
    ensures
        r == capped(a + b),
{
    if a > u128::MAX - b {
        u128::MAX
    } else {
        a + b
    }
}

/// `a * b`, or `u128::MAX` where the product is larger.
pub fn mul_capped(a: u128, b: u128) -> (r: u128)
    ensures
        r == capped(a * b),
{
    if b != 0 && a > u128::MAX / b {
        assert(a * b > u128::MAX) by (nonlinear_arith)
            requires
                b > 0,
                a > u128::MAX / b,
        ;
        u128::MAX
    } else {
        assert(a * b <= u128::MAX) by (nonlinear_arith)
            requires
                b == 0 || a <= u128::MAX / b,
        ;
        a * b
    }
}

/// Resolves a click on the player with the die showing `roll`: a roll of 0
/// is a bonus, any other an ordinary click. The reward is added to the
/// currency.
pub fn resolve_click(player: &mut Player, roll: u8) -> (r: ClickOutcome)
    ensures
        r.kind == (if roll == 0 {
            ClickKind::Bonus
        } else {
            ClickKind::Normal
        }),
        r.reward == capped(click_reward(old(player)@, r.kind)),
        final(player)@ == after_click(old(player)@, r.kind),
        old(player).wf() ==> final(player).wf(),
{
    let kind = if roll == 0 {
        ClickKind::Bonus
    } else {
        ClickKind::Normal
    };
    let reward = if roll == 0 {
        let product = mul_capped(player.click_strength, player.dps);
        if product > BONUS_FLOOR {
            product
        } else {
            BONUS_FLOOR
        }
    } else {
        player.click_strength
    };
    player.droodles = add_capped(player.droodles, reward);
    ClickOutcome { kind, reward }
}

/// Relies on rand::thread_rng and rand::Rng::gen_range: a value drawn from
/// the half-open range `0..bound`.
#[verifier::external_body]
fn draw_below(bound: u8) -> (r: u8)
    requires
        bound > 0,
    ensures
        r < bound,
{
    rand::Rng::gen_range(&mut rand::thread_rng(), 0..bound)
}

/// A click on the player: rolls the die and resolves the click with it.
/// Whichever kind comes up, its reward is the one that kind grants.
pub fn drew_click(player: &mut Player) -> (r: ClickOutcome)
    ensures
        r.reward == capped(click_reward(old(player)@, r.kind)),
        final(player)@ == after_click(old(player)@, r.kind),
        old(player).wf() ==> final(player).wf(),
{
    let roll = draw_below(BONUS_ODDS);
    resolve_click(player, roll)
}

} // verus!
