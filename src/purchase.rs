//! Buying generators: the check against the price and the update of the
//! player's state, which happen together or not at all.
use crate::pricing::{calculate_price, price, price_in_u128};
use crate::state::{lemma_income_of_update, Player, PlayerView, TIER_COUNT};
use vstd::prelude::*;

verus! {

/// What came of an attempt to buy a generator.
#[derive(PartialEq, Eq, Structural, Clone, Copy, Debug)]
pub enum PurchaseOutcome {
    /// The generator was bought; `next_price` is what the next one of the
    /// tier costs, `None` where that is beyond what a `u128` holds.
    Applied { next_price: Option<u128> },
    /// There is no tier with that index.
    InvalidTier,
    /// The currency does not cover the price.
    Unaffordable,
    /// The income rate or the owned count would pass what a `u128` holds.
    Overflow,
}

/// The state and outcome after an attempt to buy one generator of tier
/// `index` from state `m`.
pub open spec fn purchase_step(m: PlayerView, index: int) -> (PlayerView, PurchaseOutcome) {
    if !(0 <= index < TIER_COUNT) {
        (m, PurchaseOutcome::InvalidTier)
    } else {
        let cost = price(m.prices[index] as nat, m.owned[index] as nat);
        if m.droodles < cost {
            (m, PurchaseOutcome::Unaffordable)
        } else if m.dps + m.values[index] > u128::MAX || m.owned[index] + 1 > u128::MAX {
            (m, PurchaseOutcome::Overflow)
        } else {
            let owned = (m.owned[index] + 1) as u128;
            (
                PlayerView {
                    droodles: (m.droodles - cost) as u128,
                    dps: (m.dps + m.values[index]) as u128,
                    owned: m.owned.update(index, owned),
                    ..m
                },
                PurchaseOutcome::Applied {
                    next_price: price_in_u128(m.prices[index] as nat, owned as nat),
                },
            )
        }
    }
}

/// The state and outcomes after attempts to buy one generator of each tier
/// in `requests`, in order.
pub open spec fn purchases_result(m: PlayerView, requests: Seq<usize>) -> (
    PlayerView,
    Seq<PurchaseOutcome>,
)
    decreases requests.len(),
{
    if requests.len() == 0 {
        (m, Seq::empty())
    } else {
        let before = purchases_result(m, requests.drop_last());
        let after = purchase_step(before.0, requests.last() as int);
        (after.0, before.1.push(after.1))
    }
}

/// A purchase keeps the income rate equal to what the owned generators yield.
pub proof fn lemma_purchase_keeps_income(m: PlayerView, index: int)
    requires
        m.wf(),
    ensures
        purchase_step(m, index).0.wf(),
{
    if 0 <= index < TIER_COUNT && m.owned[index] + 1 <= u128::MAX {
        let x = (m.owned[index] + 1) as u128;
        lemma_income_of_update(m.owned, m.values, TIER_COUNT as nat, index, x);
        assert(x - m.owned[index] == 1);
        assert((x - m.owned[index]) * m.values[index] == m.values[index]) by (nonlinear_arith)
            requires
                x - m.owned[index] == 1,
        ;
    }
}

/// After any sequence of purchases the income rate is the sum, over the
/// tiers, of the generators owned times their income value.
pub proof fn lemma_purchases_keep_income(m: PlayerView, requests: Seq<usize>)
    requires
        m.wf(),
    ensures
        purchases_result(m, requests).0.wf(),
        purchases_result(m, requests).1.len() == requests.len(),
    decreases requests.len(),
{
    if requests.len() > 0 {
        lemma_purchases_keep_income(m, requests.drop_last());
        lemma_purchase_keeps_income(purchases_result(m, requests.drop_last()).0, requests.last() as int);
    }
}

/// A purchase that is not applied leaves the state exactly as it was; one
/// that is applied takes exactly the price from the currency, adds one
/// generator and adds its income value to the income rate.
pub proof fn lemma_purchase_all_or_nothing(m: PlayerView, index: int)
    requires
        m.wf(),
    ensures
        !(purchase_step(m, index).1 is Applied) ==> purchase_step(m, index).0 == m,
        purchase_step(m, index).1 is Applied ==> {
            let n = purchase_step(m, index).0;
            &&& n.droodles == m.droodles - price(m.prices[index] as nat, m.owned[index] as nat)
            &&& n.owned[index] == m.owned[index] + 1
            &&& n.dps == m.dps + m.values[index]
        },
{
}

/// Tries to buy one generator of tier `index`: where the currency covers the
/// tier's price, takes the price, adds the generator and its income.
pub fn purchase(index: usize, player: &mut Player) -> (r: PurchaseOutcome)
    ensures
        (final(player)@, r) == purchase_step(old(player)@, index as int),
        old(player).wf() ==> final(player).wf(),
{
    proof {
        if old(player).wf() {
            lemma_purchase_keeps_income(old(player)@, index as int);
        }
    }
    if index >= TIER_COUNT {
        return PurchaseOutcome::InvalidTier;
    }
    let cost = match calculate_price(player.autoclicker_prices[index], player.autoclickers[index]) {
        Some(c) => c,
        None => {
            return PurchaseOutcome::Unaffordable;
        },
    };
    if player.droodles < cost {
        return PurchaseOutcome::Unaffordable;
    }
    let value = player.autoclicker_values[index];
    if player.dps > u128::MAX - value || player.autoclickers[index] == u128::MAX {
        return PurchaseOutcome::Overflow;
    }
    let owned = player.autoclickers[index] + 1;
    player.droodles = player.droodles - cost;
    player.dps = player.dps + value;
    player.autoclickers[index] = owned;
    let next_price = calculate_price(player.autoclicker_prices[index], owned);
    proof {
        assert(player.autoclickers@ =~= old(player).autoclickers@.update(index as int, owned));
    }
    PurchaseOutcome::Applied { next_price }
}

/// Handles the purchase requests of one step, in order, and returns the
/// outcome of each.
pub fn calculate_purchases(player: &mut Player, requests: &Vec<usize>) -> (r: Vec<PurchaseOutcome>)
    ensures
        (final(player)@, r@) == purchases_result(old(player)@, requests@),
        old(player).wf() ==> final(player).wf(),
{
    let mut outcomes: Vec<PurchaseOutcome> = Vec::new();
    let mut i: usize = 0;
    while i < requests.len()
        invariant
            i <= requests.len(),
            (player@, outcomes@) == purchases_result(old(player)@, requests@.subrange(0, i as int)),
            old(player).wf() ==> player.wf(),
        decreases requests.len() - i,
    {
        proof {
            assert(requests@.subrange(0, i + 1).drop_last() =~= requests@.subrange(0, i as int));
        }
        let outcome = purchase(requests[i], player);
        outcomes.push(outcome);
        i = i + 1;
    }
    proof {
        assert(requests@.subrange(0, requests.len() as int) =~= requests@);
    }
    outcomes
}

} // verus!
