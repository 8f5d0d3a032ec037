use vstd::prelude::*;

verus! {

/// Number of generator tiers.
pub const TIER_COUNT: usize = 4;

/// Currency granted by an ordinary click in a fresh game.
pub const STARTING_CLICK_STRENGTH: u128 = 10;

/// The player's whole economic state. Amounts are kept in tenths of a
/// display unit, so that one decimal digit is shown without floating point.
///
/// `autoclickers[i]` is how many generators of tier `i` are owned,
/// `autoclicker_prices[i]` the tier's price with none owned and
/// `autoclicker_values[i]` the income each of them adds per accrual tick.
#[derive(Clone, Copy, Debug, PartialEq, Eq)]
pub struct Player {
    pub droodles: u128,
    pub dps: u128,
    pub click_strength: u128,
    pub autoclickers: [u128; 4],
    pub autoclicker_prices: [u128; 4],
    pub autoclicker_values: [u128; 4],
}

/// Income of the first `n` tiers: the sum of `owned[i] * values[i]` for `i < n`.
pub open spec fn income_of(owned: Seq<u128>, values: Seq<u128>, n: nat) -> int
    decreases n,
{
    if n == 0 {
        0
    } else {
        income_of(owned, values, (n - 1) as nat) + owned[n - 1] * values[n - 1]
    }
}

/// With no generator owned among the first `n` tiers, they yield nothing.
pub proof fn lemma_income_of_none_owned(owned: Seq<u128>, values: Seq<u128>, n: nat)
    requires
        n <= owned.len(),
        forall|i: int| 0 <= i < n ==> owned[i] == 0,
    ensures
        income_of(owned, values, n) == 0,
    decreases n,
{
    if n > 0 {
        lemma_income_of_none_owned(owned, values, (n - 1) as nat);
    }
}

/// Replacing what is owned of tier `i` changes the income by the difference
/// times that tier's income value.
pub proof fn lemma_income_of_update(owned: Seq<u128>, values: Seq<u128>, n: nat, i: int, x: u128)
    requires
        n <= owned.len(),
        0 <= i < n,
    ensures
        income_of(owned.update(i, x), values, n) == income_of(owned, values, n) + (x - owned[i])
            * values[i],
    decreases n,
{
    let m = (n - 1) as nat;
    if i < m {
        lemma_income_of_update(owned, values, m, i, x);
        assert(income_of(owned.update(i, x), values, n) == income_of(owned.update(i, x), values, m)
            + owned[m as int] * values[m as int]);
    } else {
        lemma_income_of_unchanged_below(owned, values, m, i, x);
        assert((x - owned[i]) * values[i] + owned[i] * values[i] == x * values[i])
            by (nonlinear_arith);
    }
}

/// Tiers at or above `n` play no part in the income of the first `n`.
proof fn lemma_income_of_unchanged_below(
    owned: Seq<u128>,
    values: Seq<u128>,
    n: nat,
    i: int,
    x: u128,
)
    requires
        n <= i < owned.len(),
    ensures
        income_of(owned.update(i, x), values, n) == income_of(owned, values, n),
    decreases n,
{
    if n > 0 {
        lemma_income_of_unchanged_below(owned, values, (n - 1) as nat, i, x);
    }
}

/// The player's state as plain values: the tier arrays become sequences.
pub struct PlayerView {
    pub droodles: u128,
    pub dps: u128,
    pub click_strength: u128,
    pub owned: Seq<u128>,
    pub prices: Seq<u128>,
    pub values: Seq<u128>,
}

impl PlayerView {
    /// Income that the owned generators add per accrual tick.
    pub open spec fn income_sum(&self) -> int {
        income_of(self.owned, self.values, TIER_COUNT as nat)
    }

    /// Every tier sequence has one entry per tier, and the income rate is
    /// the sum of what the owned generators yield.
    pub open spec fn wf(&self) -> bool {
        &&& self.owned.len() == TIER_COUNT
        &&& self.prices.len() == TIER_COUNT
        &&& self.values.len() == TIER_COUNT
        &&& self.dps == self.income_sum()
    }
}

impl View for Player {
    type V = PlayerView;

    open spec fn view(&self) -> PlayerView {
        PlayerView {
            droodles: self.droodles,
            dps: self.dps,
            click_strength: self.click_strength,
            owned: self.autoclickers@,
            prices: self.autoclicker_prices@,
            values: self.autoclicker_values@,
        }
    }
}

impl Player {
    /// Income that the owned generators add per accrual tick.
    pub open spec fn income_sum(&self) -> int {
        self@.income_sum()
    }

    /// The income rate is always the sum of what the owned generators yield.
    pub open spec fn wf(&self) -> bool {
        self@.wf()
    }

    /// The state of a new game: no currency, no generators, the starting
    /// click strength and the fixed price and income of each tier.
    pub open spec fn is_fresh(&self) -> bool {
        &&& self.droodles == 0
        &&& self.dps == 0
        &&& self.click_strength == STARTING_CLICK_STRENGTH
        &&& self.autoclickers@ == seq![0u128, 0, 0, 0]
        &&& self.autoclicker_prices@ == seq![100u128, 1000, 10000, 100000]
        &&& self.autoclicker_values@ == seq![1u128, 10, 100, 1000]
    }

    /// A new game.
    pub fn new() -> (p: Player)
        ensures
            p.is_fresh(),
            p.wf(),
    {
        let p = Player {
            droodles: 0,
            dps: 0,
            click_strength: STARTING_CLICK_STRENGTH,
            autoclickers: [0, 0, 0, 0],
            autoclicker_prices: [100, 1000, 10000, 100000],
            autoclicker_values: [1, 10, 100, 1000],
        };
        assert(p.autoclickers@ =~= seq![0u128, 0, 0, 0]);
        assert(p.autoclicker_prices@ =~= seq![100u128, 1000, 10000, 100000]);
        assert(p.autoclicker_values@ =~= seq![1u128, 10, 100, 1000]);
        proof {
            lemma_income_of_none_owned(p.autoclickers@, p.autoclicker_values@, 4);
        }
        p
    }
}

} // verus!
