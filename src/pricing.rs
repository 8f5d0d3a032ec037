//! Generator prices: `floor(base / 10 * 1.15^owned) * 10`, computed exactly.
use crate::limbs::{div_small, from_u128, mul_small, to_u128, value};
use vstd::arithmetic::div_mod::*;
use vstd::arithmetic::power::*;
use vstd::arithmetic::power2::*;
use vstd::prelude::*;

verus! {

/// Owned count from which any tier with a non-zero base price costs more
/// than a `u128` can hold.
pub const OWNED_PRICE_LIMIT: u128 = 700;

/// The price of a tier with base price `base` when `owned` of it are owned:
/// `base / 10 * 1.15^owned` rounded down, times ten.
pub open spec fn price(base: nat, owned: nat) -> nat {
    ((base * pow(115, owned)) / (10 * pow(100, owned))) as nat * 10
}

/// The price as a `u128`, or `None` where it is beyond what a `u128` holds.
pub open spec fn price_in_u128(base: nat, owned: nat) -> Option<u128> {
    if price(base, owned) <= u128::MAX {
        Some(price(base, owned) as u128)
    } else {
        None
    }
}

/// `a / b` is at least `q` when `a` is at least `q * b`.
proof fn lemma_div_at_least(a: int, b: int, q: int)
    requires
        b > 0,
        q >= 0,
        a >= q * b,
    ensures
        a / b >= q,
{
    lemma_fundamental_div_mod(a, b);
    assert(a / b >= q) by (nonlinear_arith)
        requires
            a == b * (a / b) + a % b,
            a % b < b,
            a >= q * b,
            b > 0,
    ;
}

proof fn lemma_pow_nonneg(b: nat, e: nat)
    ensures
        pow(b as int, e) >= 0,
    decreases e,
{
    reveal(pow);
    if e > 0 {
        lemma_pow_nonneg(b, (e - 1) as nat);
    }
}

/// A larger base gives a larger power.
proof fn lemma_pow_base_le(a: nat, b: nat, e: nat)
    requires
        b <= a,
    ensures
        pow(b as int, e) <= pow(a as int, e),
    decreases e,
{
    reveal(pow);
    if e > 0 {
        lemma_pow_base_le(a, b, (e - 1) as nat);
        lemma_pow_nonneg(b, (e - 1) as nat);
        let pa = pow(a as int, (e - 1) as nat);
        let pb = pow(b as int, (e - 1) as nat);
        assert(b * pb <= a * pa) by (nonlinear_arith)
            requires
                0 <= b <= a,
                0 <= pb <= pa,
        ;
    }
}

/// Five purchases more than double the growth factor: `1.15^5 > 2`.
proof fn lemma_growth(k: nat)
    ensures
        pow(115, 5 * k) >= pow(2, k) * pow(100, 5 * k),
    decreases k,
{
    reveal_with_fuel(pow, 6);
    if k > 0 {
        let j = (k - 1) as nat;
        lemma_growth(j);
        lemma_pow_adds(115, 5 * j, 5);
        lemma_pow_adds(100, 5 * j, 5);
        assert(5 * k == 5 * j + 5);
        assert(pow(115, 5) == 20113571875);
        assert(pow(100, 5) == 10000000000);
        lemma_pow_nonneg(100, 5 * j);
        lemma_pow_nonneg(2, j);
        let a = pow(115, 5 * j);
        let b = pow(2, j);
        let c = pow(100, 5 * j);
        assert(a * 20113571875 >= (b * 2) * (c * 10000000000)) by (nonlinear_arith)
            requires
                a >= b * c,
                b >= 0,
                c >= 0,
        ;
    }
}

/// From a base price of 67 tenths up, every purchase raises the price.
pub proof fn lemma_price_rises_from_base_67(base: nat, owned: nat)
    requires
        base >= 67,
    ensures
        price(base, owned) < price(base, owned + 1),
{
    lemma_pow_base_le(115, 100, owned);
    lemma_pow_nonneg(100, owned);
    let a = pow(115, owned);
    let b = pow(100, owned);
    assert(3 * (base * a) >= 200 * b) by (nonlinear_arith)
        requires
            base >= 67,
            a >= b,
            b >= 0,
    ;
    lemma_price_rises_with_each_purchase(base, owned);
}

/// With a non-zero base price, `OWNED_PRICE_LIMIT` owned or more put the
/// price beyond `u128`.
pub proof fn lemma_price_beyond_u128(base: nat, owned: nat)
    requires
        base >= 1,
        owned >= OWNED_PRICE_LIMIT,
    ensures
        price(base, owned) > u128::MAX,
{
    let rest = (owned - 700) as nat;
    lemma_growth(140);
    lemma_pow_adds(115, 700, rest);
    lemma_pow_adds(100, 700, rest);
    lemma_pow_base_le(115, 100, rest);
    lemma_pow_nonneg(100, rest);
    lemma_pow_nonneg(100, 700);
    lemma_pow_nonneg(2, 140);
    lemma2_to64();
    lemma_pow2(64);
    lemma_pow_adds(2, 64, 64);
    lemma_pow_adds(2, 128, 12);
    assert(pow(2, 12) == 4096) by {
        reveal_with_fuel(pow, 13);
    }
    let big: int = u128::MAX as int + 1;
    assert(big == 0x1_0000_0000_0000_0000int * 0x1_0000_0000_0000_0000int);
    assert(pow(2, 140) == big * 4096);
    let g = pow(115, 700);
    let h = pow(100, 700);
    let gr = pow(115, rest);
    let hr = pow(100, rest);
    let x = base * pow(115, owned);
    let d = 10 * pow(100, owned);
    assert(x >= big * d) by (nonlinear_arith)
        requires
            x == base * (g * gr),
            d == 10 * (h * hr),
            base >= 1,
            g >= (big * 4096) * h,
            gr >= hr,
            h >= 0,
            hr >= 0,
            big > 0,
    ;
    lemma_pow_positive(100, owned);
    lemma_div_at_least(x, d, big);
}

/// Prices never fall as more generators are owned.
pub proof fn lemma_price_never_decreases(base: nat, owned: nat)
    ensures
        price(base, owned) <= price(base, owned + 1),
{
    let x = base * pow(115, owned);
    let d = 10 * pow(100, owned);
    lemma_pow_positive(100, owned);
    lemma_pow_nonneg(115, owned);
    reveal(pow);
    assert(pow(115, owned + 1) == 115 * pow(115, owned));
    assert(pow(100, owned + 1) == 100 * pow(100, owned));
    assert(base * pow(115, owned + 1) == 115 * x) by (nonlinear_arith)
        requires
            pow(115, owned + 1) == 115 * pow(115, owned),
            x == base * pow(115, owned),
    ;
    let q = x / d;
    lemma_fundamental_div_mod(x, d);
    assert(x >= 0) by (nonlinear_arith)
        requires
            x == base * pow(115, owned),
            pow(115, owned) >= 0,
    ;
    lemma_div_pos_is_pos(x, d);
    assert(base * pow(115, owned + 1) >= q * (10 * pow(100, owned + 1))) by (nonlinear_arith)
        requires
            x == d * q + x % d,
            x % d >= 0,
            x >= 0,
            base * pow(115, owned + 1) == 115 * x,
            10 * pow(100, owned + 1) == 100 * d,
    ;
    lemma_div_at_least(base * pow(115, owned + 1), 10 * pow(100, owned + 1), q);
}

/// Once the unrounded price `base / 10 * 1.15^owned` has reached 20/3, the
/// next purchase raises the price: the growth of 15% is then worth at least
/// a whole step of ten. This holds for every `owned` from a base price of 67
/// tenths up; below that, the first purchases may leave the price as it is.
pub proof fn lemma_price_rises_with_each_purchase(base: nat, owned: nat)
    requires
        3 * (base * pow(115, owned)) >= 200 * pow(100, owned),
    ensures
        price(base, owned) < price(base, owned + 1),
{
    let x = base * pow(115, owned);
    let d = 10 * pow(100, owned);
    lemma_pow_positive(100, owned);
    reveal(pow);
    assert(pow(115, owned + 1) == 115 * pow(115, owned));
    assert(pow(100, owned + 1) == 100 * pow(100, owned));
    assert(base * pow(115, owned + 1) == 115 * x) by (nonlinear_arith)
        requires
            pow(115, owned + 1) == 115 * pow(115, owned),
            x == base * pow(115, owned),
    ;
    let q = x / d;
    lemma_fundamental_div_mod(x, d);
    assert(base * pow(115, owned + 1) >= (q + 1) * (10 * pow(100, owned + 1))) by (nonlinear_arith)
        requires
            x == d * q + x % d,
            x % d >= 0,
            d == 10 * pow(100, owned),
            3 * x >= 200 * pow(100, owned),
            base * pow(115, owned + 1) == 115 * x,
            10 * pow(100, owned + 1) == 100 * d,
    ;
    lemma_div_pos_is_pos(x, d);
    lemma_div_at_least(base * pow(115, owned + 1), 10 * pow(100, owned + 1), q + 1);
}

/// The price of a tier with base price `base` and `amount` owned, or `None`
/// where that price is beyond what a `u128` holds (no currency can pay it).
pub fn calculate_price(base: u128, amount: u128) -> (r: Option<u128>)
    ensures
        r == price_in_u128(base as nat, amount as nat),
{
    if base == 0 {
        proof {
            lemma_pow_positive(100, amount as nat);
            assert(0 * pow(115, amount as nat) == 0);
            lemma_div_of0(10 * pow(100, amount as nat));
        }
        return Some(0);
    }
    if amount >= OWNED_PRICE_LIMIT {
        proof {
            lemma_price_beyond_u128(base as nat, amount as nat);
        }
        return None;
    }
    let n = amount as usize;
    let ghost top: int = base * pow(115, n as nat);
    let mut num = from_u128(base);
    let mut i: usize = 0;
    proof {
        reveal(pow);
    }
    while i < n
        invariant
            i <= n,
            n == amount,
            value(num@) == base * pow(115, i as nat),
        decreases n - i,
    {
        proof {
            reveal(pow);
            assert(pow(115, (i + 1) as nat) == 115 * pow(115, i as nat));
            assert(base * pow(115, i as nat) * 115 == base * (115 * pow(115, i as nat)))
                by (nonlinear_arith);
        }
        num = mul_small(&num, 115);
        i = i + 1;
    }
    proof {
        lemma_pow_nonneg(115, n as nat);
        assert(top >= 0) by (nonlinear_arith)
            requires
                top == base * pow(115, n as nat),
                pow(115, n as nat) >= 0,
                base >= 0,
        ;
    }
    let mut j: usize = 0;
    proof {
        reveal(pow);
    }
    while j < n
        invariant
            j <= n,
            n == amount,
            top >= 0,
            top == base * pow(115, n as nat),
            value(num@) == top / pow(100, j as nat),
        decreases n - j,
    {
        proof {
            reveal(pow);
            assert(pow(100, (j + 1) as nat) == pow(100, j as nat) * 100);
            lemma_pow_positive(100, j as nat);
            lemma_div_denominator(top, pow(100, j as nat), 100);
        }
        num = div_small(&num, 100);
        j = j + 1;
    }
    proof {
        lemma_pow_positive(100, n as nat);
        lemma_div_denominator(top, pow(100, n as nat), 10);
        assert(pow(100, n as nat) * 10 == 10 * pow(100, n as nat));
    }
    num = div_small(&num, 10);
    match to_u128(&num) {
        None => None,
        Some(q) => {
            if q > u128::MAX / 10 {
                None
            } else {
                Some(q * 10)
            }
        },
    }
}

} // verus!
