//! Display text. Amounts are stored in tenths: below a threshold they are
//! shown with one decimal digit, from it on in scientific notation with six
//! decimals. Prices are shown in whole units, in scientific notation with
//! three decimals from the threshold on. Rounding is to the nearest on the
//! exact integer; a half goes to the even neighbour for amounts and up for
//! prices.
use crate::state::Player;
use vstd::arithmetic::div_mod::*;
use vstd::arithmetic::power::*;
use vstd::prelude::*;
use vstd::string::*;

verus! {

/// From this value on a number is shown in scientific notation.
pub const EXPONENT_THRESHOLD: u128 = 1_000_000_000;

/// Significant digits shown of an amount in scientific notation.
pub const AMOUNT_DIGITS: u32 = 7;

/// Significant digits shown of a price in scientific notation.
pub const PRICE_DIGITS: u32 = 4;

/// The character of the decimal digit `d`.
pub open spec fn digit_char(d: nat) -> char {
    if d == 0 {
        '0'
    } else if d == 1 {
        '1'
    } else if d == 2 {
        '2'
    } else if d == 3 {
        '3'
    } else if d == 4 {
        '4'
    } else if d == 5 {
        '5'
    } else if d == 6 {
        '6'
    } else if d == 7 {
        '7'
    } else if d == 8 {
        '8'
    } else {
        '9'
    }
}

/// The decimal digits of `n`, without leading zeros.
pub open spec fn decimal(n: nat) -> Seq<char>
    decreases n,
{
    if n < 10 {
        seq![digit_char(n)]
    } else {
        decimal(n / 10).push(digit_char(n % 10))
    }
}

/// The lowest `w` decimal digits of `n`, with leading zeros.
pub open spec fn padded(n: nat, w: nat) -> Seq<char>
    decreases w,
{
    if w == 0 {
        Seq::empty()
    } else {
        padded(n / 10, (w - 1) as nat).push(digit_char(n % 10))
    }
}

/// How many decimal digits `n` has.
pub open spec fn num_digits(n: nat) -> nat
    decreases n,
{
    if n < 10 {
        1
    } else {
        1 + num_digits(n / 10)
    }
}

/// `n` rounded to `sig` significant digits, as a mantissa `m` with exactly
/// `sig` digits and an exponent `e`, with `n` about `m * 10^e`. An exact half
/// goes to the even mantissa where `ties_even` holds, else up.
pub open spec fn rounded(n: nat, sig: nat, ties_even: bool) -> (nat, nat) {
    let cut = (num_digits(n) - sig) as nat;
    let p = pow(10, cut);
    let twice_rest = 2 * (n as int % p);
    let up: int = if twice_rest > p || (twice_rest == p && (!ties_even || (n as int / p) % 2
        == 1)) {
        1
    } else {
        0
    };
    let m = (n as int / p + up) as nat;
    if m == pow(10, sig) {
        (pow(10, (sig - 1) as nat) as nat, cut + 1)
    } else {
        (m, cut)
    }
}

/// Scientific notation of a mantissa with `sig` digits and the exponent
/// shown: its first digit, a point, the other digits, `e` and the exponent.
pub open spec fn scientific(m: nat, sig: nat, exp: nat) -> Seq<char> {
    let unit = pow(10, (sig - 1) as nat);
    decimal((m as int / unit) as nat) + seq!['.'] + padded((m as int % unit) as nat, (sig - 1) as nat) + seq![
        'e',
    ] + decimal(exp)
}

/// How an amount of `v` tenths is shown.
pub open spec fn amount_text(v: nat) -> Seq<char> {
    if v < EXPONENT_THRESHOLD {
        decimal(v / 10) + seq!['.', digit_char(v % 10)]
    } else {
        let (m, e) = rounded(v, AMOUNT_DIGITS as nat, true);
        scientific(m, AMOUNT_DIGITS as nat, (e + AMOUNT_DIGITS - 2) as nat)
    }
}

/// How a price of `price` tenths is shown, in whole units.
pub open spec fn price_text(price: nat) -> Seq<char> {
    let units = price / 10;
    if units < EXPONENT_THRESHOLD {
        decimal(units)
    } else {
        let (m, e) = rounded(units, PRICE_DIGITS as nat, false);
        scientific(m, PRICE_DIGITS as nat, (e + PRICE_DIGITS - 1) as nat)
    }
}

/// Relies on String::push: the character is appended at the end.
#[verifier::external_body]
fn push_char(s: &mut String, c: char)
    ensures
        final(s)@ == old(s)@.push(c),
{
    s.push(c)
}

/// The character of the decimal digit `d`.
fn digit(d: u128) -> (c: char)
    requires
        d < 10,
    ensures
        c == digit_char(d as nat),
{
    if d == 0 {
        '0'
    } else if d == 1 {
        '1'
    } else if d == 2 {
        '2'
    } else if d == 3 {
        '3'
    } else if d == 4 {
        '4'
    } else if d == 5 {
        '5'
    } else if d == 6 {
        '6'
    } else if d == 7 {
        '7'
    } else if d == 8 {
        '8'
    } else {
        '9'
    }
}

/// Appends the decimal digits of `n`.
fn push_decimal(s: &mut String, n: u128)
    ensures
        final(s)@ == old(s)@ + decimal(n as nat),
    decreases n,
{
    if n >= 10 {
        push_decimal(s, n / 10);
    }
    push_char(s, digit(n % 10));
    proof {
        if n < 10 {
            lemma_small_mod(n as nat, 10);
            assert(old(s)@.push(digit_char(n as nat)) =~= old(s)@ + decimal(n as nat));
        } else {
            assert((old(s)@ + decimal((n / 10) as nat)).push(digit_char((n % 10) as nat)) =~= old(
                s,
            )@ + decimal(n as nat));
        }
    }
}

/// Appends the lowest `w` decimal digits of `n`, with leading zeros.
fn push_padded(s: &mut String, n: u128, w: u32)
    ensures
        final(s)@ == old(s)@ + padded(n as nat, w as nat),
    decreases w,
{
    if w == 0 {
        assert(old(s)@ + padded(n as nat, 0) =~= old(s)@);
        return;
    }
    push_padded(s, n / 10, w - 1);
    push_char(s, digit(n % 10));
    assert((old(s)@ + padded((n / 10) as nat, (w - 1) as nat)).push(digit_char((n % 10) as nat))
        =~= old(s)@ + padded(n as nat, w as nat));
}

/// Appends the characters of `t`.
fn push_str(s: &mut String, t: &str)
    ensures
        final(s)@ == old(s)@ + t@,
{
    s.append(t);
}

/// A number has `num_digits` digits: it lies in `10^(d-1) .. 10^d`.
proof fn lemma_num_digits_bounds(n: nat)
    ensures
        num_digits(n) >= 1,
        pow(10, (num_digits(n) - 1) as nat) <= n || n == 0,
        n < pow(10, num_digits(n)),
    decreases n,
{
    reveal(pow);
    if n >= 10 {
        lemma_num_digits_bounds(n / 10);
        let d = num_digits(n / 10);
        let lo = pow(10, (d - 1) as nat);
        let hi = pow(10, d);
        assert(hi == 10 * lo);
        assert(pow(10, d + 1) == 10 * hi);
        lemma_fundamental_div_mod(n as int, 10);
        let q = n / 10;
        assert(hi <= n && n < 10 * hi) by (nonlinear_arith)
            requires
                lo <= q,
                q < hi,
                hi == 10 * lo,
                n == 10 * q + n % 10,
                0 <= n % 10 < 10,
        ;
    } else {
        assert(pow(10, 0) == 1);
        assert(pow(10, 1) == 10 * pow(10, 0));
    }
}

/// `10^k`.
fn pow10(k: u32) -> (r: u128)
    requires
        k <= 38,
    ensures
        r == pow(10, k as nat),
{
    let mut r: u128 = 1;
    let mut i: u32 = 0;
    proof {
        reveal(pow);
    }
    while i < k
        invariant
            i <= k <= 38,
            r == pow(10, i as nat),
        decreases k - i,
    {
        proof {
            reveal(pow);
            lemma_pow_increases(10, (i + 1) as nat, 38);
            assert(pow(10, 38) == 100000000000000000000000000000000000000) by {
                reveal_with_fuel(pow, 39);
            }
        }
        r = r * 10;
        i = i + 1;
    }
    r
}

/// How many decimal digits `n` has.
fn count_digits(n: u128) -> (d: u32)
    ensures
        d == num_digits(n as nat),
        d <= 39,
{
    proof {
        lemma_num_digits_bounds(n as nat);
        if num_digits(n as nat) > 39 {
            lemma_pow_increases(10, 39, (num_digits(n as nat) - 1) as nat);
            assert(pow(10, 39) == 1000000000000000000000000000000000000000) by {
                reveal_with_fuel(pow, 40);
            }
        }
    }
    let mut d: u32 = 1;
    let mut t: u128 = n;
    while t >= 10
        invariant
            d + num_digits(t as nat) - 1 == num_digits(n as nat),
            num_digits(n as nat) <= 39,
            d >= 1,
            d <= num_digits(n as nat),
        decreases t,
    {
        proof {
            lemma_num_digits_bounds(t as nat);
        }
        t = t / 10;
        d = d + 1;
    }
    d
}

/// Appends `n` in scientific notation with `sig` significant digits; the
/// exponent shown is that of `n` less `shift`. An exact half goes to the
/// even mantissa where `ties_even` holds, else up.
fn push_scientific(s: &mut String, n: u128, sig: u32, shift: u32, ties_even: bool)
    requires
        1 <= sig <= 7,
        shift <= 1,
        n >= EXPONENT_THRESHOLD,
    ensures
        ({
            let (m, e) = rounded(n as nat, sig as nat, ties_even);
            final(s)@ == old(s)@ + scientific(m, sig as nat, (e + sig - 1 - shift) as nat)
        }),
{
    let digits = count_digits(n);
    proof {
        lemma_num_digits_bounds(n as nat);
        if digits < 10 {
            lemma_pow_increases(10, digits as nat, 9);
            assert(pow(10, 9) == 1000000000) by {
                reveal_with_fuel(pow, 10);
            }
        }
    }
    let cut = digits - sig;
    let p = pow10(cut);
    proof {
        lemma_pow_positive(10, cut as nat);
    }
    let q = n / p;
    let r = n % p;
    proof {
        lemma_pow_adds(10, cut as nat, sig as nat);
        lemma_pow_increases(10, sig as nat, 7);
        assert(pow(10, 7) == 10000000) by {
            reveal_with_fuel(pow, 8);
        }
        lemma_fundamental_div_mod(n as int, p as int);
        assert(q < pow(10, sig as nat)) by (nonlinear_arith)
            requires
                n == p * q + r,
                r >= 0,
                n < pow(10, cut as nat) * pow(10, sig as nat),
                p == pow(10, cut as nat),
                p > 0,
        ;
        lemma_mod_bound(n as int, p as int);
    }
    let up: u128 = if r > p - r || (r == p - r && (!ties_even || q % 2 == 1)) {
        1
    } else {
        0
    };
    let top = pow10(sig);
    let mut m = q + up;
    let mut e = cut;
    if m == top {
        m = pow10(sig - 1);
        e = cut + 1;
    }
    let unit = pow10(sig - 1);
    proof {
        lemma_pow_positive(10, (sig - 1) as nat);
    }
    push_decimal(s, m / unit);
    push_char(s, '.');
    push_padded(s, m % unit, sig - 1);
    push_char(s, 'e');
    push_decimal(s, (e + sig - 1 - shift) as u128);
    proof {
        let (sm, se) = rounded(n as nat, sig as nat, ties_even);
        assert(sm == m && se == e);
        let sci = scientific(m as nat, sig as nat, (e + sig - 1 - shift) as nat);
        assert(sci =~= decimal((m / unit) as nat) + seq!['.'] + padded((m % unit) as nat, (sig
            - 1) as nat) + seq!['e'] + decimal((e + sig - 1 - shift) as nat));
    }
    proof {
        let a = old(s)@;
        assert(s@ =~= a + scientific(m as nat, sig as nat, (e + sig - 1 - shift) as nat));
    }
}

/// The text of an amount of `v` tenths.
pub fn format_amount(v: u128) -> (r: String)
    ensures
        r@ == amount_text(v as nat),
{
    let mut s = String::new();
    if v < EXPONENT_THRESHOLD {
        push_decimal(&mut s, v / 10);
        push_char(&mut s, '.');
        push_char(&mut s, digit(v % 10));
        assert(s@ =~= amount_text(v as nat));
    } else {
        push_scientific(&mut s, v, AMOUNT_DIGITS, 1, true);
        assert(s@ =~= amount_text(v as nat));
    }
    s
}

/// The text of a price of `price` tenths, in whole units; `None` stands for
/// a price beyond what a `u128` holds.
pub fn format_price(price: Option<u128>) -> (r: String)
    ensures
        price is Some ==> r@ == price_text(price.unwrap() as nat),
        price is None ==> r@ == "out of reach"@,
{
    match price {
        None => String::from_str("out of reach"),
        Some(p) => {
            let units = p / 10;
            let mut s = String::new();
            if units < EXPONENT_THRESHOLD {
                push_decimal(&mut s, units);
                assert(s@ =~= price_text(p as nat));
            } else {
                push_scientific(&mut s, units, PRICE_DIGITS, 0, false);
                assert(s@ =~= price_text(p as nat));
            }
            s
        },
    }
}

/// The line that shows how many generators of a tier are owned.
pub fn format_owned(owned: u128) -> (r: String)
    ensures
        r@ == "\nOwned: "@ + decimal(owned as nat),
{
    let mut s = String::from_str("\nOwned: ");
    push_decimal(&mut s, owned);
    s
}

/// The two lines of the status display: the currency and the income rate.
pub fn update_text(player: &Player) -> (r: (String, String))
    ensures
        r.0@ == "Droodles: "@ + amount_text(player.droodles as nat),
        r.1@ == "DPS: "@ + amount_text(player.dps as nat),
{
    let mut money = String::from_str("Droodles: ");
    let amount = format_amount(player.droodles);
    push_str(&mut money, amount.as_str());
    let mut income = String::from_str("DPS: ");
    let rate = format_amount(player.dps);
    push_str(&mut income, rate.as_str());
    (money, income)
}

} // verus!
