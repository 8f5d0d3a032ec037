//! Natural numbers of any size, held as little-endian base-2^32 limbs, with
//! the few operations that exact pricing needs.
use vstd::arithmetic::div_mod::*;
use vstd::prelude::*;

verus! {

/// The base of a limb.
pub open spec fn radix() -> int {
    0x1_0000_0000
}

/// `radix()` raised to the power `e`.
pub open spec fn radix_pow(e: nat) -> int
    decreases e,
{
    if e == 0 {
        1
    } else {
        radix() * radix_pow((e - 1) as nat)
    }
}

/// The number that the limbs stand for, least significant limb first.
pub open spec fn value(s: Seq<u32>) -> nat
    decreases s.len(),
{
    if s.len() == 0 {
        0
    } else {
        (s[0] + radix() * value(s.drop_first())) as nat
    }
}

/// Appending a most significant limb adds it at its place value.
proof fn lemma_value_push(s: Seq<u32>, d: u32)
    ensures
        value(s.push(d)) == value(s) + d * radix_pow(s.len()),
    decreases s.len(),
{
    if s.len() == 0 {
        assert(s.push(d).drop_first() =~= s);
    } else {
        assert(s.push(d).drop_first() =~= s.drop_first().push(d));
        lemma_value_push(s.drop_first(), d);
        let v = value(s.drop_first());
        let p = radix_pow((s.len() - 1) as nat);
        assert(radix() * (v + d * p) == radix() * v + d * (radix() * p)) by (nonlinear_arith);
    }
}

/// A suffix of the limbs never stands for more than the whole.
proof fn lemma_value_suffix_le(s: Seq<u32>, j: int)
    requires
        0 <= j <= s.len(),
    ensures
        value(s) >= value(s.subrange(j, s.len() as int)),
    decreases j,
{
    if j == 0 {
        assert(s.subrange(0, s.len() as int) =~= s);
    } else {
        lemma_value_suffix_le(s, j - 1);
        assert(s.subrange(j - 1, s.len() as int).drop_first() =~= s.subrange(j, s.len() as int));
    }
}

/// The limbs of `x`.
pub fn from_u128(x: u128) -> (r: Vec<u32>)
    ensures
        value(r@) == x,
{
    let mut r: Vec<u32> = Vec::new();
    let mut rest: u128 = x;
    while rest > 0
        invariant
            value(r@) + radix_pow(r@.len()) * rest == x,
        decreases rest,
    {
        let d = (rest % 0x1_0000_0000) as u32;
        proof {
            lemma_value_push(r@, d);
            lemma_fundamental_div_mod(rest as int, radix());
            let p = radix_pow(r@.len());
            assert(p * rest == d * p + (p * radix()) * (rest / 0x1_0000_0000)) by (nonlinear_arith)
                requires
                    rest == radix() * (rest / 0x1_0000_0000) + d,
            ;
        }
        r.push(d);
        rest = rest / 0x1_0000_0000;
    }
    r
}

/// The limbs of `value(s) * m`.
pub fn mul_small(s: &Vec<u32>, m: u32) -> (r: Vec<u32>)
    ensures
        value(r@) == value(s@) * m,
{
    let mut out: Vec<u32> = Vec::new();
    let mut carry: u64 = 0;
    let mut i: usize = 0;
    proof {
        assert(s@.subrange(0, s.len() as int) =~= s@);
        assert(value(out@) == 0);
        assert(radix_pow(0) == 1);
    }
    while i < s.len()
        invariant
            i <= s.len(),
            out@.len() == i,
            carry < radix(),
            value(s@) * m == value(out@) + radix_pow(i as nat) * (carry + m * value(
                s@.subrange(i as int, s.len() as int),
            )),
        decreases s.len() - i,
    {
        let limb = s[i];
        assert(limb as u64 * m as u64 + carry <= 0xffff_ffff_0000_0000) by (nonlinear_arith)
            requires
                limb < 0x1_0000_0000,
                m < 0x1_0000_0000,
                carry < 0x1_0000_0000,
        ;
        let t: u64 = limb as u64 * m as u64 + carry;
        let d = (t % 0x1_0000_0000) as u32;
        let c = t / 0x1_0000_0000;
        proof {
            let n = s.len() as int;
            assert(s@.subrange(i as int, n).drop_first() =~= s@.subrange(i + 1, n));
            lemma_value_push(out@, d);
            lemma_fundamental_div_mod(t as int, radix());
            let p = radix_pow(i as nat);
            let rest = value(s@.subrange(i + 1, n));
            assert(p * (carry + m * (limb + radix() * rest)) == d * p + (radix() * p) * (c + m
                * rest)) by (nonlinear_arith)
                requires
                    t == limb * m + carry,
                    t == radix() * c + d,
            ;
        }
        out.push(d);
        carry = c;
        i = i + 1;
    }
    proof {
        assert(s@.subrange(s.len() as int, s.len() as int) =~= Seq::<u32>::empty());
        assert(value(Seq::<u32>::empty()) == 0);
        let p = radix_pow(i as nat);
        assert(p * (carry + m * 0) == carry * p) by (nonlinear_arith);
    }
    if carry > 0 {
        proof {
            lemma_value_push(out@, carry as u32);
        }
        out.push(carry as u32);
    }
    out
}

/// The limbs of `value(s) / d`, rounded down.
pub fn div_small(s: &Vec<u32>, d: u32) -> (r: Vec<u32>)
    requires
        d > 0,
    ensures
        value(r@) == value(s@) / (d as nat),
{
    let n = s.len();
    let mut out: Vec<u32> = Vec::new();
    while out.len() < n
        invariant
            out@.len() <= n,
            forall|k: int| 0 <= k < out@.len() ==> out@[k] == 0,
        decreases n - out.len(),
    {
        out.push(0);
    }
    let mut rem: u64 = 0;
    let mut i: usize = n;
    proof {
        assert(s@.subrange(n as int, n as int) =~= Seq::<u32>::empty());
        assert(out@.subrange(n as int, n as int) =~= Seq::<u32>::empty());
        assert(value(Seq::<u32>::empty()) == 0);
        assert(d * 0 == 0);
    }
    while i > 0
        invariant
            n == s.len(),
            i <= n,
            out@.len() == n,
            rem < d,
            value(s@.subrange(i as int, n as int)) == d * value(out@.subrange(i as int, n as int))
                + rem,
        decreases i,
    {
        i = i - 1;
        let limb = s[i];
        assert(rem * 0x1_0000_0000 + limb < d * 0x1_0000_0000) by (nonlinear_arith)
            requires
                rem < d,
                limb < 0x1_0000_0000,
        ;
        let t: u64 = rem * 0x1_0000_0000 + limb as u64;
        let q = t / d as u64;
        let r = t % d as u64;
        assert(q < 0x1_0000_0000) by (nonlinear_arith)
            requires
                t < d * 0x1_0000_0000,
                q == t / (d as u64),
                d > 0,
        ;
        let ghost old_out = out@;
        out[i] = q as u32;
        proof {
            let hi = old_out.subrange(i + 1, n as int);
            assert(out@.subrange(i + 1, n as int) =~= hi);
            assert(out@.subrange(i as int, n as int).drop_first() =~= hi);
            assert(s@.subrange(i as int, n as int).drop_first() =~= s@.subrange(i + 1, n as int));
            lemma_fundamental_div_mod(t as int, d as int);
            let qs = value(hi);
            assert(limb + radix() * (d * qs + rem) == d * (q + radix() * qs) + r) by (nonlinear_arith)
                requires
                    t == rem * radix() + limb,
                    t == d * q + r,
            ;
        }
        rem = r;
    }
    proof {
        assert(s@.subrange(0, n as int) =~= s@);
        assert(out@.subrange(0, n as int) =~= out@);
        assert(value(s@) == value(out@) * d + rem) by (nonlinear_arith)
            requires
                value(s@) == d * value(out@) + rem,
        ;
        lemma_fundamental_div_mod_converse(value(s@) as int, d as int, value(out@) as int, rem as int);
    }
    out
}

/// `value(s)` as a `u128`, or `None` where it does not fit.
pub fn to_u128(s: &Vec<u32>) -> (r: Option<u128>)
    ensures
        r == (if value(s@) <= u128::MAX {
            Some(value(s@) as u128)
        } else {
            None::<u128>
        }),
{
    let n = s.len();
    let mut acc: u128 = 0;
    let mut i: usize = n;
    proof {
        assert(s@.subrange(n as int, n as int) =~= Seq::<u32>::empty());
    }
    while i > 0
        invariant
            n == s.len(),
            i <= n,
            acc == value(s@.subrange(i as int, n as int)),
        decreases i,
    {
        i = i - 1;
        let limb = s[i];
        proof {
            assert(s@.subrange(i as int, n as int).drop_first() =~= s@.subrange(i + 1, n as int));
        }
        if acc > (u128::MAX - limb as u128) / 0x1_0000_0000 {
            proof {
                let room = (u128::MAX - limb) as int;
                lemma_fundamental_div_mod(room, radix());
                assert(acc * radix() + limb > u128::MAX) by (nonlinear_arith)
                    requires
                        acc >= room / radix() + 1,
                        room == radix() * (room / radix()) + room % radix(),
                        room % radix() < radix(),
                        room == u128::MAX - limb,
                ;
                lemma_value_suffix_le(s@, i as int);
            }
            return None;
        }
        proof {
            let room = (u128::MAX - limb) as int;
            lemma_fundamental_div_mod(room, radix());
            assert(acc * radix() + limb <= u128::MAX) by (nonlinear_arith)
                requires
                    acc <= room / radix(),
                    room == radix() * (room / radix()) + room % radix(),
                    room % radix() >= 0,
                    room == u128::MAX - limb,
            ;
        }
        acc = acc * 0x1_0000_0000 + limb as u128;
    }
    proof {
        assert(s@.subrange(0, n as int) =~= s@);
    }
    Some(acc)
}

} // verus!
