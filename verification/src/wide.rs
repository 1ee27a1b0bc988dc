//! Rounding of quotients to binary64 numbers.
use crate::binary32::{bounded_above, bounded_below, doubled, lower, upper};
use crate::binary64::{Real64, INFINITY_BITS};
use crate::rounding::{nearest, nearest_whole, positive_part, power_of_two};
use vstd::arithmetic::div_mod::lemma_fundamental_div_mod;
use vstd::arithmetic::power2::{
    lemma2_to64, lemma2_to64_rest, lemma_pow2_adds, lemma_pow2_pos, lemma_pow2_strictly_increases,
    lemma_pow2_unfold, pow2,
};
use vstd::prelude::*;

verus! {

/// Whether `num / den * 2^e` is rounded to `m * 2^unit` in binary64: to 53
/// bits, or to fewer where no smaller unit can be had.
pub open spec fn widens_to(num: nat, den: nat, e: int, unit: int, m: nat) -> bool {
    let n = upper(num, e - unit);
    let d = lower(den, e - unit);
    &&& unit >= -1074
    &&& n < 0x20_0000_0000_0000 * d
    &&& unit > -1074 ==> 0x10_0000_0000_0000 * d <= n
    &&& m == nearest(n, d)
}

/// The unit and the significand of `num / den * 2^e` in binary64.
pub open spec fn widened(num: nat, den: nat, e: int) -> (int, nat) {
    choose|v: (int, nat)| #[trigger] widens_to(num, den, e, v.0, v.1)
}

/// The pattern of `num / den * 2^e` in binary64. What is too large becomes
/// infinite.
pub open spec fn pattern_64(num: nat, den: nat, e: int) -> int {
    let v = widened(num, den, e);
    let bits = (v.0 + 1074) * 0x10_0000_0000_0000 + v.1;
    if bits < INFINITY_BITS {
        bits
    } else {
        INFINITY_BITS as int
    }
}

proof fn unit_at_least(num: nat, den: nat, e: int, u1: int, m1: nat, u2: int, m2: nat)
    requires
        widens_to(num, den, e, u1, m1),
        widens_to(num, den, e, u2, m2),
    ensures
        u1 >= u2,
{
    if u1 < u2 {
        bounded_below(num, den, 0x10_0000_0000_0000, e - u2, e - u1);
        assert(2 * 0x10_0000_0000_0000 == 0x20_0000_0000_0000);
    }
}

/// There is one binary64 number only that a quotient is rounded to.
pub proof fn widening_is_unique(num: nat, den: nat, e: int, unit: int, m: nat)
    requires
        widens_to(num, den, e, unit, m),
    ensures
        widened(num, den, e) == (unit, m),
{
    let v = widened(num, den, e);
    let witness = (unit, m);
    assert(widens_to(num, den, e, witness.0, witness.1));
    assert(widens_to(num, den, e, v.0, v.1));
    unit_at_least(num, den, e, unit, m, v.0, v.1);
    unit_at_least(num, den, e, v.0, v.1, unit, m);
}

/// The power of two that brings a quotient to 53 bits.
fn scale_of(num: u128, den: u64) -> (k: i32)
    requires
        0 < num < 0x4000_0000_0000_0000_0000_0000_0000_0000,
        0 < den < 0x20_0000_0000_0000,
    ensures
        -74 <= k <= 105,
        0x10_0000_0000_0000 * lower(den as nat, k as int) <= upper(num as nat, k as int),
        upper(num as nat, k as int) < 0x20_0000_0000_0000 * lower(den as nat, k as int),
{
    let two52: u128 = 0x10_0000_0000_0000;
    let two53: u128 = 0x20_0000_0000_0000;
    let mut n: u128 = num;
    let mut d: u128 = den as u128;
    let mut k: i32 = 0;
    proof {
        lemma2_to64();
        lemma2_to64_rest();
        lemma_pow2_adds(64, 10);
        lemma_pow2_adds(64, 41);
        assert(num * 1 == num) by (nonlinear_arith);
        assert(den * 1 == den) by (nonlinear_arith);
    }
    if n >= two53 * d {
        while n >= two53 * d
            invariant
                two52 == 0x10_0000_0000_0000,
                two53 == 0x20_0000_0000_0000,
                n == num,
                n < 0x4000_0000_0000_0000_0000_0000_0000_0000,
                -74 <= k <= 0,
                n == upper(num as nat, k as int),
                d == lower(den as nat, k as int),
                d >= pow2((-k) as nat),
                d >= 1,
                two52 * d <= n,
                d <= 0x400_0000_0000_0000_0000,
                pow2(74) == 0x400_0000_0000_0000_0000,
            decreases n - d,
        {
            proof {
                doubled(num as nat, den as nat, k - 1);
                lemma_pow2_unfold((-k + 1) as nat);
            }
            d = d * 2;
            k = k - 1;
        }
    } else {
        while n < two52 * d
            invariant
                two52 == 0x10_0000_0000_0000,
                two53 == 0x20_0000_0000_0000,
                d == den,
                d < 0x20_0000_0000_0000,
                num >= 1,
                0 <= k <= 105,
                n == upper(num as nat, k as int),
                d == lower(den as nat, k as int),
                n >= pow2(k as nat),
                n >= 1,
                n < two53 * d,
                pow2(105) == 0x200_0000_0000_0000_0000_0000_0000,
            decreases two53 * d - n,
        {
            proof {
                doubled(num as nat, den as nat, k as int);
                lemma_pow2_unfold((k + 1) as nat);
            }
            n = n * 2;
            k = k + 1;
        }
    }
    k
}

proof fn widened_bounds(n: nat, d: nat)
    requires
        d > 0,
        n < 0x20_0000_0000_0000 * d,
    ensures
        nearest(n, d) <= 0x20_0000_0000_0000,
{
    let q = (n / d) as int;
    lemma_fundamental_div_mod(n as int, d as int);
    assert(q < 0x20_0000_0000_0000) by (nonlinear_arith)
        requires
            n == d * q + n % d,
            0 <= n % d,
            n < 0x20_0000_0000_0000 * d,
            d > 0,
    ;
}

/// `num / den * 2^e`, rounded to a binary64 number.
pub fn widen(num: u128, den: u64, e: i32) -> (out: Real64)
    requires
        0 < num < 0x4000_0000_0000_0000_0000_0000_0000_0000,
        0 < den < 0x20_0000_0000_0000,
        -3000 <= e <= 3000,
        e >= -1074 || num < 0x20_0000_0000_0000,
    ensures
        out.bits == pattern_64(num as nat, den as nat, e as int),
        out.bits <= INFINITY_BITS,
{
    let k: i32 = scale_of(num, den);
    let unit: i32 = if e - k < -1074 {
        -1074
    } else {
        e - k
    };
    let t: i32 = e - unit;
    proof {
        bounded_above(num as nat, den as nat, 0x20_0000_0000_0000, t as int, k as int);
        lemma2_to64();
        lemma2_to64_rest();
        lemma_pow2_adds(64, 8);
    }
    let m: u128 = if t >= 0 {
        let scale: u128 = power_of_two(t as u32);
        assert(den * 1 == den) by (nonlinear_arith);
        nearest_whole(num * scale, den as u128)
    } else if num < 0x20_0000_0000_0000 && t < -72 {
        proof {
            let d = lower(den as nat, t as int);
            let p = pow2((-t) as nat);
            lemma_pow2_strictly_increases(72, (-t) as nat);
            assert(num * 1 == num) by (nonlinear_arith);
            assert(d >= p) by (nonlinear_arith)
                requires
                    d == den * p,
                    den >= 1,
            ;
            assert(num as nat / d == 0 && num as nat % d == num) by (nonlinear_arith)
                requires
                    0 <= num < d,
            ;
        }
        0
    } else {
        let scale: u128 = power_of_two((-t) as u32);
        proof {
            let d = lower(den as nat, t as int);
            assert(num * 1 == num) by (nonlinear_arith);
            if t != k {
                if -t < 72 {
                    lemma_pow2_strictly_increases((-t) as nat, 72);
                }
                assert(d < 0x20_0000_0000_0000 * 0x100_0000_0000_0000_0000) by (nonlinear_arith)
                    requires
                        d == den * scale,
                        den < 0x20_0000_0000_0000,
                        0 < scale <= 0x100_0000_0000_0000_0000,
                ;
            }
            assert(d > 0) by (nonlinear_arith)
                requires
                    d == den * scale,
                    den > 0,
                    scale > 0,
            ;
        }
        nearest_whole(num, den as u128 * scale)
    };
    proof {
        let n = upper(num as nat, t as int);
        let d = lower(den as nat, t as int);
        lemma_pow2_pos(positive_part(-t));
        assert(d > 0) by (nonlinear_arith)
            requires
                d == den * pow2(positive_part(-t)),
                den > 0,
                pow2(positive_part(-t)) > 0,
        ;
        widened_bounds(n, d);
        assert(widens_to(num as nat, den as nat, e as int, unit as int, m as nat));
        widening_is_unique(num as nat, den as nat, e as int, unit as int, m as nat);
    }
    let bits: u128 = (unit + 1074) as u128 * 0x10_0000_0000_0000 + m;
    if bits < INFINITY_BITS as u128 {
        Real64 { bits: bits as u64 }
    } else {
        Real64 { bits: INFINITY_BITS }
    }
}

/// What 53 bits hold is not rounded: `num / den * 2^e` that is `m * 2^unit`.
pub(crate) proof fn exact_widening(num: nat, den: nat, e: int, unit: int, m: nat)
    requires
        den > 0,
        0x10_0000_0000_0000 <= m < 0x20_0000_0000_0000,
        -1074 <= unit,
        upper(num, e - unit) == m * lower(den, e - unit),
    ensures
        widened(num, den, e) == (unit, m),
{
    let t = e - unit;
    let n = upper(num, t);
    let d = lower(den, t);
    lemma_pow2_pos(positive_part(-t));
    let p = pow2(positive_part(-t));
    assert(d > 0) by (nonlinear_arith)
        requires
            d == den * p,
            den > 0,
            p > 0,
    ;
    assert(n / d == m && n % d == 0) by (nonlinear_arith)
        requires
            n == m * d,
            d > 0,
    ;
    assert(0x10_0000_0000_0000 * d <= n && n < 0x20_0000_0000_0000 * d) by (nonlinear_arith)
        requires
            n == m * d,
            0x10_0000_0000_0000 <= m < 0x20_0000_0000_0000,
            d > 0,
    ;
    widening_is_unique(num, den, e, unit, m);
}

} // verus!
