//! Rounding of quotients, of whole numbers and of binary64 numbers to binary32
//! numbers.
use crate::binary64::{
    Real32, Real64, FRACTION_WEIGHT, FRACTION_WEIGHT_32, INFINITY_BITS, INFINITY_BITS_32,
    ONE_BITS_32, SIGN_WEIGHT, SIGN_WEIGHT_32,
};
use crate::rounding::{half_up, nearest, nearest_whole, positive_part, power_of_two, Scaled};
use crate::seconds::parts_of;
use vstd::arithmetic::power2::{
    lemma2_to64, lemma2_to64_rest, lemma_pow2_adds, lemma_pow2_pos, lemma_pow2_strictly_increases,
    lemma_pow2_unfold, pow2,
};
use vstd::prelude::*;

verus! {

/// The significand and the exponent of a number that is neither negative nor
/// infinite.
pub open spec fn parts_of_32(x: Real32) -> (nat, int) {
    let exponent = x.bits as int / 0x80_0000;
    let fraction = x.bits as int % 0x80_0000;
    if exponent == 0 {
        (fraction as nat, -149)
    } else {
        ((fraction + 0x80_0000) as nat, exponent - 150)
    }
}

/// The parts of a positive number.
pub fn parts(x: Real32) -> (out: Scaled)
    requires
        0 < x.bits < INFINITY_BITS_32,
    ensures
        (out.m as nat, out.e as int) == parts_of_32(x),
        0 < out.m < 0x100_0000,
        -149 <= out.e <= 104,
{
    let exponent: u32 = x.bits / FRACTION_WEIGHT_32;
    let fraction: u32 = x.bits % FRACTION_WEIGHT_32;
    if exponent == 0 {
        Scaled { m: fraction as u64, e: -149 }
    } else {
        Scaled { m: (fraction + FRACTION_WEIGHT_32) as u64, e: exponent as i32 - 150 }
    }
}

/// The numerator of `num / den * 2^t`, in whole numbers.
pub open spec fn upper(num: nat, t: int) -> nat {
    num * pow2(positive_part(t))
}

/// The denominator of `num / den * 2^t`, in whole numbers.
pub open spec fn lower(den: nat, t: int) -> nat {
    den * pow2(positive_part(-t))
}

/// Whether `num / den * 2^e` is rounded to `m * 2^unit` in binary32: to 24
/// bits, or to fewer where no smaller unit can be had.
pub open spec fn narrows_to(num: nat, den: nat, e: int, unit: int, m: nat) -> bool {
    let n = upper(num, e - unit);
    let d = lower(den, e - unit);
    &&& unit >= -149
    &&& n < 0x100_0000 * d
    &&& unit > -149 ==> 0x80_0000 * d <= n
    &&& m == nearest(n, d)
}

/// The unit and the significand of `num / den * 2^e` in binary32.
pub open spec fn narrowed(num: nat, den: nat, e: int) -> (int, nat) {
    choose|v: (int, nat)| #[trigger] narrows_to(num, den, e, v.0, v.1)
}

/// The pattern of `num / den * 2^e` in binary32. What is too large becomes
/// infinite.
pub open spec fn pattern_32(num: nat, den: nat, e: int) -> int {
    let v = narrowed(num, den, e);
    let bits = (v.0 + 149) * 0x80_0000 + v.1;
    if bits < INFINITY_BITS_32 {
        bits
    } else {
        INFINITY_BITS_32 as int
    }
}

/// One more power of two.
pub(crate) proof fn doubled(num: nat, den: nat, t: int)
    ensures
        t >= 0 ==> upper(num, t + 1) == 2 * upper(num, t) && lower(den, t + 1) == lower(den, t),
        t < 0 ==> upper(num, t + 1) == upper(num, t) && lower(den, t) == 2 * lower(den, t + 1),
{
    if t >= 0 {
        lemma_pow2_unfold((t + 1) as nat);
        let p = pow2(t as nat) as int;
        assert(num * (2 * p) == 2 * (num * p)) by (nonlinear_arith);
    } else {
        lemma_pow2_unfold((-t) as nat);
        let p = pow2((-t - 1) as nat) as int;
        assert(den * (2 * p) == 2 * (den * p)) by (nonlinear_arith);
    }
}

pub(crate) proof fn bounded_below(num: nat, den: nat, c: nat, t: int, more: int)
    requires
        t <= more,
        c * lower(den, t) <= upper(num, t),
    ensures
        t < more ==> (2 * c) * lower(den, more) <= upper(num, more),
        c * lower(den, more) <= upper(num, more),
    decreases more - t,
{
    if t < more {
        doubled(num, den, t);
        let (r0, r1) = (lower(den, t) as int, lower(den, t + 1) as int);
        let (l0, l1) = (upper(num, t) as int, upper(num, t + 1) as int);
        if t >= 0 {
            assert((2 * c) * r1 <= l1) by (nonlinear_arith)
                requires
                    c * r0 <= l0,
                    r1 == r0,
                    l1 == 2 * l0,
            ;
        } else {
            assert((2 * c) * r1 <= l1) by (nonlinear_arith)
                requires
                    c * r0 <= l0,
                    r0 == 2 * r1,
                    l1 == l0,
            ;
        }
        bounded_below(num, den, 2 * c, t + 1, more);
        let r = lower(den, more) as int;
        assert(c * r <= (2 * c) * r) by (nonlinear_arith)
            requires
                c >= 0,
                r >= 0,
        ;
    }
}

pub(crate) proof fn bounded_above(num: nat, den: nat, c: nat, t: int, more: int)
    requires
        t <= more,
        upper(num, more) < c * lower(den, more),
    ensures
        upper(num, t) < c * lower(den, t),
    decreases more - t,
{
    if t < more {
        bounded_above(num, den, c, t + 1, more);
        doubled(num, den, t);
        let (r0, r1) = (lower(den, t) as int, lower(den, t + 1) as int);
        let (l0, l1) = (upper(num, t) as int, upper(num, t + 1) as int);
        if t >= 0 {
            assert(l0 < c * r0) by (nonlinear_arith)
                requires
                    l1 < c * r1,
                    r1 == r0,
                    l1 == 2 * l0,
                    l0 >= 0,
            ;
        } else {
            assert(l0 < c * r0) by (nonlinear_arith)
                requires
                    l1 < c * r1,
                    r0 == 2 * r1,
                    l1 == l0,
                    r1 >= 0,
                    c >= 0,
            ;
        }
    }
}

proof fn unit_at_least(num: nat, den: nat, e: int, u1: int, m1: nat, u2: int, m2: nat)
    requires
        narrows_to(num, den, e, u1, m1),
        narrows_to(num, den, e, u2, m2),
    ensures
        u1 >= u2,
{
    if u1 < u2 {
        bounded_below(num, den, 0x80_0000, e - u2, e - u1);
        assert(2 * 0x80_0000 == 0x100_0000);
    }
}

/// There is one binary32 number only that a quotient is rounded to.
pub proof fn narrowing_is_unique(num: nat, den: nat, e: int, unit: int, m: nat)
    requires
        narrows_to(num, den, e, unit, m),
    ensures
        narrowed(num, den, e) == (unit, m),
{
    let v = narrowed(num, den, e);
    let witness = (unit, m);
    assert(narrows_to(num, den, e, witness.0, witness.1));
    assert(narrows_to(num, den, e, v.0, v.1));
    unit_at_least(num, den, e, unit, m, v.0, v.1);
    unit_at_least(num, den, e, v.0, v.1, unit, m);
}

/// The power of two that brings a quotient to 24 bits.
fn scale_of(num: u64, den: u64) -> (k: i32)
    requires
        num > 0,
        0 < den < 0x100_0000,
    ensures
        -40 <= k <= 47,
        0x80_0000 * lower(den as nat, k as int) <= upper(num as nat, k as int),
        upper(num as nat, k as int) < 0x100_0000 * lower(den as nat, k as int),
{
    let mut n: u128 = num as u128;
    let mut d: u128 = den as u128;
    let mut k: i32 = 0;
    proof {
        lemma2_to64();
        lemma2_to64_rest();
        assert(num * 1 == num) by (nonlinear_arith);
        assert(den * 1 == den) by (nonlinear_arith);
    }
    if n >= 0x100_0000 * d {
        while n >= 0x100_0000 * d
            invariant
                n == num,
                n <= u64::MAX,
                -40 <= k <= 0,
                n == upper(num as nat, k as int),
                d == lower(den as nat, k as int),
                d >= pow2((-k) as nat),
                d >= 1,
                0x80_0000 * d <= n,
                d <= 0x1_0000_0000_0000_0000,
                pow2(40) == 0x100_0000_0000,
            decreases n - d,
        {
            proof {
                doubled(num as nat, den as nat, k - 1);
                lemma_pow2_unfold((-k + 1) as nat);
            }
            d = d * 2;
            k = k - 1;
        }
    } else {
        while n < 0x80_0000 * d
            invariant
                d == den,
                d < 0x100_0000,
                num >= 1,
                0 <= k <= 47,
                n == upper(num as nat, k as int),
                d == lower(den as nat, k as int),
                n >= pow2(k as nat),
                n >= 1,
                n < 0x100_0000 * d,
                pow2(47) == 0x8000_0000_0000,
            decreases 0x100_0000 * d - n,
        {
            proof {
                doubled(num as nat, den as nat, k as int);
                lemma_pow2_unfold((k + 1) as nat);
            }
            n = n * 2;
            k = k + 1;
        }
    }
    k
}

/// Rounds `num / den * 2^e` to the nearest binary32 number.
pub fn narrow(num: u64, den: u64, e: i32) -> (out: Real32)
    requires
        num > 0,
        0 < den < 0x100_0000,
        -1200 <= e <= 1200,
    ensures
        out.bits == pattern_32(num as nat, den as nat, e as int),
        out.bits <= INFINITY_BITS_32,
        e >= -100 ==> out.bits > 0,
        e <= 50 ==> out.bits < INFINITY_BITS_32,
{
    let k: i32 = scale_of(num, den);
    let unit: i32 = if e - k < -149 {
        -149
    } else {
        e - k
    };
    let t: i32 = e - unit;
    proof {
        bounded_above(num as nat, den as nat, 0x100_0000, t as int, k as int);
        lemma2_to64();
        lemma2_to64_rest();
    }
    let m: u128 = if t >= 0 {
        let scale: u128 = power_of_two(t as u32);
        proof {
            if t < 47 {
                lemma_pow2_strictly_increases(t as nat, 47);
            }
            assert(num * scale <= 0xffff_ffff_ffff_ffff * 0x8000_0000_0000) by (nonlinear_arith)
                requires
                    0 <= num <= 0xffff_ffff_ffff_ffff,
                    0 <= scale <= 0x8000_0000_0000,
            ;
            assert(den * 1 == den) by (nonlinear_arith);
        }
        nearest_whole(num as u128 * scale, den as u128)
    } else if t < -90 {
        proof {
            let n = upper(num as nat, t as int);
            let d = lower(den as nat, t as int);
            let p = pow2((-t) as nat);
            lemma_pow2_adds(64, 26);
            lemma_pow2_strictly_increases(90, (-t) as nat);
            assert(num * 1 == num) by (nonlinear_arith);
            assert(d >= 0x4_0000_0000_0000_0000) by (nonlinear_arith)
                requires
                    d == den * p,
                    den >= 1,
                    p >= 0x4_0000_0000_0000_0000,
            ;
            assert(n / d == 0 && n % d == n) by (nonlinear_arith)
                requires
                    0 <= n < d,
            ;
        }
        0
    } else {
        let scale: u128 = power_of_two((-t) as u32);
        proof {
            lemma_pow2_adds(64, 26);
            if -t < 90 {
                lemma_pow2_strictly_increases((-t) as nat, 90);
            }
            assert(den * scale < 0x100_0000 * 0x400_0000_0000_0000_0000_0000) by (nonlinear_arith)
                requires
                    0 <= den < 0x100_0000,
                    0 < scale <= 0x400_0000_0000_0000_0000_0000,
            ;
            assert(den * scale > 0) by (nonlinear_arith)
                requires
                    den > 0,
                    scale > 0,
            ;
            assert(num * 1 == num) by (nonlinear_arith);
        }
        nearest_whole(num as u128, den as u128 * scale)
    };
    proof {
        let n = upper(num as nat, t as int);
        let d = lower(den as nat, t as int);
        lemma_pow2_pos(positive_part(-t));
        assert(d > 0) by (nonlinear_arith)
            requires
                d == den * pow2(positive_part(-t)),
                den > 0,
                pow2(positive_part(-t)) > 0,
        ;
        narrowed_bounds(n, d);
        assert(narrows_to(num as nat, den as nat, e as int, unit as int, m as nat));
        narrowing_is_unique(num as nat, den as nat, e as int, unit as int, m as nat);
    }
    let bits: u64 = (unit + 149) as u64 * FRACTION_WEIGHT_32 as u64 + m as u64;
    if bits < INFINITY_BITS_32 as u64 {
        Real32 { bits: bits as u32 }
    } else {
        Real32 { bits: INFINITY_BITS_32 }
    }
}

/// A quotient of at most 24 bits is rounded to at most 2^24.
proof fn narrowed_bounds(n: nat, d: nat)
    requires
        d > 0,
        n < 0x100_0000 * d,
    ensures
        nearest(n, d) <= 0x100_0000,
        0x80_0000 * d <= n ==> nearest(n, d) >= 0x80_0000,
{
    let q = (n / d) as int;
    vstd::arithmetic::div_mod::lemma_fundamental_div_mod(n as int, d as int);
    assert(q < 0x100_0000) by (nonlinear_arith)
        requires
            n == d * q + n % d,
            0 <= n % d < d,
            n < 0x100_0000 * d,
            d > 0,
    ;
    if 0x80_0000 * d <= n {
        assert(q >= 0x80_0000) by (nonlinear_arith)
            requires
                n == d * q + n % d,
                0 <= n % d < d,
                0x80_0000 * d <= n,
                d > 0,
        ;
    }
}

/// A whole number in binary32.
pub open spec fn whole_32(n: nat) -> Real32 {
    if n == 0 {
        Real32 { bits: 0 }
    } else {
        Real32 { bits: pattern_32(n, 1, 0) as u32 }
    }
}

pub fn from_whole(n: u64) -> (out: Real32)
    ensures
        out == whole_32(n as nat),
        out.bits < INFINITY_BITS_32,
        n > 0 ==> out.bits > 0,
{
    if n == 0 {
        Real32 { bits: 0 }
    } else {
        narrow(n, 1, 0)
    }
}

/// What arithmetic gives where it has no result.
pub const NAN_BITS_32: u32 = 0x7fc0_0000;

/// The nearest whole number to a number, a half away from zero, but no more
/// than `most`. Numbers below zero and what is no number count as zero.
pub open spec fn whole_near(x: Real32, most: nat) -> nat {
    let near = half_up(parts_of_32(x).0, parts_of_32(x).1);
    if x.is_nan() || x.bits == 0 || x.bits >= SIGN_WEIGHT_32 {
        0
    } else if x.bits < INFINITY_BITS_32 && near < most {
        near
    } else {
        most
    }
}

pub fn rounded_at_most(x: Real32, most: u64) -> (out: u64)
    ensures
        out == whole_near(x, most as nat),
        out <= most,
{
    if x.bits == 0 || x.bits > INFINITY_BITS_32 {
        return 0;
    }
    if x.bits >= INFINITY_BITS_32 {
        return most;
    }
    let v = parts(x);
    proof {
        lemma2_to64();
        lemma2_to64_rest();
    }
    if v.e > 40 {
        proof {
            let p = pow2(v.e as nat);
            lemma_pow2_strictly_increases(40, v.e as nat);
            lemma_pow2_unfold(41);
            if v.e > 41 {
                lemma_pow2_strictly_increases(41, v.e as nat);
            }
            assert(v.m * p >= 0x80_0000 * 0x200_0000_0000) by (nonlinear_arith)
                requires
                    v.m >= 0x80_0000,
                    p >= 0x200_0000_0000,
            ;
        }
        most
    } else if v.e >= 0 {
        let scale: u128 = power_of_two(v.e as u32);
        proof {
            if v.e < 40 {
                lemma_pow2_strictly_increases(v.e as nat, 40);
            }
            assert(v.m * scale <= 0x100_0000 * 0x100_0000_0000) by (nonlinear_arith)
                requires
                    0 <= v.m <= 0x100_0000,
                    0 <= scale <= 0x100_0000_0000,
            ;
        }
        let near: u128 = v.m as u128 * scale;
        if near < most as u128 {
            near as u64
        } else {
            most
        }
    } else if v.e < -25 {
        proof {
            let p = pow2((-v.e) as nat) as int;
            lemma_pow2_strictly_increases(25, (-v.e) as nat);
            assert((2 * v.m + p) / (2 * p) == 0) by (nonlinear_arith)
                requires
                    0 <= 2 * v.m < p,
            ;
        }
        0
    } else {
        let scale: u128 = power_of_two((-v.e) as u32);
        proof {
            if -v.e < 25 {
                lemma_pow2_strictly_increases((-v.e) as nat, 25);
            }
        }
        let near: u128 = (2 * v.m as u128 + scale) / (2 * scale);
        proof {
            let top = 2 * v.m + scale;
            assert(near <= top) by (nonlinear_arith)
                requires
                    near == top / (2 * scale),
                    scale >= 1,
                    top >= 0,
            ;
        }
        if near < most as u128 {
            near as u64
        } else {
            most
        }
    }
}

/// The pattern of a half.
pub const HALF_BITS_32: u32 = 0x3f00_0000;

/// The magnitude of a binary64 number in binary32.
pub open spec fn magnitude_32(x: Real64) -> int {
    let magnitude = Real64 { bits: x.magnitude() as u64 };
    if x.magnitude() == 0 {
        0
    } else if x.magnitude() >= INFINITY_BITS {
        INFINITY_BITS_32 as int
    } else {
        pattern_32(parts_of(magnitude).0, 1, parts_of(magnitude).1)
    }
}

/// A binary64 number in binary32.
pub open spec fn in_32(x: Real64) -> Real32 {
    if x.bits >= SIGN_WEIGHT {
        Real32 { bits: (SIGN_WEIGHT_32 + magnitude_32(x)) as u32 }
    } else {
        Real32 { bits: magnitude_32(x) as u32 }
    }
}

/// The nearest binary32 number. What is no number stays none.
pub fn from_real64(x: Real64) -> (out: Real32)
    ensures
        !x.is_nan() ==> out == in_32(x),
        x.is_nan() ==> out.is_nan(),
{
    let negative: bool = x.bits >= SIGN_WEIGHT;
    let magnitude: u64 = if negative {
        x.bits - SIGN_WEIGHT
    } else {
        x.bits
    };
    if magnitude > INFINITY_BITS {
        return Real32 { bits: 0x7fc0_0000 };
    }
    let bits: u32 = if magnitude == 0 {
        0
    } else if magnitude == INFINITY_BITS {
        INFINITY_BITS_32
    } else {
        let exponent: u64 = magnitude / FRACTION_WEIGHT;
        let fraction: u64 = magnitude % FRACTION_WEIGHT;
        if exponent == 0 {
            narrow(fraction, 1, -1074).bits
        } else {
            narrow(fraction + FRACTION_WEIGHT, 1, exponent as i32 - 1075).bits
        }
    };
    if negative {
        Real32 { bits: SIGN_WEIGHT_32 + bits }
    } else {
        Real32 { bits }
    }
}

// ---------------------------------------------------------------------------
// Laws
// ---------------------------------------------------------------------------
/// What 24 bits hold is not rounded: `num / den * 2^e` that is `m * 2^unit`.
pub(crate) proof fn exact_narrowing(num: nat, den: nat, e: int, unit: int, m: nat)
    requires
        den > 0,
        0x80_0000 <= m < 0x100_0000,
        -149 <= unit,
        upper(num, e - unit) == m * lower(den, e - unit),
    ensures
        narrowed(num, den, e) == (unit, m),
{
    let t = e - unit;
    let n = upper(num, t);
    let d = lower(den, t);
    lemma_pow2_pos(positive_part(-t));
    let p = pow2(positive_part(-t));
    assert(d > 0) by (nonlinear_arith)
        requires
            d == den * p,
            den > 0,
            p > 0,
    ;
    assert(n / d == m && n % d == 0) by (nonlinear_arith)
        requires
            n == m * d,
            d > 0,
    ;
    assert(0x80_0000 * d <= n && n < 0x100_0000 * d) by (nonlinear_arith)
        requires
            n == m * d,
            0x80_0000 <= m < 0x100_0000,
            d > 0,
    ;
    narrowing_is_unique(num, den, e, unit, m);
}

/// A whole number is moved up to 24 bits.
pub(crate) proof fn bits_to_24(n: nat) -> (k: nat)
    requires
        0 < n < 0x100_0000,
    ensures
        k <= 23,
        0x80_0000 <= n * pow2(k) < 0x100_0000,
    decreases 0x100_0000 - n,
{
    lemma2_to64();
    if n >= 0x80_0000 {
        assert(n * 1 == n) by (nonlinear_arith);
        0
    } else {
        let below = bits_to_24(2 * n);
        let p = pow2(below) as int;
        lemma_pow2_unfold(below + 1);
        assert(n * (2 * p) == (2 * n) * p) by (nonlinear_arith);
        if below == 23 {
            assert((2 * n) * p >= 2 * p) by (nonlinear_arith)
                requires
                    n >= 1,
                    p >= 0,
            ;
            assert(p == 0x80_0000);
        }
        below + 1
    }
}

/// A whole number of 24 bits is held as it is: as `n * 2^k` times `2^-k`.
pub(crate) proof fn whole_32_parts(n: nat, k: nat)
    requires
        0 < n < 0x100_0000,
        k <= 23,
        0x80_0000 <= n * pow2(k) < 0x100_0000,
    ensures
        whole_32(n).bits == (149 - k) * 0x80_0000 + n * pow2(k),
        0 < whole_32(n).bits < INFINITY_BITS_32,
        parts_of_32(whole_32(n)) == ((n * pow2(k)) as nat, -(k as int)),
{
    lemma2_to64();
    let m = (n * pow2(k)) as nat;
    assert(positive_part(k as int) == k && positive_part(-(k as int)) == 0);
    assert(m * (1 * pow2(0)) == m) by (nonlinear_arith)
        requires
            pow2(0) == 1,
    ;
    exact_narrowing(n, 1, 0, -(k as int), m);
    let bits = (149 - k) * 0x80_0000 + m;
    assert(bits / 0x80_0000 == 150 - k && bits % 0x80_0000 == m - 0x80_0000);
}

/// Whole numbers of 24 bits are told apart and ordered in binary32 as they are.
pub proof fn whole_numbers_keep_order_32(a: nat, b: nat)
    requires
        a < 0x100_0000,
        b < 0x100_0000,
    ensures
        whole_32(a).lt(whole_32(b)) <==> a < b,
        whole_32(a).le(whole_32(b)) <==> a <= b,
        whole_32(1).bits == ONE_BITS_32,
        whole_32(100).bits == 0x42c8_0000,
{
    lemma2_to64();
    whole_32_parts(1, 23);
    whole_32_parts(100, 17);
    if a > 0 {
        let i = bits_to_24(a);
        whole_32_parts(a, i);
    }
    if b > 0 {
        let j = bits_to_24(b);
        whole_32_parts(b, j);
    }
    if a > 0 && b > 0 {
        if a < b {
            lower_is_below(a, b);
        } else if b < a {
            lower_is_below(b, a);
        }
    }
}

proof fn lower_is_below(a: nat, b: nat)
    requires
        0 < a < b < 0x100_0000,
    ensures
        whole_32(a).bits < whole_32(b).bits,
{
    let i = bits_to_24(a);
    let j = bits_to_24(b);
    whole_32_parts(a, i);
    whole_32_parts(b, j);
    if i == j {
        let p = pow2(i) as int;
        lemma_pow2_pos(i);
        assert(a * p < b * p) by (nonlinear_arith)
            requires
                a < b,
                p > 0,
        ;
    } else if i < j {
        let g = (j - i) as nat;
        lemma_pow2_adds(i, g);
        lemma_pow2_unfold(g);
        lemma_pow2_pos((g - 1) as nat);
        let (pi, pg) = (pow2(i) as int, pow2(g) as int);
        assert(b * (pi * pg) >= 2 * (a * pi)) by (nonlinear_arith)
            requires
                a <= b,
                pg >= 2,
                pi >= 0,
                a >= 0,
        ;
    }
}

} // verus!
