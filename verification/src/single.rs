//! Differences, quotients and square roots of binary32 numbers.
use crate::binary32::{
    bits_to_24, exact_narrowing, narrow, narrowing_is_unique, narrows_to, parts, parts_of_32,
    pattern_32, whole_32, whole_32_parts, NAN_BITS_32,
};
use crate::binary64::{Real32, INFINITY_BITS_32, SIGN_WEIGHT_32};
use crate::rounding::power_of_two;
use vstd::arithmetic::div_mod::lemma_fundamental_div_mod_converse;
use vstd::arithmetic::power2::{
    lemma2_to64, lemma2_to64_rest, lemma_pow2_adds, lemma_pow2_pos,
    lemma_pow2_strictly_increases, lemma_pow2_unfold, pow2,
};
use vstd::prelude::*;

verus! {

pub open spec fn is_negative(x: Real32) -> bool {
    x.bits >= SIGN_WEIGHT_32
}

/// A number without its sign.
pub open spec fn unsigned(x: Real32) -> Real32 {
    Real32 { bits: x.magnitude() as u32 }
}

pub open spec fn is_infinite(x: Real32) -> bool {
    x.magnitude() == INFINITY_BITS_32
}

/// A number by its sign and the pattern of its magnitude.
pub open spec fn signed(negative: bool, magnitude: int) -> Real32 {
    Real32 {
        bits: (magnitude + if negative {
            SIGN_WEIGHT_32 as int
        } else {
            0
        }) as u32,
    }
}

fn with_sign(negative: bool, magnitude: u32) -> (out: Real32)
    requires
        magnitude < SIGN_WEIGHT_32,
    ensures
        out == signed(negative, magnitude as int),
{
    if negative {
        Real32 { bits: magnitude + SIGN_WEIGHT_32 }
    } else {
        Real32 { bits: magnitude }
    }
}

/// A number without its sign.
pub fn absolute(x: Real32) -> (out: Real32)
    ensures
        out == unsigned(x),
        out.bits == x.magnitude(),
        out.bits < SIGN_WEIGHT_32,
{
    if x.bits >= SIGN_WEIGHT_32 {
        Real32 { bits: x.bits - SIGN_WEIGHT_32 }
    } else {
        x
    }
}

/// The smaller one of two exponents.
pub open spec fn lower_exponent(a: Real32, b: Real32) -> int {
    let (x, y) = (parts_of_32(unsigned(a)), parts_of_32(unsigned(b)));
    if x.1 <= y.1 {
        x.1
    } else {
        y.1
    }
}

/// `a - b` in units of two to the lower one of their exponents.
pub open spec fn units_between(a: Real32, b: Real32) -> int {
    let (x, y) = (parts_of_32(unsigned(a)), parts_of_32(unsigned(b)));
    let e = lower_exponent(a, b);
    let u = x.0 * pow2((x.1 - e) as nat);
    let v = y.0 * pow2((y.1 - e) as nat);
    (if is_negative(a) {
        -u
    } else {
        u as int
    }) - (if is_negative(b) {
        -v
    } else {
        v as int
    })
}

/// `a - b`.
pub open spec fn minus_of(a: Real32, b: Real32) -> Real32 {
    if a.is_nan() || b.is_nan() || (is_infinite(a) && is_infinite(b) && is_negative(a)
        == is_negative(b)) {
        Real32 { bits: NAN_BITS_32 }
    } else if is_infinite(a) {
        a
    } else if a.magnitude() == 0 && b.magnitude() == 0 {
        signed(is_negative(a) && !is_negative(b), 0)
    } else if is_infinite(b) || a.magnitude() == 0 {
        signed(!is_negative(b), b.magnitude())
    } else if b.magnitude() == 0 {
        a
    } else {
        let n = units_between(a, b);
        if n == 0 {
            Real32 { bits: 0 }
        } else if n < 0 {
            signed(true, pattern_32((-n) as nat, 1, lower_exponent(a, b)))
        } else {
            signed(false, pattern_32(n as nat, 1, lower_exponent(a, b)))
        }
    }
}

/// A number that is tiny next to another one is lost in their sum and in their
/// difference.
proof fn tiny_is_lost(big: Real32, m: nat, e: int, less: bool)
    requires
        0 < big.bits < INFINITY_BITS_32,
        m < 0x100_0000,
        -149 <= e,
        parts_of_32(big).1 - e > 38,
    ensures
        ({
            let x = parts_of_32(big);
            let d = pow2((x.1 - e) as nat);
            let n = if less {
                x.0 * d - m
            } else {
                (x.0 * d + m) as int
            };
            n > 0 && pattern_32(n as nat, 1, e) == big.bits
        }),
{
    let x = parts_of_32(big);
    let g = (x.1 - e) as nat;
    let d = pow2(g);
    let h = pow2((g - 1) as nat);
    lemma2_to64();
    lemma2_to64_rest();
    lemma_pow2_unfold(g);
    lemma_pow2_strictly_increases(38, g);
    let two23: nat = 0x80_0000;
    let two24: nat = 0x100_0000;
    assert(x.0 * d >= two23 * d) by (nonlinear_arith)
        requires
            x.0 >= two23,
    ;
    assert(1 * d == d && 1 * h == h) by (nonlinear_arith);
    if !less || m == 0 {
        let n = (x.0 * d + m) as nat;
        assert((x.0 + 1) * d == x.0 * d + d) by (nonlinear_arith);
        assert((x.0 + 1) * d <= two24 * d) by (nonlinear_arith)
            requires
                x.0 + 1 <= two24,
        ;
        assert(n * 1 == n) by (nonlinear_arith);
        lemma_fundamental_div_mod_converse(n as int, d as int, x.0 as int, m as int);
        assert(narrows_to(n, 1, e, x.1, x.0));
        narrowing_is_unique(n, 1, e, x.1, x.0);
    } else if x.0 == two23 {
        let n = (x.0 * d - m) as nat;
        assert(n == two24 * h - m) by (nonlinear_arith)
            requires
                n == two23 * d - m,
                d == 2 * h,
                two24 == 2 * two23,
        ;
        assert((two24 - 1) * h == two24 * h - h) by (nonlinear_arith);
        assert((two24 - 1) * h >= two23 * h) by (nonlinear_arith)
            requires
                two24 - 1 >= two23,
        ;
        assert(n * 1 == n) by (nonlinear_arith);
        lemma_fundamental_div_mod_converse(n as int, h as int, two24 - 1, h - m);
        assert(narrows_to(n, 1, e, x.1 - 1, two24));
        narrowing_is_unique(n, 1, e, x.1 - 1, two24);
    } else {
        let n = (x.0 * d - m) as nat;
        assert((x.0 - 1) * d == x.0 * d - d) by (nonlinear_arith);
        assert((x.0 - 1) * d >= two23 * d) by (nonlinear_arith)
            requires
                x.0 - 1 >= two23,
        ;
        assert(x.0 * d <= two24 * d) by (nonlinear_arith)
            requires
                x.0 <= two24,
        ;
        assert(n * 1 == n) by (nonlinear_arith);
        lemma_fundamental_div_mod_converse(n as int, d as int, x.0 - 1, d - m);
        assert(narrows_to(n, 1, e, x.1, x.0));
        narrowing_is_unique(n, 1, e, x.1, x.0);
    }
}

proof fn scaled_fits(m: u64, g: nat, scale: u128)
    requires
        0 < m < 0x100_0000,
        g <= 38,
        scale == pow2(g),
    ensures
        0 < m * scale <= 0x4000_0000_0000_0000,
{
    lemma2_to64();
    lemma2_to64_rest();
    lemma_pow2_pos(g);
    if g < 38 {
        lemma_pow2_strictly_increases(g, 38);
    }
    assert(0 < m * scale <= 0x100_0000 * 0x40_0000_0000) by (nonlinear_arith)
        requires
            0 < m <= 0x100_0000,
            0 < scale <= 0x40_0000_0000,
    ;
}

pub fn minus(a: Real32, b: Real32) -> (out: Real32)
    ensures
        out == minus_of(a, b),
{
    let (u, v) = (absolute(a), absolute(b));
    let (a_negative, b_negative) = (a.bits >= SIGN_WEIGHT_32, b.bits >= SIGN_WEIGHT_32);
    if u.bits > INFINITY_BITS_32 || v.bits > INFINITY_BITS_32 || (u.bits == INFINITY_BITS_32
        && v.bits == INFINITY_BITS_32 && a_negative == b_negative) {
        return Real32 { bits: NAN_BITS_32 };
    }
    if u.bits == INFINITY_BITS_32 {
        return a;
    }
    if u.bits == 0 && v.bits == 0 {
        return with_sign(a_negative && !b_negative, 0);
    }
    if v.bits == INFINITY_BITS_32 || u.bits == 0 {
        return with_sign(!b_negative, v.bits);
    }
    if v.bits == 0 {
        return a;
    }
    let x = parts(u);
    let y = parts(v);
    proof {
        lemma2_to64();
        assert(x.m * 1 == x.m && y.m * 1 == y.m) by (nonlinear_arith);
    }
    if x.e - y.e > 38 {
        proof {
            tiny_is_lost(u, y.m as nat, y.e as int, a_negative == b_negative);
        }
        return a;
    }
    if y.e - x.e > 38 {
        proof {
            tiny_is_lost(v, x.m as nat, x.e as int, a_negative == b_negative);
        }
        return with_sign(!b_negative, v.bits);
    }
    let e: i32 = if x.e <= y.e {
        x.e
    } else {
        y.e
    };
    let scale_a: u128 = power_of_two((x.e - e) as u32);
    let scale_b: u128 = power_of_two((y.e - e) as u32);
    proof {
        scaled_fits(x.m, (x.e - e) as nat, scale_a);
        scaled_fits(y.m, (y.e - e) as nat, scale_b);
    }
    let left: u64 = (x.m as u128 * scale_a) as u64;
    let right: u64 = (y.m as u128 * scale_b) as u64;
    if a_negative != b_negative {
        with_sign(a_negative, narrow(left + right, 1, e).bits)
    } else if left == right {
        Real32 { bits: 0 }
    } else if left > right {
        with_sign(a_negative, narrow(left - right, 1, e).bits)
    } else {
        with_sign(!a_negative, narrow(right - left, 1, e).bits)
    }
}

/// `a / b`.
pub open spec fn quotient_of(a: Real32, b: Real32) -> Real32 {
    let negative = is_negative(a) != is_negative(b);
    if a.is_nan() || b.is_nan() || (is_infinite(a) && is_infinite(b)) || (a.magnitude() == 0
        && b.magnitude() == 0) {
        Real32 { bits: NAN_BITS_32 }
    } else if is_infinite(a) || b.magnitude() == 0 {
        signed(negative, INFINITY_BITS_32 as int)
    } else if is_infinite(b) || a.magnitude() == 0 {
        signed(negative, 0)
    } else {
        let (x, y) = (parts_of_32(unsigned(a)), parts_of_32(unsigned(b)));
        signed(negative, pattern_32(x.0, y.0, x.1 - y.1))
    }
}

pub fn quotient(a: Real32, b: Real32) -> (out: Real32)
    ensures
        out == quotient_of(a, b),
{
    let (u, v) = (absolute(a), absolute(b));
    let negative: bool = (a.bits >= SIGN_WEIGHT_32) != (b.bits >= SIGN_WEIGHT_32);
    if u.bits > INFINITY_BITS_32 || v.bits > INFINITY_BITS_32 || (u.bits == INFINITY_BITS_32
        && v.bits == INFINITY_BITS_32) || (u.bits == 0 && v.bits == 0) {
        return Real32 { bits: NAN_BITS_32 };
    }
    if u.bits == INFINITY_BITS_32 || v.bits == 0 {
        return with_sign(negative, INFINITY_BITS_32);
    }
    if v.bits == INFINITY_BITS_32 || u.bits == 0 {
        return with_sign(negative, 0);
    }
    let x = parts(u);
    let y = parts(v);
    with_sign(negative, narrow(x.m, y.m, x.e - y.e).bits)
}

/// A number with the other sign.
pub open spec fn opposite(x: Real32) -> Real32 {
    signed(!is_negative(x), x.magnitude())
}

pub fn negated(x: Real32) -> (out: Real32)
    ensures
        out == opposite(x),
{
    let magnitude = absolute(x);
    with_sign(x.bits < SIGN_WEIGHT_32, magnitude.bits)
}

/// `a + b`.
pub open spec fn plus_of(a: Real32, b: Real32) -> Real32 {
    minus_of(a, opposite(b))
}

pub fn plus(a: Real32, b: Real32) -> (out: Real32)
    ensures
        out == plus_of(a, b),
{
    minus(a, negated(b))
}

/// `a * b`.
pub open spec fn times_of(a: Real32, b: Real32) -> Real32 {
    let negative = is_negative(a) != is_negative(b);
    let infinite = is_infinite(a) || is_infinite(b);
    let zero = a.magnitude() == 0 || b.magnitude() == 0;
    if a.is_nan() || b.is_nan() || (infinite && zero) {
        Real32 { bits: NAN_BITS_32 }
    } else if infinite {
        signed(negative, INFINITY_BITS_32 as int)
    } else if zero {
        signed(negative, 0)
    } else {
        let (x, y) = (parts_of_32(unsigned(a)), parts_of_32(unsigned(b)));
        signed(negative, pattern_32(x.0 * y.0, 1, x.1 + y.1))
    }
}

pub fn times(a: Real32, b: Real32) -> (out: Real32)
    ensures
        out == times_of(a, b),
{
    let (u, v) = (absolute(a), absolute(b));
    let negative: bool = (a.bits >= SIGN_WEIGHT_32) != (b.bits >= SIGN_WEIGHT_32);
    let infinite: bool = u.bits == INFINITY_BITS_32 || v.bits == INFINITY_BITS_32;
    let zero: bool = u.bits == 0 || v.bits == 0;
    if u.bits > INFINITY_BITS_32 || v.bits > INFINITY_BITS_32 || (infinite && zero) {
        Real32 { bits: NAN_BITS_32 }
    } else if infinite {
        with_sign(negative, INFINITY_BITS_32)
    } else if zero {
        with_sign(negative, 0)
    } else {
        let x = parts(u);
        let y = parts(v);
        proof {
            assert(0 < x.m * y.m < 0x100_0000 * 0x100_0000) by (nonlinear_arith)
                requires
                    0 < x.m < 0x100_0000,
                    0 < y.m < 0x100_0000,
            ;
        }
        with_sign(negative, narrow(x.m * y.m, 1, x.e + y.e).bits)
    }
}

/// Whether `m` is the whole number that is nearest to the square root of `n`.
/// The root of a whole number is never in the middle between two.
pub open spec fn is_nearest_root(n: nat, m: nat) -> bool {
    (m == 0 || (2 * m - 1) * (2 * m - 1) < 4 * n) && 4 * n < (2 * m + 1) * (2 * m + 1)
}

/// There is one nearest root only.
pub proof fn nearest_root_is_unique(n: nat, a: nat, b: nat)
    requires
        is_nearest_root(n, a),
        is_nearest_root(n, b),
    ensures
        a == b,
{
    if a < b {
        assert((2 * a + 1) * (2 * a + 1) <= (2 * b - 1) * (2 * b - 1)) by (nonlinear_arith)
            requires
                0 <= a < b,
        ;
    } else if b < a {
        assert((2 * b + 1) * (2 * b + 1) <= (2 * a - 1) * (2 * a - 1)) by (nonlinear_arith)
            requires
                0 <= b < a,
        ;
    }
}

pub open spec fn nearest_root(n: nat) -> nat {
    choose|m: nat| is_nearest_root(n, m)
}

fn root(n: u64) -> (out: u64)
    requires
        n < 0x1_0000_0000_0000,
    ensures
        out == nearest_root(n as nat),
        out <= 0x100_0000,
{
    let mut low: u64 = 0;
    let mut high: u64 = 0x100_0000;
    while high - low > 1
        invariant
            low < high <= 0x100_0000,
            low * low <= n,
            n < high * high,
        decreases high - low,
    {
        let mid: u64 = low + (high - low) / 2;
        proof {
            assert(mid * mid <= 0x100_0000 * 0x100_0000) by (nonlinear_arith)
                requires
                    0 <= mid <= 0x100_0000,
            ;
        }
        if mid * mid <= n {
            low = mid;
        } else {
            high = mid;
        }
    }
    proof {
        assert(low * low <= 0x100_0000 * 0x100_0000) by (nonlinear_arith)
            requires
                0 <= low <= 0x100_0000,
        ;
        assert(high == low + 1);
        assert(high * high == low * low + 2 * low + 1) by (nonlinear_arith)
            requires
                high == low + 1,
        ;
    }
    let out: u64 = if n - low * low <= low {
        low
    } else {
        low + 1
    };
    proof {
        assert((2 * low + 1) * (2 * low + 1) == 4 * (low * low) + 4 * low + 1) by (nonlinear_arith);
        assert((2 * low - 1) * (2 * low - 1) == 4 * (low * low) - 4 * low + 1) by (nonlinear_arith);
        assert((2 * low + 3) * (2 * low + 3) == 4 * (low * low) + 12 * low + 9)
            by (nonlinear_arith);
        assert(is_nearest_root(n as nat, out as nat));
        nearest_root_is_unique(n as nat, out as nat, nearest_root(n as nat));
    }
    out
}

/// `m * 2^e` with an even exponent, and with a significand of 47 or 48 bits.
pub open spec fn for_root(m: nat, e: int) -> (nat, int)
    decreases 0x1_0000_0000_0000 - m,
{
    if m == 0 || m >= 0x8000_0000_0000 || (m >= 0x4000_0000_0000 && e % 2 == 0) {
        (m, e)
    } else {
        for_root(2 * m, e - 1)
    }
}

/// The square root of a number. Numbers below zero have none.
pub open spec fn square_root_of(x: Real32) -> Real32 {
    if x.magnitude() == 0 {
        x
    } else if x.is_nan() || is_negative(x) {
        Real32 { bits: NAN_BITS_32 }
    } else if is_infinite(x) {
        x
    } else {
        let v = for_root(parts_of_32(x).0, parts_of_32(x).1);
        Real32 { bits: ((v.1 / 2 + 149) * 0x80_0000 + nearest_root(v.0)) as u32 }
    }
}

pub fn square_root(x: Real32) -> (out: Real32)
    ensures
        out == square_root_of(x),
{
    let magnitude = absolute(x);
    if magnitude.bits == 0 {
        return x;
    }
    if magnitude.bits > INFINITY_BITS_32 || x.bits >= SIGN_WEIGHT_32 {
        return Real32 { bits: NAN_BITS_32 };
    }
    if magnitude.bits == INFINITY_BITS_32 {
        return x;
    }
    let v = parts(x);
    let mut n: u64 = v.m;
    let mut e: i32 = v.e;
    proof {
        lemma2_to64();
        lemma2_to64_rest();
    }
    while !(n >= 0x8000_0000_0000 || (n >= 0x4000_0000_0000 && e % 2 == 0))
        invariant
            0 < n < 0x1_0000_0000_0000,
            n >= 0x8000_0000_0000 ==> e % 2 == 0,
            -149 <= v.e <= 104,
            0 <= v.e - e <= 48,
            n >= pow2((v.e - e) as nat),
            pow2(48) == 0x1_0000_0000_0000,
            for_root(n as nat, e as int) == for_root(v.m as nat, v.e as int),
        decreases 0x1_0000_0000_0000 - n,
    {
        proof {
            lemma_pow2_unfold((v.e - e + 1) as nat);
        }
        n = n * 2;
        e = e - 1;
    }
    let m: u64 = root(n);
    Real32 { bits: (e / 2 + 149) as u32 * 0x80_0000 + m as u32 }
}

// ---------------------------------------------------------------------------
// Laws
// ---------------------------------------------------------------------------
/// Whole numbers are added, subtracted, multiplied and divided exactly, as far
/// as 24 bits hold the result.
pub proof fn whole_numbers_are_calculated_exactly(a: nat, b: nat)
    ensures
        a + b < 0x100_0000 ==> plus_of(whole_32(a), whole_32(b)) == whole_32(a + b),
        b <= a < 0x100_0000 ==> minus_of(whole_32(a), whole_32(b)) == whole_32((a - b) as nat),
        a < b < 0x100_0000 ==> minus_of(whole_32(a), whole_32(b)) == opposite(
            whole_32((b - a) as nat),
        ),
        a * b < 0x100_0000 && a < 0x100_0000 && b < 0x100_0000 ==> times_of(
            whole_32(a),
            whole_32(b),
        ) == whole_32(a * b),
        a * b < 0x100_0000 && a < 0x100_0000 && b < 0x100_0000 ==> times_of(
            opposite(whole_32(a)),
            whole_32(b),
        ) == opposite(whole_32(a * b)),
        0 < b < 0x100_0000 && a * b < 0x100_0000 ==> quotient_of(whole_32(a * b), whole_32(b))
            == whole_32(a),
{
    lemma2_to64();
    if a == 0 || b == 0 {
        assert(a * b == 0) by (nonlinear_arith)
            requires
                a == 0 || b == 0,
        ;
        if 0 < a < 0x100_0000 {
            let i = bits_to_24(a);
            whole_32_parts(a, i);
        }
        if 0 < b < 0x100_0000 {
            let j = bits_to_24(b);
            whole_32_parts(b, j);
        }
    } else {
        assert(a <= a * b && b <= a * b) by (nonlinear_arith)
            requires
                a >= 1,
                b >= 1,
        ;
        if a < 0x100_0000 && b < 0x100_0000 {
            let i = bits_to_24(a);
            let j = bits_to_24(b);
            whole_32_parts(a, i);
            whole_32_parts(b, j);
            let e = lower_exponent(whole_32(a), whole_32(b));
            let g = (-e) as nat;
            lemma_pow2_adds(i, (g - i) as nat);
            lemma_pow2_adds(j, (g - j) as nat);
            let (pi, pj, pg) = (pow2(i) as int, pow2(j) as int, pow2(g) as int);
            let (ri, rj) = (pow2((g - i) as nat) as int, pow2((g - j) as nat) as int);
            assert((a * pi) * ri == a * pg) by (nonlinear_arith)
                requires
                    pg == pi * ri,
            ;
            assert((b * pj) * rj == b * pg) by (nonlinear_arith)
                requires
                    pg == pj * rj,
            ;
            assert((a - b) * pg == a * pg - b * pg) by (nonlinear_arith);
            assert((a + b) * pg == a * pg + b * pg) by (nonlinear_arith);
            assert((b - a) * pg == b * pg - a * pg) by (nonlinear_arith);
            lemma_pow2_pos(g);
            let x = whole_32(a);
            let y = whole_32(b);
            assert(unsigned(x) == x && unsigned(y) == y);
            if a > b {
                shifted_whole((a - b) as nat, g);
                assert((a - b) * pg > 0) by (nonlinear_arith)
                    requires
                        a > b,
                        pg > 0,
                ;
            } else if a < b {
                shifted_whole((b - a) as nat, g);
                assert((b - a) * pg > 0) by (nonlinear_arith)
                    requires
                        b > a,
                        pg > 0,
                ;
            }
            if a + b < 0x100_0000 {
                shifted_whole(a + b, g);
                assert((a + b) * pg > 0) by (nonlinear_arith)
                    requires
                        a + b > 0,
                        pg > 0,
                ;
                let z = opposite(y);
                assert(unsigned(z) == y && is_negative(z));
                assert(lower_exponent(x, z) == e);
                assert(units_between(x, z) == (a + b) * pg);
            }
            if a * b < 0x100_0000 {
                let s = i + j;
                lemma_pow2_adds(i, j);
                assert((a * pi) * (b * pj) == (a * b) * (pi * pj)) by (nonlinear_arith);
                shifted_whole(a * b, s);
                exact_quotient(a, b);
                assert(unsigned(opposite(x)) == x && is_negative(opposite(x)));
                let l = bits_to_24(a * b);
                whole_32_parts(a * b, l);
            }
        }
    }
}

/// A whole number that is moved up and down again is the whole number.
proof fn shifted_whole(n: nat, g: nat)
    requires
        0 < n < 0x100_0000,
    ensures
        pattern_32((n * pow2(g)) as nat, 1, -(g as int)) == whole_32(n).bits,
{
    lemma2_to64();
    let k = bits_to_24(n);
    whole_32_parts(n, k);
    let m = (n * pow2(k)) as nat;
    let num = (n * pow2(g)) as nat;
    let t = -(g as int) + k;
    let (pk, pg) = (pow2(k) as int, pow2(g) as int);
    if t >= 0 {
        lemma_pow2_adds(g, t as nat);
        let pt = pow2(t as nat) as int;
        assert(num * pt == m) by (nonlinear_arith)
            requires
                num == n * pg,
                m == n * pk,
                pk == pg * pt,
        ;
        assert(m * (1 * pow2(0)) == m) by (nonlinear_arith)
            requires
                pow2(0) == 1,
        ;
    } else {
        lemma_pow2_adds(k, (-t) as nat);
        let pt = pow2((-t) as nat) as int;
        assert(num * 1 == m * (1 * pt)) by (nonlinear_arith)
            requires
                num == n * pg,
                m == n * pk,
                pg == pk * pt,
        ;
    }
    exact_narrowing(num, 1, -(g as int), -(k as int), m);
}

proof fn exact_quotient(a: nat, b: nat)
    requires
        0 < a,
        0 < b < 0x100_0000,
        a <= a * b < 0x100_0000,
    ensures
        quotient_of(whole_32(a * b), whole_32(b)) == whole_32(a),
{
    lemma2_to64();
    let i = bits_to_24(a * b);
    let j = bits_to_24(b);
    let l = bits_to_24(a);
    whole_32_parts(a * b, i);
    whole_32_parts(b, j);
    whole_32_parts(a, l);
    let m = (a * pow2(l)) as nat;
    let num = ((a * b) * pow2(i)) as nat;
    let den = (b * pow2(j)) as nat;
    let t = -(i as int) + j + l;
    let (pi, pj, pl) = (pow2(i) as int, pow2(j) as int, pow2(l) as int);
    if t >= 0 {
        let pt = pow2(t as nat) as int;
        lemma_pow2_adds(i, t as nat);
        lemma_pow2_adds(j, l);
        assert(num * pt == m * (den * 1)) by (nonlinear_arith)
            requires
                num == (a * b) * pi,
                m == a * pl,
                den == b * pj,
                pi * pt == pj * pl,
        {
            assert(num * pt == (a * b) * (pi * pt));
            assert(m * den == (a * b) * (pj * pl));
        }
    } else {
        let pt = pow2((-t) as nat) as int;
        lemma_pow2_adds(j + l, (-t) as nat);
        lemma_pow2_adds(j, l);
        assert(num * 1 == m * (den * pt)) by (nonlinear_arith)
            requires
                num == (a * b) * pi,
                m == a * pl,
                den == b * pj,
                pi == (pj * pl) * pt,
        {
            assert(m * (den * pt) == (a * b) * ((pj * pl) * pt));
        }
    }
    exact_narrowing(num, den, j - i, -(l as int), m);
    assert(unsigned(whole_32(a * b)) == whole_32(a * b));
    assert(unsigned(whole_32(b)) == whole_32(b));
}

/// Half of an even whole number is exact, and the root of one is one.
pub proof fn halves_and_roots_are_exact(n: nat)
    requires
        2 * n < 0x100_0000,
    ensures
        times_of(whole_32(2 * n), Real32 { bits: 0x3f00_0000 }) == whole_32(n),
        square_root_of(whole_32(1)) == whole_32(1),
        square_root_of(Real32 { bits: 0 }) == (Real32 { bits: 0 }),
{
    lemma2_to64();
    lemma2_to64_rest();
    let half = Real32 { bits: 0x3f00_0000 };
    assert(parts_of_32(half) == (0x80_0000nat, -24int));
    if n > 0 {
        let i = bits_to_24(2 * n);
        whole_32_parts(2 * n, i);
        let g = i + 24;
        lemma_pow2_adds(i, 24);
        assert(pow2(24) == 0x100_0000);
        let pi = pow2(i) as int;
        assert(((2 * n) * pi) * 0x80_0000 == n * (pi * 0x100_0000)) by (nonlinear_arith);
        shifted_whole(n, g);
        assert(unsigned(whole_32(2 * n)) == whole_32(2 * n));
        let k = bits_to_24(n);
        whole_32_parts(n, k);
    }
    whole_32_parts(1, 23);
    let one = whole_32(1);
    assert(parts_of_32(one) == (0x80_0000nat, -23int));
    assert(for_root(0x80_0000, -23) == (0x4000_0000_0000nat, -46int)) by {
        reveal_with_fuel(for_root, 25);
    }
    assert(is_nearest_root(0x4000_0000_0000, 0x80_0000)) by (nonlinear_arith);
    let r = nearest_root(0x4000_0000_0000);
    nearest_root_is_unique(0x4000_0000_0000, 0x80_0000, r);
}

/// What is no number stays none, and so are a difference of equal infinities,
/// a product of an infinity and zero, and a quotient of two infinities or of
/// two zeros. A number divided by zero is infinite, one divided by an infinity
/// is zero, and a number less itself is zero.
pub proof fn numbers_without_a_value_stay_so_32(a: Real32, b: Real32)
    ensures
        a.is_nan() || b.is_nan() ==> quotient_of(a, b).is_nan() && minus_of(a, b).is_nan()
            && times_of(a, b).is_nan(),
        a.magnitude() == 0x7f80_0000 && b.magnitude() == 0x7f80_0000 ==> quotient_of(a, b).is_nan(),
        a.magnitude() == 0 && b.magnitude() == 0 ==> quotient_of(a, b).is_nan(),
        a.magnitude() == 0x7f80_0000 && b.magnitude() == 0 ==> times_of(a, b).is_nan() && times_of(
            b,
            a,
        ).is_nan(),
        a.magnitude() == 0x7f80_0000 && 0 < b.magnitude() <= 0x7f80_0000 ==> times_of(
            a,
            b,
        ).magnitude() == 0x7f80_0000 && times_of(b, a).magnitude() == 0x7f80_0000,
        0 < a.magnitude() <= 0x7f80_0000 && b.magnitude() == 0 ==> quotient_of(a, b).magnitude()
            == 0x7f80_0000,
        a.magnitude() < 0x7f80_0000 && b.magnitude() == 0x7f80_0000 ==> quotient_of(
            a,
            b,
        ).magnitude() == 0,
        a.magnitude() == 0 && 0 < b.magnitude() <= 0x7f80_0000 ==> quotient_of(a, b).magnitude()
            == 0,
        a.magnitude() == 0 && b.magnitude() < 0x7f80_0000 ==> times_of(a, b).magnitude() == 0
            && times_of(b, a).magnitude() == 0,
        a.magnitude() == 0x7f80_0000 ==> minus_of(a, a).is_nan(),
        a.magnitude() == 0x7f80_0000 && b.magnitude() < 0x7f80_0000 ==> minus_of(a, b) == a,
        a.magnitude() < 0x7f80_0000 ==> minus_of(a, a) == (Real32 { bits: 0 }),
        0 < a.magnitude() < 0x7f80_0000 && b.magnitude() == 0 ==> minus_of(a, b) == a && plus_of(
            a,
            b,
        ) == a,
{
}

} // verus!
