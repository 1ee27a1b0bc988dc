//! Differences and quotients of binary64 numbers, and the whole numbers next
//! to them.
use crate::binary64::{
    whole_fraction_bound, whole_is_unique, Real64, FRACTION_WEIGHT, INFINITY_BITS, SIGN_WEIGHT,
};
use crate::rounding::{positive_part, power_of_two, Scaled};
use crate::seconds::parts_of;
use crate::wide::{exact_widening, pattern_64, widen, widening_is_unique, widens_to};
use vstd::arithmetic::div_mod::lemma_fundamental_div_mod_converse;
use vstd::arithmetic::power2::{
    lemma2_to64, lemma2_to64_rest, lemma_pow2_adds, lemma_pow2_pos, lemma_pow2_strictly_increases,
    lemma_pow2_unfold, pow2,
};
use vstd::prelude::*;

verus! {

/// The significand and the exponent of a finite number without its sign.
pub open spec fn magnitude_parts(x: Real64) -> (nat, int) {
    parts_of(Real64 { bits: x.magnitude() as u64 })
}

/// What arithmetic gives where it has no result.
pub const NAN_BITS: u64 = 0x7ff8_0000_0000_0000;

pub open spec fn is_negative(x: Real64) -> bool {
    x.bits >= SIGN_WEIGHT
}

/// A number by its sign and the pattern of its magnitude.
pub open spec fn signed(negative: bool, magnitude: int) -> Real64 {
    Real64 {
        bits: (magnitude + if negative {
            SIGN_WEIGHT as int
        } else {
            0
        }) as u64,
    }
}

fn with_sign(negative: bool, magnitude: u64) -> (out: Real64)
    requires
        magnitude < SIGN_WEIGHT,
    ensures
        out == signed(negative, magnitude as int),
{
    if negative {
        Real64 { bits: magnitude + SIGN_WEIGHT }
    } else {
        Real64 { bits: magnitude }
    }
}

fn magnitude_of(x: Real64) -> (out: u64)
    ensures
        out == x.magnitude(),
        out < SIGN_WEIGHT,
{
    if x.bits >= SIGN_WEIGHT {
        x.bits - SIGN_WEIGHT
    } else {
        x.bits
    }
}

/// The parts of a finite number that is not zero.
fn parts(x: Real64) -> (out: Scaled)
    requires
        0 < x.magnitude() < INFINITY_BITS,
    ensures
        (out.m as nat, out.e as int) == magnitude_parts(x),
        0 < out.m < 0x20_0000_0000_0000,
        -1074 <= out.e <= 971,
        out.e > -1074 ==> out.m >= 0x10_0000_0000_0000,
{
    let magnitude: u64 = magnitude_of(x);
    let exponent: u64 = magnitude / FRACTION_WEIGHT;
    let fraction: u64 = magnitude % FRACTION_WEIGHT;
    if exponent == 0 {
        Scaled { m: fraction, e: -1074 }
    } else {
        Scaled { m: fraction + FRACTION_WEIGHT, e: exponent as i32 - 1075 }
    }
}

/// The smaller one of two exponents.
pub open spec fn lower_exponent(a: int, b: int) -> int {
    if a <= b {
        a
    } else {
        b
    }
}

/// `a - b` in units of two to the lower one of their exponents.
pub open spec fn units_between(a: Real64, b: Real64) -> int {
    let (x, y) = (magnitude_parts(a), magnitude_parts(b));
    let e = lower_exponent(x.1, y.1);
    let u = x.0 * pow2((x.1 - e) as nat);
    let v = y.0 * pow2((y.1 - e) as nat);
    (if is_negative(a) {
        -u
    } else {
        u as int
    }) - (if is_negative(b) {
        -v
    } else {
        v as int
    })
}

/// `a - b`.
pub open spec fn minus_of(a: Real64, b: Real64) -> Real64 {
    if a.is_nan() || b.is_nan() {
        Real64 { bits: NAN_BITS }
    } else if !a.is_finite() {
        if !b.is_finite() && is_negative(a) == is_negative(b) {
            Real64 { bits: NAN_BITS }
        } else {
            a
        }
    } else if a.magnitude() == 0 && b.magnitude() == 0 {
        signed(is_negative(a) && !is_negative(b), 0)
    } else if !b.is_finite() || a.magnitude() == 0 {
        signed(!is_negative(b), b.magnitude())
    } else if b.magnitude() == 0 {
        a
    } else {
        let n = units_between(a, b);
        let e = lower_exponent(magnitude_parts(a).1, magnitude_parts(b).1);
        if n == 0 {
            Real64 { bits: 0 }
        } else if n < 0 {
            signed(true, pattern_64((-n) as nat, 1, e))
        } else {
            signed(false, pattern_64(n as nat, 1, e))
        }
    }
}

/// A number that is tiny next to another one is lost in their sum and in their
/// difference.
proof fn tiny_is_lost(big: Real64, m: nat, e: int, less: bool)
    requires
        0 < big.magnitude() < INFINITY_BITS,
        m < 0x20_0000_0000_0000,
        -1074 <= e,
        magnitude_parts(big).1 - e > 70,
    ensures
        ({
            let x = magnitude_parts(big);
            let d = pow2((x.1 - e) as nat);
            let n = if less {
                x.0 * d - m
            } else {
                (x.0 * d + m) as int
            };
            n > 0 && pattern_64(n as nat, 1, e) == big.magnitude()
        }),
{
    let x = magnitude_parts(big);
    let g = (x.1 - e) as nat;
    let d = pow2(g);
    let h = pow2((g - 1) as nat);
    lemma2_to64();
    lemma2_to64_rest();
    lemma_pow2_unfold(g);
    lemma_pow2_strictly_increases(64, g);
    lemma_pow2_adds(64, 6);
    lemma_pow2_strictly_increases(70, g);
    let two52: nat = 0x10_0000_0000_0000;
    let two53: nat = 0x20_0000_0000_0000;
    assert(x.0 * d >= two52 * d) by (nonlinear_arith)
        requires
            x.0 >= two52,
    ;
    assert(1 * d == d && 1 * h == h) by (nonlinear_arith);
    if !less || m == 0 {
        let n = (x.0 * d + m) as nat;
        assert((x.0 + 1) * d == x.0 * d + d) by (nonlinear_arith);
        assert((x.0 + 1) * d <= two53 * d) by (nonlinear_arith)
            requires
                x.0 + 1 <= two53,
        ;
        assert(n * 1 == n) by (nonlinear_arith);
        lemma_fundamental_div_mod_converse(n as int, d as int, x.0 as int, m as int);
        assert(widens_to(n, 1, e, x.1, x.0));
        widening_is_unique(n, 1, e, x.1, x.0);
    } else if x.0 == two52 {
        let n = (x.0 * d - m) as nat;
        assert(n == two53 * h - m) by (nonlinear_arith)
            requires
                n == two52 * d - m,
                d == 2 * h,
                two53 == 2 * two52,
        ;
        assert((two53 - 1) * h == two53 * h - h) by (nonlinear_arith);
        assert((two53 - 1) * h >= two52 * h) by (nonlinear_arith)
            requires
                two53 - 1 >= two52,
        ;
        assert(n * 1 == n) by (nonlinear_arith);
        lemma_fundamental_div_mod_converse(n as int, h as int, two53 - 1, h - m);
        assert(widens_to(n, 1, e, x.1 - 1, two53));
        widening_is_unique(n, 1, e, x.1 - 1, two53);
    } else {
        let n = (x.0 * d - m) as nat;
        assert((x.0 - 1) * d == x.0 * d - d) by (nonlinear_arith);
        assert((x.0 - 1) * d >= two52 * d) by (nonlinear_arith)
            requires
                x.0 - 1 >= two52,
        ;
        assert(x.0 * d <= two53 * d) by (nonlinear_arith)
            requires
                x.0 <= two53,
        ;
        assert(n * 1 == n) by (nonlinear_arith);
        lemma_fundamental_div_mod_converse(n as int, d as int, x.0 - 1, d - m);
        assert(widens_to(n, 1, e, x.1, x.0));
        widening_is_unique(n, 1, e, x.1, x.0);
    }
}

pub fn minus(a: Real64, b: Real64) -> (out: Real64)
    ensures
        out == minus_of(a, b),
{
    let (u, v) = (magnitude_of(a), magnitude_of(b));
    let (a_negative, b_negative) = (a.bits >= SIGN_WEIGHT, b.bits >= SIGN_WEIGHT);
    if u > INFINITY_BITS || v > INFINITY_BITS {
        return Real64 { bits: NAN_BITS };
    }
    if u == INFINITY_BITS {
        return if v == INFINITY_BITS && a_negative == b_negative {
            Real64 { bits: NAN_BITS }
        } else {
            a
        };
    }
    if u == 0 && v == 0 {
        return with_sign(a_negative && !b_negative, 0);
    }
    if v == INFINITY_BITS || u == 0 {
        return with_sign(!b_negative, v);
    }
    if v == 0 {
        return a;
    }
    let x = parts(a);
    let y = parts(b);
    proof {
        lemma2_to64();
        assert(x.m * 1 == x.m && y.m * 1 == y.m) by (nonlinear_arith);
    }
    if x.e - y.e > 70 {
        proof {
            tiny_is_lost(a, y.m as nat, y.e as int, a_negative == b_negative);
        }
        return a;
    }
    if y.e - x.e > 70 {
        proof {
            tiny_is_lost(b, x.m as nat, x.e as int, a_negative == b_negative);
        }
        return with_sign(!b_negative, v);
    }
    let e: i32 = if x.e <= y.e {
        x.e
    } else {
        y.e
    };
    let scale_a: u128 = power_of_two((x.e - e) as u32);
    let scale_b: u128 = power_of_two((y.e - e) as u32);
    proof {
        scaled_fits(x.m, (x.e - e) as nat, scale_a);
        scaled_fits(y.m, (y.e - e) as nat, scale_b);
    }
    let left: u128 = x.m as u128 * scale_a;
    let right: u128 = y.m as u128 * scale_b;
    if a_negative != b_negative {
        with_sign(a_negative, widen(left + right, 1, e).bits)
    } else if left == right {
        Real64 { bits: 0 }
    } else if left > right {
        with_sign(a_negative, widen(left - right, 1, e).bits)
    } else {
        with_sign(!a_negative, widen(right - left, 1, e).bits)
    }
}

proof fn scaled_fits(m: u64, g: nat, scale: u128)
    requires
        0 < m < 0x20_0000_0000_0000,
        g <= 70,
        scale == pow2(g),
    ensures
        0 < m * scale < 0x1000_0000_0000_0000_0000_0000_0000_0000,
{
    lemma2_to64();
    lemma2_to64_rest();
    lemma_pow2_adds(64, 6);
    lemma_pow2_pos(g);
    if g < 70 {
        lemma_pow2_strictly_increases(g, 70);
    }
    assert(0 < m * scale <= 0x20_0000_0000_0000 * 0x40_0000_0000_0000_0000) by (nonlinear_arith)
        requires
            0 < m <= 0x20_0000_0000_0000,
            0 < scale <= 0x40_0000_0000_0000_0000,
    ;
}

/// `a / b`.
pub open spec fn quotient_of(a: Real64, b: Real64) -> Real64 {
    let negative = is_negative(a) != is_negative(b);
    if a.is_nan() || b.is_nan() || (!a.is_finite() && !b.is_finite()) || (a.magnitude() == 0
        && b.magnitude() == 0) {
        Real64 { bits: NAN_BITS }
    } else if !a.is_finite() || b.magnitude() == 0 {
        signed(negative, INFINITY_BITS as int)
    } else if !b.is_finite() || a.magnitude() == 0 {
        signed(negative, 0)
    } else {
        let (x, y) = (magnitude_parts(a), magnitude_parts(b));
        signed(negative, pattern_64(x.0, y.0, x.1 - y.1))
    }
}

pub fn quotient(a: Real64, b: Real64) -> (out: Real64)
    ensures
        out == quotient_of(a, b),
{
    let (u, v) = (magnitude_of(a), magnitude_of(b));
    let negative: bool = (a.bits >= SIGN_WEIGHT) != (b.bits >= SIGN_WEIGHT);
    if u > INFINITY_BITS || v > INFINITY_BITS || (u == INFINITY_BITS && v == INFINITY_BITS) || (u
        == 0 && v == 0) {
        return Real64 { bits: NAN_BITS };
    }
    if u == INFINITY_BITS || v == 0 {
        return with_sign(negative, INFINITY_BITS);
    }
    if v == INFINITY_BITS || u == 0 {
        return with_sign(negative, 0);
    }
    let x = parts(a);
    let y = parts(b);
    with_sign(negative, widen(x.m as u128, y.m, x.e - y.e).bits)
}

/// The whole part of a magnitude.
pub open spec fn whole_part(x: Real64) -> nat {
    let (m, e) = magnitude_parts(x);
    m * pow2(positive_part(e)) / pow2(positive_part(-e))
}

/// Whether a finite number is a whole number.
pub open spec fn is_integral(x: Real64) -> bool {
    let (m, e) = magnitude_parts(x);
    (m * pow2(positive_part(e))) % pow2(positive_part(-e)) == 0
}

/// The largest whole number that is not above a finite number.
pub open spec fn floor_of(x: Real64) -> int {
    if is_negative(x) {
        if is_integral(x) {
            -whole_part(x)
        } else {
            -whole_part(x) - 1
        }
    } else {
        whole_part(x) as int
    }
}

/// The smallest whole number that is not below a finite number.
pub open spec fn ceiling_of(x: Real64) -> int {
    if is_negative(x) {
        -whole_part(x)
    } else if is_integral(x) {
        whole_part(x) as int
    } else {
        (whole_part(x) + 1) as int
    }
}

/// A whole number, or the nearest one between two limits.
pub open spec fn limited(n: int, low: int, high: int) -> int {
    if n < low {
        low
    } else if n > high {
        high
    } else {
        n
    }
}

/// The whole part of a finite number that is not zero, and whether there is
/// nothing behind it. `None` where it is 2^63 or more.
fn split(x: Real64) -> (out: Option<(u64, bool)>)
    requires
        0 < x.magnitude() < INFINITY_BITS,
    ensures
        match out {
            Some(v) => {
                &&& v.0 == whole_part(x)
                &&& v.1 == is_integral(x)
                &&& v.0 < 0x8000_0000_0000_0000
            },
            None => whole_part(x) >= 0x8000_0000_0000_0000 && is_integral(x),
        },
{
    let v = parts(x);
    proof {
        lemma2_to64();
        lemma2_to64_rest();
    }
    if v.e > 10 {
        proof {
            let p = pow2(v.e as nat);
            lemma_pow2_strictly_increases(10, v.e as nat);
            lemma_pow2_unfold(11);
            if v.e > 11 {
                lemma_pow2_strictly_increases(11, v.e as nat);
            }
            let n = v.m * p;
            assert(n >= 0x10_0000_0000_0000 * 0x800) by (nonlinear_arith)
                requires
                    n == v.m * p,
                    v.m >= 0x10_0000_0000_0000,
                    p >= 0x800,
            ;
            lemma_fundamental_div_mod_converse(n, 1, n, 0);
        }
        None
    } else if v.e >= 0 {
        let scale: u128 = power_of_two(v.e as u32);
        proof {
            if v.e < 10 {
                lemma_pow2_strictly_increases(v.e as nat, 10);
            }
            let n = v.m * scale;
            assert(0 <= n < 0x8000_0000_0000_0000) by (nonlinear_arith)
                requires
                    n == v.m * scale,
                    0 <= v.m < 0x20_0000_0000_0000,
                    0 < scale <= 0x400,
            ;
            lemma_fundamental_div_mod_converse(n, 1, n, 0);
        }
        Some(((v.m as u128 * scale) as u64, true))
    } else if v.e >= -60 {
        let scale: u128 = power_of_two((-v.e) as u32);
        proof {
            assert(v.m * 1 == v.m) by (nonlinear_arith);
            let q = (v.m as u128 / scale) as int;
            assert(q <= v.m) by (nonlinear_arith)
                requires
                    q == v.m as int / scale as int,
                    scale > 0,
                    v.m >= 0,
            ;
        }
        Some(((v.m as u128 / scale) as u64, v.m as u128 % scale == 0))
    } else {
        proof {
            let d = pow2((-v.e) as nat);
            assert(v.m * 1 == v.m) by (nonlinear_arith);
            lemma_pow2_strictly_increases(60, (-v.e) as nat);
            lemma_fundamental_div_mod_converse(v.m as int, d as int, 0, v.m as int);
        }
        Some((0, false))
    }
}

/// The largest whole number that is not above a number, between the limits of
/// 64 bits. What is no number counts as zero.
pub open spec fn floor_in_64_bits(x: Real64) -> int {
    if x.is_nan() {
        0
    } else if !x.is_finite() {
        if is_negative(x) {
            i64::MIN as int
        } else {
            i64::MAX as int
        }
    } else {
        limited(floor_of(x), i64::MIN as int, i64::MAX as int)
    }
}

pub fn floor(x: Real64) -> (out: i64)
    ensures
        out == floor_in_64_bits(x),
{
    let magnitude: u64 = magnitude_of(x);
    let negative: bool = x.bits >= SIGN_WEIGHT;
    if magnitude > INFINITY_BITS {
        return 0;
    }
    let edge: i64 = if negative {
        i64::MIN
    } else {
        i64::MAX
    };
    if magnitude == INFINITY_BITS {
        return edge;
    }
    if magnitude == 0 {
        proof {
            zero_is_whole(x);
        }
        return 0;
    }
    match split(x) {
        None => edge,
        Some(v) => {
            let (whole, integral) = v;
            if !negative {
                whole as i64
            } else if integral {
                -(whole as i64)
            } else {
                -(whole as i64) - 1
            }
        },
    }
}

proof fn zero_is_whole(x: Real64)
    requires
        x.magnitude() == 0,
    ensures
        whole_part(x) == 0,
        is_integral(x),
{
    let p = pow2(1074);
    lemma2_to64();
    lemma_pow2_pos(1074);
    assert(0 * 1 == 0) by (nonlinear_arith);
    lemma_fundamental_div_mod_converse(0, p as int, 0, 0);
}

/// The smallest whole number that is not below a number, between one and a
/// limit. What is no number counts as zero.
pub open spec fn ceiling_up_to(x: Real64, most: int) -> int {
    if x.is_nan() {
        1
    } else if !x.is_finite() {
        if is_negative(x) {
            1
        } else {
            most
        }
    } else {
        limited(ceiling_of(x), 1, most)
    }
}

pub fn ceiling(x: Real64, most: usize) -> (out: usize)
    requires
        1 <= most <= 0x1_0000,
    ensures
        out == ceiling_up_to(x, most as int),
        1 <= out <= most,
{
    let magnitude: u64 = magnitude_of(x);
    let negative: bool = x.bits >= SIGN_WEIGHT;
    if magnitude > INFINITY_BITS {
        return 1;
    }
    if magnitude == INFINITY_BITS {
        return if negative {
            1
        } else {
            most
        };
    }
    if magnitude == 0 {
        proof {
            zero_is_whole(x);
        }
        return 1;
    }
    match split(x) {
        None => if negative {
            1
        } else {
            most
        },
        Some(v) => {
            let (whole, integral) = v;
            if negative {
                return 1;
            }
            let up: u64 = if integral {
                whole
            } else {
                whole + 1
            };
            if up < 1 {
                1
            } else if up > most as u64 {
                most
            } else {
                up as usize
            }
        },
    }
}

// ---------------------------------------------------------------------------
// Laws
// ---------------------------------------------------------------------------
/// A positive whole number is held as `n * 2^k` times `2^-k`.
pub(crate) proof fn whole_parts(x: Real64, n: nat) -> (k: nat)
    requires
        n > 0,
        x.is_whole(n),
    ensures
        k <= 52,
        0x10_0000_0000_0000 <= n * pow2(k) < 0x20_0000_0000_0000,
        x.bits == (1074 - k) * 0x10_0000_0000_0000 + n * pow2(k),
        0 < x.bits < INFINITY_BITS,
        magnitude_parts(x) == ((n * pow2(k)) as nat, -(k as int)),
{
    let ex = choose|ex: nat| x.is_whole_with(n, ex);
    whole_fraction_bound(x, n, ex);
    let k = (52 - ex) as nat;
    let (pe, pk) = (pow2(ex) as int, pow2(k) as int);
    lemma_pow2_adds(ex, k);
    lemma2_to64();
    lemma2_to64_rest();
    lemma_pow2_pos(k);
    lemma_pow2_unfold(ex + 1);
    let m = n * pow2(k);
    assert((n - pe) * pk == n * pk - pe * pk) by (nonlinear_arith);
    assert(pe * pk == 0x10_0000_0000_0000);
    assert(0x10_0000_0000_0000 <= m < 0x20_0000_0000_0000) by (nonlinear_arith)
        requires
            m == n * pk,
            pe <= n < 2 * pe,
            pe * pk == 0x10_0000_0000_0000,
            pk > 0,
    ;
    assert(x.bits as int / 0x10_0000_0000_0000 == 1023 + ex);
    assert(Real64 { bits: x.magnitude() as u64 } == x);
    k
}

/// Moving a whole number up and down again gives its pattern.
proof fn shifted_whole(z: Real64, n: nat, g: nat)
    requires
        n > 0,
        z.is_whole(n),
    ensures
        pattern_64((n * pow2(g)) as nat, 1, -(g as int)) == z.bits,
{
    lemma2_to64();
    let k = whole_parts(z, n);
    let m = (n * pow2(k)) as nat;
    let num = (n * pow2(g)) as nat;
    let t = -(g as int) + k;
    let (pk, pg) = (pow2(k) as int, pow2(g) as int);
    if t >= 0 {
        lemma_pow2_adds(g, t as nat);
        let pt = pow2(t as nat) as int;
        assert(num * pt == m) by (nonlinear_arith)
            requires
                num == n * pg,
                m == n * pk,
                pk == pg * pt,
        ;
        assert(m * (1 * pow2(0)) == m) by (nonlinear_arith)
            requires
                pow2(0) == 1,
        ;
    } else {
        lemma_pow2_adds(k, (-t) as nat);
        let pt = pow2((-t) as nat) as int;
        assert(num * 1 == m * (1 * pt)) by (nonlinear_arith)
            requires
                num == n * pg,
                m == n * pk,
                pg == pk * pt,
        ;
    }
    exact_widening(num, 1, -(g as int), -(k as int), m);
}

/// The difference of two whole numbers is exact.
pub proof fn whole_numbers_are_subtracted_exactly(
    x: Real64,
    a: nat,
    y: Real64,
    b: nat,
    z: Real64,
)
    requires
        x.is_whole(a),
        y.is_whole(b),
        b <= a ==> z.is_whole((a - b) as nat),
        a < b ==> z.is_whole((b - a) as nat),
    ensures
        b <= a ==> minus_of(x, y) == z,
        a < b ==> minus_of(x, y).bits == z.bits + SIGN_WEIGHT,
{
    lemma2_to64();
    if a > 0 && b > 0 {
        let i = whole_parts(x, a);
        let j = whole_parts(y, b);
        let e = lower_exponent(-(i as int), -(j as int));
        let g = (-e) as nat;
        lemma_pow2_adds(i, (g - i) as nat);
        lemma_pow2_adds(j, (g - j) as nat);
        let (pi, pj, pg) = (pow2(i) as int, pow2(j) as int, pow2(g) as int);
        let (ri, rj) = (pow2((g - i) as nat) as int, pow2((g - j) as nat) as int);
        assert((a * pi) * ri == a * pg) by (nonlinear_arith)
            requires
                pg == pi * ri,
        ;
        assert((b * pj) * rj == b * pg) by (nonlinear_arith)
            requires
                pg == pj * rj,
        ;
        assert((a - b) * pg == a * pg - b * pg) by (nonlinear_arith);
        assert((b - a) * pg == b * pg - a * pg) by (nonlinear_arith);
        lemma_pow2_pos(g);
        if a > b {
            shifted_whole(z, (a - b) as nat, g);
            let k = whole_parts(z, (a - b) as nat);
            assert((a - b) * pg > 0) by (nonlinear_arith)
                requires
                    a > b,
                    pg > 0,
            ;
        } else if a < b {
            shifted_whole(z, (b - a) as nat, g);
            let k = whole_parts(z, (b - a) as nat);
            assert((b - a) * pg > 0) by (nonlinear_arith)
                requires
                    b > a,
                    pg > 0,
            ;
        }
    } else if a > 0 {
        let i = whole_parts(x, a);
        whole_is_unique(x, a);
        whole_is_unique(z, a);
    } else if b > 0 {
        let j = whole_parts(y, b);
        whole_is_unique(y, b);
        whole_is_unique(z, b);
    }
}

/// The quotient of a multiple of a whole number is exact.
pub proof fn whole_numbers_are_divided_exactly(
    x: Real64,
    a: nat,
    b: nat,
    y: Real64,
    z: Real64,
)
    requires
        b > 0,
        x.is_whole(a * b),
        y.is_whole(b),
        z.is_whole(a),
    ensures
        quotient_of(x, y) == z,
{
    lemma2_to64();
    let j = whole_parts(y, b);
    if a > 0 {
        assert(a * b > 0) by (nonlinear_arith)
            requires
                a > 0,
                b > 0,
        ;
        let i = whole_parts(x, a * b);
        let l = whole_parts(z, a);
        let m = (a * pow2(l)) as nat;
        let num = ((a * b) * pow2(i)) as nat;
        let den = (b * pow2(j)) as nat;
        let t = -(i as int) + j + l;
        let (pi, pj, pl) = (pow2(i) as int, pow2(j) as int, pow2(l) as int);
        if t >= 0 {
            let pt = pow2(t as nat) as int;
            lemma_pow2_adds(i, t as nat);
            lemma_pow2_adds(j, l);
            assert(num * pt == m * (den * 1)) by (nonlinear_arith)
                requires
                    num == (a * b) * pi,
                    m == a * pl,
                    den == b * pj,
                    pi * pt == pj * pl,
            {
                assert(num * pt == (a * b) * (pi * pt));
                assert(m * den == (a * b) * (pj * pl));
            }
        } else {
            let pt = pow2((-t) as nat) as int;
            lemma_pow2_adds(j + l, (-t) as nat);
            lemma_pow2_adds(j, l);
            assert(num * 1 == m * (den * pt)) by (nonlinear_arith)
                requires
                    num == (a * b) * pi,
                    m == a * pl,
                    den == b * pj,
                    pi == (pj * pl) * pt,
            {
                assert(m * (den * pt) == (a * b) * ((pj * pl) * pt));
            }
        }
        exact_widening(num, den, j - i, -(l as int), m);
    } else {
        assert(a * b == 0) by (nonlinear_arith)
            requires
                a == 0,
        ;
    }
}

/// The whole numbers next to a number: none above the lower one is not above
/// it, and none below the upper one is not below it. The number is `m / 2^k`,
/// with its sign.
pub proof fn whole_numbers_stand_next_to_the_number(x: Real64, m: nat, k: nat)
    requires
        x.is_finite(),
        magnitude_parts(x) == (m, -(k as int)),
    ensures
        !is_negative(x) ==> floor_of(x) * pow2(k) <= m < (floor_of(x) + 1) * pow2(k),
        !is_negative(x) ==> (ceiling_of(x) - 1) * pow2(k) < m <= ceiling_of(x) * pow2(k),
        is_negative(x) ==> floor_of(x) * pow2(k) <= -m < (floor_of(x) + 1) * pow2(k),
        is_negative(x) ==> (ceiling_of(x) - 1) * pow2(k) < -m <= ceiling_of(x) * pow2(k),
{
    lemma2_to64();
    lemma_pow2_pos(k);
    let p = pow2(k) as int;
    assert(positive_part(-(k as int)) == 0 && positive_part(k as int) == k);
    assert(m * pow2(0) == m) by (nonlinear_arith)
        requires
            pow2(0) == 1,
    ;
    let w = m as int / p;
    let r = m as int % p;
    assert(w == whole_part(x));
    assert(m == w * p + r && 0 <= r < p) by (nonlinear_arith)
        requires
            p > 0,
            w == m as int / p,
            r == m as int % p,
    ;
    assert((w + 1) * p == w * p + p) by (nonlinear_arith);
    assert((w - 1) * p == w * p - p) by (nonlinear_arith);
    assert((-w) * p == -(w * p)) by (nonlinear_arith);
    assert((-w - 1) * p == -(w * p) - p) by (nonlinear_arith);
    assert((-w + 1) * p == -(w * p) + p) by (nonlinear_arith);
}

/// Whole numbers are their own floor and ceiling, within the limits that are
/// set.
pub proof fn whole_numbers_are_their_own_floor(x: Real64, n: nat, most: int)
    requires
        x.is_whole(n),
        most >= 1,
    ensures
        floor_in_64_bits(x) == n,
        1 <= n <= most ==> ceiling_up_to(x, most) == n,
        n > most ==> ceiling_up_to(x, most) == most,
        n == 0 ==> ceiling_up_to(x, most) == 1,
{
    lemma2_to64();
    lemma2_to64_rest();
    if n > 0 {
        let k = whole_parts(x, n);
        let m = (n * pow2(k)) as nat;
        let p = pow2(k) as int;
        lemma_pow2_pos(k);
        assert(m as int / p == n && m as int % p == 0) by (nonlinear_arith)
            requires
                m == n * p,
                p > 0,
        ;
        assert(positive_part(-(k as int)) == 0 && positive_part(k as int) == k);
        assert(m * pow2(0) == m) by (nonlinear_arith)
            requires
                pow2(0) == 1,
        ;
        assert(n <= m) by (nonlinear_arith)
            requires
                m == n * p,
                p >= 1,
        ;
    } else {
        assert(magnitude_parts(x) == (0nat, -1074int));
        lemma_pow2_pos(1074);
        let p = pow2(1074) as int;
        assert(0int / p == 0 && 0int % p == 0) by (nonlinear_arith)
            requires
                p > 0,
        ;
        assert(0 * pow2(0) == 0);
    }
}

/// What is no number stays none, and a difference of equal infinities and a
/// quotient of two infinities or of two zeros are none. A number divided by
/// zero is infinite, one divided by an infinity is zero, and a number less
/// itself is zero.
pub proof fn numbers_without_a_value_stay_so(a: Real64, b: Real64)
    ensures
        a.is_nan() || b.is_nan() ==> quotient_of(a, b).is_nan() && minus_of(a, b).is_nan(),
        !a.is_finite() && !b.is_finite() ==> quotient_of(a, b).is_nan(),
        a.magnitude() == 0 && b.magnitude() == 0 ==> quotient_of(a, b).is_nan(),
        !a.is_nan() && a.magnitude() > 0 && b.magnitude() == 0 ==> !quotient_of(a, b).is_nan()
            && !quotient_of(a, b).is_finite() && (is_negative(quotient_of(a, b)) <==> is_negative(a)
            != is_negative(b)),
        a.is_finite() && !b.is_nan() && !b.is_finite() ==> quotient_of(a, b).magnitude() == 0,
        a.magnitude() == 0 && !b.is_nan() && b.magnitude() > 0 ==> quotient_of(a, b).magnitude()
            == 0,
        !a.is_nan() && !a.is_finite() && b.is_finite() ==> !quotient_of(a, b).is_finite()
            && !quotient_of(a, b).is_nan() && minus_of(a, b) == a,
        !a.is_nan() && !a.is_finite() ==> minus_of(a, a).is_nan(),
        a.is_finite() ==> minus_of(a, a) == (Real64 { bits: 0 }),
        a.is_finite() && a.magnitude() > 0 && b.magnitude() == 0 ==> minus_of(a, b) == a,
{
}

} // verus!
