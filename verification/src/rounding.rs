//! Quotients of whole numbers as binary64 arithmetic gives them, and their
//! decimal texts.
use crate::text::{
    decimal, decimal_round_trip, decimal_value, longer_numbers_are_not_shorter, push_padded,
    zero_padded, zeros_in_front_keep_the_number,
};
use vstd::arithmetic::power2::{
    lemma2_to64, lemma2_to64_rest, lemma_pow2_adds, lemma_pow2_pos, lemma_pow2_strictly_increases,
    lemma_pow2_unfold, pow2,
};
use vstd::prelude::*;

verus! {

/// `num / den` to the nearest whole number; in the middle between two, to the
/// even one.
pub open spec fn nearest(num: nat, den: nat) -> nat {
    let q = num / den;
    let r = num % den;
    if 2 * r < den || (2 * r == den && q % 2 == 0) {
        q
    } else {
        q + 1
    }
}

/// `e` where it is positive, else zero.
pub open spec fn positive_part(e: int) -> nat {
    if e > 0 {
        e as nat
    } else {
        0
    }
}

/// Whether `m * 2^e` is `num / den`, rounded to the 53 bits that a binary64
/// number holds.
pub open spec fn rounds_to(num: nat, den: nat, m: nat, e: int) -> bool {
    let n = num * pow2(positive_part(-e));
    let d = den * pow2(positive_part(e));
    &&& pow2(52) * d <= n
    &&& n < pow2(53) * d
    &&& m == nearest(n, d)
}

/// The significand and the exponent of `num / den` as a binary64 number.
pub open spec fn rounded(num: nat, den: nat) -> (nat, int) {
    choose|v: (nat, int)| #[trigger] rounds_to(num, den, v.0, v.1)
}

/// There is one binary64 number only that a quotient rounds to.
pub proof fn rounding_is_unique(num: nat, den: nat, m: nat, e: int)
    requires
        num > 0,
        den > 0,
        rounds_to(num, den, m, e),
    ensures
        rounded(num, den) == (m, e),
{
    let v = rounded(num, den);
    let witness = (m, e);
    assert(rounds_to(num, den, witness.0, witness.1));
    assert(rounds_to(num, den, v.0, v.1));
    exponent_at_least(num, den, m, e, v.0, v.1);
    exponent_at_least(num, den, v.0, v.1, m, e);
}

proof fn exponent_at_least(num: nat, den: nat, m1: nat, e1: int, m2: nat, e2: int)
    requires
        num > 0,
        den > 0,
        rounds_to(num, den, m1, e1),
        rounds_to(num, den, m2, e2),
    ensures
        e1 >= e2,
{
    if e1 < e2 {
        let a1 = positive_part(-e1);
        let b1 = positive_part(e1);
        let a2 = positive_part(-e2);
        let b2 = positive_part(e2);
        let g = (e2 - e1) as nat;
        let n1 = num * pow2(a1);
        let d1 = den * pow2(b1);
        let n2 = num * pow2(a2);
        let d2 = den * pow2(b2);
        lemma_pow2_adds(a1, b2);
        lemma_pow2_adds(a2, b1);
        lemma_pow2_adds(g, a2 + b1);
        assert(a1 + b2 == g + (a2 + b1));
        lemma_pow2_unfold(g);
        lemma_pow2_pos((g - 1) as nat);
        lemma_pow2_pos(b1);
        lemma_pow2_pos(b2);
        lemma2_to64_rest();
        let pg = pow2(g);
        let (pa1, pb1, pa2, pb2) = (pow2(a1), pow2(b1), pow2(a2), pow2(b2));
        assert(n1 * d2 == pg * (n2 * d1)) by (nonlinear_arith)
            requires
                n1 == num * pa1,
                d2 == den * pb2,
                n2 == num * pa2,
                d1 == den * pb1,
                pa1 * pb2 == pg * (pa2 * pb1),
        ;
        let two52 = pow2(52);
        assert(d1 > 0 && d2 > 0) by (nonlinear_arith)
            requires
                d1 == den * pb1,
                d2 == den * pb2,
                den > 0,
                pb1 > 0,
                pb2 > 0,
        ;
        assert(n1 * d2 < (2 * two52) * d1 * d2) by (nonlinear_arith)
            requires
                n1 < (2 * two52) * d1,
                d2 > 0,
        ;
        assert(n2 * d1 >= two52 * d2 * d1) by (nonlinear_arith)
            requires
                n2 >= two52 * d2,
                d1 > 0,
        ;
        assert(pg * (n2 * d1) >= 2 * (n2 * d1)) by (nonlinear_arith)
            requires
                pg >= 2,
                n2 * d1 >= 0,
        ;
        assert((2 * two52) * d1 * d2 == 2 * (two52 * d2 * d1)) by (nonlinear_arith);
    }
}

/// A positive number, as a significand and the power of two that it is
/// multiplied by.
#[derive(Debug, Clone, Copy, PartialEq, Eq, Structural)]
pub struct Scaled {
    pub m: u64,
    pub e: i32,
}

/// The nearest whole number to a quotient; in the middle between two, the even
/// one.
pub fn nearest_whole(n: u128, d: u128) -> (out: u128)
    requires
        0 < d <= 0x4000_0000_0000_0000_0000_0000_0000_0000,
        n < u128::MAX,
    ensures
        out == nearest(n as nat, d as nat),
        out <= n / d + 1,
{
    let q: u128 = n / d;
    let r: u128 = n % d;
    if 2 * r < d || (2 * r == d && q % 2 == 0) {
        q
    } else {
        proof {
            assert(q <= n) by (nonlinear_arith)
                requires
                    q == n / d,
                    d > 0,
                    n >= 0,
            ;
        }
        q + 1
    }
}

/// Divides two positive whole numbers as binary64 numbers of these values are
/// divided.
pub fn divide(num: u64, den: u64) -> (out: Scaled)
    requires
        num > 0,
        den > 0,
    ensures
        rounds_to(num as nat, den as nat, out.m as nat, out.e as int),
        (out.m as nat, out.e as int) == rounded(num as nat, den as nat),
        0x10_0000_0000_0000 <= out.m <= 0x20_0000_0000_0000,
        -117 <= out.e <= 12,
{
    let two52: u128 = 0x10_0000_0000_0000;
    let two53: u128 = 0x20_0000_0000_0000;
    let mut n: u128 = num as u128;
    let mut d: u128 = den as u128;
    let mut e: i32 = 0;
    proof {
        lemma2_to64();
        lemma2_to64_rest();
        assert(num * 1 == num) by (nonlinear_arith);
        assert(den * 1 == den) by (nonlinear_arith);
    }
    if n >= two53 * d {
        while n >= two53 * d
            invariant
                two53 == 0x20_0000_0000_0000,
                two52 == 0x10_0000_0000_0000,
                n == num,
                n <= u64::MAX,
                0 <= e <= 12,
                d == den * pow2(e as nat),
                1 <= d <= 4096,
                pow2(e as nat) <= d,
                two52 * d <= n,
                e == 12 ==> d >= 4096,
                pow2(11) == 2048,
                pow2(12) == 4096,
            decreases n - d,
        {
            proof {
                lemma_pow2_unfold((e + 1) as nat);
                let p = pow2(e as nat) as int;
                assert(den * (2 * p) == 2 * (den * p)) by (nonlinear_arith);
                if e == 11 {
                    assert(den * 4096 >= 4096) by (nonlinear_arith)
                        requires
                            den >= 1,
                    ;
                }
                if e == 12 {
                    assert(d >= 4096);
                }
            }
            d = d * 2;
            e = e + 1;
        }
        proof {
            assert(num * 1 == num) by (nonlinear_arith);
        }
    } else {
        let mut k: i32 = 0;
        proof {
            lemma_pow2_adds(52, 64);
        }
        while n < two52 * d
            invariant
                two53 == 0x20_0000_0000_0000,
                two52 == 0x10_0000_0000_0000,
                d == den,
                1 <= d <= u64::MAX,
                num >= 1,
                0 <= k <= 116,
                n == num * pow2(k as nat),
                pow2(k as nat) <= n,
                n >= 1,
                n < two53 * d,
                pow2(116) == 0x10_0000_0000_0000 * 0x1_0000_0000_0000_0000,
            decreases two53 * d - n,
        {
            proof {
                lemma_pow2_unfold((k + 1) as nat);
                let p = pow2(k as nat) as int;
                assert(num * (2 * p) == 2 * (num * p)) by (nonlinear_arith);
            }
            n = n * 2;
            k = k + 1;
        }
        e = -k;
        proof {
            assert(den * 1 == den) by (nonlinear_arith);
        }
    }
    let m: u128 = nearest_whole(n, d);
    proof {
        assert(m <= two53 && m >= two52) by {
            let q = (n / d) as int;
            vstd::arithmetic::div_mod::lemma_fundamental_div_mod(n as int, d as int);
            assert(two52 <= q < two53) by (nonlinear_arith)
                requires
                    n == d * q + n % d,
                    0 <= n % d < d,
                    two52 * d <= n < two53 * d,
                    d > 0,
            ;
        }
    }
    proof {
        rounding_is_unique(num as nat, den as nat, m as nat, e as int);
    }
    Scaled { m: m as u64, e }
}

/// The nearest whole number to `m * 2^e * power`.
pub open spec fn units_of(m: nat, e: int, power: nat) -> nat {
    nearest(m * power * pow2(positive_part(e)), pow2(positive_part(-e)))
}

/// Two to a power.
pub fn power_of_two(k: u32) -> (out: u128)
    requires
        k <= 126,
    ensures
        out == pow2(k as nat),
        0 < out <= 0x4000_0000_0000_0000_0000_0000_0000_0000,
{
    let mut out: u128 = 1;
    let mut i: u32 = 0;
    proof {
        lemma2_to64();
    }
    while i < k
        invariant
            i <= k <= 126,
            out == pow2(i as nat),
            out >= 1,
        decreases k - i,
    {
        proof {
            power_bound((i + 1) as nat);
            lemma_pow2_unfold((i + 1) as nat);
        }
        out = out * 2;
        i = i + 1;
    }
    proof {
        power_bound(k as nat);
    }
    out
}

proof fn power_bound(k: nat)
    requires
        k <= 126,
    ensures
        pow2(k) <= 0x4000_0000_0000_0000_0000_0000_0000_0000,
{
    lemma2_to64();
    lemma_pow2_adds(63, 63);
    lemma2_to64_rest();
    if k < 126 {
        lemma_pow2_strictly_increases(k, 126);
    }
}

/// The nearest whole number to `m * 2^e * power`.
pub fn to_units(value: Scaled, power: u64) -> (out: u128)
    requires
        value.m <= 0x20_0000_0000_0000,
        -126 <= value.e <= 24,
        power <= 1000,
    ensures
        out == units_of(value.m as nat, value.e as int, power as nat),
{
    proof {
        lemma2_to64();
        assert(value.m * power <= 0x20_0000_0000_0000 * 1000) by (nonlinear_arith)
            requires
                0 <= value.m <= 0x20_0000_0000_0000,
                0 <= power <= 1000,
        ;
    }
    let base: u128 = value.m as u128 * power as u128;
    if value.e >= 0 {
        let scale: u128 = power_of_two(value.e as u32);
        proof {
            assert(scale <= 0x100_0000) by {
                lemma2_to64();
                if value.e < 24 {
                    lemma_pow2_strictly_increases(value.e as nat, 24);
                }
            }
            assert(base * scale <= 0x20_0000_0000_0000 * 1000 * 0x100_0000) by (nonlinear_arith)
                requires
                    0 <= base <= 0x20_0000_0000_0000 * 1000,
                    0 <= scale <= 0x100_0000,
            ;
        }
        nearest_whole(base * scale, 1)
    } else {
        let scale: u128 = power_of_two((-value.e) as u32);
        proof {
            assert(base * 1 == base) by (nonlinear_arith);
        }
        nearest_whole(base, scale)
    }
}

/// The decimal text of `units / power`, where `power` is ten to the power of
/// `digits`.
pub open spec fn point_text(units: nat, power: nat, digits: nat) -> Seq<char> {
    decimal(units / power) + "."@ + zero_padded(decimal(units % power), digits)
}

/// Appends the decimal digits of a wide number.
pub fn push_wide_decimal(out: &mut String, n: u128)
    ensures
        final(out)@ == old(out)@ + decimal(n as nat),
    decreases n,
{
    if n >= 10 {
        push_wide_decimal(out, n / 10);
    }
    let d: u8 = (n % 10) as u8;
    out.push((48u8 + d) as char);
    assert(out@ =~= old(out)@ + decimal(n as nat));
}

/// Appends `units / power` with the given number of decimals.
pub fn push_point(out: &mut String, units: u128, power: u64, digits: usize)
    requires
        0 < power,
    ensures
        final(out)@ == old(out)@ + point_text(units as nat, power as nat, digits as nat),
{
    let ghost start = out@;
    push_wide_decimal(out, units / power as u128);
    out.append(".");
    let rest: u64 = (units % power as u128) as u64;
    push_padded(out, rest, digits);
    assert(out@ =~= start + point_text(units as nat, power as nat, digits as nat));
}

/// `n` times 100, divided by `total`, in the steps of binary64 arithmetic: a
/// significand and an exponent.
pub open spec fn percent_of(n: nat, total: nat) -> (nat, int) {
    let a = rounded(n, 1);
    let b = rounded(a.0 * 100, 1);
    let c = rounded(total, 1);
    let q = rounded(b.0, c.0);
    (q.0, q.1 + b.1 + a.1 - c.1)
}

pub fn percent(n: u64, total: u64) -> (out: Scaled)
    requires
        n > 0,
        total > 0,
    ensures
        (out.m as nat, out.e as int) == percent_of(n as nat, total as nat),
        out.m <= 0x20_0000_0000_0000,
        -126 <= out.e <= 24,
{
    let a = divide(n, 1);
    let b = divide(a.m * 100, 1);
    let c = divide(total, 1);
    let q = divide(b.m, c.m);
    proof {
        whole_exponent(n as nat, a.m as nat, a.e as int);
        whole_exponent(total as nat, c.m as nat, c.e as int);
        wide_exponent((a.m * 100) as nat, b.m as nat, b.e as int);
        close_exponent(b.m as nat, c.m as nat, q.m as nat, q.e as int);
    }
    Scaled { m: q.m, e: q.e + b.e + a.e - c.e }
}

/// The exponent of a whole number of 64 bits.
pub proof fn whole_exponent(n: nat, m: nat, e: int)
    requires
        0 < n <= u64::MAX,
        rounds_to(n, 1, m, e),
    ensures
        -52 <= e <= 11,
{
    lemma2_to64();
    lemma2_to64_rest();
    if e < -52 {
        let k = (-e) as nat;
        lemma_pow2_strictly_increases(52, k);
        lemma_pow2_unfold(53);
        if k > 53 {
            lemma_pow2_strictly_increases(53, k);
        }
        assert(n * pow2(k) >= pow2(53)) by (nonlinear_arith)
            requires
                n >= 1,
                pow2(k) >= pow2(53),
        ;
    }
    if e > 11 {
        if e > 12 {
            lemma_pow2_strictly_increases(12, e as nat);
        }
        assert(pow2(52) * (1 * pow2(e as nat)) >= 0x10_0000_0000_0000 * 4096) by (nonlinear_arith)
            requires
                pow2(52) == 0x10_0000_0000_0000,
                pow2(e as nat) >= 4096,
        ;
        assert(n * 1 == n) by (nonlinear_arith);
    }
}

/// The exponent of a hundredfold significand.
proof fn wide_exponent(n: nat, m: nat, e: int)
    requires
        0x10_0000_0000_0000 * 100 <= n <= 0x20_0000_0000_0000 * 100,
        rounds_to(n, 1, m, e),
    ensures
        0 <= e <= 7,
{
    lemma2_to64();
    lemma2_to64_rest();
    if e < 0 {
        lemma_pow2_pos((-e) as nat);
        assert(n * pow2((-e) as nat) >= n) by (nonlinear_arith)
            requires
                pow2((-e) as nat) >= 1,
        ;
    }
    if e > 7 {
        if e > 8 {
            lemma_pow2_strictly_increases(8, e as nat);
        }
        assert(pow2(52) * (1 * pow2(e as nat)) >= 0x10_0000_0000_0000 * 256) by (nonlinear_arith)
            requires
                pow2(52) == 0x10_0000_0000_0000,
                pow2(e as nat) >= 256,
        ;
        assert(n * 1 == n) by (nonlinear_arith);
    }
}

/// The exponent of the quotient of two significands.
pub proof fn close_exponent(a: nat, b: nat, m: nat, e: int)
    requires
        0x10_0000_0000_0000 <= a <= 0x20_0000_0000_0000,
        0x10_0000_0000_0000 <= b <= 0x20_0000_0000_0000,
        rounds_to(a, b, m, e),
    ensures
        -54 <= e <= -50,
{
    lemma2_to64();
    lemma2_to64_rest();
    lemma_pow2_pos(positive_part(-e));
    lemma_pow2_pos(positive_part(e));
    if e > -50 {
        let k = positive_part(-e);
        let l = positive_part(e);
        if k < 49 {
            lemma_pow2_strictly_increases(k, 49);
        }
        let pk = pow2(k);
        let pl = pow2(l);
        assert(a * pk <= 0x20_0000_0000_0000 * 0x2_0000_0000_0000) by (nonlinear_arith)
            requires
                a <= 0x20_0000_0000_0000,
                pk <= 0x2_0000_0000_0000,
                a >= 0,
                pk >= 0,
        ;
        assert(0x10_0000_0000_0000 * (b * pl) >= 0x10_0000_0000_0000 * 0x10_0000_0000_0000)
            by (nonlinear_arith)
            requires
                b >= 0x10_0000_0000_0000,
                pl >= 1,
        ;
    }
    if e < -54 {
        let k = (-e) as nat;
        if k > 55 {
            lemma_pow2_strictly_increases(55, k);
        }
        let pk = pow2(k);
        assert(a * pk >= 0x10_0000_0000_0000 * 0x80_0000_0000_0000) by (nonlinear_arith)
            requires
                a >= 0x10_0000_0000_0000,
                pk >= 0x80_0000_0000_0000,
        ;
        assert(b * 1 == b) by (nonlinear_arith);
    }
}

/// A time span of microseconds divided by `unit`, in the steps of binary64
/// arithmetic.
pub open spec fn span_in(span: nat, unit: nat) -> (nat, int) {
    let a = rounded(span, 1);
    let q = rounded(a.0, unit);
    (q.0, q.1 + a.1)
}

pub fn span_quotient(span: u64, unit: u64) -> (out: Scaled)
    requires
        span > 0,
        0 < unit <= 1_000_000,
    ensures
        (out.m as nat, out.e as int) == span_in(span as nat, unit as nat),
        out.m <= 0x20_0000_0000_0000,
        -126 <= out.e <= 24,
{
    let a = divide(span, 1);
    let q = divide(a.m, unit);
    proof {
        whole_exponent(span as nat, a.m as nat, a.e as int);
        unit_exponent(a.m as nat, unit as nat, q.m as nat, q.e as int);
    }
    Scaled { m: q.m, e: q.e + a.e }
}

/// The exponent of a significand divided by a unit.
proof fn unit_exponent(a: nat, unit: nat, m: nat, e: int)
    requires
        0x10_0000_0000_0000 <= a <= 0x20_0000_0000_0000,
        0 < unit <= 1_000_000,
        rounds_to(a, unit, m, e),
    ensures
        -21 <= e <= 1,
{
    lemma2_to64();
    lemma2_to64_rest();
    lemma_pow2_pos(positive_part(-e));
    lemma_pow2_pos(positive_part(e));
    if e > 1 {
        if e > 2 {
            lemma_pow2_strictly_increases(2, e as nat);
        }
        let pl = pow2(e as nat);
        assert(0x10_0000_0000_0000 * (unit * pl) >= 0x10_0000_0000_0000 * 4) by (nonlinear_arith)
            requires
                unit >= 1,
                pl >= 4,
        ;
        assert(a * 1 == a) by (nonlinear_arith);
    }
    if e < -21 {
        let k = (-e) as nat;
        if k > 22 {
            lemma_pow2_strictly_increases(22, k);
        }
        let pk = pow2(k);
        assert(a * pk >= 0x10_0000_0000_0000 * 0x40_0000) by (nonlinear_arith)
            requires
                a >= 0x10_0000_0000_0000,
                pk >= 0x40_0000,
        ;
        assert(unit * 1 == unit) by (nonlinear_arith);
    }
}

/// A wide whole number, rounded to the bits that a binary64 number holds.
pub fn round_whole(num: u128) -> (out: Scaled)
    requires
        0 < num < 0x1_0000_0000_0000_0000_0000,
    ensures
        (out.m as nat, out.e as int) == rounded(num as nat, 1),
        0x10_0000_0000_0000 <= out.m <= 0x20_0000_0000_0000,
        -52 <= out.e <= 28,
{
    let two52: u128 = 0x10_0000_0000_0000;
    let two53: u128 = 0x20_0000_0000_0000;
    let mut n: u128 = num;
    let mut d: u128 = 1;
    let mut e: i32 = 0;
    proof {
        lemma2_to64();
        lemma2_to64_rest();
        assert(num * 1 == num) by (nonlinear_arith);
    }
    if n >= two53 {
        while n >= two53 * d
            invariant
                two53 == 0x20_0000_0000_0000,
                two52 == 0x10_0000_0000_0000,
                n == num,
                n < 0x1_0000_0000_0000_0000_0000,
                0 <= e <= 28,
                d == pow2(e as nat),
                1 <= d <= 0x1000_0000,
                two52 * d <= n,
                pow2(28) == 0x1000_0000,
            decreases n - d,
        {
            proof {
                lemma_pow2_unfold((e + 1) as nat);
                if e == 28 {
                    assert(two53 * d >= 0x1_0000_0000_0000_0000_0000);
                }
            }
            d = d * 2;
            e = e + 1;
        }
        proof {
            assert(num * 1 == num) by (nonlinear_arith);
            assert(1 * d == d) by (nonlinear_arith);
        }
    } else {
        let mut k: i32 = 0;
        while n < two52
            invariant
                two53 == 0x20_0000_0000_0000,
                two52 == 0x10_0000_0000_0000,
                num >= 1,
                0 <= k <= 52,
                n == num * pow2(k as nat),
                pow2(k as nat) <= n,
                n >= 1,
                n < two53,
                pow2(52) == two52,
            decreases two53 - n,
        {
            proof {
                lemma_pow2_unfold((k + 1) as nat);
                let p = pow2(k as nat) as int;
                assert(num * (2 * p) == 2 * (num * p)) by (nonlinear_arith);
            }
            n = n * 2;
            k = k + 1;
        }
        e = -k;
    }
    let m: u128 = nearest_whole(n, d);
    proof {
        assert(m <= two53 && m >= two52) by {
            let q = (n / d) as int;
            vstd::arithmetic::div_mod::lemma_fundamental_div_mod(n as int, d as int);
            assert(two52 <= q < two53) by (nonlinear_arith)
                requires
                    n == d * q + n % d,
                    0 <= n % d < d,
                    two52 * d <= n < two53 * d,
                    d > 0,
            ;
        }
        rounding_is_unique(num as nat, 1, m as nat, e as int);
    }
    Scaled { m: m as u64, e }
}

/// The nearest whole number to `m * 2^e`, a half away from zero.
pub open spec fn half_up(m: nat, e: int) -> nat {
    if e >= 0 {
        m * pow2(e as nat)
    } else {
        (2 * m + pow2((-e) as nat)) / (2 * pow2((-e) as nat))
    }
}

/// The nearest whole number to a positive number, or the largest one of 64
/// bits where it is too large for them.
pub fn to_whole(value: Scaled) -> (out: u64)
    requires
        0x10_0000_0000_0000 <= value.m <= 0x20_0000_0000_0000,
        -2000 <= value.e <= 2000,
    ensures
        out == (if half_up(value.m as nat, value.e as int) > u64::MAX {
            u64::MAX as nat
        } else {
            half_up(value.m as nat, value.e as int)
        }),
{
    proof {
        lemma2_to64();
        lemma2_to64_rest();
    }
    let m: u128 = value.m as u128;
    if value.e > 11 {
        proof {
            if value.e > 12 {
                lemma_pow2_strictly_increases(12, value.e as nat);
            }
            let p = pow2(value.e as nat);
            assert(m * p >= 0x10_0000_0000_0000 * 4096) by (nonlinear_arith)
                requires
                    m >= 0x10_0000_0000_0000,
                    p >= 4096,
            ;
        }
        u64::MAX
    } else if value.e >= 0 {
        let scale: u128 = power_of_two(value.e as u32);
        proof {
            assert(scale <= 2048) by {
                if value.e < 11 {
                    lemma_pow2_strictly_increases(value.e as nat, 11);
                }
            }
            assert(m * scale <= 0x20_0000_0000_0000 * 2048) by (nonlinear_arith)
                requires
                    0 <= m <= 0x20_0000_0000_0000,
                    0 <= scale <= 2048,
            ;
        }
        let product: u128 = m * scale;
        if product > 0xffff_ffff_ffff_ffff {
            u64::MAX
        } else {
            product as u64
        }
    } else if value.e < -54 {
        proof {
            let k = (-value.e) as nat;
            if k > 55 {
                lemma_pow2_strictly_increases(55, k);
            }
            let p = pow2(k) as int;
            assert((2 * m + p) / (2 * p) == 0) by (nonlinear_arith)
                requires
                    0 <= 2 * m < p,
            ;
        }
        0
    } else {
        let scale: u128 = power_of_two((-value.e) as u32);
        proof {
            let k = (-value.e) as nat;
            assert(scale <= 0x40_0000_0000_0000) by {
                if k < 54 {
                    lemma_pow2_strictly_increases(k, 54);
                }
            }
        }
        let whole: u128 = (2 * m + scale) / (2 * scale);
        proof {
            let top = 2 * m + scale;
            assert(whole <= top) by (nonlinear_arith)
                requires
                    whole == top / (2 * scale),
                    scale >= 1,
                    top >= 0,
            ;
        }
        whole as u64
    }
}

// ---------------------------------------------------------------------------
// Laws
// ---------------------------------------------------------------------------
/// Rounding gives the whole number next to a quotient: no other one is nearer,
/// and in the middle between two it gives the even one.
pub proof fn nearest_is_next_to_the_quotient(num: nat, den: nat)
    requires
        den > 0,
    ensures
        2 * (nearest(num, den) * den) <= 2 * num + den,
        2 * num <= 2 * (nearest(num, den) * den) + den,
        2 * (nearest(num, den) * den) == 2 * num + den || 2 * num == 2 * (nearest(num, den) * den)
            + den ==> nearest(num, den) % 2 == 0,
{
    let q = num / den;
    let r = num % den;
    let n = nearest(num, den);
    assert(num == q * den + r && 0 <= r < den) by (nonlinear_arith)
        requires
            den > 0,
            q == num / den,
            r == num % den,
    ;
    assert((q + 1) * den == q * den + den) by (nonlinear_arith);
    assert(n == q || n == q + 1);
}

/// Rounding a half up gives the whole number next to `m * 2^e`: no other one is
/// nearer, and in the middle between two it gives the upper one.
pub proof fn half_up_is_next_to_the_number(m: nat, e: int)
    ensures
        e >= 0 ==> half_up(m, e) == m * pow2(e as nat),
        e < 0 ==> 2 * m < 2 * (half_up(m, e) * pow2((-e) as nat)) + pow2((-e) as nat),
        e < 0 ==> 2 * (half_up(m, e) * pow2((-e) as nat)) <= 2 * m + pow2((-e) as nat),
{
    if e < 0 {
        let d = pow2((-e) as nat) as int;
        lemma_pow2_pos((-e) as nat);
        let h = half_up(m, e) as int;
        let a = 2 * m + d;
        assert(h == a / (2 * d));
        assert((2 * d) * h <= a < (2 * d) * h + 2 * d) by (nonlinear_arith)
            requires
                h == a / (2 * d),
                d > 0,
        ;
        assert((2 * d) * h == 2 * (h * d)) by (nonlinear_arith);
    }
}

/// Decimals behind a point: the text is the whole part, a point, and as many
/// digits as there are decimals, and these digits read as the rest.
pub proof fn decimals_stand_behind_the_point(units: nat, power: nat, digits: nat)
    requires
        power > 0,
        digits > 0,
        decimal((power - 1) as nat).len() <= digits,
    ensures
        ({
            let text = point_text(units, power, digits);
            let n = decimal(units / power).len() as int;
            &&& text.len() == n + 1 + digits
            &&& text[n] == '.'
            &&& decimal_value(text.take(n)) * power + decimal_value(text.skip(n + 1)) == units
            &&& forall|i: int| 0 <= i < text.len() && i != n ==> '0' <= #[trigger] text[i] <= '9'
        }),
{
    let text = point_text(units, power, digits);
    let whole = decimal(units / power);
    let rest = units % power;
    let n = whole.len() as int;
    reveal_strlit(".");
    decimal_round_trip(units / power);
    decimal_round_trip(rest);
    longer_numbers_are_not_shorter(rest, (power - 1) as nat);
    let padded = zero_padded(decimal(rest), digits);
    zeros_in_front_keep_the_number(decimal(rest), digits);
    assert(text.take(n) =~= whole);
    assert(text.skip(n + 1) =~= padded);
    assert(units == (units / power) * power + rest) by (nonlinear_arith)
        requires
            power > 0,
            rest == units % power,
    ;
}

/// A number of 53 bits that is followed by zero bits keeps its value when it is
/// rounded. Gives by how many bits it is moved up.
pub(crate) proof fn short_number_stays(n: nat, s: nat) -> (k: nat)
    requires
        0 < n < pow2(53),
    ensures
        rounded((n * pow2(s)) as nat, 1) == ((n * pow2(k)) as nat, s - k),
        pow2(52) <= n * pow2(k) < pow2(53),
{
    let k = bits_to_the_top(n);
    let m = (n * pow2(k)) as nat;
    let wide = (n * pow2(s)) as nat;
    lemma2_to64();
    lemma_pow2_pos(s);
    lemma_pow2_pos(k);
    let ps = pow2(s) as int;
    assert(wide > 0) by (nonlinear_arith)
        requires
            wide == n * ps,
            n > 0,
            ps > 0,
    ;
    let e = s - k;
    if e >= 0 {
        let d = pow2(e as nat);
        lemma_pow2_pos(e as nat);
        lemma_pow2_adds(k, e as nat);
        let pk = pow2(k) as int;
        assert(wide == m * d) by (nonlinear_arith)
            requires
                wide == n * ps,
                m == n * pk,
                ps == pk * d,
        ;
        assert(pow2(52) * d <= wide && wide < pow2(53) * d) by (nonlinear_arith)
            requires
                wide == m * d,
                pow2(52) <= m < pow2(53),
                d > 0,
        ;
        assert(wide / d == m && wide % d == 0) by (nonlinear_arith)
            requires
                wide == m * d,
                d > 0,
        ;
        assert(wide * 1 == wide && 1 * d == d) by (nonlinear_arith);
        assert(positive_part(-e) == 0 && positive_part(e) == e);
        assert(rounds_to(wide, 1, m, e));
    } else {
        let g = (-e) as nat;
        let pg = pow2(g) as int;
        lemma_pow2_adds(s, g);
        let pk = pow2(k) as int;
        assert(wide * pg == m) by (nonlinear_arith)
            requires
                wide == n * ps,
                m == n * pk,
                pk == ps * pg,
        ;
        assert(1nat * pow2(0) == 1) by {
            lemma2_to64();
        }
        assert(nearest(m, 1) == m);
        assert(positive_part(-e) == g && positive_part(e) == 0);
        assert(pow2(52) * 1 == pow2(52) && pow2(53) * 1 == pow2(53));
        assert(wide * pow2(g) == m);
        assert(rounds_to(wide, 1, m, e));
    }
    rounding_is_unique(wide, 1, m, e);
    k
}

/// A number is moved up to 53 bits in one way only.
pub(crate) proof fn moved_up_once(n: nat, j: nat, k: nat)
    requires
        pow2(52) <= n * pow2(j) < pow2(53),
        pow2(52) <= n * pow2(k) < pow2(53),
    ensures
        j == k,
{
    lemma2_to64();
    lemma2_to64_rest();
    if j < k {
        twice_as_high(n, j, k);
    } else if k < j {
        twice_as_high(n, k, j);
    }
}

proof fn twice_as_high(n: nat, j: nat, k: nat)
    requires
        j < k,
    ensures
        n * pow2(k) >= 2 * (n * pow2(j)),
{
    let g = (k - j) as nat;
    lemma_pow2_adds(j, g);
    lemma_pow2_unfold(g);
    lemma_pow2_pos((g - 1) as nat);
    let (pj, pg) = (pow2(j) as int, pow2(g) as int);
    assert(n * (pj * pg) >= 2 * (n * pj)) by (nonlinear_arith)
        requires
            pg >= 2,
            pj >= 0,
            n >= 0,
    ;
}

proof fn bits_to_the_top(n: nat) -> (k: nat)
    requires
        0 < n < pow2(53),
    ensures
        pow2(52) <= n * pow2(k) < pow2(53),
    decreases pow2(53) - n,
{
    lemma2_to64();
    lemma2_to64_rest();
    if n >= pow2(52) {
        assert(n * 1 == n) by (nonlinear_arith);
        0
    } else {
        let below = bits_to_the_top(2 * n);
        let p = pow2(below) as int;
        lemma_pow2_unfold(below + 1);
        assert(n * (2 * p) == (2 * n) * p) by (nonlinear_arith);
        below + 1
    }
}

/// Zero bits at the end of a number do not change what it is rounded to.
pub(crate) proof fn half_up_of_moved_bits(m: nat, k: nat, e: int)
    ensures
        half_up((m * pow2(k)) as nat, e - k) == half_up(m, e),
{
    let p = pow2(k) as int;
    lemma_pow2_pos(k);
    lemma2_to64();
    let v = (m * pow2(k)) as int;
    if e - k >= 0 {
        let d = pow2((e - k) as nat) as int;
        lemma_pow2_adds(k, (e - k) as nat);
        assert((m * p) * d == m * (p * d)) by (nonlinear_arith);
    } else if e >= 0 {
        let d = pow2((k - e) as nat) as int;
        let q = pow2(e as nat) as int;
        lemma_pow2_adds(e as nat, (k - e) as nat);
        lemma_pow2_pos((k - e) as nat);
        assert((2 * v + d) / (2 * d) == m * q) by (nonlinear_arith)
            requires
                v == m * p,
                p == q * d,
                d > 0,
        ;
    } else {
        let d = pow2((-e) as nat) as int;
        let w = pow2((k - e) as nat) as int;
        lemma_pow2_adds(k, (-e) as nat);
        lemma_pow2_pos((-e) as nat);
        assert(w == p * d);
        let a = 2 * m + d;
        assert(2 * v + w == p * a) by (nonlinear_arith)
            requires
                v == m * p,
                w == p * d,
                a == 2 * m + d,
        ;
        assert(2 * w == p * (2 * d)) by (nonlinear_arith)
            requires
                w == p * d,
        ;
        assert((p * a) / (p * (2 * d)) == a / (2 * d)) by {
            vstd::arithmetic::div_mod::lemma_div_denominator(p * a, p, 2 * d);
            vstd::arithmetic::div_mod::lemma_div_multiples_vanish(a, p);
            assert((p * a) / p == a) by (nonlinear_arith)
                requires
                    p > 0,
            ;
        }
    }
}

/// A span of microseconds in another unit is the quotient of the two, rounded
/// once to 53 bits.
pub proof fn spans_are_divided_once(span: nat, unit: nat)
    requires
        0 < span < pow2(53),
        unit > 0,
    ensures
        rounds_to(span, unit, span_in(span, unit).0, span_in(span, unit).1),
{
    lemma2_to64();
    let k = short_number_stays(span, 0);
    assert(span * 1 == span) by (nonlinear_arith);
    let a = (span * pow2(k)) as nat;
    assert(rounded(span, 1) == (a, -k));
    assert(span < pow2(53) * unit) by (nonlinear_arith)
        requires
            span < pow2(53),
            unit > 0,
    ;
    let v = rounding_exists(span, unit);
    moved_quotient(span, unit, k, v.0, v.1);
    lemma_pow2_pos(k);
    assert(a > 0) by (nonlinear_arith)
        requires
            a == span * pow2(k),
            span > 0,
            pow2(k) > 0,
    ;
    rounding_is_unique(a, unit, v.0, v.1 + k);
}

/// A quotient that is not too large can be rounded.
pub(crate) proof fn rounding_exists(num: nat, den: nat) -> (v: (nat, int))
    requires
        num > 0,
        den > 0,
        num < pow2(53) * den,
    ensures
        rounds_to(num, den, v.0, v.1),
    decreases pow2(53) * den - num,
{
    lemma2_to64();
    lemma2_to64_rest();
    if num >= pow2(52) * den {
        let m = nearest(num, den);
        assert(num * 1 == num && den * 1 == den) by (nonlinear_arith);
        assert(rounds_to(num, den, m, 0));
        (m, 0)
    } else {
        assert(2 * num < pow2(53) * den) by (nonlinear_arith)
            requires
                num < pow2(52) * den,
                pow2(53) == 2 * pow2(52),
        ;
        let v = rounding_exists(2 * num, den);
        assert(num * pow2(1) == 2 * num);
        moved_quotient(num, den, 1, v.0, v.1 - 1);
        (v.0, v.1 - 1)
    }
}

/// A span that is a whole number of decimals of a unit is given by exactly
/// these decimals.
pub(crate) proof fn whole_decimals_are_exact(span: nat, unit: nat, units: nat, power: nat)
    requires
        0 < span < pow2(53),
        unit > 0,
        power > 0,
        2 * power < unit,
        span * power == units * unit,
    ensures
        units_of(span_in(span, unit).0, span_in(span, unit).1, power) == units,
{
    spans_are_divided_once(span, unit);
    let (m, e) = span_in(span, unit);
    lemma2_to64();
    lemma2_to64_rest();
    if e > 0 {
        let d = pow2(e as nat) as int;
        lemma_pow2_pos(e as nat);
        lemma_pow2_unfold(e as nat);
        lemma_pow2_pos((e - 1) as nat);
        assert(pow2(52) * (unit * d) >= pow2(53)) by (nonlinear_arith)
            requires
                unit > 0,
                d >= 2,
                pow2(53) == 2 * pow2(52),
        ;
        assert(span * pow2(0) == span);
        assert(false);
    }
    let k = (-e) as nat;
    let p = pow2(k) as int;
    lemma_pow2_pos(k);
    let n = span * p;
    assert(unit * pow2(0) == unit) by (nonlinear_arith)
        requires
            pow2(0) == 1,
    ;
    assert(m == nearest((span * pow2(k)) as nat, unit));
    nearest_is_next_to_the_quotient((span * pow2(k)) as nat, unit);
    assert(p * 2 > unit) by (nonlinear_arith)
        requires
            pow2(52) * unit <= span * p,
            span < pow2(53),
            pow2(53) == 2 * pow2(52),
            p > 0,
            unit > 0,
            pow2(52) > 0,
    ;
    let w = m * power;
    assert(2 * w - 2 * (units * p) <= power && 2 * (units * p) - 2 * w <= power)
        by (nonlinear_arith)
        requires
            w == m * power,
            2 * (m * unit) <= 2 * (span * p) + unit,
            2 * (span * p) <= 2 * (m * unit) + unit,
            span * power == units * unit,
            unit > 0,
            power > 0,
    {
        assert(2 * (w * unit) <= 2 * (units * p) * unit + unit * power) by {
            assert((2 * (m * unit)) * power <= (2 * (span * p) + unit) * power);
            assert((2 * (m * unit)) * power == 2 * (w * unit));
            assert((span * p) * power == (units * p) * unit);
        }
        assert(2 * (units * p) * unit <= 2 * (w * unit) + unit * power) by {
            assert((2 * (span * p)) * power <= (2 * (m * unit) + unit) * power);
            assert((2 * (m * unit)) * power == 2 * (w * unit));
            assert((span * p) * power == (units * p) * unit);
        }
    }
    assert(power < p);
    let q = w as int / p;
    let r = w as int % p;
    assert(w == q * p + r && 0 <= r < p) by (nonlinear_arith)
        requires
            p > 0,
            q == w as int / p,
            r == w as int % p,
    ;
    if q == units {
        assert(2 * r <= power);
    } else if q + 1 == units {
        assert((q + 1) * p == q * p + p) by (nonlinear_arith);
        assert(2 * r > p);
    } else if q > units {
        assert((q - units) * p >= p) by (nonlinear_arith)
            requires
                q - units >= 1,
                p > 0,
        ;
        assert((q - units) * p == q * p - units * p) by (nonlinear_arith);
        assert(false);
    } else {
        assert((units - q) * p >= 2 * p) by (nonlinear_arith)
            requires
                units - q >= 2,
                p > 0,
        ;
        assert((units - q) * p == units * p - q * p) by (nonlinear_arith);
        assert(false);
    }
    assert(w * 1 == w) by (nonlinear_arith);
    assert(positive_part(e) == 0 && positive_part(-e) == k);
    assert(nearest(w as nat, pow2(k)) == units);
}

/// A quotient whose numerator is moved up is moved up itself.
proof fn moved_quotient(num: nat, den: nat, k: nat, m: nat, e: int)
    requires
        den > 0,
    ensures
        rounds_to((num * pow2(k)) as nat, den, m, e + k) <==> rounds_to(num, den, m, e),
{
    let wide = (num * pow2(k)) as nat;
    let n1 = num * pow2(positive_part(-e));
    let d1 = den * pow2(positive_part(e));
    let n2 = wide * pow2(positive_part(-(e + k)));
    let d2 = den * pow2(positive_part(e + k));
    // `n2 / d2` is `n1 / d1` with a common factor.
    lemma_pow2_adds(k, positive_part(-(e + k)));
    let pk = pow2(k) as int;
    let a1 = pow2(positive_part(-e)) as int;
    let b1 = pow2(positive_part(e)) as int;
    let a2 = pow2(positive_part(-(e + k))) as int;
    let b2 = pow2(positive_part(e + k)) as int;
    lemma_pow2_pos(positive_part(e));
    lemma2_to64();
    let c: nat = if e >= 0 {
        k
    } else if e + k >= 0 {
        (e + k) as nat
    } else {
        0
    };
    let pc = pow2(c) as nat;
    lemma_pow2_pos(c);
    if e >= 0 {
        lemma_pow2_adds(k, e as nat);
        assert(n2 == pc * n1 && d2 == pc * d1) by (nonlinear_arith)
            requires
                n2 == (num * pk) * 1,
                n1 == num * 1,
                d2 == den * (pk * b1),
                d1 == den * b1,
                pc == pk,
        ;
    } else if e + k >= 0 {
        lemma_pow2_adds((-e) as nat, (e + k) as nat);
        assert(n2 == pc * n1 && d2 == pc * d1) by (nonlinear_arith)
            requires
                n2 == (num * pk) * 1,
                n1 == num * a1,
                pk == a1 * pc,
                d2 == den * pc,
                d1 == den * 1,
        ;
    } else {
        assert(n2 == pc * n1 && d2 == pc * d1) by (nonlinear_arith)
            requires
                n2 == (num * pk) * a2,
                n1 == num * a1,
                a1 == pk * a2,
                d2 == den * 1,
                d1 == den * 1,
                pc == 1,
        ;
    }
    assert(d1 > 0) by (nonlinear_arith)
        requires
            d1 == den * b1,
            den > 0,
            b1 > 0,
    ;
    crate::decimals::nearest_expanded(n1 as nat, d1 as nat, pc);
    assert(pow2(52) * d2 <= n2 <==> pow2(52) * d1 <= n1) by (nonlinear_arith)
        requires
            n2 == pc * n1,
            d2 == pc * d1,
            pc > 0,
    ;
    assert(n2 < pow2(53) * d2 <==> n1 < pow2(53) * d1) by (nonlinear_arith)
        requires
            n2 == pc * n1,
            d2 == pc * d1,
            pc > 0,
    ;
    assert(n1 * pc == n2 && d1 * pc == d2) by (nonlinear_arith)
        requires
            n2 == pc * n1,
            d2 == pc * d1,
    ;
}

/// A quotient whose divisor is moved up is moved down itself.
pub(crate) proof fn moved_divisor(num: nat, den: nat, k: nat, m: nat, e: int)
    requires
        den > 0,
    ensures
        rounds_to(num, (den * pow2(k)) as nat, m, e) <==> rounds_to(num, den, m, e + k),
{
    lemma_pow2_pos(k);
    let wide = (den * pow2(k)) as nat;
    assert(wide > 0) by (nonlinear_arith)
        requires
            wide == den * pow2(k),
            den > 0,
            pow2(k) > 0,
    ;
    moved_quotient(num, wide, k, m, e);
    let (a, b) = (pow2(positive_part(-(e + k))) as int, pow2(positive_part(e + k)) as int);
    let p = pow2(k);
    lemma_pow2_pos(positive_part(e + k));
    let n1 = num * a;
    let d1 = den * b;
    let n2 = (num * p) * a;
    let d2 = wide * b;
    assert(n2 == n1 * p && d2 == d1 * p && d1 > 0) by (nonlinear_arith)
        requires
            n1 == num * a,
            d1 == den * b,
            n2 == (num * p) * a,
            d2 == wide * b,
            wide == den * p,
            den > 0,
            b > 0,
    ;
    crate::decimals::nearest_expanded(n1 as nat, d1 as nat, p);
    assert(pow2(52) * d2 <= n2 <==> pow2(52) * d1 <= n1) by (nonlinear_arith)
        requires
            n2 == n1 * p,
            d2 == d1 * p,
            p > 0,
    ;
    assert(n2 < pow2(53) * d2 <==> n1 < pow2(53) * d1) by (nonlinear_arith)
        requires
            n2 == n1 * p,
            d2 == d1 * p,
            p > 0,
    ;
}

/// A percentage is a hundred times the part, divided by the total, and rounded
/// once to 53 bits, where both are short enough.
pub proof fn percentages_are_divided_once(n: nat, total: nat)
    requires
        0 < n,
        100 * n < pow2(53),
        0 < total < pow2(53),
    ensures
        rounds_to(100 * n, total, percent_of(n, total).0, percent_of(n, total).1),
{
    lemma2_to64();
    let ka = short_number_stays(n, 0);
    assert(n * 1 == n) by (nonlinear_arith);
    let a = (n * pow2(ka)) as nat;
    let kb = short_number_stays(100 * n, ka);
    assert((100 * n) * pow2(ka) == a * 100) by (nonlinear_arith)
        requires
            a == n * pow2(ka),
    ;
    let b = ((100 * n) * pow2(kb)) as nat;
    let kc = short_number_stays(total, 0);
    assert(total * 1 == total) by (nonlinear_arith);
    let c = (total * pow2(kc)) as nat;
    assert(100 * n < pow2(53) * total) by (nonlinear_arith)
        requires
            100 * n < pow2(53),
            total > 0,
    ;
    let v = rounding_exists(100 * n, total);
    moved_quotient(100 * n, total, kb, v.0, v.1);
    moved_divisor(b, total, kc, v.0, v.1 + kb - kc);
    lemma2_to64_rest();
    assert(b > 0 && c > 0);
    rounding_is_unique(b, c, v.0, v.1 + kb - kc);
}

} // verus!
