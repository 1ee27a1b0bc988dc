//! Times on a slider: binary64 seconds, and the microseconds that they stand
//! for.
use crate::binary64::{
    whole_fraction_bound, Real64, FRACTION_WEIGHT, INFINITY_BITS, SIGN_WEIGHT,
};
use crate::rounding::{
    half_up, half_up_of_moved_bits, nearest, point_text, push_point, round_whole, rounded,
    rounding_is_unique, rounds_to, short_number_stays, span_in, span_quotient,
    spans_are_divided_once, to_units, to_whole, units_of, whole_decimals_are_exact, Scaled,
};
use crate::text::{decimal, push_decimal, zero_padded};
use vstd::arithmetic::power2::{
    lemma2_to64, lemma2_to64_rest, lemma_pow2_adds, lemma_pow2_pos, lemma_pow2_unfold, pow2,
};
use vstd::prelude::*;

verus! {

/// The bit pattern of `m * 2^e`, for a significand of 53 bits.
pub open spec fn pattern(m: nat, e: int) -> int {
    (e + 1074) * 0x10_0000_0000_0000 + m
}

/// A span of microseconds, in seconds.
pub open spec fn seconds_of(span_us: nat) -> int {
    if span_us == 0 {
        0
    } else {
        let v = span_in(span_us, 1_000_000);
        pattern(v.0, v.1)
    }
}

pub fn us_to_seconds(span_us: u64) -> (out: Real64)
    ensures
        out.bits == seconds_of(span_us as nat),
        out.bits < INFINITY_BITS,
{
    if span_us == 0 {
        return Real64 { bits: 0 };
    }
    let v = span_quotient(span_us, 1_000_000);
    let exponent: u64 = (v.e + 1074) as u64;
    Real64 { bits: exponent * FRACTION_WEIGHT + v.m }
}

/// The significand and the exponent of a number that is neither negative nor
/// infinite.
pub open spec fn parts_of(x: Real64) -> (nat, int) {
    let exponent = x.bits as int / 0x10_0000_0000_0000;
    let fraction = x.bits as int % 0x10_0000_0000_0000;
    if exponent == 0 {
        (fraction as nat, -1074)
    } else {
        ((fraction + 0x10_0000_0000_0000) as nat, exponent - 1075)
    }
}

/// The microseconds of a time in seconds, in the steps of binary64
/// arithmetic: negative times and what is no number count as zero, and times
/// that are too large as the largest one.
pub open spec fn micros(seconds: Real64) -> nat {
    if seconds.is_nan() || seconds.bits >= SIGN_WEIGHT || seconds.bits == 0 {
        0
    } else if seconds.bits == INFINITY_BITS {
        u64::MAX as nat
    } else {
        let x = parts_of(seconds);
        let p = rounded(x.0 * 1_000_000, 1);
        let whole = half_up(p.0, p.1 + x.1);
        if whole > u64::MAX {
            u64::MAX as nat
        } else {
            whole
        }
    }
}

pub fn seconds_to_us(seconds: Real64) -> (out: u64)
    ensures
        out == micros(seconds),
{
    if seconds.nan() || seconds.bits >= SIGN_WEIGHT || seconds.bits == 0 {
        return 0;
    }
    if seconds.bits == INFINITY_BITS {
        return u64::MAX;
    }
    let exponent: u64 = seconds.bits / FRACTION_WEIGHT;
    let fraction: u64 = seconds.bits % FRACTION_WEIGHT;
    let m: u64 = if exponent == 0 {
        fraction
    } else {
        fraction + FRACTION_WEIGHT
    };
    let e: i32 = if exponent == 0 {
        -1074
    } else {
        exponent as i32 - 1075
    };
    let product = round_whole(m as u128 * 1_000_000);
    to_whole(Scaled { m: product.m, e: product.e + e })
}

/// A span of microseconds in seconds, with three decimals.
pub open spec fn seconds_text(span_us: nat) -> Seq<char> {
    if span_us == 0 {
        "0.000 s"@
    } else {
        let v = span_in(span_us, 1_000_000);
        point_text(units_of(v.0, v.1, 1000), 1000, 3) + " s"@
    }
}

/// Appends a span of microseconds in seconds, with three decimals.
pub fn push_seconds(out: &mut String, span_us: u64)
    ensures
        final(out)@ == old(out)@ + seconds_text(span_us as nat),
{
    if span_us == 0 {
        out.append("0.000 s");
    } else {
        let v = span_quotient(span_us, 1_000_000);
        push_point(out, to_units(v, 1000), 1000, 3);
        out.append(" s");
        assert(out@ =~= old(out)@ + seconds_text(span_us as nat));
    }
}

/// A span of microseconds in the unit that fits it.
pub open spec fn span_text(span_us: nat) -> Seq<char> {
    if span_us >= 1_000_000 {
        seconds_text(span_us)
    } else if span_us >= 1_000 {
        let v = span_in(span_us, 1_000);
        point_text(units_of(v.0, v.1, 10), 10, 1) + " ms"@
    } else {
        decimal(span_us) + " us"@
    }
}

pub fn format_us_span(span_us: u64) -> (out: String)
    ensures
        out@ == span_text(span_us as nat),
{
    let mut out = String::new();
    if span_us >= 1_000_000 {
        push_seconds(&mut out, span_us);
    } else if span_us >= 1_000 {
        let v = span_quotient(span_us, 1_000);
        push_point(&mut out, to_units(v, 10), 10, 1);
        out.append(" ms");
    } else {
        push_decimal(&mut out, span_us);
        out.append(" us");
    }
    assert(out@ =~= span_text(span_us as nat));
    out
}

// ---------------------------------------------------------------------------
// Laws
// ---------------------------------------------------------------------------
/// A whole number of seconds is a million microseconds each, and the other way
/// round.
pub proof fn seconds_have_a_million_microseconds(x: Real64, n: nat)
    requires
        x.is_whole(n),
        n * 1_000_000 < pow2(53),
    ensures
        micros(x) == n * 1_000_000,
        seconds_of(n * 1_000_000) == x.bits,
{
    if n > 0 {
        let ex = choose|ex: nat| x.is_whole_with(n, ex);
        whole_fraction_bound(x, n, ex);
        let k = (52 - ex) as nat;
        let (pe, pk) = (pow2(ex) as int, pow2(k) as int);
        lemma_pow2_adds(ex, k);
        lemma2_to64();
        lemma2_to64_rest();
        lemma_pow2_pos(k);
        let m = n * pow2(k);
        assert((n - pe) * pk == n * pk - pe * pk) by (nonlinear_arith);
        assert(pe * pk == 0x10_0000_0000_0000);
        assert(x.bits as int / 0x10_0000_0000_0000 == 1023 + ex);
        assert(parts_of(x) == (m, -k));
        let us = n * 1_000_000;
        assert(m * 1_000_000 == us * pow2(k)) by (nonlinear_arith)
            requires
                m == n * pow2(k),
                us == n * 1_000_000,
        ;
        let j = short_number_stays(us, k);
        half_up_of_moved_bits(us, j, 0);
        assert(us * pow2(0) == us) by (nonlinear_arith)
            requires
                pow2(0) == 1,
        ;
        assert(rounded((m * 1_000_000) as nat, 1) == ((us * pow2(j)) as nat, k - j));
        assert(half_up((us * pow2(j)) as nat, 0 - j) == us);
        assert(x.bits < INFINITY_BITS && x.bits < SIGN_WEIGHT && x.bits > 0);
        spans_are_divided_once(us, 1_000_000);
        assert(us * pow2(k) == m * 1_000_000);
        assert(pow2(53) == 2 * pow2(52));
        lemma_pow2_unfold(ex + 1);
        assert(pow2(52) <= m < pow2(53)) by (nonlinear_arith)
            requires
                m == n * pk,
                pe <= n < 2 * pe,
                pe * pk == pow2(52),
                pk > 0,
                pow2(53) == 2 * pow2(52),
        ;
        let (num, den) = ((m * 1_000_000) as nat, 1_000_000nat);
        assert(num / den == m && num % den == 0) by (nonlinear_arith)
            requires
                num == m * den,
                den > 0,
        ;
        assert(nearest(num, den) == m);
        assert(den * pow2(0) == den) by (nonlinear_arith)
            requires
                pow2(0) == 1,
        ;
        assert(pow2(52) * den <= num && num < pow2(53) * den) by (nonlinear_arith)
            requires
                num == m * den,
                pow2(52) <= m < pow2(53),
                den > 0,
        ;
        assert(rounds_to(us, den, m, -k));
        rounding_is_unique(us, den, m, -k);
        let v = span_in(us, 1_000_000);
        rounding_is_unique(us, den, v.0, v.1);
    }
}

/// No time is before the start: negative times, and what is no number, are the
/// start.
pub proof fn times_before_the_start_are_the_start(x: Real64)
    ensures
        x.lt(Real64 { bits: 0 }) || x.is_nan() ==> micros(x) == 0,
        micros(Real64 { bits: 0 }) == 0,
        micros(x) <= u64::MAX,
{
}

/// How a span is written: microseconds up to a millisecond, then milliseconds
/// with one decimal up to a second, then seconds with three decimals.
pub proof fn spans_are_written_in_their_unit(span: nat)
    requires
        span < pow2(53),
    ensures
        span < 1_000 ==> span_text(span) == decimal(span) + " us"@,
        1_000 <= span < 1_000_000 && span % 100 == 0 ==> span_text(span) == decimal(span / 1_000)
            + "."@ + zero_padded(decimal((span / 100) % 10), 1) + " ms"@,
        1_000_000 <= span && span % 1_000 == 0 ==> span_text(span) == decimal(span / 1_000_000)
            + "."@ + zero_padded(decimal((span / 1_000) % 1_000), 3) + " s"@,
        span > 0 && span % 1_000 == 0 ==> seconds_text(span) == decimal(span / 1_000_000) + "."@
            + zero_padded(decimal((span / 1_000) % 1_000), 3) + " s"@,
{
    if 1_000 <= span < 1_000_000 && span % 100 == 0 {
        let t = (span / 100) as nat;
        assert(span * 10 == t * 1_000);
        whole_decimals_are_exact(span, 1_000, t, 10);
        assert(t / 10 == span / 1_000);
    }
    if span > 0 && span % 1_000 == 0 {
        let t = (span / 1_000) as nat;
        assert(span * 1_000 == t * 1_000_000);
        whole_decimals_are_exact(span, 1_000_000, t, 1_000);
        assert(t / 1_000 == span / 1_000_000);
    }
}

} // verus!
