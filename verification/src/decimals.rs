//! Lists of decimal digits, long enough for every finite floating-point number,
//! and the texts that they are written as.
use crate::rounding::{
    decimals_stand_behind_the_point, nearest, nearest_is_next_to_the_quotient, point_text,
    positive_part, units_of,
};
use crate::text::{decimal, decimal_round_trip, decimal_value, digit_char, zero_padded};
use vstd::arithmetic::div_mod::{
    lemma_div_denominator, lemma_div_is_ordered, lemma_fundamental_div_mod,
    lemma_fundamental_div_mod_converse,
};
use vstd::arithmetic::power2::{lemma2_to64, lemma_pow2_pos, lemma_pow2_unfold, pow2};
use vstd::prelude::*;

verus! {

/// `base` to the power of `k`.
pub open spec fn power(base: nat, k: nat) -> nat
    decreases k,
{
    if k == 0 {
        1
    } else {
        base * power(base, (k - 1) as nat)
    }
}

/// Ten to the power of `k`.
pub open spec fn tens(k: nat) -> nat {
    power(10, k)
}

proof fn tens_positive(k: nat)
    ensures
        tens(k) > 0,
    decreases k,
{
    if k > 0 {
        tens_positive((k - 1) as nat);
    }
}

/// Ten is five times two.
proof fn tens_split(k: nat)
    ensures
        tens(k) == power(5, k) * pow2(k),
        power(5, k) > 0,
    decreases k,
{
    if k == 0 {
        lemma2_to64();
    } else {
        tens_split((k - 1) as nat);
        lemma_pow2_unfold(k);
        let five = power(5, (k - 1) as nat);
        let two = pow2((k - 1) as nat);
        assert((5 * five) * (2 * two) == 10 * (five * two)) by (nonlinear_arith);
    }
}

// ---------------------------------------------------------------------------
// Digits
// ---------------------------------------------------------------------------
/// The number that digits stand for, the last digit first.
pub open spec fn digits_value(digits: Seq<u8>) -> nat
    decreases digits.len(),
{
    if digits.len() == 0 {
        0
    } else {
        digits[0] as nat + 10 * digits_value(digits.skip(1))
    }
}

pub open spec fn are_digits(digits: Seq<u8>) -> bool {
    forall|i: int| 0 <= i < digits.len() ==> #[trigger] digits[i] < 10
}

proof fn one_more_digit(digit: u8, rest: Seq<u8>)
    requires
        digit < 10,
        are_digits(rest),
    ensures
        are_digits(seq![digit] + rest),
        digits_value(seq![digit] + rest) == digit + 10 * digits_value(rest),
{
    let all = seq![digit] + rest;
    assert(all.skip(1) =~= rest);
    assert forall|i: int| 0 <= i < all.len() implies #[trigger] all[i] < 10 by {
        if i > 0 {
            assert(all[i] == rest[i - 1]);
        }
    }
}

/// Digits can be split into a lower and an upper part.
proof fn split_digits(digits: Seq<u8>, at: nat)
    requires
        are_digits(digits),
        at <= digits.len(),
    ensures
        digits_value(digits) == digits_value(digits.take(at as int)) + tens(at) * digits_value(
            digits.skip(at as int),
        ),
        digits_value(digits.take(at as int)) < tens(at),
        digits_value(digits.skip(at as int)) == digits_value(digits) / tens(at),
        digits_value(digits.take(at as int)) == digits_value(digits) % tens(at),
    decreases at,
{
    let low = digits.take(at as int);
    let high = digits.skip(at as int);
    if at == 0 {
        assert(high =~= digits);
    } else {
        let rest = digits.skip(1);
        let below = (at - 1) as nat;
        assert forall|i: int| 0 <= i < rest.len() implies #[trigger] rest[i] < 10 by {
            assert(rest[i] == digits[i + 1]);
        }
        split_digits(rest, below);
        assert(low.skip(1) =~= rest.take(below as int));
        assert(high =~= rest.skip(below as int));
        let t = tens(below);
        let h = digits_value(high);
        assert(10 * (t * h) == (10 * t) * h) by (nonlinear_arith);
    }
    tens_positive(at);
    let unit = tens(at) as int;
    let upper = digits_value(high) as int;
    assert(unit * upper == upper * unit) by (nonlinear_arith);
    lemma_fundamental_div_mod_converse(
        digits_value(digits) as int,
        unit,
        upper,
        digits_value(low) as int,
    );
}

/// Digits without their first one.
proof fn next_digit(digits: Seq<u8>, at: int)
    requires
        are_digits(digits),
        0 <= at < digits.len(),
    ensures
        digits_value(digits.skip(at)) == digits[at] + 10 * digits_value(digits.skip(at + 1)),
{
    assert(digits.skip(at).skip(1) =~= digits.skip(at + 1));
}

/// Zeros on top change nothing.
proof fn zeros_on_top(digits: Seq<u8>, more: nat)
    ensures
        digits_value(digits + Seq::new(more, |i: int| 0u8)) == digits_value(digits),
    decreases digits.len(), more,
{
    let zeros = Seq::new(more, |i: int| 0u8);
    let all = digits + zeros;
    if digits.len() > 0 {
        assert(all.skip(1) =~= digits.skip(1) + zeros);
        zeros_on_top(digits.skip(1), more);
    } else if more > 0 {
        let fewer = (more - 1) as nat;
        zeros_on_top(digits, fewer);
        assert(all.skip(1) =~= digits + Seq::new(fewer, |i: int| 0u8));
    }
}

/// Zeros below multiply by ten.
proof fn zeros_below(digits: Seq<u8>, more: nat)
    ensures
        digits_value(Seq::new(more, |i: int| 0u8) + digits) == digits_value(digits) * tens(more),
    decreases more,
{
    let all = Seq::new(more, |i: int| 0u8) + digits;
    let v = digits_value(digits);
    if more == 0 {
        assert(all =~= digits);
        assert(v * 1 == v) by (nonlinear_arith);
    } else {
        let fewer = (more - 1) as nat;
        zeros_below(digits, fewer);
        assert(all.skip(1) =~= Seq::new(fewer, |i: int| 0u8) + digits);
        let t = tens(fewer);
        assert(10 * (v * t) == v * (10 * t)) by (nonlinear_arith);
    }
}

/// Adds zeros on top until there are `len` digits.
fn pad(digits: &mut Vec<u8>, len: usize)
    requires
        are_digits(old(digits)@),
    ensures
        are_digits(final(digits)@),
        final(digits)@.len() == if old(digits)@.len() < len {
            len as nat
        } else {
            old(digits)@.len()
        },
        digits_value(final(digits)@) == digits_value(old(digits)@),
{
    let ghost start = digits@;
    assert(digits@ =~= start + Seq::new(0, |i: int| 0u8));
    while digits.len() < len
        invariant
            are_digits(digits@),
            start.len() <= digits@.len(),
            start.len() < len ==> digits@.len() <= len,
            start.len() >= len ==> digits@.len() == start.len(),
            digits@ == start + Seq::new((digits@.len() - start.len()) as nat, |i: int| 0u8),
        decreases len - digits@.len(),
    {
        digits.push(0);
        assert(digits@ =~= start + Seq::new((digits@.len() - start.len()) as nat, |i: int| 0u8));
    }
    proof {
        zeros_on_top(start, (digits@.len() - start.len()) as nat);
    }
}

/// Appends digits from place `i` on, multiplied by a factor, and a carry.
fn push_times(out: &mut Vec<u8>, digits: &Vec<u8>, i: usize, factor: u8, carry: u8) -> (more:
    Ghost<Seq<u8>>)
    requires
        are_digits(digits@),
        i <= digits@.len(),
        carry <= factor <= 9,
    ensures
        final(out)@ == old(out)@ + more@,
        are_digits(more@),
        digits_value(more@) == factor * digits_value(digits@.skip(i as int)) + carry,
    decreases digits@.len() - i,
{
    if i == digits.len() {
        assert(factor * 0 == 0) by (nonlinear_arith);
        assert(digits@.skip(i as int) =~= Seq::<u8>::empty());
        if carry == 0 {
            assert(out@ =~= old(out)@ + Seq::<u8>::empty());
            return Ghost(Seq::empty());
        }
        out.push(carry);
        proof {
            one_more_digit(carry, Seq::empty());
        }
        assert(seq![carry] + Seq::<u8>::empty() =~= seq![carry]);
        let ghost all = seq![carry];
        return Ghost(all);
    }
    assert(factor * digits@[i as int] <= 9 * factor) by (nonlinear_arith)
        requires
            digits@[i as int] <= 9,
    ;
    let sum: u8 = factor * digits[i] + carry;
    let digit: u8 = sum % 10;
    out.push(digit);
    let rest = push_times(out, digits, i + 1, factor, sum / 10);
    proof {
        next_digit(digits@, i as int);
        one_more_digit(digit, rest@);
        assert(out@ =~= old(out)@ + (seq![digit] + rest@));
        let first = digits@[i as int] as int;
        let upper = digits_value(digits@.skip(i + 1)) as int;
        assert(factor * (first + 10 * upper) == factor * first + 10 * (factor * upper))
            by (nonlinear_arith);
    }
    Ghost(seq![digit] + rest@)
}

/// Appends digits from place `i` on, less one.
fn push_less_one(out: &mut Vec<u8>, digits: &Vec<u8>, i: usize) -> (more: Ghost<Seq<u8>>)
    requires
        are_digits(digits@),
        i <= digits@.len(),
        digits_value(digits@.skip(i as int)) > 0,
    ensures
        final(out)@ == old(out)@ + more@,
        are_digits(more@),
        digits_value(more@) == digits_value(digits@.skip(i as int)) - 1,
    decreases digits@.len() - i,
{
    proof {
        if i == digits@.len() {
            assert(digits@.skip(i as int) =~= Seq::<u8>::empty());
        }
        next_digit(digits@, i as int);
    }
    assert(i < digits.len());
    if digits[i] > 0 {
        let digit: u8 = digits[i] - 1;
        out.push(digit);
        let rest = push_times(out, digits, i + 1, 1, 0);
        proof {
            one_more_digit(digit, rest@);
            assert(out@ =~= old(out)@ + (seq![digit] + rest@));
        }
        Ghost(seq![digit] + rest@)
    } else {
        out.push(9);
        let rest = push_less_one(out, digits, i + 1);
        proof {
            one_more_digit(9, rest@);
            assert(out@ =~= old(out)@ + (seq![9u8] + rest@));
        }
        Ghost(seq![9u8] + rest@)
    }
}

fn less_one(digits: &Vec<u8>) -> (out: Vec<u8>)
    requires
        are_digits(digits@),
        digits_value(digits@) > 0,
    ensures
        are_digits(out@),
        digits_value(out@) == digits_value(digits@) - 1,
{
    let mut out: Vec<u8> = Vec::new();
    assert(digits@.skip(0) =~= digits@);
    let more = push_less_one(&mut out, digits, 0);
    assert(out@ =~= more@);
    out
}

/// Digits, multiplied by a factor, and a carry.
fn multiplied(digits: &Vec<u8>, factor: u8, carry: u8) -> (out: Vec<u8>)
    requires
        are_digits(digits@),
        carry <= factor <= 9,
    ensures
        are_digits(out@),
        digits_value(out@) == factor * digits_value(digits@) + carry,
{
    let mut out: Vec<u8> = Vec::new();
    assert(digits@.skip(0) =~= digits@);
    let more = push_times(&mut out, digits, 0, factor, carry);
    assert(out@ =~= more@);
    out
}

/// The digits of a number.
fn digits_of(n: u64) -> (out: Vec<u8>)
    ensures
        are_digits(out@),
        digits_value(out@) == n,
    decreases n,
{
    let mut out: Vec<u8> = Vec::new();
    if n == 0 {
        return out;
    }
    let digit: u8 = (n % 10) as u8;
    out.push(digit);
    let mut upper = digits_of(n / 10);
    proof {
        one_more_digit(digit, upper@);
    }
    let ghost rest = upper@;
    out.append(&mut upper);
    assert(out@ =~= seq![digit] + rest);
    out
}

/// The digits of `n` times a power.
fn powered(n: u64, base: u8, k: u32) -> (out: Vec<u8>)
    requires
        base <= 9,
    ensures
        are_digits(out@),
        digits_value(out@) == n * power(base as nat, k as nat),
{
    let mut out = digits_of(n);
    let mut i: u32 = 0;
    assert(n * 1 == n) by (nonlinear_arith);
    while i < k
        invariant
            i <= k,
            base <= 9,
            are_digits(out@),
            digits_value(out@) == n * power(base as nat, i as nat),
        decreases k - i,
    {
        proof {
            let p = power(base as nat, i as nat) as int;
            assert(base * (n * p) == n * (base * p)) by (nonlinear_arith);
        }
        out = multiplied(&out, base, 0);
        i = i + 1;
    }
    out
}

/// Digits with zeros below.
fn shifted(digits: &mut Vec<u8>, places: usize) -> (out: Vec<u8>)
    requires
        are_digits(old(digits)@),
    ensures
        are_digits(out@),
        digits_value(out@) == digits_value(old(digits)@) * tens(places as nat),
{
    let mut out: Vec<u8> = Vec::new();
    while out.len() < places
        invariant
            out@.len() <= places,
            out@ == Seq::new(out@.len(), |i: int| 0u8),
        decreases places - out@.len(),
    {
        out.push(0);
        assert(out@ =~= Seq::new(out@.len(), |i: int| 0u8));
    }
    let ghost upper = digits@;
    out.append(digits);
    proof {
        zeros_below(upper, places as nat);
        assert(out@ =~= Seq::new(places as nat, |i: int| 0u8) + upper);
    }
    out
}

/// The digits from place `at` on.
fn upper_digits(digits: &Vec<u8>, at: usize) -> (out: Vec<u8>)
    requires
        are_digits(digits@),
        at <= digits@.len(),
    ensures
        out@ == digits@.skip(at as int),
        are_digits(out@),
{
    let mut out: Vec<u8> = Vec::new();
    let mut i: usize = at;
    while i < digits.len()
        invariant
            at <= i <= digits@.len(),
            out@ == digits@.subrange(at as int, i as int),
        decreases digits@.len() - i,
    {
        out.push(digits[i]);
        i = i + 1;
        assert(out@ =~= digits@.subrange(at as int, i as int));
    }
    assert(out@ =~= digits@.skip(at as int));
    out
}

// ---------------------------------------------------------------------------
// Rounding
// ---------------------------------------------------------------------------
/// The digit below a place tells on which side of the middle a number lies.
proof fn half_digit(digits: Seq<u8>, at: nat)
    requires
        are_digits(digits),
        0 < at <= digits.len(),
    ensures
        2 * (digits_value(digits) % tens(at)) < tens(at) <==> digits[at - 1] < 5,
        2 * (digits_value(digits) % tens(at)) == tens(at) <==> digits[at - 1] == 5 && digits_value(
            digits.take(at - 1),
        ) == 0,
{
    let below = (at - 1) as nat;
    split_digits(digits, at);
    let low = digits.take(at as int);
    split_digits(low, below);
    assert(low.take(below as int) =~= digits.take(below as int));
    assert(low.skip(below as int) =~= seq![digits[below as int]]);
    let top = digits[below as int];
    assert(seq![top].skip(1) =~= Seq::<u8>::empty());
    assert(digits_value(seq![top]) == top) by {
        assert(digits_value(seq![top].skip(1)) == 0);
    }
    let t = tens(below);
    let rest = digits_value(digits.take(below as int));
    let product = t * top;
    assert(top < 5 ==> product <= 4 * t) by (nonlinear_arith)
        requires
            product == t * top,
    ;
    assert(top == 5 ==> product == 5 * t) by (nonlinear_arith)
        requires
            product == t * top,
    ;
    assert(top > 5 ==> product >= 6 * t) by (nonlinear_arith)
        requires
            product == t * top,
    ;
}

/// Whether the digits below a place are all zero.
fn all_zero(digits: &Vec<u8>, below: usize) -> (out: bool)
    requires
        are_digits(digits@),
        below <= digits@.len(),
    ensures
        out == (digits_value(digits@.take(below as int)) == 0),
{
    let mut i: usize = below;
    let ghost low = digits@.take(below as int);
    assert(low.skip(below as int) =~= Seq::<u8>::empty());
    while i > 0
        invariant
            i <= below <= digits@.len(),
            are_digits(digits@),
            low == digits@.take(below as int),
            digits_value(low.skip(i as int)) == 0,
        decreases i,
    {
        i = i - 1;
        proof {
            next_digit(low, i as int);
        }
        if digits[i] > 0 {
            proof {
                split_digits(low, i as nat);
                tens_positive(i as nat);
                let t = tens(i as nat) as int;
                let upper = digits_value(low.skip(i as int)) as int;
                assert(t * upper > 0) by (nonlinear_arith)
                    requires
                        t > 0,
                        upper > 0,
                ;
            }
            return false;
        }
    }
    assert(low.skip(0) =~= low);
    true
}

/// Whether digits are rounded down at a place: they lie below the middle, or in
/// the middle next to an even digit.
spec fn rounds_down(digits: Seq<u8>, at: nat) -> bool {
    at == 0 || digits[at - 1] < 5 || (digits[at - 1] == 5 && digits[at as int] % 2 == 0
        && digits_value(digits.take(at - 1)) == 0)
}

#[verifier::spinoff_prover]
#[verifier::rlimit(40)]
proof fn nearest_by_digits(digits: Seq<u8>, at: nat)
    requires
        are_digits(digits),
        at < digits.len(),
    ensures
        nearest(digits_value(digits), tens(at)) == digits_value(digits.skip(at as int)) + (
        if rounds_down(digits, at) {
            0nat
        } else {
            1nat
        }),
{
    split_digits(digits, at);
    next_digit(digits, at as int);
    if at > 0 {
        half_digit(digits, at);
    }
    let q = digits_value(digits) / tens(at);
    let r = digits_value(digits) % tens(at);
    let den = tens(at);
    assert(q == digits_value(digits.skip(at as int)));
    assert(q % 2 == digits[at as int] % 2);
    assert(at == 0 ==> 2 * r < den);
    assert(rounds_down(digits, at) <==> 2 * r < den || (2 * r == den && q % 2 == 0));
}

/// The digits of the nearest whole number, after division by a power of ten.
fn divided(digits: &mut Vec<u8>, places: usize) -> (out: Vec<u8>)
    requires
        are_digits(old(digits)@),
        places < usize::MAX,
    ensures
        are_digits(out@),
        digits_value(out@) == nearest(digits_value(old(digits)@), tens(places as nat)),
{
    pad(digits, places + 1);
    proof {
        nearest_by_digits(digits@, places as nat);
    }
    let down: bool = if places == 0 {
        true
    } else {
        let below: u8 = digits[places - 1];
        below < 5 || (below == 5 && digits[places] % 2 == 0 && all_zero(digits, places - 1))
    };
    assert(down == rounds_down(digits@, places as nat));
    let upper = upper_digits(digits, places);
    if down {
        upper
    } else {
        multiplied(&upper, 1, 1)
    }
}

// ---------------------------------------------------------------------------
// Texts
// ---------------------------------------------------------------------------
/// Appends the number that digits from place `from` on stand for.
fn push_number(out: &mut String, digits: &Vec<u8>, from: usize)
    requires
        are_digits(digits@),
        from <= digits@.len(),
    ensures
        final(out)@ == old(out)@ + decimal(digits_value(digits@.skip(from as int))),
{
    let ghost start = out@;
    let mut i: usize = digits.len();
    assert(digits@.skip(i as int) =~= Seq::<u8>::empty());
    let mut begun: bool = false;
    while i > from
        invariant
            from <= i <= digits@.len(),
            are_digits(digits@),
            begun == (digits_value(digits@.skip(i as int)) > 0),
            out@ == if begun {
                start + decimal(digits_value(digits@.skip(i as int)))
            } else {
                start
            },
        decreases i,
    {
        i = i - 1;
        proof {
            next_digit(digits@, i as int);
        }
        if begun || digits[i] > 0 {
            out.push((48u8 + digits[i]) as char);
            begun = true;
            proof {
                let n = digits_value(digits@.skip(i as int));
                assert(n / 10 == digits_value(digits@.skip(i + 1)) && n % 10 == digits@[i as int]);
                assert(out@ =~= start + decimal(n));
            }
        }
    }
    if !begun {
        out.push('0');
        assert(decimal(0) =~= seq!['0']);
        assert(out@ =~= start + decimal(0));
    }
}

/// The last `width` digits of a number.
spec fn digit_string(n: nat, width: nat) -> Seq<char>
    decreases width,
{
    if width == 0 {
        Seq::empty()
    } else {
        digit_string(n / 10, (width - 1) as nat).push(digit_char(n % 10))
    }
}

proof fn padded_digits(n: nat, width: nat)
    requires
        n < tens(width),
        width > 0,
    ensures
        zero_padded(decimal(n), width) == digit_string(n, width),
        decimal(n).len() <= width,
    decreases width,
{
    let fewer = (width - 1) as nat;
    if width == 1 {
        assert(tens(1) == 10) by {
            assert(tens(0) == 1);
        }
        assert(digit_string(n / 10, 0) =~= Seq::<char>::empty());
        assert(zero_padded(decimal(n), width) =~= digit_string(n, width));
    } else {
        padded_digits(n / 10, fewer);
        if n < 10 {
            assert(decimal(0) =~= seq!['0']);
        }
        assert(zero_padded(decimal(n), width) =~= digit_string(n, width));
    }
}

/// Appends a number that has the given number of decimals.
fn push_with_point(out: &mut String, digits: &mut Vec<u8>, places: usize)
    requires
        are_digits(old(digits)@),
        places > 0,
    ensures
        final(out)@ == old(out)@ + point_text(
            digits_value(old(digits)@),
            tens(places as nat),
            places as nat,
        ),
{
    let ghost start = out@;
    pad(digits, places);
    push_number(out, digits, places);
    out.append(".");
    let ghost head = out@;
    let mut i: usize = places;
    assert(digits@.subrange(i as int, places as int) =~= Seq::<u8>::empty());
    assert(head + digit_string(0, 0) =~= head);
    while i > 0
        invariant
            i <= places <= digits@.len(),
            are_digits(digits@),
            out@ == head + digit_string(
                digits_value(digits@.subrange(i as int, places as int)),
                (places - i) as nat,
            ),
        decreases i,
    {
        let ghost above = digits@.subrange(i as int, places as int);
        i = i - 1;
        out.push((48u8 + digits[i]) as char);
        proof {
            let all = digits@.subrange(i as int, places as int);
            assert(all.skip(1) =~= above);
            let n = digits_value(all);
            assert(n / 10 == digits_value(above) && n % 10 == digits@[i as int]);
            assert(out@ =~= head + digit_string(n, (places - i) as nat));
        }
    }
    proof {
        split_digits(digits@, places as nat);
        assert(digits@.subrange(0, places as int) =~= digits@.take(places as int));
        padded_digits(digits_value(digits@.take(places as int)), places as nat);
        assert(out@ =~= start + point_text(
            digits_value(digits@),
            tens(places as nat),
            places as nat,
        ));
    }
}

/// The decimal text of `units / 10^places`.
pub open spec fn units_text(units: nat, places: nat) -> Seq<char> {
    if places == 0 {
        decimal(units)
    } else {
        point_text(units, tens(places), places)
    }
}

fn push_units(out: &mut String, digits: &mut Vec<u8>, places: usize)
    requires
        are_digits(old(digits)@),
    ensures
        final(out)@ == old(out)@ + units_text(digits_value(old(digits)@), places as nat),
{
    if places == 0 {
        assert(digits@.skip(0) =~= digits@);
        push_number(out, digits, 0);
    } else {
        push_with_point(out, digits, places);
    }
}

// ---------------------------------------------------------------------------
// A fixed number of decimals
// ---------------------------------------------------------------------------
/// The digits of `m * 2^e` with a number of decimals: the nearest such number,
/// and in the middle between two the even one.
pub open spec fn fixed_digits(m: nat, e: int, places: nat) -> Seq<char> {
    units_text(units_of(m, e, tens(places)), places)
}

/// A factor changes nothing in a quotient.
pub(crate) proof fn nearest_expanded(num: nat, den: nat, factor: nat)
    requires
        den > 0,
        factor > 0,
    ensures
        nearest(num * factor, den * factor) == nearest(num, den),
{
    let q = num as int / den as int;
    let r = num as int % den as int;
    let (n, d, f) = (num as int, den as int, factor as int);
    lemma_fundamental_div_mod(n, d);
    assert(n * f == q * (d * f) + r * f) by (nonlinear_arith)
        requires
            n == d * q + r,
    ;
    assert(0 <= r * f < d * f) by (nonlinear_arith)
        requires
            0 <= r < d,
            f > 0,
    ;
    lemma_fundamental_div_mod_converse(n * f, d * f, q, r * f);
    assert(2 * r < d <==> 2 * (r * f) < d * f) by (nonlinear_arith)
        requires
            f > 0,
    ;
    assert(2 * r == d <==> 2 * (r * f) == d * f) by (nonlinear_arith)
        requires
            f > 0,
    ;
}

/// What `m` is multiplied by so that `m * 2^e` becomes a whole number of units
/// of the last decimal that it has.
pub open spec fn unit_factor(e: int) -> nat {
    if e >= 0 {
        pow2(e as nat)
    } else {
        power(5, (-e) as nat)
    }
}

proof fn unit_positive(e: int)
    ensures
        unit_factor(e) > 0,
{
    if e >= 0 {
        lemma_pow2_pos(e as nat);
    } else {
        tens_split((-e) as nat);
    }
}

proof fn pow2_is_power(k: nat)
    ensures
        pow2(k) == power(2, k),
    decreases k,
{
    if k == 0 {
        lemma2_to64();
    } else {
        pow2_is_power((k - 1) as nat);
        lemma_pow2_unfold(k);
    }
}

/// The digits of `m * 2^e`, in units of its last decimal.
fn exact_digits(m: u64, e: i32) -> (out: Vec<u8>)
    requires
        -2000 <= e <= 2000,
    ensures
        are_digits(out@),
        digits_value(out@) == m * unit_factor(e as int),
{
    if e >= 0 {
        proof {
            pow2_is_power(e as nat);
        }
        powered(m, 2, e as u32)
    } else {
        powered(m, 5, (-e) as u32)
    }
}

pub fn push_fixed_digits(out: &mut String, m: u64, e: i32, places: usize)
    requires
        -2000 <= e <= 2000,
    ensures
        final(out)@ == old(out)@ + fixed_digits(m as nat, e as int, places as nat),
{
    let mut exact = exact_digits(m, e);
    let mut units = shifted(&mut exact, places);
    let decimals: usize = if e < 0 {
        (-e) as usize
    } else {
        0
    };
    let ghost t = tens(places as nat);
    let ghost f = unit_factor(e as int);
    proof {
        assert((m * f) * t == (m * t) * f) by (nonlinear_arith);
        lemma2_to64();
        if e < 0 {
            tens_split((-e) as nat);
            lemma_pow2_pos((-e) as nat);
            let p = pow2((-e) as nat);
            assert(f * p == p * f) by (nonlinear_arith);
            nearest_expanded((m * t) as nat, p, f);
            assert((m * t) * 1 == m * t) by (nonlinear_arith);
        }
    }
    let mut rounded = divided(&mut units, decimals);
    push_units(out, &mut rounded, places);
}

// ---------------------------------------------------------------------------
// The shortest text
// ---------------------------------------------------------------------------
/// How many zeros a number above `a` and up to `h` can end in.
pub open spec fn coarsest(a: nat, h: nat) -> nat
    decreases h,
{
    if h / 10 > a / 10 {
        1 + coarsest(a / 10, h / 10)
    } else {
        0
    }
}

/// The number above `a` and up to `h` that ends in the most zeros, without
/// them. Where there are two next to `x`, it is the nearer one, and in the
/// middle the larger one.
pub open spec fn roundest(a: nat, x: nat, h: nat) -> nat {
    let unit = tens(coarsest(a, h));
    let below = x / unit;
    if below > a / unit && (below + 1 > h / unit || 2 * (x % unit) < unit) {
        below
    } else {
        below + 1
    }
}

/// A number of the form `m * 2^e`, and the end of the numbers that are nearer
/// to it than to the one below, and to the one above, in a common unit. The
/// ends count where `m` is even. The first one is left out of the range, the
/// last one is in it.
pub open spec fn rounding_range(m: nat, e: int) -> (nat, nat, nat) {
    let unit = unit_factor(e - 2);
    let x = 4 * m * unit;
    let low = (4 * m - if m == 0x10_0000_0000_0000 {
        1int
    } else {
        2int
    }) * unit;
    let high = (4 * m + 2) * unit;
    if m % 2 == 0 {
        ((low - 1) as nat, x, high)
    } else {
        (low as nat, x, (high - 1) as nat)
    }
}

/// The shortest digits that are read as `m * 2^e`.
pub open spec fn shortest_digits(m: nat, e: int) -> Seq<char> {
    let (a, x, h) = rounding_range(m, e);
    let zeros = coarsest(a, h);
    let decimals = positive_part(2 - e);
    let n = roundest(a, x, h);
    if m == 0 {
        decimal(0)
    } else if zeros >= decimals {
        decimal(n * tens((zeros - decimals) as nat))
    } else {
        units_text(n, (decimals - zeros) as nat)
    }
}

/// Where two numbers differ first, they end in that many zeros.
proof fn coarsest_at(a: nat, h: nat, zeros: nat)
    requires
        h / tens(zeros) > a / tens(zeros),
        h / tens(zeros + 1) == a / tens(zeros + 1),
    ensures
        coarsest(a, h) == zeros,
    decreases zeros,
{
    if zeros == 0 {
        assert(tens(0) == 1);
        assert(tens(1) == 10);
    } else {
        let fewer = (zeros - 1) as nat;
        tens_positive(fewer);
        tens_positive(zeros);
        lemma_div_denominator(a as int, 10, tens(fewer) as int);
        lemma_div_denominator(h as int, 10, tens(fewer) as int);
        lemma_div_denominator(a as int, 10, tens(zeros) as int);
        lemma_div_denominator(h as int, 10, tens(zeros) as int);
        if h / 10 <= a / 10 {
            lemma_div_is_ordered((h / 10) as int, (a / 10) as int, tens(fewer) as int);
        }
        coarsest_at(a / 10, h / 10, fewer);
    }
}

/// The highest place at which two numbers differ.
fn top_difference(a: &Vec<u8>, h: &Vec<u8>) -> (at: usize)
    requires
        are_digits(a@),
        are_digits(h@),
        a@.len() == h@.len(),
        digits_value(a@) < digits_value(h@),
    ensures
        at < a@.len(),
        a@[at as int] < h@[at as int],
        a@.skip(at + 1) == h@.skip(at + 1),
{
    let mut i: usize = a.len();
    assert(a@.skip(i as int) =~= h@.skip(i as int));
    while i > 0
        invariant
            i <= a@.len() == h@.len(),
            are_digits(a@),
            are_digits(h@),
            digits_value(a@) < digits_value(h@),
            a@.skip(i as int) == h@.skip(i as int),
        decreases i,
    {
        i = i - 1;
        if a[i] != h[i] {
            proof {
                split_digits(a@, i as nat);
                split_digits(h@, i as nat);
                next_digit(a@, i as int);
                next_digit(h@, i as int);
                tens_positive(i as nat);
                lemma_div_is_ordered(
                    digits_value(a@) as int,
                    digits_value(h@) as int,
                    tens(i as nat) as int,
                );
            }
            return i;
        }
        assert(a@.skip(i as int) =~= h@.skip(i as int)) by {
            assert forall|k: int| 0 <= k < a@.len() - i implies a@.skip(i as int)[k] == h@.skip(
                i as int,
            )[k] by {
                if k > 0 {
                    assert(a@.skip(i + 1)[k - 1] == h@.skip(i + 1)[k - 1]);
                }
            }
        }
    }
    assert(a@.skip(0) =~= a@ && h@.skip(0) =~= h@);
    0
}

/// The digits above a place, and the number of zeros that are left out.
fn find_roundest(a: &Vec<u8>, x: &Vec<u8>, h: &Vec<u8>) -> (out: (Vec<u8>, usize))
    requires
        are_digits(a@),
        are_digits(x@),
        are_digits(h@),
        a@.len() == x@.len() == h@.len(),
        digits_value(a@) < digits_value(x@) <= digits_value(h@),
    ensures
        are_digits(out.0@),
        out.1 == coarsest(digits_value(a@), digits_value(h@)),
        out.1 < x@.len(),
        digits_value(out.0@) == roundest(digits_value(a@), digits_value(x@), digits_value(h@)),
{
    let at = top_difference(a, h);
    proof {
        split_digits(a@, at as nat);
        split_digits(x@, at as nat);
        split_digits(h@, at as nat);
        next_digit(a@, at as int);
        next_digit(x@, at as int);
        next_digit(h@, at as int);
        let above = (at + 1) as nat;
        split_digits(a@, above);
        split_digits(x@, above);
        split_digits(h@, above);
        tens_positive(above);
        tens_positive(at as nat);
        let unit = tens(above) as int;
        lemma_div_is_ordered(digits_value(a@) as int, digits_value(x@) as int, unit);
        lemma_div_is_ordered(digits_value(x@) as int, digits_value(h@) as int, unit);
        lemma_div_is_ordered(
            digits_value(a@) as int,
            digits_value(x@) as int,
            tens(at as nat) as int,
        );
        lemma_div_is_ordered(
            digits_value(x@) as int,
            digits_value(h@) as int,
            tens(at as nat) as int,
        );
        coarsest_at(digits_value(a@), digits_value(h@), at as nat);
        if at > 0 {
            half_digit(x@, at as nat);
        }
    }
    let near: bool = at == 0 || x[at - 1] < 5;
    let upper = upper_digits(x, at);
    if x[at] > a[at] && (x[at] >= h[at] || near) {
        (upper, at)
    } else {
        (multiplied(&upper, 1, 1), at)
    }
}

pub fn push_shortest_digits(out: &mut String, m: u64, e: i32)
    requires
        m < 0x20_0000_0000_0000,
        -1900 <= e <= 1900,
    ensures
        final(out)@ == old(out)@ + shortest_digits(m as nat, e as int),
{
    if m == 0 {
        out.push('0');
        assert(decimal(0) =~= seq!['0']);
        assert(out@ =~= old(out)@ + decimal(0));
        return;
    }
    let gap: u64 = if m == 0x10_0000_0000_0000 {
        1
    } else {
        2
    };
    let mut x = exact_digits(4 * m, e - 2);
    let low = exact_digits(4 * m - gap, e - 2);
    let high = exact_digits(4 * m + 2, e - 2);
    proof {
        range_holds_its_number(m as nat, e as int);
        unit_positive(e - 2);
        let unit = unit_factor(e - 2) as int;
        assert((4 * m - gap) * unit >= unit && (4 * m + 2) * unit >= unit) by (nonlinear_arith)
            requires
                4 * m - gap >= 1,
                unit >= 0,
        ;
    }
    let (mut a, mut h) = if m % 2 == 0 {
        (less_one(&low), high)
    } else {
        let below = less_one(&high);
        (low, below)
    };
    let mut len: usize = x.len();
    if a.len() > len {
        len = a.len();
    }
    if h.len() > len {
        len = h.len();
    }
    pad(&mut a, len);
    pad(&mut x, len);
    pad(&mut h, len);
    let (mut digits, zeros) = find_roundest(&a, &x, &h);
    let decimals: usize = if e < 2 {
        (2 - e) as usize
    } else {
        0
    };
    if zeros >= decimals {
        let mut whole = shifted(&mut digits, zeros - decimals);
        push_units(out, &mut whole, 0);
    } else {
        push_units(out, &mut digits, decimals - zeros);
    }
}

proof fn coarsest_splits(a: nat, h: nat)
    requires
        a < h,
    ensures
        h / tens(coarsest(a, h)) > a / tens(coarsest(a, h)),
        h / tens(coarsest(a, h) + 1) <= a / tens(coarsest(a, h) + 1),
    decreases h,
{
    assert(tens(0) == 1);
    assert(tens(1) == 10);
    if h / 10 > a / 10 {
        coarsest_splits(a / 10, h / 10);
        let zeros = coarsest(a / 10, h / 10);
        tens_positive(zeros);
        tens_positive(zeros + 1);
        lemma_div_denominator(a as int, 10, tens(zeros) as int);
        lemma_div_denominator(h as int, 10, tens(zeros) as int);
        lemma_div_denominator(a as int, 10, tens(zeros + 1) as int);
        lemma_div_denominator(h as int, 10, tens(zeros + 1) as int);
        assert(coarsest(a, h) == zeros + 1);
        assert(tens(zeros + 1) == 10 * tens(zeros));
        assert(tens(zeros + 2) == 10 * tens(zeros + 1));
    } else {
        assert(coarsest(a, h) == 0);
        assert(a / 1 == a && h / 1 == h);
    }
}

/// A multiple lies above a number where its factor lies above the quotient.
proof fn multiple_above(n: nat, unit: nat, x: nat)
    requires
        unit > 0,
    ensures
        n * unit > x <==> n > x / unit,
{
    let q = x as int / unit as int;
    lemma_fundamental_div_mod(x as int, unit as int);
    if n > q {
        assert(n * unit >= unit * q + unit) by (nonlinear_arith)
            requires
                n >= q + 1,
                unit > 0,
        ;
    } else {
        assert(n * unit <= unit * q) by (nonlinear_arith)
            requires
                n <= q,
                unit > 0,
        ;
    }
}

proof fn range_holds_its_number(m: nat, e: int)
    requires
        m > 0,
    ensures
        rounding_range(m, e).0 < rounding_range(m, e).1 <= rounding_range(m, e).2,
{
    let unit = unit_factor(e - 2) as int;
    unit_positive(e - 2);
    let n = 4 * m;
    let gap: int = if m == 0x10_0000_0000_0000 {
        1
    } else {
        2
    };
    assert((n - gap) * unit < n * unit) by (nonlinear_arith)
        requires
            gap >= 1,
            unit > 0,
    ;
    assert((n - gap) * unit > 0) by (nonlinear_arith)
        requires
            n - gap > 0,
            unit > 0,
    ;
    assert((n + 2) * unit > n * unit) by (nonlinear_arith)
        requires
            unit > 0,
    ;
}

/// The shortest digits stand for a number that is rounded to the one that they
/// were made from, and no number `n` with one zero more is.
pub proof fn shortest_digits_are_read_back(m: nat, e: int, n: nat)
    requires
        m > 0,
    ensures
        ({
            let (a, x, h) = rounding_range(m, e);
            let zeros = coarsest(a, h);
            &&& a < roundest(a, x, h) * tens(zeros) <= h
            &&& n * tens(zeros + 1) <= a || h < n * tens(zeros + 1)
        }),
{
    let (a, x, h) = rounding_range(m, e);
    let zeros = coarsest(a, h);
    let unit = tens(zeros);
    range_holds_its_number(m, e);
    coarsest_splits(a, h);
    tens_positive(zeros);
    tens_positive(zeros + 1);
    multiple_above(n, tens(zeros + 1), a);
    multiple_above(n, tens(zeros + 1), h);
    multiple_above(roundest(a, x, h), unit, a);
    multiple_above(roundest(a, x, h), unit, h);
    lemma_div_is_ordered(a as int, x as int, unit as int);
    lemma_div_is_ordered(x as int, h as int, unit as int);
}

/// As many nines as there are digits.
proof fn nines_have_their_digits(k: nat)
    requires
        k > 0,
    ensures
        decimal((tens(k) - 1) as nat).len() == k,
    decreases k,
{
    tens_positive(k);
    tens_positive((k - 1) as nat);
    let n = (tens(k) - 1) as nat;
    if k == 1 {
        assert(power(10, 0) == 1);
        assert(power(10, 1) == 10 * power(10, 0));
        assert(n == 9);
        assert(decimal(9).len() == 1);
    } else {
        nines_have_their_digits((k - 1) as nat);
        tens_positive((k - 2) as nat);
        assert(tens(k) == 10 * tens((k - 1) as nat));
        assert(tens((k - 1) as nat) == 10 * tens((k - 2) as nat));
        assert(n / 10 == tens((k - 1) as nat) - 1);
        assert(n >= 10);
        assert(decimal(n) == decimal(n / 10).push(digit_char(n % 10)));
    }
}

/// A number with fixed decimals is written with exactly these, and what is
/// written, read without the point, is the whole number next to the number
/// times as many tens.
pub proof fn fixed_decimals_are_next_to_the_number(m: nat, k: nat, places: nat)
    ensures
        ({
            let text = fixed_digits(m, -(k as int), places);
            let units = units_of(m, -(k as int), tens(places));
            let n = decimal(units / tens(places)).len() as int;
            &&& places == 0 ==> decimal_value(text) == units
            &&& places > 0 ==> text.len() == n + 1 + places && text[n] == '.' && decimal_value(
                text.take(n),
            ) * tens(places) + decimal_value(text.skip(n + 1)) == units
            &&& 2 * (units * pow2(k)) <= 2 * (m * tens(places)) + pow2(k)
            &&& 2 * (m * tens(places)) <= 2 * (units * pow2(k)) + pow2(k)
        }),
        tens(0) == 1,
        tens(1) == 10,
        tens(2) == 100,
        tens(3) == 1000,
{
    lemma2_to64();
    tens_positive(places);
    assert(power(10, 0) == 1);
    assert(power(10, 1) == 10 * power(10, 0));
    assert(power(10, 2) == 10 * power(10, 1));
    assert(power(10, 3) == 10 * power(10, 2));
    let units = units_of(m, -(k as int), tens(places));
    lemma_pow2_pos(k);
    assert(positive_part(-(k as int)) == 0 && positive_part(k as int) == k);
    let n = (m * tens(places)) as nat;
    assert(n * pow2(0) == n) by (nonlinear_arith)
        requires
            pow2(0) == 1,
    ;
    nearest_is_next_to_the_quotient(n, pow2(k));
    if places > 0 {
        nines_have_their_digits(places);
        decimals_stand_behind_the_point(units, tens(places), places);
    } else {
        decimal_round_trip(units);
    }
}

} // verus!
