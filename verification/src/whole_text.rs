//! Floating-point numbers as texts: with a fixed number of decimals, or as
//! short as they can be.
use crate::arithmetic::{is_negative, magnitude_parts};
use crate::binary32::parts_of_32;
use crate::binary64::{
    Real32, Real64, FRACTION_WEIGHT, FRACTION_WEIGHT_32, INFINITY_BITS, INFINITY_BITS_32,
    SIGN_WEIGHT, SIGN_WEIGHT_32,
};
use crate::decimals::{fixed_digits, push_fixed_digits, push_shortest_digits, shortest_digits};
use crate::seconds::parts_of;
use crate::single;
use crate::single::{is_infinite, unsigned};
use vstd::prelude::*;

verus! {

/// A number as it is written: its sign and its digits, or what it is instead of
/// a number.
pub open spec fn written(negative: bool, nan: bool, infinite: bool, digits: Seq<char>) -> Seq<
    char,
> {
    let sign = if negative {
        seq!['-']
    } else {
        Seq::empty()
    };
    if nan {
        "NaN"@
    } else if infinite {
        sign + "inf"@
    } else {
        sign + digits
    }
}

/// A number with a fixed number of decimals: the nearest such number, and in
/// the middle between two the even one.
pub open spec fn fixed_text(x: Real64, places: nat) -> Seq<char> {
    let (m, e) = magnitude_parts(x);
    written(is_negative(x), x.is_nan(), !x.is_finite(), fixed_digits(m, e, places))
}

/// The shortest text that is read as a number.
pub open spec fn shortest_text(x: Real64) -> Seq<char> {
    let (m, e) = magnitude_parts(x);
    written(is_negative(x), x.is_nan(), !x.is_finite(), shortest_digits(m, e))
}

/// A number without decimals.
pub open spec fn rounded_text(x: Real64) -> Seq<char> {
    fixed_text(x, 0)
}

/// A number with one decimal.
pub open spec fn tenths_text(x: Real64) -> Seq<char> {
    fixed_text(x, 1)
}

/// A binary32 number with a fixed number of decimals.
pub open spec fn fixed_text_32(x: Real32, places: nat) -> Seq<char> {
    let (m, e) = parts_of_32(unsigned(x));
    written(single::is_negative(x), x.is_nan(), is_infinite(x), fixed_digits(m, e, places))
}

/// A binary32 number without decimals.
pub open spec fn rounded_text_32(x: Real32) -> Seq<char> {
    fixed_text_32(x, 0)
}

/// A binary32 number with one decimal.
pub open spec fn tenths_text_32(x: Real32) -> Seq<char> {
    fixed_text_32(x, 1)
}

/// Appends what stands before the digits of a number, and tells whether there
/// are digits.
fn push_head(out: &mut String, negative: bool, nan: bool, infinite: bool) -> (digits: bool)
    ensures
        digits == (!nan && !infinite),
        forall|text: Seq<char>| #[trigger]
            written(negative, nan, infinite, text) == if digits {
                written(negative, nan, infinite, Seq::empty()) + text
            } else {
                written(negative, nan, infinite, Seq::empty())
            },
        final(out)@ == old(out)@ + written(negative, nan, infinite, Seq::empty()),
{
    let ghost start = out@;
    let ghost head = written(negative, nan, infinite, Seq::empty());
    if nan {
        out.append("NaN");
    } else {
        if negative {
            out.push('-');
        }
        if infinite {
            out.append("inf");
        }
    }
    assert(out@ =~= start + head);
    assert forall|text: Seq<char>| !nan && !infinite implies #[trigger] written(
        negative,
        nan,
        infinite,
        text,
    ) == head + text by {
        assert(written(negative, nan, infinite, text) =~= head + text);
    }
    !nan && !infinite
}

/// The significand and the exponent of a finite number without its sign.
fn finite_parts(magnitude: u64) -> (out: (u64, i32))
    requires
        magnitude < INFINITY_BITS,
    ensures
        (out.0 as nat, out.1 as int) == parts_of(Real64 { bits: magnitude }),
        out.0 < 0x20_0000_0000_0000,
        -1074 <= out.1 <= 971,
        out.1 >= 0 ==> out.0 > 0,
{
    let exponent: u64 = magnitude / FRACTION_WEIGHT;
    let fraction: u64 = magnitude % FRACTION_WEIGHT;
    if exponent == 0 {
        (fraction, -1074)
    } else {
        (fraction + FRACTION_WEIGHT, exponent as i32 - 1075)
    }
}

/// The sign of a number, and the pattern of its magnitude.
fn sign_and_magnitude(x: Real64) -> (out: (bool, u64))
    ensures
        out == (is_negative(x), x.magnitude() as u64),
        out.1 < SIGN_WEIGHT,
{
    if x.bits >= SIGN_WEIGHT {
        (true, x.bits - SIGN_WEIGHT)
    } else {
        (false, x.bits)
    }
}

/// Appends a number with a fixed number of decimals.
pub fn push_fixed(out: &mut String, x: Real64, places: usize)
    ensures
        final(out)@ == old(out)@ + fixed_text(x, places as nat),
{
    let ghost start = out@;
    let (negative, magnitude) = sign_and_magnitude(x);
    if push_head(out, negative, magnitude > INFINITY_BITS, magnitude >= INFINITY_BITS) {
        let (m, e) = finite_parts(magnitude);
        push_fixed_digits(out, m, e, places);
    }
    assert(out@ =~= start + fixed_text(x, places as nat));
}

/// Appends the shortest text that is read as a number.
pub fn push_shortest(out: &mut String, x: Real64)
    ensures
        final(out)@ == old(out)@ + shortest_text(x),
{
    let ghost start = out@;
    let (negative, magnitude) = sign_and_magnitude(x);
    if push_head(out, negative, magnitude > INFINITY_BITS, magnitude >= INFINITY_BITS) {
        let (m, e) = finite_parts(magnitude);
        push_shortest_digits(out, m, e);
    }
    assert(out@ =~= start + shortest_text(x));
}

/// Appends a number without decimals.
pub fn push_rounded(out: &mut String, x: Real64)
    ensures
        final(out)@ == old(out)@ + rounded_text(x),
{
    push_fixed(out, x, 0);
}

/// Appends a number with one decimal.
pub fn push_tenths(out: &mut String, x: Real64)
    ensures
        final(out)@ == old(out)@ + tenths_text(x),
{
    push_fixed(out, x, 1);
}

/// The same of a binary32 number.
fn finite_parts_32(magnitude: u32) -> (out: (u64, i32))
    requires
        magnitude < INFINITY_BITS_32,
    ensures
        (out.0 as nat, out.1 as int) == parts_of_32(Real32 { bits: magnitude }),
        out.0 < 0x20_0000_0000_0000,
        -1074 <= out.1 <= 971,
        out.1 >= 0 ==> out.0 > 0,
{
    let exponent: u32 = magnitude / FRACTION_WEIGHT_32;
    let fraction: u32 = magnitude % FRACTION_WEIGHT_32;
    if exponent == 0 {
        (fraction as u64, -149)
    } else {
        ((fraction + FRACTION_WEIGHT_32) as u64, exponent as i32 - 150)
    }
}

/// Appends a binary32 number with a fixed number of decimals.
fn push_fixed_32(out: &mut String, x: Real32, places: usize)
    ensures
        final(out)@ == old(out)@ + fixed_text_32(x, places as nat),
{
    let ghost start = out@;
    let negative: bool = x.bits >= SIGN_WEIGHT_32;
    let magnitude: u32 = if negative {
        x.bits - SIGN_WEIGHT_32
    } else {
        x.bits
    };
    if push_head(out, negative, magnitude > INFINITY_BITS_32, magnitude == INFINITY_BITS_32) {
        let (m, e) = finite_parts_32(magnitude);
        push_fixed_digits(out, m, e, places);
    }
    assert(out@ =~= start + fixed_text_32(x, places as nat));
}

/// Appends a binary32 number without decimals.
pub fn push_rounded_32(out: &mut String, x: Real32)
    ensures
        final(out)@ == old(out)@ + rounded_text_32(x),
{
    push_fixed_32(out, x, 0);
}

/// Appends a binary32 number with one decimal.
pub fn push_tenths_32(out: &mut String, x: Real32)
    ensures
        final(out)@ == old(out)@ + tenths_text_32(x),
{
    push_fixed_32(out, x, 1);
}

// ---------------------------------------------------------------------------
// Laws
// ---------------------------------------------------------------------------
/// A negative number is written as the positive one with a minus sign in front,
/// with fixed decimals and in its shortest form; what is no number is written
/// as such.
pub proof fn signs_stand_in_front(x: Real64, y: Real64, places: nat)
    requires
        x.bits < INFINITY_BITS,
        y.bits == x.bits + SIGN_WEIGHT,
    ensures
        fixed_text(y, places) == seq!['-'] + fixed_text(x, places),
        shortest_text(y) == seq!['-'] + shortest_text(x),
        fixed_text(x, places) == fixed_digits(parts_of(x).0, parts_of(x).1, places),
        rounded_text(x) == fixed_text(x, 0),
        tenths_text(x) == fixed_text(x, 1),
        fixed_text(Real64 { bits: INFINITY_BITS }, places) == "inf"@,
        fixed_text(Real64 { bits: (INFINITY_BITS + 1) as u64 }, places) == "NaN"@,
        shortest_text(Real64 { bits: (INFINITY_BITS + 1) as u64 }) == "NaN"@,
{
    assert(Seq::<char>::empty() + fixed_text(x, places) =~= fixed_text(x, places));
    let (m, e) = magnitude_parts(x);
    assert(Seq::<char>::empty() + fixed_digits(m, e, places) =~= fixed_digits(m, e, places));
    assert(Seq::<char>::empty() + shortest_digits(m, e) =~= shortest_digits(m, e));
    assert(Seq::<char>::empty() + "inf"@ =~= "inf"@);
}

/// What is no number is written as such, infinities with their sign, and every
/// number begins with a sign exactly if it is negative.
pub proof fn what_is_no_number_is_told(x: Real64, places: nat)
    ensures
        x.is_nan() ==> shortest_text(x) == "NaN"@ && fixed_text(x, places) == "NaN"@ && tenths_text(
            x,
        ) == "NaN"@,
        !x.is_nan() && !x.is_finite() && !is_negative(x) ==> shortest_text(x) == "inf"@
            && fixed_text(x, places) == "inf"@,
        !x.is_nan() && !x.is_finite() && is_negative(x) ==> shortest_text(x) == seq!['-'] + "inf"@
            && fixed_text(x, places) == seq!['-'] + "inf"@,
        x.is_finite() && is_negative(x) ==> shortest_text(x) == seq!['-'] + shortest_digits(
            magnitude_parts(x).0,
            magnitude_parts(x).1,
        ),
        x.is_finite() && !is_negative(x) ==> shortest_text(x) == shortest_digits(
            magnitude_parts(x).0,
            magnitude_parts(x).1,
        ),
{
    let digits = shortest_digits(magnitude_parts(x).0, magnitude_parts(x).1);
    assert(Seq::<char>::empty() + "inf"@ =~= "inf"@);
    assert(Seq::<char>::empty() + digits =~= digits);
}

} // verus!
