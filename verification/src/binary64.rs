//! Binary64 numbers by their bit patterns: order, finiteness and the exact
//! patterns of small whole numbers.
use vstd::arithmetic::power2::{
    lemma2_to64, lemma2_to64_rest, lemma_pow2_adds, lemma_pow2_pos, lemma_pow2_strictly_increases,
    lemma_pow2_unfold, pow2,
};
use vstd::prelude::*;

verus! {

/// 2^63, the weight of the sign bit.
pub const SIGN_WEIGHT: u64 = 0x8000_0000_0000_0000;

/// The pattern of positive infinity.
pub const INFINITY_BITS: u64 = 0x7ff0_0000_0000_0000;

/// 2^52, the weight of the exponent's lowest bit.
pub const FRACTION_WEIGHT: u64 = 0x10_0000_0000_0000;

/// A binary64 number, held as its bit pattern.
#[derive(Debug, Clone, Copy, PartialEq, Eq, Structural)]
pub struct Real64 {
    pub bits: u64,
}

/// A binary32 number, held as its bit pattern.
#[derive(Debug, Clone, Copy, PartialEq, Eq, Structural)]
pub struct Real32 {
    pub bits: u32,
}

/// 2^31, the weight of the sign bit of a binary32 number.
pub const SIGN_WEIGHT_32: u32 = 0x8000_0000;

/// The pattern of positive infinity in binary32.
pub const INFINITY_BITS_32: u32 = 0x7f80_0000;

/// The pattern of one in binary32.
pub const ONE_BITS_32: u32 = 0x3f80_0000;

/// 2^23, the weight of the exponent's lowest bit in binary32.
pub const FRACTION_WEIGHT_32: u32 = 0x80_0000;

impl Real32 {
    pub open spec fn magnitude(self) -> int {
        if self.bits < SIGN_WEIGHT_32 {
            self.bits as int
        } else {
            self.bits - SIGN_WEIGHT_32
        }
    }

    pub open spec fn is_nan(self) -> bool {
        self.magnitude() > INFINITY_BITS_32
    }

    /// An integer that orders the numbers as their values do.
    pub open spec fn order_key(self) -> int {
        if self.bits < SIGN_WEIGHT_32 {
            self.magnitude()
        } else {
            -self.magnitude()
        }
    }

    /// `self < other` on numbers. Nothing is below or above a NaN.
    pub open spec fn lt(self, other: Real32) -> bool {
        !self.is_nan() && !other.is_nan() && self.order_key() < other.order_key()
    }

    /// `self <= other` on numbers.
    pub open spec fn le(self, other: Real32) -> bool {
        !self.is_nan() && !other.is_nan() && self.order_key() <= other.order_key()
    }

    /// The larger of two numbers; the other one where one is a NaN.
    pub open spec fn larger_of(self, other: Real32) -> Real32 {
        if self.is_nan() || self.lt(other) {
            other
        } else {
            self
        }
    }

    /// The smaller of two numbers; the other one where one is a NaN.
    pub open spec fn smaller_of(self, other: Real32) -> Real32 {
        if self.is_nan() || other.lt(self) {
            other
        } else {
            self
        }
    }

    /// The number of `low..=high` that is next to this one.
    pub open spec fn within(self, low: Real32, high: Real32) -> Real32 {
        if self.lt(low) {
            low
        } else if high.lt(self) {
            high
        } else {
            self
        }
    }

    /// `self == other` on numbers: the zeros are equal, a NaN equals nothing.
    pub open spec fn same(self, other: Real32) -> bool {
        !self.is_nan() && !other.is_nan() && self.order_key() == other.order_key()
    }

    pub fn from_bits(bits: u32) -> (out: Real32)
        ensures
            out.bits == bits,
    {
        Real32 { bits }
    }

    pub fn nan(self) -> (out: bool)
        ensures
            out == self.is_nan(),
    {
        let magnitude: u32 = if self.bits < SIGN_WEIGHT_32 {
            self.bits
        } else {
            self.bits - SIGN_WEIGHT_32
        };
        magnitude > INFINITY_BITS_32
    }

    fn key(self) -> (out: i64)
        ensures
            out == self.order_key(),
    {
        if self.bits < SIGN_WEIGHT_32 {
            self.bits as i64
        } else {
            -((self.bits - SIGN_WEIGHT_32) as i64)
        }
    }

    pub fn less(self, other: Real32) -> (out: bool)
        ensures
            out == self.lt(other),
    {
        !self.nan() && !other.nan() && self.key() < other.key()
    }

    pub fn at_most(self, other: Real32) -> (out: bool)
        ensures
            out == self.le(other),
    {
        !self.nan() && !other.nan() && self.key() <= other.key()
    }

    pub fn larger(self, other: Real32) -> (out: Real32)
        ensures
            out == self.larger_of(other),
    {
        if self.nan() || self.less(other) {
            other
        } else {
            self
        }
    }

    pub fn smaller(self, other: Real32) -> (out: Real32)
        ensures
            out == self.smaller_of(other),
    {
        if self.nan() || other.less(self) {
            other
        } else {
            self
        }
    }

    pub fn clamped(self, low: Real32, high: Real32) -> (out: Real32)
        requires
            low.le(high),
        ensures
            out == self.within(low, high),
    {
        if self.less(low) {
            low
        } else if high.less(self) {
            high
        } else {
            self
        }
    }

    pub fn equals(self, other: Real32) -> (out: bool)
        ensures
            out == self.same(other),
    {
        !self.nan() && !other.nan() && self.key() == other.key()
    }
}

impl Real64 {
    /// The pattern without its sign bit.
    pub open spec fn magnitude(self) -> int {
        if self.bits < SIGN_WEIGHT {
            self.bits as int
        } else {
            self.bits - SIGN_WEIGHT
        }
    }

    pub open spec fn is_nan(self) -> bool {
        self.magnitude() > INFINITY_BITS
    }

    pub open spec fn is_finite(self) -> bool {
        self.magnitude() < INFINITY_BITS
    }

    /// An integer that orders the numbers as their values do. The two zeros
    /// share it.
    pub open spec fn order_key(self) -> int {
        if self.bits < SIGN_WEIGHT {
            self.magnitude()
        } else {
            -self.magnitude()
        }
    }

    /// `self < other` on numbers. Nothing is below or above a NaN.
    pub open spec fn lt(self, other: Real64) -> bool {
        !self.is_nan() && !other.is_nan() && self.order_key() < other.order_key()
    }

    /// `self <= other` on numbers.
    pub open spec fn le(self, other: Real64) -> bool {
        !self.is_nan() && !other.is_nan() && self.order_key() <= other.order_key()
    }

    /// `self == other` on numbers: the zeros are equal, a NaN equals nothing.
    pub open spec fn same(self, other: Real64) -> bool {
        !self.is_nan() && !other.is_nan() && self.order_key() == other.order_key()
    }

    pub fn from_bits(bits: u64) -> (out: Real64)
        ensures
            out.bits == bits,
    {
        Real64 { bits }
    }

    pub fn nan(self) -> (out: bool)
        ensures
            out == self.is_nan(),
    {
        let magnitude: u64 = if self.bits < SIGN_WEIGHT {
            self.bits
        } else {
            self.bits - SIGN_WEIGHT
        };
        magnitude > INFINITY_BITS
    }

    pub fn finite(self) -> (out: bool)
        ensures
            out == self.is_finite(),
    {
        let magnitude: u64 = if self.bits < SIGN_WEIGHT {
            self.bits
        } else {
            self.bits - SIGN_WEIGHT
        };
        magnitude < INFINITY_BITS
    }

    fn key(self) -> (out: i128)
        ensures
            out == self.order_key(),
    {
        if self.bits < SIGN_WEIGHT {
            self.bits as i128
        } else {
            -((self.bits - SIGN_WEIGHT) as i128)
        }
    }

    pub fn less(self, other: Real64) -> (out: bool)
        ensures
            out == self.lt(other),
    {
        !self.nan() && !other.nan() && self.key() < other.key()
    }

    pub fn at_most(self, other: Real64) -> (out: bool)
        ensures
            out == self.le(other),
    {
        !self.nan() && !other.nan() && self.key() <= other.key()
    }

    /// The larger of two numbers; the other one where one is a NaN.
    pub open spec fn larger_of(self, other: Real64) -> Real64 {
        if self.is_nan() || self.lt(other) {
            other
        } else {
            self
        }
    }

    /// The smaller of two numbers; the other one where one is a NaN.
    pub open spec fn smaller_of(self, other: Real64) -> Real64 {
        if self.is_nan() || other.lt(self) {
            other
        } else {
            self
        }
    }

    /// The number of `low..=high` that is next to this one.
    pub open spec fn within(self, low: Real64, high: Real64) -> Real64 {
        if self.lt(low) {
            low
        } else if high.lt(self) {
            high
        } else {
            self
        }
    }

    pub fn larger(self, other: Real64) -> (out: Real64)
        ensures
            out == self.larger_of(other),
    {
        if self.nan() || self.less(other) {
            other
        } else {
            self
        }
    }

    pub fn smaller(self, other: Real64) -> (out: Real64)
        ensures
            out == self.smaller_of(other),
    {
        if self.nan() || other.less(self) {
            other
        } else {
            self
        }
    }

    pub fn clamped(self, low: Real64, high: Real64) -> (out: Real64)
        requires
            low.le(high),
        ensures
            out == self.within(low, high),
    {
        if self.less(low) {
            low
        } else if high.less(self) {
            high
        } else {
            self
        }
    }

    pub fn equals(self, other: Real64) -> (out: bool)
        ensures
            out == self.same(other),
    {
        !self.nan() && !other.nan() && self.key() == other.key()
    }

    /// The number equal to a whole number.
    pub fn from_u16(n: u16) -> (out: Real64)
        ensures
            out.is_whole(n as nat),
            out == whole(n as nat),
    {
        if n == 0 {
            proof {
                whole_is_unique(Real64 { bits: 0 }, 0);
            }
            return Real64 { bits: 0 };
        }
        let mut power: u64 = 1;
        let mut scale: u64 = FRACTION_WEIGHT;
        let mut exponent: u64 = 0;
        proof {
            lemma2_to64();
            lemma2_to64_rest();
        }
        while power * 2 <= n as u64
            invariant
                power <= n <= u16::MAX,
                exponent < 16,
                power == pow2(exponent as nat),
                scale == pow2((52 - exponent) as nat),
                1 <= power,
                power * scale == FRACTION_WEIGHT,
                scale <= FRACTION_WEIGHT,
                pow2(16) == 0x10000,
            decreases n - power,
        {
            proof {
                lemma_pow2_unfold((exponent + 1) as nat);
                lemma_pow2_unfold((52 - exponent) as nat);
                if exponent == 15 {
                    assert(power * 2 == pow2(16));
                }
                let half = pow2((51 - exponent) as nat) as int;
                assert(scale == 2 * half);
                assert((power * 2) * half == power * scale) by (nonlinear_arith)
                    requires
                        scale == 2 * half,
                ;
            }
            power = power * 2;
            scale = scale / 2;
            exponent = exponent + 1;
        }
        proof {
            lemma_pow2_unfold((exponent + 1) as nat);
            assert((n - power) * scale < FRACTION_WEIGHT) by (nonlinear_arith)
                requires
                    0 <= n - power < power,
                    power * scale == FRACTION_WEIGHT,
                    scale > 0,
            ;
            assert((n - power) * scale >= 0) by (nonlinear_arith)
                requires
                    0 <= n - power,
                    scale >= 0,
            ;
        }
        let bits: u64 = (1023 + exponent) * FRACTION_WEIGHT + (n as u64 - power) * scale;
        let out = Real64 { bits };
        proof {
            assert(out.is_whole_with(n as nat, exponent as nat));
            whole_is_unique(out, n as nat);
        }
        out
    }

    /// The pattern of the whole number `n` with leading bit `exponent`.
    pub open spec fn is_whole_with(self, n: nat, exponent: nat) -> bool {
        &&& exponent <= 52
        &&& pow2(exponent) <= n < pow2(exponent + 1)
        &&& self.bits == (1023 + exponent) * FRACTION_WEIGHT + (n - pow2(exponent)) * pow2(
            (52 - exponent) as nat,
        )
    }

    /// Whether this is the number equal to the whole number `n`: its exponent
    /// is the position of the leading bit of `n`, and the remaining bits stand
    /// at the top of the fraction.
    pub open spec fn is_whole(self, n: nat) -> bool {
        if n == 0 {
            self.bits == 0
        } else {
            exists|exponent: nat| self.is_whole_with(n, exponent)
        }
    }
}

/// The number equal to the whole number `n`.
pub open spec fn whole(n: nat) -> Real64 {
    choose|x: Real64| x.is_whole(n)
}

/// A whole number has one pattern only.
pub proof fn whole_is_unique(x: Real64, n: nat)
    requires
        x.is_whole(n),
    ensures
        whole(n) == x,
{
    let y = whole(n);
    assert(y.is_whole(n));
    if n > 0 {
        let ex = choose|e: nat| x.is_whole_with(n, e);
        let ey = choose|e: nat| y.is_whole_with(n, e);
        leading_bit_unique(n, ex, ey);
    }
    assert(x.bits == y.bits);
}

/// The fraction of a whole number stays below the weight of the exponent.
pub(crate) proof fn whole_fraction_bound(x: Real64, n: nat, exponent: nat)
    requires
        x.is_whole_with(n, exponent),
    ensures
        (1023 + exponent) * FRACTION_WEIGHT <= x.bits < (1024 + exponent) * FRACTION_WEIGHT,
{
    let p = pow2(exponent) as int;
    let scale = pow2((52 - exponent) as nat) as int;
    lemma2_to64_rest();
    lemma_pow2_unfold(exponent + 1);
    lemma_pow2_adds(exponent, (52 - exponent) as nat);
    lemma_pow2_pos((52 - exponent) as nat);
    assert((n - p) * scale < p * scale) by (nonlinear_arith)
        requires
            n - p < p,
            scale > 0,
    ;
    assert((n - p) * scale >= 0) by (nonlinear_arith)
        requires
            n - p >= 0,
            scale > 0,
    ;
}

/// Whole numbers up to 2^53 are ordered as their patterns are.
pub proof fn whole_numbers_keep_order(x: Real64, a: nat, y: Real64, b: nat)
    requires
        x.is_whole(a),
        y.is_whole(b),
    ensures
        x.is_finite(),
        y.is_finite(),
        x.le(y) <==> a <= b,
        x.lt(y) <==> a < b,
{
    whole_in_range(x, a);
    whole_in_range(y, b);
    if a < b {
        whole_strictly_above(x, a, y, b);
    } else if b < a {
        whole_strictly_above(y, b, x, a);
    } else if a > 0 {
        let ea = choose|e: nat| x.is_whole_with(a, e);
        let eb = choose|e: nat| y.is_whole_with(b, e);
        leading_bit_unique(a, ea, eb);
    }
}

proof fn leading_bit_unique(n: nat, e1: nat, e2: nat)
    requires
        pow2(e1) <= n < pow2(e1 + 1),
        pow2(e2) <= n < pow2(e2 + 1),
    ensures
        e1 == e2,
{
    if e1 < e2 {
        if e1 + 1 < e2 {
            lemma_pow2_strictly_increases(e1 + 1, e2);
        }
    } else if e2 < e1 {
        if e2 + 1 < e1 {
            lemma_pow2_strictly_increases(e2 + 1, e1);
        }
    }
}

proof fn whole_in_range(x: Real64, n: nat)
    requires
        x.is_whole(n),
    ensures
        x.bits < INFINITY_BITS,
{
    if n > 0 {
        let e = choose|e: nat| x.is_whole_with(n, e);
        whole_fraction_bound(x, n, e);
    }
}

proof fn whole_strictly_above(x: Real64, a: nat, y: Real64, b: nat)
    requires
        x.is_whole(a),
        y.is_whole(b),
        a < b,
    ensures
        x.bits < y.bits,
{
    let eb = choose|e: nat| y.is_whole_with(b, e);
    whole_fraction_bound(y, b, eb);
    if a > 0 {
        let ea = choose|e: nat| x.is_whole_with(a, e);
        whole_fraction_bound(x, a, ea);
        if ea == eb {
            let p = pow2(ea) as int;
            let scale = pow2((52 - ea) as nat) as int;
            lemma_pow2_pos((52 - ea) as nat);
            assert((a - p) * scale < (b - p) * scale) by (nonlinear_arith)
                requires
                    a < b,
                    scale > 0,
            ;
        } else if eb < ea {
            if eb + 1 < ea {
                lemma_pow2_strictly_increases(eb + 1, ea);
            }
        }
    }
}

/// The order of numbers by their patterns: positive numbers are ordered as
/// their patterns, negative ones the other way round, a negative number is
/// below every positive one, and nothing is compared with a NaN.
pub proof fn numbers_are_ordered_by_their_patterns(x: Real64, y: Real64)
    ensures
        x.bits < y.bits <= INFINITY_BITS ==> x.lt(y) && x.le(y) && !y.le(x),
        SIGN_WEIGHT <= x.bits < y.bits <= SIGN_WEIGHT + INFINITY_BITS ==> y.lt(x) && !x.le(y),
        x.bits <= INFINITY_BITS && SIGN_WEIGHT < y.bits <= SIGN_WEIGHT + INFINITY_BITS ==> y.lt(x)
            && !x.le(y),
        x.bits <= INFINITY_BITS && y == x ==> x.le(y) && !x.lt(y) && x.same(y),
        INFINITY_BITS < x.bits < SIGN_WEIGHT || x.bits > SIGN_WEIGHT + INFINITY_BITS ==> !x.le(y)
            && !y.le(x) && !x.lt(y) && !y.lt(x) && !x.same(y),
        x.same(y) <==> x.le(y) && y.le(x),
        x.lt(y) <==> x.le(y) && !y.le(x),
        (Real64 { bits: SIGN_WEIGHT }).same(Real64 { bits: 0 }),
{
}

/// The same for binary32.
pub proof fn single_numbers_are_ordered_by_their_patterns(x: Real32, y: Real32)
    ensures
        x.bits < y.bits <= INFINITY_BITS_32 ==> x.lt(y) && x.le(y) && !y.le(x),
        SIGN_WEIGHT_32 <= x.bits < y.bits <= SIGN_WEIGHT_32 + INFINITY_BITS_32 ==> y.lt(x) && !x.le(
            y,
        ),
        x.bits <= INFINITY_BITS_32 && SIGN_WEIGHT_32 < y.bits <= SIGN_WEIGHT_32 + INFINITY_BITS_32
            ==> y.lt(x) && !x.le(y),
        x.bits <= INFINITY_BITS_32 && y == x ==> x.le(y) && !x.lt(y) && x.same(y),
        INFINITY_BITS_32 < x.bits < SIGN_WEIGHT_32 || x.bits > SIGN_WEIGHT_32 + INFINITY_BITS_32
            ==> !x.le(y) && !y.le(x) && !x.lt(y) && !y.lt(x) && !x.same(y),
        x.same(y) <==> x.le(y) && y.le(x),
        x.lt(y) <==> x.le(y) && !y.le(x),
        (Real32 { bits: SIGN_WEIGHT_32 }).same(Real32 { bits: 0 }),
{
}

/// The larger and the smaller of two numbers are one of them each, and bound
/// both; a NaN gives way to the other one. A number that is brought within
/// bounds lies in them, and stays as it is where it does so already.
pub proof fn larger_and_smaller_bound_both(x: Real64, y: Real64, low: Real64, high: Real64)
    ensures
        !x.is_nan() && !y.is_nan() ==> x.le(x.larger_of(y)) && y.le(x.larger_of(y))
            && x.smaller_of(y).le(x) && x.smaller_of(y).le(y),
        x.larger_of(y) == x || x.larger_of(y) == y,
        x.smaller_of(y) == x || x.smaller_of(y) == y,
        x.is_nan() ==> x.larger_of(y) == y && x.smaller_of(y) == y,
        y.is_nan() && !x.is_nan() ==> x.larger_of(y) == x && x.smaller_of(y) == x,
        low.le(high) && !x.is_nan() ==> low.le(x.within(low, high)) && x.within(low, high).le(high),
        low.le(x) && x.le(high) ==> x.within(low, high) == x,
        low.le(high) && x.lt(low) ==> x.within(low, high) == low,
        low.le(high) && high.lt(x) ==> x.within(low, high) == high,
{
}

/// The same for binary32.
pub proof fn larger_and_smaller_bound_both_32(x: Real32, y: Real32, low: Real32, high: Real32)
    ensures
        !x.is_nan() && !y.is_nan() ==> x.le(x.larger_of(y)) && y.le(x.larger_of(y))
            && x.smaller_of(y).le(x) && x.smaller_of(y).le(y),
        x.larger_of(y) == x || x.larger_of(y) == y,
        x.smaller_of(y) == x || x.smaller_of(y) == y,
        x.is_nan() ==> x.larger_of(y) == y && x.smaller_of(y) == y,
        y.is_nan() && !x.is_nan() ==> x.larger_of(y) == x && x.smaller_of(y) == x,
        low.le(high) && !x.is_nan() ==> low.le(x.within(low, high)) && x.within(low, high).le(high),
        low.le(x) && x.le(high) ==> x.within(low, high) == x,
        low.le(high) && x.lt(low) ==> x.within(low, high) == low,
        low.le(high) && high.lt(x) ==> x.within(low, high) == high,
{
}

} // verus!
