//! Colour maps: from a value between zero and one to a colour.
use crate::binary64::{FRACTION_WEIGHT_32, ONE_BITS_32, Real32};
use crate::rounding::{
    half_up, half_up_is_next_to_the_number, nearest, nearest_is_next_to_the_quotient,
    nearest_whole, power_of_two,
};
use vstd::arithmetic::power2::{
    lemma2_to64, lemma2_to64_rest, lemma_pow2_adds, lemma_pow2_strictly_increases, pow2,
};
use vstd::prelude::*;

verus! {

/// A colour by its red, green and blue.
#[derive(Debug, Clone, Copy, PartialEq, Eq, Structural)]
pub struct Rgb {
    pub r: u8,
    pub g: u8,
    pub b: u8,
}

#[derive(Debug, Clone, Copy, PartialEq, Eq, Hash, Structural)]
pub enum Colormap {
    Grays,
    Fire,
    RedHot,
    Green,
    CyanHot,
    MagentaHot,
    Ice,
    BlueWhiteRed,
}

// ---------------------------------------------------------------------------
// Ramps
// ---------------------------------------------------------------------------
/// `num / den` to the nearest whole number, a half up.
pub open spec fn rounded_half_up(num: int, den: int) -> int {
    (2 * num + den) / (2 * den)
}

/// A channel that rises from 0 at `start` to 255 at `end`.
pub open spec fn ramp_value(index: int, start: int, end: int) -> int {
    if index <= start {
        0
    } else if index >= end {
        255
    } else {
        rounded_half_up((index - start) * 255, end - start)
    }
}

pub fn ramp(index: u8, start: u8, end: u8) -> (out: u8)
    ensures
        out == ramp_value(index as int, start as int, end as int),
{
    if index <= start {
        return 0;
    }
    if index >= end {
        return 255;
    }
    let span: u32 = end as u32 - start as u32;
    let num: u32 = (index as u32 - start as u32) * 255;
    proof {
        quotient_bound(num as int, span as int);
    }
    ((2 * num + span) / (2 * span)) as u8
}

proof fn quotient_bound(num: int, span: int)
    requires
        0 <= num <= 255 * span,
        span > 0,
    ensures
        0 <= rounded_half_up(num, span) <= 255,
{
    assert((2 * num + span) / (2 * span) <= 255) by (nonlinear_arith)
        requires
            num <= 255 * span,
            span > 0,
    ;
    assert((2 * num + span) / (2 * span) >= 0) by (nonlinear_arith)
        requires
            num >= 0,
            span > 0,
    ;
}

/// A channel that is ramped up never falls.
pub proof fn ramps_rise(a: int, b: int, start: int, end: int)
    requires
        a <= b,
        start < end,
    ensures
        0 <= ramp_value(a, start, end) <= ramp_value(b, start, end) <= 255,
{
    let span = end - start;
    if start < a < end {
        quotient_bound((a - start) * 255, span);
    }
    if start < b < end {
        quotient_bound((b - start) * 255, span);
    }
    if start < a && b < end {
        assert((2 * ((a - start) * 255) + span) / (2 * span) <= (2 * ((b - start) * 255) + span) / (2
            * span)) by (nonlinear_arith)
            requires
                a <= b,
                span > 0,
        ;
    }
}

/// A channel between two stops: `step` eighths of the way.
pub open spec fn blended(start: int, end: int, step: int) -> int {
    rounded_half_up(8 * start + (end - start) * step, 8)
}

fn blend(start: u8, end: u8, step: u8) -> (out: u8)
    requires
        step < 8,
    ensures
        out == blended(start as int, end as int, step as int),
{
    let s: i32 = start as i32;
    let e: i32 = end as i32;
    let k: i32 = step as i32;
    proof {
        assert(0 <= 8 * s + (e - s) * k <= 8 * 255) by (nonlinear_arith)
            requires
                0 <= s <= 255,
                0 <= e <= 255,
                0 <= k < 8,
        ;
        assert(-2040 <= (e - s) * k <= 2040) by (nonlinear_arith)
            requires
                0 <= s <= 255,
                0 <= e <= 255,
                0 <= k < 8,
        ;
    }
    let weighted: u32 = (8 * s + (e - s) * k) as u32;
    ((2 * weighted + 8) / 16) as u8
}

/// The stop behind the one at `i`.
pub open spec fn next_stop(i: int) -> int {
    if i + 1 > 31 {
        31
    } else {
        i + 1
    }
}

/// A channel of a map that is given by 32 stops.
pub open spec fn stops_value(stops: Seq<u8>, index: int) -> int {
    blended(stops[index / 8] as int, stops[next_stop(index / 8)] as int, index % 8)
}

fn stops_channel(stops: &[u8; 32], index: u8) -> (out: u8)
    ensures
        out == stops_value(stops@, index as int),
{
    let at: usize = (index / 8) as usize;
    let after: usize = if at + 1 > 31 {
        31
    } else {
        at + 1
    };
    blend(stops[at], stops[after], index % 8)
}

pub open spec fn fire_red() -> Seq<u8> {
    seq![
        0, 0, 1, 25, 49, 73, 98, 122, 146, 162, 173, 184, 195, 207, 217, 229, 240, 252, 255, 255,
        255, 255, 255, 255, 255, 255, 255, 255, 255, 255, 255, 255,
    ]
}

pub open spec fn fire_green() -> Seq<u8> {
    seq![
        0, 0, 0, 0, 0, 0, 0, 0, 0, 0, 0, 0, 0, 14, 35, 57, 79, 101, 117, 133, 147, 161, 175, 190,
        205, 219, 234, 248, 255, 255, 255, 255,
    ]
}

pub open spec fn fire_blue() -> Seq<u8> {
    seq![
        0, 61, 96, 130, 165, 192, 220, 227, 210, 181, 151, 122, 93, 64, 35, 5, 0, 0, 0, 0, 0, 0, 0,
        0, 0, 0, 0, 35, 98, 160, 223, 255,
    ]
}

pub open spec fn ice_red() -> Seq<u8> {
    seq![
        0, 0, 0, 0, 0, 0, 19, 29, 50, 48, 79, 112, 134, 158, 186, 201, 217, 229, 242, 250, 250, 250,
        250, 251, 250, 250, 250, 250, 251, 251, 243, 230,
    ]
}

pub open spec fn ice_green() -> Seq<u8> {
    seq![
        156, 165, 176, 184, 190, 196, 193, 184, 171, 162, 146, 125, 107, 93, 81, 87, 92, 97, 95, 93,
        93, 90, 85, 69, 64, 54, 47, 35, 19, 0, 4, 0,
    ]
}

pub open spec fn ice_blue() -> Seq<u8> {
    seq![
        140, 147, 158, 166, 170, 176, 209, 220, 234, 225, 236, 246, 250, 251, 250, 250, 245, 230,
        230, 222, 202, 180, 163, 142, 123, 114, 106, 94, 84, 64, 26, 27,
    ]
}

/// The colour of a map at an index.
pub open spec fn color_at(map: Colormap, index: int) -> (int, int, int) {
    match map {
        Colormap::Grays => (index, index, index),
        Colormap::Fire => (
            stops_value(fire_red(), index),
            stops_value(fire_green(), index),
            stops_value(fire_blue(), index),
        ),
        Colormap::RedHot => (
            ramp_value(index, 0, 88),
            ramp_value(index, 86, 168),
            ramp_value(index, 165, 255),
        ),
        Colormap::Green => (0, index, 0),
        Colormap::CyanHot => (
            ramp_value(index, 170, 255),
            ramp_value(index, 84, 169),
            ramp_value(index, 0, 83),
        ),
        Colormap::MagentaHot => (
            ramp_value(index, 0, 127),
            ramp_value(index, 128, 255),
            ramp_value(index, 0, 127),
        ),
        Colormap::Ice => (
            stops_value(ice_red(), index),
            stops_value(ice_green(), index),
            stops_value(ice_blue(), index),
        ),
        Colormap::BlueWhiteRed => if index < 128 {
            (rounded_half_up(index * 255, 127), rounded_half_up(index * 255, 127), 255)
        } else {
            (
                255,
                rounded_half_up((255 - index) * 255, 127),
                rounded_half_up((255 - index) * 255, 127),
            )
        },
    }
}

/// A 127th part of the full channel, `n` times.
fn share_of_127(n: u8) -> (out: u8)
    requires
        n <= 127,
    ensures
        out == rounded_half_up(n * 255, 127),
{
    let num: u32 = n as u32 * 255;
    proof {
        quotient_bound(num as int, 127);
    }
    ((2 * num + 127) / 254) as u8
}

impl Colormap {
    /// The maps in the order in which they are offered.
    pub const ALL: [Colormap; 8] = [
        Colormap::Grays,
        Colormap::Fire,
        Colormap::RedHot,
        Colormap::Green,
        Colormap::CyanHot,
        Colormap::MagentaHot,
        Colormap::Ice,
        Colormap::BlueWhiteRed,
    ];

    pub open spec fn name(self) -> Seq<char> {
        match self {
            Colormap::Grays => "Grays"@,
            Colormap::Fire => "Fire"@,
            Colormap::RedHot => "Red Hot"@,
            Colormap::Green => "Green"@,
            Colormap::CyanHot => "Cyan Hot"@,
            Colormap::MagentaHot => "Magenta Hot"@,
            Colormap::Ice => "Ice"@,
            Colormap::BlueWhiteRed => "Blue White Red"@,
        }
    }

    pub fn label(self) -> (out: &'static str)
        ensures
            out@ == self.name(),
    {
        match self {
            Colormap::Grays => "Grays",
            Colormap::Fire => "Fire",
            Colormap::RedHot => "Red Hot",
            Colormap::Green => "Green",
            Colormap::CyanHot => "Cyan Hot",
            Colormap::MagentaHot => "Magenta Hot",
            Colormap::Ice => "Ice",
            Colormap::BlueWhiteRed => "Blue White Red",
        }
    }

    /// The place of the map among all of them.
    pub open spec fn position(self) -> u32 {
        match self {
            Colormap::Grays => 0,
            Colormap::Fire => 1,
            Colormap::RedHot => 2,
            Colormap::Green => 3,
            Colormap::CyanHot => 4,
            Colormap::MagentaHot => 5,
            Colormap::Ice => 6,
            Colormap::BlueWhiteRed => 7,
        }
    }

    pub fn index(self) -> (out: u32)
        ensures
            out == self.position(),
    {
        match self {
            Colormap::Grays => 0,
            Colormap::Fire => 1,
            Colormap::RedHot => 2,
            Colormap::Green => 3,
            Colormap::CyanHot => 4,
            Colormap::MagentaHot => 5,
            Colormap::Ice => 6,
            Colormap::BlueWhiteRed => 7,
        }
    }

    /// The colour at an index of the map.
    pub fn entry(self, index: u8) -> (out: Rgb)
        ensures
            (out.r as int, out.g as int, out.b as int) == color_at(self, index as int),
    {
        match self {
            Colormap::Grays => Rgb { r: index, g: index, b: index },
            Colormap::Fire => {
                let red: [u8; 32] = [
                    0, 0, 1, 25, 49, 73, 98, 122, 146, 162, 173, 184, 195, 207, 217, 229, 240, 252,
                    255, 255, 255, 255, 255, 255, 255, 255, 255, 255, 255, 255, 255, 255,
                ];
                let green: [u8; 32] = [
                    0, 0, 0, 0, 0, 0, 0, 0, 0, 0, 0, 0, 0, 14, 35, 57, 79, 101, 117, 133, 147, 161,
                    175, 190, 205, 219, 234, 248, 255, 255, 255, 255,
                ];
                let blue: [u8; 32] = [
                    0, 61, 96, 130, 165, 192, 220, 227, 210, 181, 151, 122, 93, 64, 35, 5, 0, 0, 0,
                    0, 0, 0, 0, 0, 0, 0, 0, 35, 98, 160, 223, 255,
                ];
                assert(red@ =~= fire_red());
                assert(green@ =~= fire_green());
                assert(blue@ =~= fire_blue());
                Rgb {
                    r: stops_channel(&red, index),
                    g: stops_channel(&green, index),
                    b: stops_channel(&blue, index),
                }
            },
            Colormap::RedHot => Rgb {
                r: ramp(index, 0, 88),
                g: ramp(index, 86, 168),
                b: ramp(index, 165, 255),
            },
            Colormap::Green => Rgb { r: 0, g: index, b: 0 },
            Colormap::CyanHot => Rgb {
                r: ramp(index, 170, 255),
                g: ramp(index, 84, 169),
                b: ramp(index, 0, 83),
            },
            Colormap::MagentaHot => {
                let primary: u8 = ramp(index, 0, 127);
                Rgb { r: primary, g: ramp(index, 128, 255), b: primary }
            },
            Colormap::Ice => {
                let red: [u8; 32] = [
                    0, 0, 0, 0, 0, 0, 19, 29, 50, 48, 79, 112, 134, 158, 186, 201, 217, 229, 242,
                    250, 250, 250, 250, 251, 250, 250, 250, 250, 251, 251, 243, 230,
                ];
                let green: [u8; 32] = [
                    156, 165, 176, 184, 190, 196, 193, 184, 171, 162, 146, 125, 107, 93, 81, 87, 92,
                    97, 95, 93, 93, 90, 85, 69, 64, 54, 47, 35, 19, 0, 4, 0,
                ];
                let blue: [u8; 32] = [
                    140, 147, 158, 166, 170, 176, 209, 220, 234, 225, 236, 246, 250, 251, 250, 250,
                    245, 230, 230, 222, 202, 180, 163, 142, 123, 114, 106, 94, 84, 64, 26, 27,
                ];
                assert(red@ =~= ice_red());
                assert(green@ =~= ice_green());
                assert(blue@ =~= ice_blue());
                Rgb {
                    r: stops_channel(&red, index),
                    g: stops_channel(&green, index),
                    b: stops_channel(&blue, index),
                }
            },
            Colormap::BlueWhiteRed => {
                if index < 128 {
                    let c: u8 = share_of_127(index);
                    Rgb { r: c, g: c, b: 255 }
                } else {
                    let c: u8 = share_of_127(255 - index);
                    Rgb { r: 255, g: c, b: c }
                }
            },
        }
    }

    /// The whole map.
    pub fn table(self) -> (out: Vec<Rgb>)
        ensures
            out@.len() == 256,
            forall|i: int|
                0 <= i < 256 ==> ((#[trigger] out@[i]).r as int, out@[i].g as int, out@[i].b as int)
                    == color_at(self, i),
    {
        let mut out: Vec<Rgb> = Vec::new();
        let mut i: u16 = 0;
        while i < 256
            invariant
                i <= 256,
                out@.len() == i,
                forall|k: int|
                    0 <= k < i ==> (
                    (#[trigger] out@[k]).r as int,
                    out@[k].g as int,
                    out@[k].b as int,
                    ) == color_at(self, k),
            decreases 256 - i,
        {
            out.push(self.entry(i as u8));
            i = i + 1;
        }
        out
    }

    /// The colour of a value: values below zero count as zero, values above
    /// one as one.
    pub fn lookup(self, value: Real32) -> (out: Rgb)
        ensures
            (out.r as int, out.g as int, out.b as int) == color_at(self, index_of(value) as int),
    {
        self.entry(lookup_index(value))
    }
}

/// An image as bytes: red, green, blue and full opacity of each pixel. There
/// have to be enough pixels for the size.
pub fn rgba_bytes(pixels: &Vec<Rgb>, width: u32, height: u32) -> (out: Result<Vec<u8>, String>)
    requires
        pixels@.len() * 4 <= usize::MAX,
    ensures
        pixels@.len() < width * height ==> (out matches Err(problem) && problem@
            == "failed to build RGBA export image"@),
        pixels@.len() >= width * height ==> (out matches Ok(bytes) && bytes@.len() == pixels@.len()
            * 4 && forall|i: int|
            0 <= i < pixels@.len() ==> bytes@[4 * i] == (#[trigger] pixels@[i]).r && bytes@[4 * i
                + 1] == pixels@[i].g && bytes@[4 * i + 2] == pixels@[i].b && bytes@[4 * i + 3]
                == 255),
{
    proof {
        assert(width * height <= 0xffff_ffff * 0xffff_ffff) by (nonlinear_arith)
            requires
                0 <= width <= 0xffff_ffff,
                0 <= height <= 0xffff_ffff,
        ;
    }
    if (pixels.len() as u64) < width as u64 * height as u64 {
        return Err("failed to build RGBA export image".to_owned());
    }
    let mut bytes: Vec<u8> = Vec::new();
    let mut k: usize = 0;
    while k < pixels.len()
        invariant
            k <= pixels@.len(),
            bytes@.len() == 4 * k,
            forall|i: int|
                0 <= i < k ==> bytes@[4 * i] == (#[trigger] pixels@[i]).r && bytes@[4 * i + 1]
                    == pixels@[i].g && bytes@[4 * i + 2] == pixels@[i].b && bytes@[4 * i + 3]
                    == 255,
        decreases pixels@.len() - k,
    {
        let pixel = pixels[k];
        bytes.push(pixel.r);
        bytes.push(pixel.g);
        bytes.push(pixel.b);
        bytes.push(255);
        k = k + 1;
    }
    Ok(bytes)
}

// ---------------------------------------------------------------------------
// From values to indices
// ---------------------------------------------------------------------------
/// By how many bits a significand times 255 is too long for a binary32
/// number.
pub open spec fn excess_bits(n: nat) -> nat {
    if n < 0x8000_0000 {
        7
    } else {
        8
    }
}

/// The index of a value: the value, between zero and one, times 255 in binary32
/// arithmetic, to the nearest whole number. What is no number counts as zero.
pub open spec fn index_of(value: Real32) -> nat {
    if value.is_nan() || value.bits >= 0x8000_0000 || value.bits < FRACTION_WEIGHT_32 {
        0
    } else if value.bits >= ONE_BITS_32 {
        255
    } else {
        let exponent = value.bits as int / 0x80_0000;
        let n = ((value.bits as int % 0x80_0000 + 0x80_0000) * 255) as nat;
        let s = excess_bits(n);
        half_up(nearest(n, pow2(s)), s + exponent - 150)
    }
}

pub fn lookup_index(value: Real32) -> (out: u8)
    ensures
        out == index_of(value),
{
    if value.nan() || value.bits >= 0x8000_0000 || value.bits < FRACTION_WEIGHT_32 {
        return 0;
    }
    if value.bits >= ONE_BITS_32 {
        return 255;
    }
    let exponent: u32 = value.bits / FRACTION_WEIGHT_32;
    let n: u128 = ((value.bits % FRACTION_WEIGHT_32 + FRACTION_WEIGHT_32) as u128) * 255;
    let s: u32 = if n < 0x8000_0000 {
        7
    } else {
        8
    };
    proof {
        lemma2_to64();
        lemma2_to64_rest();
    }
    let unit: u128 = power_of_two(s);
    let q: u128 = nearest_whole(n, unit);
    let k: u32 = 150 - exponent - s;
    proof {
        // The rounded product is at most 255 times 2^(24 - s).
        assert(n <= 255 * 0xff_ffff);
        if s == 7 {
            assert(q <= 255 * 0x2_0000);
        } else {
            assert(q <= 255 * 0x1_0000);
        }
        assert(exponent <= 126);
    }
    if k > 40 {
        proof {
            if k > 41 {
                lemma_pow2_strictly_increases(41, k as nat);
            }
            let p = pow2(k as nat) as int;
            assert((2 * q + p) / (2 * p) == 0) by (nonlinear_arith)
                requires
                    0 <= 2 * q < p,
            ;
        }
        return 0;
    }
    let scale: u128 = power_of_two(k);
    proof {
        let least: nat = (24 - s) as nat;
        if k > least {
            lemma_pow2_strictly_increases(least, k as nat);
        }
        assert(q <= 255 * scale);
        assert((2 * q + scale) / (2 * scale) <= 255) by (nonlinear_arith)
            requires
                q <= 255 * scale,
                scale > 0,
        ;
        if k < 40 {
            lemma_pow2_strictly_increases(k as nat, 40);
        }
    }
    ((2 * q + scale) / (2 * scale)) as u8
}

/// Values out of range are looked up as the nearest value in range.
pub proof fn lookup_is_clamped(value: Real32)
    ensures
        value.lt(Real32 { bits: 0 }) ==> index_of(value) == index_of(Real32 { bits: 0 }),
        (Real32 { bits: ONE_BITS_32 }).lt(value) ==> index_of(value) == index_of(
            Real32 { bits: ONE_BITS_32 },
        ),
{
}

/// A value between zero and one is looked up at the place next to 255 times the
/// value, as far as 24 bits hold the product. The value is `m / 2^k`, by its
/// bit pattern.
pub proof fn values_are_looked_up_at_their_place(value: Real32, m: nat, k: nat)
    requires
        0x80_0000 <= m < 0x100_0000,
        24 <= k < 150,
        value.bits == (150 - k) * 0x80_0000 + (m - 0x80_0000),
    ensures
        2 * (index_of(value) * pow2(k)) <= 2 * (255 * m) + pow2(k) + 256,
        2 * (255 * m) <= 2 * (index_of(value) * pow2(k)) + pow2(k) + 256,
        index_of(Real32 { bits: 0 }) == 0,
        index_of(Real32 { bits: ONE_BITS_32 }) == 255,
{
    lemma2_to64();
    let n = (m * 255) as nat;
    let s = excess_bits(n);
    let q = nearest(n, pow2(s));
    let p = pow2(s) as int;
    assert(p == 128 || p == 256);
    nearest_is_next_to_the_quotient(n, pow2(s));
    half_up_is_next_to_the_number(q, s - k);
    let r = pow2((k - s) as nat) as int;
    lemma_pow2_adds((k - s) as nat, s);
    let w = pow2(k) as int;
    assert(w == r * p);
    let i = index_of(value);
    assert(i == half_up(q, s - k));
    assert(2 * (i * w) <= 2 * (q * p) + w && 2 * (q * p) <= 2 * (i * w) + w) by (nonlinear_arith)
        requires
            w == r * p,
            2 * (i * r) <= 2 * q + r,
            2 * q <= 2 * (i * r) + r,
            p > 0,
    {
        assert((2 * (i * r)) * p <= (2 * q + r) * p);
        assert((2 * q) * p <= (2 * (i * r) + r) * p);
        assert((i * r) * p == i * w);
    }
}

/// The ends of the maps: the hot ones and fire go from black to white, gray
/// from black to white, green from black to green, and the diverging one from
/// blue over white to red.
pub proof fn maps_go_from_end_to_end()
    ensures
        color_at(Colormap::Grays, 0) == (0int, 0int, 0int),
        color_at(Colormap::Grays, 255) == (255int, 255int, 255int),
        color_at(Colormap::Fire, 0) == (0int, 0int, 0int),
        color_at(Colormap::Fire, 255) == (255int, 255int, 255int),
        color_at(Colormap::RedHot, 0) == (0int, 0int, 0int),
        color_at(Colormap::RedHot, 88) == (255int, color_at(Colormap::RedHot, 88).1, 0int),
        color_at(Colormap::RedHot, 255) == (255int, 255int, 255int),
        color_at(Colormap::Green, 0) == (0int, 0int, 0int),
        color_at(Colormap::Green, 255) == (0int, 255int, 0int),
        color_at(Colormap::CyanHot, 0) == (0int, 0int, 0int),
        color_at(Colormap::CyanHot, 83) == (0int, 0int, 255int),
        color_at(Colormap::CyanHot, 169) == (0int, 255int, 255int),
        color_at(Colormap::CyanHot, 255) == (255int, 255int, 255int),
        color_at(Colormap::MagentaHot, 0) == (0int, 0int, 0int),
        color_at(Colormap::MagentaHot, 127) == (255int, 0int, 255int),
        color_at(Colormap::MagentaHot, 255) == (255int, 255int, 255int),
        color_at(Colormap::Ice, 0) == (0int, 156int, 140int),
        color_at(Colormap::BlueWhiteRed, 0) == (0int, 0int, 255int),
        color_at(Colormap::BlueWhiteRed, 127) == (255int, 255int, 255int),
        color_at(Colormap::BlueWhiteRed, 255) == (255int, 0int, 0int),
{
    ends_are_stops(fire_red());
    ends_are_stops(fire_green());
    ends_are_stops(fire_blue());
    ends_are_stops(ice_red());
    ends_are_stops(ice_green());
    ends_are_stops(ice_blue());
    assert(fire_red()[0] == 0 && fire_green()[0] == 0 && fire_blue()[0] == 0);
    assert(fire_red()[31] == 255 && fire_green()[31] == 255 && fire_blue()[31] == 255);
    assert(ice_red()[0] == 0 && ice_green()[0] == 156 && ice_blue()[0] == 140);
}

/// A map of stops begins with its first stop and ends with its last one.
proof fn ends_are_stops(stops: Seq<u8>)
    ensures
        stops_value(stops, 0) == stops[0],
        stops_value(stops, 255) == stops[31],
{
    let (first, last) = (stops[0] as int, stops[31] as int);
    assert((stops[1] as int - first) * 0 == 0);
    assert((last - last) * 7 == 0);
}

/// Along a map: gray has three equal channels and green one, each equal to the
/// place. Magenta has as much red as blue. The channels of the hot maps never
/// fall, the red of a red map and the blue of a cyan map rise first. The
/// diverging map is its own mirror image with red and blue exchanged.
pub proof fn maps_run_as_they_are_named(i: int, j: int)
    requires
        0 <= i <= j <= 255,
    ensures
        color_at(Colormap::Grays, i) == (i, i, i),
        color_at(Colormap::Green, i) == (0int, i, 0int),
        color_at(Colormap::MagentaHot, i).0 == color_at(Colormap::MagentaHot, i).2,
        color_at(Colormap::MagentaHot, i).1 <= color_at(Colormap::MagentaHot, i).0,
        color_at(Colormap::RedHot, i).1 <= color_at(Colormap::RedHot, i).0,
        color_at(Colormap::RedHot, i).2 <= color_at(Colormap::RedHot, i).1,
        color_at(Colormap::CyanHot, i).1 <= color_at(Colormap::CyanHot, i).2,
        color_at(Colormap::CyanHot, i).0 <= color_at(Colormap::CyanHot, i).1,
        color_at(Colormap::RedHot, i).0 <= color_at(Colormap::RedHot, j).0,
        color_at(Colormap::RedHot, i).1 <= color_at(Colormap::RedHot, j).1,
        color_at(Colormap::RedHot, i).2 <= color_at(Colormap::RedHot, j).2,
        color_at(Colormap::CyanHot, i).0 <= color_at(Colormap::CyanHot, j).0,
        color_at(Colormap::CyanHot, i).1 <= color_at(Colormap::CyanHot, j).1,
        color_at(Colormap::CyanHot, i).2 <= color_at(Colormap::CyanHot, j).2,
        color_at(Colormap::MagentaHot, i).0 <= color_at(Colormap::MagentaHot, j).0,
        color_at(Colormap::MagentaHot, i).1 <= color_at(Colormap::MagentaHot, j).1,
        color_at(Colormap::BlueWhiteRed, 255 - i) == (
            color_at(Colormap::BlueWhiteRed, i).2,
            color_at(Colormap::BlueWhiteRed, i).1,
            color_at(Colormap::BlueWhiteRed, i).0,
        ),
        i < 128 ==> color_at(Colormap::BlueWhiteRed, i).2 == 255 && color_at(
            Colormap::BlueWhiteRed,
            i,
        ).0 == color_at(Colormap::BlueWhiteRed, i).1,
{
    ramps_rise(i, j, 0, 88);
    ramps_rise(i, j, 86, 168);
    ramps_rise(i, j, 165, 255);
    ramps_rise(i, j, 170, 255);
    ramps_rise(i, j, 84, 169);
    ramps_rise(i, j, 0, 83);
    ramps_rise(i, j, 0, 127);
    ramps_rise(i, j, 128, 255);
    assert(44458int / 176 == 252 && 592int / 164 == 3);
    assert(40882int / 164 == 249 && 600int / 180 == 3);
    assert(41392int / 164 == 252 && 1110int / 180 == 6);
    assert(rounded_half_up(22185, 88) == 252 && rounded_half_up(255, 82) == 3);
    assert(rounded_half_up(20400, 82) == 249 && rounded_half_up(255, 90) == 3);
    assert(rounded_half_up(20655, 82) == 252 && rounded_half_up(510, 90) == 6);
    assert(ramp_value(87, 0, 88) == 252 && ramp_value(87, 86, 168) == 3);
    assert(ramp_value(166, 86, 168) == 249 && ramp_value(166, 165, 255) == 3);
    assert(ramp_value(167, 86, 168) == 252 && ramp_value(167, 165, 255) == 6);
}

/// A ramp is straight: between its ends no channel is farther than half a step
/// from the line.
pub proof fn ramps_are_straight(index: int, start: int, end: int)
    requires
        0 <= start <= index <= end <= 255,
        start < end,
    ensures
        2 * (ramp_value(index, start, end) * (end - start)) <= 2 * ((index - start) * 255) + (end
            - start),
        2 * ((index - start) * 255) <= 2 * (ramp_value(index, start, end) * (end - start)) + (end
            - start),
{
    let d = end - start;
    let n = (index - start) * 255;
    let v = ramp_value(index, start, end);
    if start < index < end {
        let a = 2 * n + d;
        assert((2 * d) * v <= a < (2 * d) * v + 2 * d) by (nonlinear_arith)
            requires
                v == a / (2 * d),
                d > 0,
        ;
        assert((2 * d) * v == 2 * (v * d)) by (nonlinear_arith);
    } else if index >= end {
        assert(255 * d == d * 255) by (nonlinear_arith);
    } else {
        assert(0 * d == 0) by (nonlinear_arith);
    }
}

/// A map of stops takes the stops at every eighth place and goes on evenly from
/// one to the next.
pub proof fn stops_are_joined_by_lines(stops: Seq<u8>, k: int, step: int)
    requires
        stops.len() == 32,
        0 <= k < 31,
        0 <= step < 8,
    ensures
        stops_value(stops, 8 * k) == stops[k],
        ({
            let v = stops_value(stops, 8 * k + step);
            let line = 8 * stops[k] + (stops[k + 1] - stops[k]) * step;
            -8 <= 2 * (8 * v - line) <= 8
        }),
{
    assert((8 * k + step) / 8 == k && (8 * k + step) % 8 == step);
    assert((8 * k) / 8 == k && (8 * k) % 8 == 0);
    assert((stops[k + 1] - stops[k]) * 0 == 0) by (nonlinear_arith);
    let line = 8 * stops[k] + (stops[k + 1] - stops[k]) * step;
    assert(stops_value(stops, 8 * k + step) == (2 * line + 8) / 16);
}

/// The maps have different names and different places, from the first to the
/// eighth.
pub proof fn maps_are_told_apart(a: Colormap, b: Colormap)
    ensures
        a.position() < 8,
        a.position() == b.position() ==> a == b,
        a.position() == 0 <==> a is Grays,
        a.position() == 1 <==> a is Fire,
        a.position() == 2 <==> a is RedHot,
        a.position() == 3 <==> a is Green,
        a.position() == 4 <==> a is CyanHot,
        a.position() == 5 <==> a is MagentaHot,
        a.position() == 6 <==> a is Ice,
        a.position() == 7 <==> a is BlueWhiteRed,
{
}

/// Values from one on have the last colour; negative ones, and what is no
/// number, have the first.
pub proof fn values_outside_have_the_colour_of_the_end(value: Real32)
    ensures
        value.is_nan() ==> index_of(value) == 0,
        value.bits >= 0x8000_0000 ==> index_of(value) == 0,
        value.le(Real32 { bits: 0 }) ==> index_of(value) == 0,
        (Real32 { bits: 0x3f80_0000 }).le(value) ==> index_of(value) == 255,
{
}

} // verus!
