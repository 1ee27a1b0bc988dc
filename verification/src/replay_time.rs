//! Positions in a replay: shares of the whole, times and byte offsets.
use crate::binary32::{from_whole, parts, parts_of_32, whole_32};
use crate::binary64::{Real32, INFINITY_BITS_32, ONE_BITS_32};
use crate::rounding::{
    close_exponent, divide, half_up, half_up_is_next_to_the_number, half_up_of_moved_bits,
    moved_up_once, nearest, nearest_whole, positive_part, power_of_two, round_whole, rounded,
    rounding_is_unique, rounds_to, short_number_stays, to_whole, whole_exponent, Scaled,
};
use crate::single::{quotient, quotient_of};
use vstd::arithmetic::power2::{
    lemma2_to64, lemma2_to64_rest, lemma_pow2_adds, lemma_pow2_pos,
    lemma_pow2_strictly_increases, lemma_pow2_unfold, pow2,
};
use vstd::prelude::*;

verus! {

/// A share, moved into `0..=1`.
pub open spec fn share_of(x: Real32) -> Real32 {
    x.within(Real32 { bits: 0 }, Real32 { bits: ONE_BITS_32 })
}

/// A share of a positive whole number, in the steps of binary64 arithmetic: a
/// significand and an exponent.
pub open spec fn portion_of(total: nat, share: Real32) -> (nat, int) {
    let a = rounded(total, 1);
    let f = parts_of_32(share);
    let p = rounded(a.0 * f.0, 1);
    (p.0, p.1 + a.1 + f.1)
}

fn portion(total: u64, share: Real32) -> (out: Scaled)
    requires
        total > 0,
        0 < share.bits <= ONE_BITS_32,
    ensures
        (out.m as nat, out.e as int) == portion_of(total as nat, share),
        0x10_0000_0000_0000 <= out.m <= 0x20_0000_0000_0000,
        -2000 <= out.e <= 2000,
{
    let a = divide(total, 1);
    let f = parts(share);
    proof {
        assert(a.m * f.m < 0x1_0000_0000_0000_0000_0000 && a.m * f.m > 0) by (nonlinear_arith)
            requires
                0 < a.m <= 0x20_0000_0000_0000,
                0 < f.m < 0x100_0000,
        ;
    }
    let p = round_whole(a.m as u128 * f.m as u128);
    Scaled { m: p.m, e: p.e + a.e + f.e }
}

/// Whether a share of a whole number is zero.
pub open spec fn no_portion(total: nat, share: Real32) -> bool {
    total == 0 || share.is_nan() || share.magnitude() == 0
}

/// The time after a share of the whole duration.
pub open spec fn time_at(fraction: Real32, total_us: nat) -> nat {
    let share = share_of(fraction);
    if no_portion(total_us, share) {
        0
    } else {
        let p = portion_of(total_us, share);
        let whole = half_up(p.0, p.1);
        if whole < total_us {
            whole
        } else {
            total_us
        }
    }
}

pub fn replay_time_from_fraction(fraction: Real32, total_duration_us: u64) -> (out: u64)
    ensures
        out == time_at(fraction, total_duration_us as nat),
        out <= total_duration_us,
{
    let share = fraction.clamped(Real32 { bits: 0 }, Real32 { bits: ONE_BITS_32 });
    if total_duration_us == 0 || share.nan() || share.bits == 0 || share.bits == 0x8000_0000 {
        return 0;
    }
    let whole: u64 = to_whole(portion(total_duration_us, share));
    if whole < total_duration_us {
        whole
    } else {
        total_duration_us
    }
}

/// `m * 2^e` without what is behind the point.
pub open spec fn whole_part(m: nat, e: int) -> nat {
    if e >= 0 {
        m * pow2(e as nat)
    } else {
        m / pow2((-e) as nat)
    }
}

/// A whole number of at most 53 bits, moved up to 53 bits.
proof fn leading_shift(n: nat) -> (k: nat)
    requires
        0 < n < pow2(53),
    ensures
        k <= 52,
        pow2(52) <= n * pow2(k) < pow2(53),
    decreases pow2(53) - n,
{
    lemma2_to64();
    lemma2_to64_rest();
    if n >= pow2(52) {
        assert(n * 1 == n) by (nonlinear_arith);
        0
    } else {
        let below = leading_shift(2 * n);
        let p = pow2(below) as int;
        lemma_pow2_unfold(below + 1);
        assert(n * (2 * p) == (2 * n) * p) by (nonlinear_arith);
        if below == 52 {
            assert((2 * n) * p >= 2 * pow2(52)) by (nonlinear_arith)
                requires
                    n >= 1,
                    p == pow2(52),
            ;
        }
        below + 1
    }
}

/// A number of 53 bits at most keeps its value when it is rounded, and so does
/// one that is followed by 23 zero bits.
proof fn short_numbers_are_exact(n: nat, k: nat)
    requires
        n > 0,
        k <= 52,
        pow2(52) <= n * pow2(k) < pow2(53),
    ensures
        rounded(n, 1) == (n * pow2(k), -k),
        rounded(n * pow2(k) * 0x80_0000, 1) == (n * pow2(k), 23int),
{
    lemma2_to64();
    lemma2_to64_rest();
    let m = n * pow2(k);
    assert(1 * 1 == 1);
    assert(nearest(m, 1) == m);
    assert(positive_part(-(-k)) == k);
    assert(positive_part(-k) == 0);
    assert(rounds_to(n, 1, m, -k));
    rounding_is_unique(n, 1, m, -k);
    let wide = m * 0x80_0000;
    assert(1 * pow2(23) == 0x80_0000);
    assert(wide / 0x80_0000 == m && wide % 0x80_0000 == 0) by (nonlinear_arith)
        requires
            wide == m * 0x80_0000,
    ;
    assert(wide * 1 == wide) by (nonlinear_arith);
    assert(rounds_to(wide, 1, m, 23));
    rounding_is_unique(wide, 1, m, 23);
}

/// The whole of a replay ends with it, and no share of it is its start, as far
/// as binary64 numbers hold the duration.
pub proof fn shares_reach_both_ends(total_us: nat)
    requires
        total_us < pow2(53),
    ensures
        time_at(Real32 { bits: 0 }, total_us) == 0,
        time_at(Real32 { bits: ONE_BITS_32 }, total_us) == total_us,
{
    let one = Real32 { bits: ONE_BITS_32 };
    assert(share_of(one) == one);
    if total_us > 0 {
        let k = leading_shift(total_us);
        short_numbers_are_exact(total_us, k);
        let scale = pow2(k) as int;
        let m = total_us * pow2(k);
        assert(parts_of_32(one) == (0x80_0000nat, -23int));
        assert(portion_of(total_us, one) == (m, -k as int));
        lemma2_to64();
        if k > 0 {
            lemma_pow2_pos(k);
            assert((2 * m + scale) / (2 * scale) == total_us) by (nonlinear_arith)
                requires
                    m == total_us * scale,
                    scale > 0,
            ;
        } else {
            assert(m * 1 == total_us) by (nonlinear_arith)
                requires
                    m == total_us * 1,
            ;
        }
    }
}

/// The start of the record that a byte lies in.
pub fn aligned_to(offset: u64, record_bytes: u64) -> (out: u64)
    requires
        record_bytes > 0,
    ensures
        out == offset - offset % record_bytes,
{
    assert(offset % record_bytes <= offset) by (nonlinear_arith)
        requires
            record_bytes > 0,
    ;
    offset - offset % record_bytes
}

/// The byte after a share of the data.
pub open spec fn byte_at(fraction: Real32, data_len: nat) -> nat {
    let share = share_of(fraction);
    if no_portion(data_len, share) {
        0
    } else {
        let p = portion_of(data_len, share);
        let whole = whole_part(p.0, p.1);
        if whole < data_len {
            whole
        } else {
            data_len
        }
    }
}

pub fn replay_byte_from_fraction(fraction: Real32, data_len: u64) -> (out: u64)
    ensures
        out == byte_at(fraction, data_len as nat),
        out <= data_len,
{
    let share = fraction.clamped(Real32 { bits: 0 }, Real32 { bits: ONE_BITS_32 });
    if data_len == 0 || share.nan() || share.bits == 0 || share.bits == 0x8000_0000 {
        return 0;
    }
    let p = portion(data_len, share);
    proof {
        lemma2_to64();
        lemma2_to64_rest();
    }
    let m: u128 = p.m as u128;
    if p.e > 11 {
        proof {
            if p.e > 12 {
                lemma_pow2_strictly_increases(12, p.e as nat);
            }
            let scale = pow2(p.e as nat);
            assert(m * scale >= 0x10_0000_0000_0000 * 4096) by (nonlinear_arith)
                requires
                    m >= 0x10_0000_0000_0000,
                    scale >= 4096,
            ;
        }
        data_len
    } else if p.e >= 0 {
        let scale: u128 = power_of_two(p.e as u32);
        proof {
            if p.e < 11 {
                lemma_pow2_strictly_increases(p.e as nat, 11);
            }
            assert(m * scale <= 0x20_0000_0000_0000 * 2048) by (nonlinear_arith)
                requires
                    0 <= m <= 0x20_0000_0000_0000,
                    0 <= scale <= 2048,
            ;
        }
        let product: u128 = m * scale;
        if product < data_len as u128 {
            product as u64
        } else {
            data_len
        }
    } else if p.e < -53 {
        proof {
            let k = (-p.e) as nat;
            if k > 54 {
                lemma_pow2_strictly_increases(54, k);
            }
            let scale = pow2(k) as int;
            assert(m as int / scale == 0) by (nonlinear_arith)
                requires
                    0 <= m < scale,
            ;
        }
        0
    } else {
        let scale: u128 = power_of_two((-p.e) as u32);
        let quotient: u128 = m / scale;
        proof {
            assert(quotient <= m) by (nonlinear_arith)
                requires
                    quotient == m / scale,
                    scale >= 1,
                    m >= 0,
            ;
        }
        if quotient < data_len as u128 {
            quotient as u64
        } else {
            data_len
        }
    }
}

/// The pattern of `time / total` in binary32, where the quotient is taken in
/// binary64 before.
pub open spec fn quotient_pattern(time: nat, total: nat) -> int {
    let a = rounded(time, 1);
    let c = rounded(total, 1);
    let q = rounded(a.0, c.0);
    (q.1 + a.1 - c.1 + 178) * 0x80_0000 + nearest(q.0, 0x2000_0000)
}

/// The share of the whole duration that lies before a time.
pub open spec fn share_before(time: nat, total: nat) -> int {
    if time == 0 || total == 0 {
        0
    } else if quotient_pattern(time, total) < ONE_BITS_32 {
        quotient_pattern(time, total)
    } else {
        ONE_BITS_32 as int
    }
}

pub fn replay_fraction_from_time(time_us: u64, total_duration_us: u64) -> (out: Real32)
    ensures
        out.bits == share_before(time_us as nat, total_duration_us as nat),
        out.bits <= ONE_BITS_32,
{
    if time_us == 0 || total_duration_us == 0 {
        return Real32 { bits: 0 };
    }
    let a = divide(time_us, 1);
    let c = divide(total_duration_us, 1);
    let q = divide(a.m, c.m);
    proof {
        whole_exponent(time_us as nat, a.m as nat, a.e as int);
        whole_exponent(total_duration_us as nat, c.m as nat, c.e as int);
        close_exponent(a.m as nat, c.m as nat, q.m as nat, q.e as int);
        lemma2_to64();
    }
    let m: u128 = nearest_whole(q.m as u128, 0x2000_0000);
    proof {
        assert(m <= 0x100_0001);
    }
    let exponent: i32 = q.e + a.e - c.e + 178;
    let bits: u64 = exponent as u64 * 0x80_0000 + m as u64;
    if bits < ONE_BITS_32 as u64 {
        Real32 { bits: bits as u32 }
    } else {
        Real32 { bits: ONE_BITS_32 }
    }
}

/// The milliseconds between two frames of a replay, as the speed asks for
/// them, before the limits are applied.
pub open spec fn wanted_interval(acq_time_ms: nat, speed: Real32) -> nat {
    if speed.bits == 0 || speed.bits >= INFINITY_BITS_32 {
        10
    } else if acq_time_ms == 0 {
        0
    } else {
        let a = rounded(acq_time_ms, 1);
        let s = parts_of_32(speed);
        let q = rounded(a.0, s.0);
        half_up(q.0, q.1 + a.1 - s.1)
    }
}

pub open spec fn replay_interval(acq_time_ms: nat, speed: Real32) -> nat {
    let wanted = wanted_interval(acq_time_ms, speed);
    if wanted < 10 {
        10
    } else if wanted > 200 {
        200
    } else {
        wanted
    }
}

pub fn derived_replay_preview_interval_ms(acq_time_ms: u64, speed: Real32) -> (out: u64)
    ensures
        out == replay_interval(acq_time_ms as nat, speed),
        10 <= out <= 200,
{
    let wanted: u64 = if speed.bits == 0 || speed.bits >= INFINITY_BITS_32 {
        10
    } else if acq_time_ms == 0 {
        0
    } else {
        let a = divide(acq_time_ms, 1);
        let s = parts(speed);
        let q = divide(a.m, s.m);
        to_whole(Scaled { m: q.m, e: q.e + a.e - s.e })
    };
    if wanted < 10 {
        10
    } else if wanted > 200 {
        200
    } else {
        wanted
    }
}

/// The share of the data that is read, all of it where there is none.
pub open spec fn read_share(bytes_read: nat, total_bytes: nat) -> Real32 {
    let one = Real32 { bits: ONE_BITS_32 };
    if total_bytes == 0 {
        one
    } else {
        quotient_of(whole_32(bytes_read), whole_32(total_bytes)).within(Real32 { bits: 0 }, one)
    }
}

/// The bytes of a file behind its header.
pub open spec fn data_bytes(file_size: u64, data_offset: u64) -> nat {
    if file_size > data_offset {
        (file_size - data_offset) as nat
    } else {
        0
    }
}

pub fn current_replay_byte_fraction(bytes_read: u64, file_size: u64, data_offset: u64) -> (out:
    Real32)
    ensures
        out == read_share(bytes_read as nat, data_bytes(file_size, data_offset)),
{
    let one = Real32 { bits: ONE_BITS_32 };
    if file_size <= data_offset {
        return one;
    }
    let total = from_whole(file_size - data_offset);
    quotient(from_whole(bytes_read), total).clamped(Real32 { bits: 0 }, one)
}

/// A time in the replay, counted from its first event.
pub open spec fn time_since(timestamp: nat, first: nat, total: nat) -> nat {
    let since = if timestamp > first {
        (timestamp - first) as nat
    } else {
        0
    };
    if since < total {
        since
    } else {
        total
    }
}

pub fn time_in_replay(timestamp_us: u64, first_timestamp_us: u64, total_duration_us: u64) -> (out:
    u64)
    ensures
        out == time_since(
            timestamp_us as nat,
            first_timestamp_us as nat,
            total_duration_us as nat,
        ),
        out <= total_duration_us,
{
    let since: u64 = if timestamp_us > first_timestamp_us {
        timestamp_us - first_timestamp_us
    } else {
        0
    };
    if since < total_duration_us {
        since
    } else {
        total_duration_us
    }
}

/// The time that a replay shows: the end where it is finished, the place that
/// a seek goes to, the frame on display, the decoder's place, and at last the
/// share of the bytes that are read.
pub open spec fn position_time(
    finished: bool,
    pending_fraction: Option<Real32>,
    displayed_window_end_us: Option<u64>,
    current_timestamp_us: u64,
    first_timestamp_us: u64,
    total_duration_us: u64,
    byte_fraction: Real32,
) -> nat {
    let first = first_timestamp_us as nat;
    let total = total_duration_us as nat;
    if finished {
        total
    } else if pending_fraction is Some {
        time_at(pending_fraction->0, total)
    } else if displayed_window_end_us is Some {
        time_since(displayed_window_end_us->0 as nat, first, total)
    } else if current_timestamp_us > 0 {
        time_since(current_timestamp_us as nat, first, total)
    } else {
        time_at(byte_fraction, total)
    }
}

pub fn replay_time_from_position_sources(
    finished: bool,
    pending_fraction: Option<Real32>,
    displayed_window_end_us: Option<u64>,
    current_timestamp_us: u64,
    first_timestamp_us: u64,
    total_duration_us: u64,
    byte_fraction: Real32,
) -> (out: u64)
    ensures
        out == position_time(
            finished,
            pending_fraction,
            displayed_window_end_us,
            current_timestamp_us,
            first_timestamp_us,
            total_duration_us,
            byte_fraction,
        ),
        out <= total_duration_us,
{
    if finished {
        return total_duration_us;
    }
    if let Some(fraction) = pending_fraction {
        return replay_time_from_fraction(fraction, total_duration_us);
    }
    if let Some(window_end_us) = displayed_window_end_us {
        return time_in_replay(window_end_us, first_timestamp_us, total_duration_us);
    }
    if current_timestamp_us > 0 {
        return time_in_replay(current_timestamp_us, first_timestamp_us, total_duration_us);
    }
    replay_time_from_fraction(byte_fraction, total_duration_us)
}

// ---------------------------------------------------------------------------
// Laws
// ---------------------------------------------------------------------------
/// The time after a share of a replay is the one next to that share of its
/// duration. The share is `m / 2^k`, by its bit pattern.
pub proof fn times_are_shares_of_the_duration(share: Real32, m: nat, k: nat, total_us: nat)
    requires
        0x80_0000 <= m < 0x100_0000,
        23 <= k < 150,
        share.bits == (150 - k) * 0x80_0000 + (m - 0x80_0000),
        share.bits <= ONE_BITS_32,
        0 < total_us,
        total_us * m < pow2(53),
    ensures
        ({
            let t = time_at(share, total_us);
            &&& t <= total_us
            &&& 2 * (t * pow2(k)) <= 2 * (total_us * m) + pow2(k)
            &&& t < total_us ==> 2 * (total_us * m) < 2 * (t * pow2(k)) + pow2(k)
        }),
{
    exact_portion(share, m, k, total_us);
    half_up_is_next_to_the_number(total_us * m, -(k as int));
    let whole = half_up(total_us * m, -(k as int));
    let t = time_at(share, total_us);
    let p = pow2(k) as int;
    lemma_pow2_pos(k);
    assert(t <= whole);
    assert(t * p <= whole * p) by (nonlinear_arith)
        requires
            t <= whole,
            p > 0,
    ;
}

/// The byte after a share of the data is the one that the share falls in.
pub proof fn bytes_are_shares_of_the_data(share: Real32, m: nat, k: nat, data_len: nat)
    requires
        0x80_0000 <= m < 0x100_0000,
        23 <= k < 150,
        share.bits == (150 - k) * 0x80_0000 + (m - 0x80_0000),
        share.bits <= ONE_BITS_32,
        0 < data_len,
        data_len * m < pow2(53),
    ensures
        ({
            let b = byte_at(share, data_len);
            &&& b <= data_len
            &&& b * pow2(k) <= data_len * m
            &&& b < data_len ==> data_len * m < b * pow2(k) + pow2(k)
        }),
        byte_at(Real32 { bits: 0 }, data_len) == 0,
{
    exact_portion(share, m, k, data_len);
    let (v, e) = portion_of(data_len, share);
    let p = pow2(k) as int;
    lemma_pow2_pos(k);
    let n = data_len * m;
    let whole = n as int / p;
    assert(whole * p <= n < whole * p + p) by (nonlinear_arith)
        requires
            p > 0,
            whole == n as int / p,
    ;
    let b = byte_at(share, data_len);
    assert(b <= whole);
    assert(b * p <= whole * p) by (nonlinear_arith)
        requires
            b <= whole,
            p > 0,
    ;
}

/// A share of a number that is short enough is not rounded.
proof fn exact_portion(share: Real32, m: nat, k: nat, total: nat)
    requires
        0x80_0000 <= m < 0x100_0000,
        23 <= k < 150,
        share.bits == (150 - k) * 0x80_0000 + (m - 0x80_0000),
        share.bits <= ONE_BITS_32,
        0 < total,
        total * m < pow2(53),
    ensures
        share_of(share) == share,
        !no_portion(total, share),
        half_up(portion_of(total, share).0, portion_of(total, share).1) == half_up(
            total * m,
            -(k as int),
        ),
        whole_part(portion_of(total, share).0, portion_of(total, share).1) == (total * m) / pow2(k),
{
    lemma2_to64();
    lemma2_to64_rest();
    assert(parts_of_32(share) == (m, -(k as int)));
    assert(total <= total * m) by (nonlinear_arith)
        requires
            m >= 1,
            total >= 0,
    ;
    let a = short_number_stays(total, 0);
    assert(total * 1 == total) by (nonlinear_arith);
    let n = total * m;
    let b = short_number_stays(n, a);
    assert((total * pow2(a)) * m == n * pow2(a)) by (nonlinear_arith)
        requires
            n == total * m,
    ;
    let v = (n * pow2(b)) as nat;
    assert(portion_of(total, share) == (v, -(k as int) - b));
    half_up_of_moved_bits(n, b, -(k as int));
    let (pb, pk) = (pow2(b) as int, pow2(k) as int);
    lemma_pow2_adds(k, b);
    lemma_pow2_pos(k);
    lemma_pow2_pos(b);
    assert(v as int / (pk * pb) == n as int / pk) by {
        assert(v == n * pb);
        vstd::arithmetic::div_mod::lemma_div_denominator(v as int, pb, pk);
        assert((n * pb) / pb == n as int) by (nonlinear_arith)
            requires
                pb > 0,
        ;
        assert(pb * pk == pk * pb) by (nonlinear_arith);
    }
}

/// The share of a replay that lies before a time: nothing at its start, all of
/// it at its end and behind, and `1 / 2^z` where the duration is `2^z` times as
/// long.
pub proof fn shares_before_a_time(time: nat, z: nat)
    requires
        0 < time < pow2(53),
        z <= 100,
    ensures
        share_before(time, (time * pow2(z)) as nat) == (127 - z) * 0x80_0000,
        share_before(0, time) == 0,
        share_before(time, time) == ONE_BITS_32,
{
    power_of_two_share(time, z);
    power_of_two_share(time, 0);
    lemma2_to64();
    assert(time * 1 == time) by (nonlinear_arith);
}

proof fn power_of_two_share(time: nat, z: nat)
    requires
        0 < time < pow2(53),
        z <= 100,
    ensures
        share_before(time, (time * pow2(z)) as nat) == (127 - z) * 0x80_0000,
{
    lemma2_to64();
    lemma2_to64_rest();
    let total = (time * pow2(z)) as nat;
    let k = short_number_stays(time, 0);
    assert(time * 1 == time) by (nonlinear_arith);
    let j = short_number_stays(time, z);
    moved_up_once(time, j, k);
    let c = (time * pow2(k)) as nat;
    lemma_pow2_pos(z);
    assert(total > 0) by (nonlinear_arith)
        requires
            total == time * pow2(z),
            time > 0,
            pow2(z) > 0,
    ;
    let one = pow2(52);
    assert(c * one == one * c) by (nonlinear_arith);
    assert((c * one) / c == one && (c * one) % c == 0) by (nonlinear_arith)
        requires
            c > 0,
    ;
    assert(c * pow2(0) == c) by (nonlinear_arith)
        requires
            pow2(0) == 1,
    ;
    assert(one * c < pow2(53) * c) by (nonlinear_arith)
        requires
            one < pow2(53),
            c > 0,
    ;
    assert(nearest(c * one, c) == one);
    assert(rounds_to(c, c, one, -52));
    rounding_is_unique(c, c, one, -52);
    assert(nearest(0x10_0000_0000_0000, 0x2000_0000) == 0x80_0000);
    assert(quotient_pattern(time, total) == (127 - z) * 0x80_0000);
}

/// The frames of a replay follow one another as they were taken, divided by
/// the speed, between 10 and 200 milliseconds: at the usual speed, at twice and
/// four times, and at half of it.
pub proof fn frames_follow_at_the_speed(acq_time_ms: nat)
    requires
        0 < acq_time_ms < pow2(50),
    ensures
        ({
            let usual = replay_interval(acq_time_ms, Real32 { bits: 0x3f80_0000 });
            let double = replay_interval(acq_time_ms, Real32 { bits: 0x4000_0000 });
            let fourfold = replay_interval(acq_time_ms, Real32 { bits: 0x4080_0000 });
            let half = replay_interval(acq_time_ms, Real32 { bits: 0x3f00_0000 });
            &&& 10 <= usual <= 200
            &&& 10 <= acq_time_ms <= 200 ==> usual == acq_time_ms
            &&& acq_time_ms < 10 ==> usual == 10
            &&& acq_time_ms > 200 ==> usual == 200
            &&& 20 <= acq_time_ms <= 399 ==> double == (acq_time_ms + 1) / 2
            &&& 40 <= acq_time_ms <= 797 ==> fourfold == (acq_time_ms + 2) / 4
            &&& 5 <= acq_time_ms <= 100 ==> half == 2 * acq_time_ms
        }),
        forall|speed: Real32| 10 <= #[trigger] replay_interval(acq_time_ms, speed) <= 200,
{
    lemma2_to64();
    lemma2_to64_rest();
    interval_at_power(acq_time_ms, 0);
    interval_at_power(acq_time_ms, 1);
    interval_at_power(acq_time_ms, 2);
    interval_at_power(acq_time_ms, -1);
    let a = acq_time_ms;
    assert(a * 1 == a && a * 2 == 2 * a) by (nonlinear_arith);
    assert((2 * a + 2) / 4 == (a + 1) / 2 && (2 * a + 4) / 8 == (a + 2) / 4) by (nonlinear_arith);
}

proof fn interval_at_power(acq_time_ms: nat, z: int)
    requires
        0 < acq_time_ms < pow2(50),
        -3 <= z <= 3,
    ensures
        wanted_interval(acq_time_ms, Real32 { bits: ((127 + z) * 0x80_0000) as u32 }) == half_up(
            acq_time_ms,
            -z,
        ),
{
    lemma2_to64();
    lemma2_to64_rest();
    let speed = Real32 { bits: ((127 + z) * 0x80_0000) as u32 };
    assert(parts_of_32(speed) == (0x80_0000nat, z - 23));
    let k = short_number_stays(acq_time_ms, 0);
    assert(acq_time_ms * 1 == acq_time_ms) by (nonlinear_arith);
    let a = (acq_time_ms * pow2(k)) as nat;
    let d: nat = 0x80_0000;
    assert(pow2(23) == d);
    assert((a * d) / d == a && (a * d) % d == 0) by (nonlinear_arith)
        requires
            d > 0,
    ;
    assert(nearest(a * d, d) == a);
    assert(d * pow2(0) == d);
    assert(pow2(52) * d <= a * d && a * d < pow2(53) * d) by (nonlinear_arith)
        requires
            pow2(52) <= a < pow2(53),
            d > 0,
    ;
    assert(rounds_to(a, d, a, -23));
    rounding_is_unique(a, d, a, -23);
    half_up_of_moved_bits(acq_time_ms, k, -z);
}

/// A time in a replay is counted from its first event, and lies in the replay.
pub proof fn times_are_counted_from_the_first_event(since: nat, first: nat, total: nat)
    ensures
        since <= total ==> time_since(first + since, first, total) == since,
        since > total ==> time_since(first + since, first, total) == total,
        since <= first ==> time_since((first - since) as nat, first, total) == 0,
{
}

/// What a replay shows as its time: once it is finished, its end; on the way to
/// a place, that place; else the frame on display before the decoder, and the
/// share of the bytes only where neither has a time.
pub proof fn positions_have_their_order(
    pending: Option<Real32>,
    shown: Option<u64>,
    now: u64,
    first: u64,
    total: u64,
    share: Real32,
)
    ensures
        position_time(true, pending, shown, now, first, total, share) == total,
        pending is Some ==> position_time(false, pending, shown, now, first, total, share)
            == time_at(pending->0, total as nat),
        pending is None && shown is Some ==> position_time(
            false,
            pending,
            shown,
            now,
            first,
            total,
            share,
        ) == time_since(shown->0 as nat, first as nat, total as nat),
        pending is None && shown is None && now > 0 ==> position_time(
            false,
            pending,
            shown,
            now,
            first,
            total,
            share,
        ) == time_since(now as nat, first as nat, total as nat),
        pending is None && shown is None && now == 0 ==> position_time(
            false,
            pending,
            shown,
            now,
            first,
            total,
            share,
        ) == time_at(share, total as nat),
{
}

/// The data of a file are what is behind its header.
pub proof fn data_are_behind_the_header(header: u64, data: u64)
    requires
        header + data <= u64::MAX,
    ensures
        data_bytes((header + data) as u64, header) == data,
        data_bytes(data, (header + data) as u64) == 0,
        read_share(data as nat, 0) == (Real32 { bits: ONE_BITS_32 }),
{
}

} // verus!
