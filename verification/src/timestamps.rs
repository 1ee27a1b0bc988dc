//! Calendar dates and the time stamps that file names carry.
use crate::text::{decimal, decimal_round_trip, decimal_value, push_padded, zero_padded};
use vstd::prelude::*;

verus! {

// ---------------------------------------------------------------------------
// The calendar
// ---------------------------------------------------------------------------
/// Whether a year of the Gregorian calendar has a leap day.
pub open spec fn is_leap(year: int) -> bool {
    year % 4 == 0 && (year % 100 != 0 || year % 400 == 0)
}

pub open spec fn year_len(year: int) -> int {
    if is_leap(year) {
        366
    } else {
        365
    }
}

pub open spec fn month_len(year: int, month: int) -> int {
    if month == 2 {
        if is_leap(year) {
            29
        } else {
            28
        }
    } else if month == 4 || month == 6 || month == 9 || month == 11 {
        30
    } else {
        31
    }
}

/// The days of a year before the first of a month.
pub open spec fn days_before_month(year: int, month: int) -> int
    decreases month,
{
    if month <= 1 {
        0
    } else {
        days_before_month(year, month - 1) + month_len(year, month - 1)
    }
}

/// The days between the first of January of the year 1 and that of a year.
pub open spec fn days_before_year(year: int) -> int {
    365 * (year - 1) + (year - 1) / 4 - (year - 1) / 100 + (year - 1) / 400
}

pub open spec fn is_date(year: int, month: int, day: int) -> bool {
    1 <= month <= 12 && 1 <= day <= month_len(year, month)
}

/// The days between the first of January of 1970 and a date.
pub open spec fn day_number(year: int, month: int, day: int) -> int {
    days_before_year(year) + days_before_month(year, month) + day - 1 - 719162
}

/// From one year to the next the day count grows by the length of the year.
pub proof fn years_add_up(year: int)
    ensures
        days_before_year(year + 1) == days_before_year(year) + year_len(year),
{
    assert(year / 4 == (year - 1) / 4 + if year % 4 == 0 {
        1int
    } else {
        0
    });
    assert(year / 100 == (year - 1) / 100 + if year % 100 == 0 {
        1int
    } else {
        0
    });
    assert(year / 400 == (year - 1) / 400 + if year % 400 == 0 {
        1int
    } else {
        0
    });
    assert(year % 100 == 0 ==> year % 4 == 0);
    assert(year % 400 == 0 ==> year % 100 == 0);
}

/// The year that begins in March, split into periods of 400, 100, 4 and 1
/// years: the days before it, and whether it ends with a leap day.
proof fn march_year_parts(era: int, century: int, cycle: int, rest: int)
    requires
        0 <= century <= 3,
        0 <= cycle <= 24,
        0 <= rest <= 3,
    ensures
        ({
            let my = 400 * era + 100 * century + 4 * cycle + rest;
            &&& days_before_year(my + 1) == 146_097 * era + 36_524 * century + 1_461 * cycle + 365
                * rest
            &&& is_leap(my + 1) <==> rest == 3 && (cycle == 24 ==> century == 3)
        }),
{
    let my = 400 * era + 100 * century + 4 * cycle + rest;
    assert(my / 400 == era);
    assert(my / 100 == 4 * era + century);
    assert(my / 4 == 100 * era + 25 * century + cycle);
    let low = 4 * cycle + rest + 1;
    assert((my + 1) % 4 == (rest + 1) % 4);
    if low < 100 {
        assert((my + 1) % 100 == low);
    } else {
        assert((my + 1) % 100 == 0);
        if century < 3 {
            assert((my + 1) % 400 == 100 * (century + 1));
        } else {
            assert((my + 1) % 400 == 0);
        }
    }
}

/// The month and the day within a year that begins in March.
proof fn march_month(year: int, doy: int, mp: int, month: int, day: int)
    requires
        0 <= doy <= 365,
        mp == (5 * doy + 2) / 153,
        day == doy - (153 * mp + 2) / 5 + 1,
        month == if mp < 10 {
            mp + 3
        } else {
            mp - 9
        },
        doy == 365 ==> is_leap(year),
        month > 2 || is_leap(year) || doy < 365,
    ensures
        0 <= mp <= 11,
        is_date(year, month, day),
        month <= 2 ==> days_before_month(year, month) + day - 1 == doy - 306,
        month > 2 ==> days_before_month(year, month) + day - 1 == doy + year_len(year) - 306,
{
    assert(0 <= mp <= 11);
    month_offsets(year, month);
    assert(153 * mp <= 5 * doy + 2 < 153 * (mp + 1));
}

/// The months of a year make up the year.
pub proof fn months_add_up(year: int)
    ensures
        days_before_month(year, 13) == year_len(year),
{
    reveal_with_fuel(days_before_month, 14);
}

proof fn month_offsets(year: int, month: int)
    requires
        1 <= month <= 12,
    ensures
        0 <= days_before_month(year, month),
        days_before_month(year, month) + month_len(year, month) <= year_len(year),
        month >= 3 ==> days_before_month(year, month) == year_len(year) - 306 + (153 * (month - 3)
            + 2) / 5,
        month == 2 ==> days_before_month(year, month) == 31,
        month == 1 ==> days_before_month(year, month) == 0,
{
    reveal_with_fuel(days_before_month, 14);
}

proof fn later_year_later_day(a: int, b: int)
    requires
        a <= b,
    ensures
        days_before_year(a) <= days_before_year(b),
    decreases b - a,
{
    if a < b {
        later_year_later_day(a, b - 1);
        years_add_up(b - 1);
    }
}

/// Every day has one date only.
pub proof fn date_is_unique(y1: int, m1: int, d1: int, y2: int, m2: int, d2: int)
    requires
        is_date(y1, m1, d1),
        is_date(y2, m2, d2),
        day_number(y1, m1, d1) == day_number(y2, m2, d2),
    ensures
        (y1, m1, d1) == (y2, m2, d2),
{
    month_offsets(y1, m1);
    month_offsets(y2, m2);
    years_add_up(y1);
    years_add_up(y2);
    if y1 < y2 {
        later_year_later_day(y1 + 1, y2);
    }
    if y2 < y1 {
        later_year_later_day(y2 + 1, y1);
    }
    reveal_with_fuel(days_before_month, 14);
}

/// The date of the day that is `days` after the first of January of 1970.
pub open spec fn civil_date(days: int) -> (int, int, int) {
    choose|date: (int, int, int)| #[trigger]
        is_date(date.0, date.1, date.2) && day_number(date.0, date.1, date.2) == days
}

proof fn civil_date_is(days: int, y: int, m: int, d: int)
    requires
        is_date(y, m, d),
        day_number(y, m, d) == days,
    ensures
        civil_date(days) == (y, m, d),
{
    let date = (y, m, d);
    assert(is_date(date.0, date.1, date.2) && day_number(date.0, date.1, date.2) == days);
    let c = civil_date(days);
    date_is_unique(c.0, c.1, c.2, y, m, d);
}

/// The date of a day, counted from the first of January of 1970. The year has
/// to fit its type.
pub fn civil_from_days(days: i64) -> (out: (i32, u32, u32))
    requires
        day_number(i32::MIN as int, 1, 1) <= days <= day_number(i32::MAX as int, 12, 31),
    ensures
        is_date(out.0 as int, out.1 as int, out.2 as int),
        day_number(out.0 as int, out.1 as int, out.2 as int) == days,
        civil_date(days as int) == (out.0 as int, out.1 as int, out.2 as int),
{
    proof {
        month_offsets(i32::MIN as int, 1);
        month_offsets(i32::MAX as int, 12);
    }
    // Days since the first of March of the year 0, moved by whole periods of
    // 400 years to be positive.
    let shifted: u64 = (days + 719_468 + 146_097 * 6_000_000) as u64;
    let periods: u64 = shifted / 146_097;
    let era: i64 = periods as i64 - 6_000_000;
    let doe: u64 = shifted % 146_097;
    let century: u64 = if doe / 36_524 > 3 {
        3
    } else {
        doe / 36_524
    };
    let in_century: u64 = doe - 36_524 * century;
    let cycle: u64 = in_century / 1_461;
    let in_cycle: u64 = in_century - 1_461 * cycle;
    let rest: u64 = if in_cycle / 365 > 3 {
        3
    } else {
        in_cycle / 365
    };
    let doy: u64 = in_cycle - 365 * rest;
    let yoe: u64 = 100 * century + 4 * cycle + rest;
    let march_year: i64 = yoe as i64 + 400 * era;
    let mp: u64 = (5 * doy + 2) / 153;
    let day: u64 = doy - (153 * mp + 2) / 5 + 1;
    let month: u64 = if mp < 10 {
        mp + 3
    } else {
        mp - 9
    };
    let year: i64 = if month <= 2 {
        march_year + 1
    } else {
        march_year
    };
    proof {
        march_year_parts(era as int, century as int, cycle as int, rest as int);
        let my = march_year as int;
        assert(days + 719_468 == 146_097 * era + doe);
        assert(doy == 365 ==> is_leap(my + 1));
        years_add_up(my);
        if mp < 10 {
            assert(doy < 306);
        }
        march_month(year as int, doy as int, mp as int, month as int, day as int);
        assert(day_number(year as int, month as int, day as int) == days);
        if year > i32::MAX {
            later_year_later_day(i32::MAX + 1, year as int);
            years_add_up(i32::MAX as int);
        }
        if year < i32::MIN {
            later_year_later_day(year as int + 1, i32::MIN as int);
            years_add_up(year as int);
        }
        civil_date_is(days as int, year as int, month as int, day as int);
    }
    (year as i32, month as u32, day as u32)
}

// ---------------------------------------------------------------------------
// Time stamps
// ---------------------------------------------------------------------------
/// A number of at least `width` digits.
pub open spec fn padded(n: int, width: nat) -> Seq<char> {
    zero_padded(decimal(n as nat), width)
}

/// The time stamp of a moment, counted in seconds from the start of 1970:
/// year, month and day, an underscore, then hour, minute and second.
pub open spec fn stamp_text(secs: nat) -> Seq<char> {
    let date = civil_date((secs / 86400) as int);
    let time = (secs % 86400) as int;
    padded(date.0, 4) + padded(date.1, 2) + padded(date.2, 2) + "_"@ + padded(time / 3600, 2)
        + padded((time % 3600) / 60, 2) + padded(time % 60, 2)
}

/// The last second whose year fits the year's type.
pub open spec fn last_second() -> int {
    day_number(i32::MAX as int, 12, 31) * 86400 + 86399
}

pub fn format_timestamp(total_secs: u64) -> (out: String)
    requires
        total_secs <= last_second(),
    ensures
        out@ == stamp_text(total_secs as nat),
{
    let days: u64 = total_secs / 86400;
    let day_secs: u64 = total_secs % 86400;
    proof {
        month_offsets(i32::MIN as int, 1);
        month_offsets(i32::MAX as int, 12);
    }
    let (y, mo, d) = civil_from_days(days as i64);
    proof {
        if y < 0 {
            month_offsets(y as int, mo as int);
            years_add_up(y as int);
            later_year_later_day(y + 1, 1970);
        }
    }
    let mut out = String::new();
    push_padded(&mut out, y as u64, 4);
    push_padded(&mut out, mo as u64, 2);
    push_padded(&mut out, d as u64, 2);
    out.append("_");
    push_padded(&mut out, day_secs / 3600, 2);
    push_padded(&mut out, (day_secs % 3600) / 60, 2);
    push_padded(&mut out, day_secs % 60, 2);
    assert(out@ =~= stamp_text(total_secs as nat));
    out
}

proof fn leading_zeros_count_nothing(s: Seq<char>, k: nat)
    ensures
        decimal_value(Seq::new(k, |i: int| '0') + s) == decimal_value(s),
    decreases s.len() + k,
{
    let z = Seq::new(k, |i: int| '0');
    if s.len() == 0 {
        if k > 0 {
            let t = z + s;
            let shorter = Seq::new((k - 1) as nat, |i: int| '0');
            assert(t.drop_last() =~= shorter + s);
            assert(t.last() == '0');
            leading_zeros_count_nothing(s, (k - 1) as nat);
        } else {
            assert(z + s =~= s);
        }
    } else {
        assert((z + s).drop_last() =~= z + s.drop_last());
        assert((z + s).last() == s.last());
        leading_zeros_count_nothing(s.drop_last(), k);
    }
}

proof fn padded_value(n: int, width: nat)
    requires
        n >= 0,
    ensures
        decimal_value(padded(n, width)) == n,
{
    decimal_round_trip(n as nat);
    let s = decimal(n as nat);
    if s.len() < width {
        leading_zeros_count_nothing(s, (width - s.len()) as nat);
    }
}

proof fn two_digits(n: int)
    requires
        0 <= n < 100,
    ensures
        padded(n, 2).len() == 2,
{
    reveal_with_fuel(decimal, 3);
}

/// Recordings that begin in different seconds get different time stamps.
pub proof fn stamps_differ(a: nat, b: nat)
    requires
        a <= last_second(),
        b <= last_second(),
        stamp_text(a) == stamp_text(b),
    ensures
        a == b,
{
    reveal_strlit("_");
    stamp_parts(a);
    stamp_parts(b);
    let s = stamp_text(a);
    let n = s.len() as int;
    let (da, db) = (civil_date((a / 86400) as int), civil_date((b / 86400) as int));
    let (ta, tb) = ((a % 86400) as int, (b % 86400) as int);
    padded_value(da.0, 4);
    padded_value(db.0, 4);
    padded_value(da.1, 2);
    padded_value(db.1, 2);
    padded_value(da.2, 2);
    padded_value(db.2, 2);
    padded_value(ta / 3600, 2);
    padded_value(tb / 3600, 2);
    padded_value((ta % 3600) / 60, 2);
    padded_value((tb % 3600) / 60, 2);
    padded_value(ta % 60, 2);
    padded_value(tb % 60, 2);
    assert(da == db);
    assert(ta == tb);
}

/// Where the parts of a time stamp stand, counted from its end.
proof fn stamp_parts(secs: nat)
    requires
        secs <= last_second(),
    ensures
        ({
            let s = stamp_text(secs);
            let n = s.len() as int;
            let date = civil_date((secs / 86400) as int);
            let time = (secs % 86400) as int;
            &&& n >= 11
            &&& date.0 >= 0
            &&& is_date(date.0, date.1, date.2)
            &&& day_number(date.0, date.1, date.2) == secs / 86400
            &&& s.subrange(0, n - 11) == padded(date.0, 4)
            &&& s.subrange(n - 11, n - 9) == padded(date.1, 2)
            &&& s.subrange(n - 9, n - 7) == padded(date.2, 2)
            &&& s.subrange(n - 6, n - 4) == padded(time / 3600, 2)
            &&& s.subrange(n - 4, n - 2) == padded((time % 3600) / 60, 2)
            &&& s.subrange(n - 2, n) == padded(time % 60, 2)
        }),
{
    reveal_strlit("_");
    let days = (secs / 86400) as int;
    month_offsets(i32::MAX as int, 12);
    every_day_has_a_date(days);
    let date = civil_date(days);
    let time = (secs % 86400) as int;
    if date.0 < 0 {
        month_offsets(date.0, date.1);
        years_add_up(date.0);
        later_year_later_day(date.0 + 1, 1970);
    }
    two_digits(date.1);
    two_digits(date.2);
    two_digits(time / 3600);
    two_digits((time % 3600) / 60);
    two_digits(time % 60);
    let s = stamp_text(secs);
    let n = s.len() as int;
    assert(s.subrange(0, n - 11) =~= padded(date.0, 4));
    assert(s.subrange(n - 11, n - 9) =~= padded(date.1, 2));
    assert(s.subrange(n - 9, n - 7) =~= padded(date.2, 2));
    assert(s.subrange(n - 6, n - 4) =~= padded(time / 3600, 2));
    assert(s.subrange(n - 4, n - 2) =~= padded((time % 3600) / 60, 2));
    assert(s.subrange(n - 2, n) =~= padded(time % 60, 2));
}

/// The months have 31 and 30 days in turn, with two of 31 in July and August,
/// and February is the one that is shorter.
pub proof fn months_take_turns(year: int, month: int)
    requires
        1 <= month <= 12,
    ensures
        month != 2 ==> month_len(year, month) == 30 + (month + month / 8) % 2,
        month == 2 ==> month_len(year, month) == 28 + (year_len(year) - 365),
        year % 4 != 0 ==> year_len(year) == 365,
        year_len(year + 400) == year_len(year),
        year % 100 == 0 && year % 400 != 0 ==> year_len(year) == 365,
        year % 4 == 0 && year % 100 != 0 ==> year_len(year) == 366,
        year % 400 == 0 ==> year_len(year) == 366,
{
}

/// Days are counted one after the other from the first of January of 1970.
pub proof fn days_follow_one_another(year: int, month: int, day: int)
    requires
        is_date(year, month, day),
    ensures
        civil_date(0) == (1970int, 1int, 1int),
        is_date(year, month, day + 1) ==> day_number(year, month, day + 1) == day_number(
            year,
            month,
            day,
        ) + 1,
        day == month_len(year, month) && month < 12 ==> day_number(year, month + 1, 1)
            == day_number(year, month, day) + 1,
        day == month_len(year, month) && month == 12 ==> day_number(year + 1, 1, 1) == day_number(
            year,
            month,
            day,
        ) + 1,
        civil_date(day_number(year, month, day)) == (year, month, day),
{
    reveal_with_fuel(days_before_month, 14);
    years_add_up(year);
    months_add_up(year);
    civil_date_is(day_number(year, month, day), year, month, day);
    assert(day_number(1970, 1, 1) == 0);
    civil_date_is(0, 1970, 1, 1);
}

/// The time stamp of a moment names its date and its time of day, from the
/// year down to the second.
pub proof fn stamps_name_their_moment(
    year: int,
    month: int,
    day: int,
    hour: int,
    minute: int,
    second: int,
)
    requires
        is_date(year, month, day),
        day_number(year, month, day) >= 0,
        0 <= hour < 24,
        0 <= minute < 60,
        0 <= second < 60,
    ensures
        stamp_text(
            (day_number(year, month, day) * 86_400 + hour * 3_600 + minute * 60 + second) as nat,
        ) == padded(year, 4) + padded(month, 2) + padded(day, 2) + "_"@ + padded(hour, 2) + padded(
            minute,
            2,
        ) + padded(second, 2),
{
    let days = day_number(year, month, day);
    civil_date_is(days, year, month, day);
    seconds_are_taken_apart(days, hour, minute, second);
}

proof fn seconds_are_taken_apart(days: int, hour: int, minute: int, second: int)
    requires
        days >= 0,
        0 <= hour < 24,
        0 <= minute < 60,
        0 <= second < 60,
    ensures
        ({
            let secs = (days * 86_400 + hour * 3_600 + minute * 60 + second) as nat;
            let time = (secs % 86400) as int;
            &&& secs / 86400 == days
            &&& time / 3600 == hour
            &&& (time % 3600) / 60 == minute
            &&& time % 60 == second
        }),
{
    let time = hour * 3_600 + minute * 60 + second;
    let secs = (days * 86_400 + time) as nat;
    assert(secs / 86400 == days && secs % 86400 == time);
}

/// A padded number has its width, or more where it is longer, and keeps its
/// value.
pub proof fn padded_numbers_keep_their_value(n: int, width: nat)
    requires
        n >= 0,
    ensures
        decimal_value(padded(n, width)) == n,
        padded(n, width).len() >= width,
        padded(n, width).len() > width ==> padded(n, width) == decimal(n as nat),
{
    padded_value(n, width);
}

/// Every day from 1970 on has a date.
pub proof fn every_day_has_a_date(days: int)
    requires
        days >= 0,
    ensures
        is_date(civil_date(days).0, civil_date(days).1, civil_date(days).2),
        day_number(civil_date(days).0, civil_date(days).1, civil_date(days).2) == days,
    decreases days,
{
    if days == 0 {
        month_offsets(1970, 1);
        civil_date_is(0, 1970, 1, 1);
    } else {
        every_day_has_a_date(days - 1);
        let (y, m, d) = civil_date(days - 1);
        month_offsets(y, m);
        reveal_with_fuel(days_before_month, 14);
        if d < month_len(y, m) {
            civil_date_is(days, y, m, d + 1);
        } else if m < 12 {
            civil_date_is(days, y, m + 1, 1);
        } else {
            years_add_up(y);
            civil_date_is(days, y + 1, 1, 1);
        }
    }
}

} // verus!
