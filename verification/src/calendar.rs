//! The proleptic Gregorian calendar on the Unix epoch: civil date-times and
//! their correspondence with non-leap milliseconds since 1970-01-01T00:00:00Z.
use vstd::prelude::*;

verus! {

use vstd::arithmetic::div_mod::lemma_fundamental_div_mod;
use vstd::arithmetic::div_mod::lemma_fundamental_div_mod_converse;
use vstd::arithmetic::div_mod::lemma_div_is_ordered;
use vstd::arithmetic::div_mod::lemma_div_pos_is_pos;
use vstd::arithmetic::div_mod::lemma_mod_bound;

pub const MILLIS_PER_SECOND: u64 = 1_000;

pub const MILLIS_PER_MINUTE: u64 = 60_000;

pub const MILLIS_PER_HOUR: u64 = 3_600_000;

pub const MILLIS_PER_DAY: u64 = 86_400_000;

/// The first epoch millisecond that the library does not represent:
/// 10000-01-01T00:00:00.000Z.
pub const MAX_EPOCH_MILLIS: u64 = 253_402_300_800_000;

/// A year has a leap day exactly when it is divisible by 4 but not by 100,
/// or divisible by 400.
pub open spec fn is_leap_year(y: int) -> bool {
    (y % 4 == 0 && y % 100 != 0) || y % 400 == 0
}

pub open spec fn days_in_year(y: int) -> int {
    if is_leap_year(y) {
        366
    } else {
        365
    }
}

pub open spec fn days_in_month(y: int, m: int) -> int {
    if m == 2 {
        if is_leap_year(y) {
            29
        } else {
            28
        }
    } else if m == 4 || m == 6 || m == 9 || m == 11 {
        30
    } else {
        31
    }
}

/// How many leap years lie in [1, y).
pub open spec fn leap_years_before(y: int) -> int {
    (y - 1) / 4 - (y - 1) / 100 + (y - 1) / 400
}

/// Days from 1970-01-01 to the first day of year `y`.
pub open spec fn days_before_year(y: int) -> int {
    365 * (y - 1970) + leap_years_before(y) - leap_years_before(1970)
}

/// Days from `y`-01-01 to the first day of month `m` of year `y`.
pub open spec fn days_before_month(y: int, m: int) -> int
    decreases m,
{
    if m <= 1 {
        0
    } else {
        days_before_month(y, m - 1) + days_in_month(y, m - 1)
    }
}

/// Days from 1970-01-01 to the civil day `y`-`m`-`d`.
pub open spec fn epoch_day_of(y: int, m: int, d: int) -> int {
    days_before_year(y) + days_before_month(y, m) + d - 1
}

/// A civil UTC date-time with millisecond precision.
#[derive(Clone, Copy, PartialEq, Eq, Structural, Debug)]
pub struct CivilDateTime {
    pub year: u16,
    pub month: u8,
    pub day: u8,
    pub hour: u8,
    pub minute: u8,
    pub second: u8,
    pub millisecond: u16,
}

impl CivilDateTime {
    pub open spec fn wf(self) -> bool {
        &&& 1970 <= self.year < 10000
        &&& 1 <= self.month <= 12
        &&& 1 <= self.day <= days_in_month(self.year as int, self.month as int)
        &&& self.hour < 24
        &&& self.minute < 60
        &&& self.second < 60
        &&& self.millisecond < 1000
    }

    /// Non-leap milliseconds since 1970-01-01T00:00:00Z.
    pub open spec fn epoch_millis(self) -> int {
        epoch_day_of(self.year as int, self.month as int, self.day as int) * (
        MILLIS_PER_DAY as int) + self.hour * (MILLIS_PER_HOUR as int) + self.minute * (
        MILLIS_PER_MINUTE as int) + self.second * (MILLIS_PER_SECOND as int) + self.millisecond
    }
}

/// Quotients by a positive divisor step by one exactly at the multiples.
proof fn lemma_div_step(x: int, d: int)
    requires
        1 <= x,
        1 <= d,
    ensures
        x / d == (x - 1) / d + if x % d == 0 {
            1int
        } else {
            0int
        },
{
    let q = x / d;
    let r = x % d;
    lemma_fundamental_div_mod(x, d);
    lemma_mod_bound(x, d);
    if r == 0 {
        assert(x - 1 == (q - 1) * d + (d - 1)) by (nonlinear_arith)
            requires
                x == d * q,
                1 <= d,
        ;
        lemma_fundamental_div_mod_converse(x - 1, d, q - 1, d - 1);
    } else {
        lemma_fundamental_div_mod_converse(x - 1, d, q, r - 1);
    }
}

/// A multiple of 400 is a multiple of 100.
proof fn lemma_mod_400_to_100(y: int)
    requires
        0 <= y,
        y % 400 == 0,
    ensures
        y % 100 == 0,
{
    lemma_fundamental_div_mod(y, 400);
    assert(y == (4 * (y / 400)) * 100);
    lemma_fundamental_div_mod_converse(y, 100, 4 * (y / 400), 0);
}

/// A multiple of 100 is a multiple of 4.
proof fn lemma_mod_100_to_4(y: int)
    requires
        0 <= y,
        y % 100 == 0,
    ensures
        y % 4 == 0,
{
    lemma_fundamental_div_mod(y, 100);
    assert(y == (25 * (y / 100)) * 4);
    lemma_fundamental_div_mod_converse(y, 4, 25 * (y / 100), 0);
}

/// Crossing from year `y` to year `y + 1` adds exactly the length of year `y`.
pub proof fn lemma_days_before_year_step(y: int)
    requires
        1 <= y,
    ensures
        days_before_year(y + 1) == days_before_year(y) + days_in_year(y),
{
    lemma_div_step(y, 4);
    lemma_div_step(y, 100);
    lemma_div_step(y, 400);
    if y % 400 == 0 {
        lemma_mod_400_to_100(y);
        lemma_mod_100_to_4(y);
    } else if y % 100 == 0 {
        lemma_mod_100_to_4(y);
    }
}

/// `days_before_year` grows by at least 365 per year.
pub proof fn lemma_days_before_year_mono(a: int, b: int)
    requires
        1 <= a <= b,
    ensures
        days_before_year(a) + 365 * (b - a) <= days_before_year(b),
    decreases b - a,
{
    if a < b {
        lemma_days_before_year_mono(a, b - 1);
        lemma_days_before_year_step(b - 1);
    }
}

/// The twelve months of year `y` sum to the length of year `y`.
pub proof fn lemma_months_fill_year(y: int)
    ensures
        days_before_month(y, 13) == days_in_year(y),
{
    reveal_with_fuel(days_before_month, 13);
}

/// `days_before_month` grows by at least 28 per month.
pub proof fn lemma_days_before_month_mono(y: int, a: int, b: int)
    requires
        1 <= a <= b,
    ensures
        days_before_month(y, a) + 28 * (b - a) <= days_before_month(y, b),
    decreases b - a,
{
    if a < b {
        lemma_days_before_month_mono(y, a, b - 1);
    }
}

/// The day of year `y` that a well-formed date names lies within year `y`.
proof fn lemma_day_of_year_in_year(c: CivilDateTime)
    requires
        c.wf(),
    ensures
        0 <= days_before_month(c.year as int, c.month as int) + c.day - 1 < days_in_year(
            c.year as int,
        ),
{
    let y = c.year as int;
    let m = c.month as int;
    assert(days_before_month(y, m + 1) == days_before_month(y, m) + days_in_month(y, m));
    lemma_days_before_month_mono(y, m + 1, 13);
    lemma_months_fill_year(y);
    lemma_days_before_month_mono(y, 1, m);
}

/// A well-formed civil date-time is determined by its epoch millisecond:
/// no two distinct well-formed date-times render the same instant.
pub proof fn lemma_civil_unique(a: CivilDateTime, b: CivilDateTime)
    requires
        a.wf(),
        b.wf(),
        a.epoch_millis() == b.epoch_millis(),
    ensures
        a == b,
{
    let da = epoch_day_of(a.year as int, a.month as int, a.day as int);
    let db = epoch_day_of(b.year as int, b.month as int, b.day as int);
    let ta = a.hour * (MILLIS_PER_HOUR as int) + a.minute * (MILLIS_PER_MINUTE as int) + a.second
        * (MILLIS_PER_SECOND as int) + a.millisecond;
    let tb = b.hour * (MILLIS_PER_HOUR as int) + b.minute * (MILLIS_PER_MINUTE as int) + b.second
        * (MILLIS_PER_SECOND as int) + b.millisecond;
    lemma_day_of_year_in_year(a);
    lemma_day_of_year_in_year(b);
    assert(0 <= ta < MILLIS_PER_DAY);
    assert(0 <= tb < MILLIS_PER_DAY);
    assert(da == db) by {
        if da < db {
            assert(da * (MILLIS_PER_DAY as int) + MILLIS_PER_DAY <= db * (MILLIS_PER_DAY as int))
                by (nonlinear_arith)
                requires
                    da + 1 <= db,
            ;
        }
        if db < da {
            assert(db * (MILLIS_PER_DAY as int) + MILLIS_PER_DAY <= da * (MILLIS_PER_DAY as int))
                by (nonlinear_arith)
                requires
                    db + 1 <= da,
            ;
        }
    }
    lemma_fundamental_div_mod_converse(
        ta,
        MILLIS_PER_HOUR as int,
        a.hour as int,
        a.minute * (MILLIS_PER_MINUTE as int) + a.second * (MILLIS_PER_SECOND as int)
            + a.millisecond,
    );
    lemma_fundamental_div_mod_converse(
        tb,
        MILLIS_PER_HOUR as int,
        b.hour as int,
        b.minute * (MILLIS_PER_MINUTE as int) + b.second * (MILLIS_PER_SECOND as int)
            + b.millisecond,
    );
    let ra = ta % (MILLIS_PER_HOUR as int);
    lemma_fundamental_div_mod_converse(
        ra,
        MILLIS_PER_MINUTE as int,
        a.minute as int,
        a.second * (MILLIS_PER_SECOND as int) + a.millisecond,
    );
    lemma_fundamental_div_mod_converse(
        ra,
        MILLIS_PER_MINUTE as int,
        b.minute as int,
        b.second * (MILLIS_PER_SECOND as int) + b.millisecond,
    );
    let sa = ra % (MILLIS_PER_MINUTE as int);
    lemma_fundamental_div_mod_converse(
        sa,
        MILLIS_PER_SECOND as int,
        a.second as int,
        a.millisecond as int,
    );
    lemma_fundamental_div_mod_converse(
        sa,
        MILLIS_PER_SECOND as int,
        b.second as int,
        b.millisecond as int,
    );
    assert(a.year == b.year) by {
        lemma_year_unique(a, b, da);
    }
    let y = a.year as int;
    assert(a.month == b.month) by {
        if a.month < b.month {
            lemma_days_before_month_mono(y, a.month as int + 1, b.month as int);
            assert(days_before_month(y, a.month as int + 1) == days_before_month(
                y,
                a.month as int,
            ) + days_in_month(y, a.month as int));
        }
        if b.month < a.month {
            lemma_days_before_month_mono(y, b.month as int + 1, a.month as int);
            assert(days_before_month(y, b.month as int + 1) == days_before_month(
                y,
                b.month as int,
            ) + days_in_month(y, b.month as int));
        }
    }
}

/// Two well-formed date-times on the same epoch day fall in the same year.
proof fn lemma_year_unique(a: CivilDateTime, b: CivilDateTime, d: int)
    requires
        a.wf(),
        b.wf(),
        epoch_day_of(a.year as int, a.month as int, a.day as int) == d,
        epoch_day_of(b.year as int, b.month as int, b.day as int) == d,
    ensures
        a.year == b.year,
{
    lemma_day_of_year_in_year(a);
    lemma_day_of_year_in_year(b);
    lemma_days_before_year_step(a.year as int);
    lemma_days_before_year_step(b.year as int);
    if a.year < b.year {
        lemma_days_before_year_mono(a.year as int + 1, b.year as int);
    }
    if b.year < a.year {
        lemma_days_before_year_mono(b.year as int + 1, a.year as int);
    }
}

pub fn is_leap(y: u16) -> (r: bool)
    ensures
        r == is_leap_year(y as int),
{
    (y % 4 == 0 && y % 100 != 0) || y % 400 == 0
}

pub fn year_length(y: u16) -> (r: u16)
    ensures
        r == days_in_year(y as int),
{
    if is_leap(y) {
        366
    } else {
        365
    }
}

pub fn month_length(y: u16, m: u8) -> (r: u8)
    requires
        1 <= m <= 12,
    ensures
        r == days_in_month(y as int, m as int),
{
    if m == 2 {
        if is_leap(y) {
            29
        } else {
            28
        }
    } else if m == 4 || m == 6 || m == 9 || m == 11 {
        30
    } else {
        31
    }
}

/// The bound `MAX_EPOCH_MILLIS` is the millisecond count of 10000-01-01.
pub proof fn lemma_max_epoch_millis()
    ensures
        MAX_EPOCH_MILLIS == days_before_year(10000) * (MILLIS_PER_DAY as int),
{
    assert(days_before_year(10000) == 2932897);
}

/// The civil date-time that a given epoch millisecond falls in.
pub fn civil_from_epoch_millis(t: u64) -> (c: CivilDateTime)
    requires
        t < MAX_EPOCH_MILLIS,
    ensures
        c.wf(),
        c.epoch_millis() == t,
{
    let days: u64 = t / MILLIS_PER_DAY;
    let msod: u64 = t % MILLIS_PER_DAY;
    proof {
        lemma_fundamental_div_mod(t as int, MILLIS_PER_DAY as int);
        lemma_mod_bound(t as int, MILLIS_PER_DAY as int);
        lemma_div_pos_is_pos(t as int, MILLIS_PER_DAY as int);
        lemma_div_is_ordered(t as int, (MAX_EPOCH_MILLIS - 1) as int, MILLIS_PER_DAY as int);
        lemma_max_epoch_millis();
    }
    let ghost day_total: int = days as int;
    let mut year: u16 = 1970;
    let mut rem: u32 = days as u32;
    loop
        invariant
            1970 <= year < 10000,
            days_before_year(year as int) + rem == day_total,
            day_total < days_before_year(10000),
        ensures
            1970 <= year < 10000,
            days_before_year(year as int) + rem == day_total,
            rem < days_in_year(year as int),
        decreases rem,
    {
        let yl: u16 = year_length(year);
        if rem < yl as u32 {
            break ;
        }
        proof {
            lemma_days_before_year_step(year as int);
            lemma_days_before_year_mono(year as int + 1, 10000);
        }
        rem = rem - yl as u32;
        year = year + 1;
    }
    let ghost day_of_year: int = rem as int;
    let mut month: u8 = 1;
    loop
        invariant
            1 <= month <= 12,
            days_before_month(year as int, month as int) + rem == day_of_year,
            day_of_year < days_in_year(year as int),
        ensures
            1 <= month <= 12,
            days_before_month(year as int, month as int) + rem == day_of_year,
            rem < days_in_month(year as int, month as int),
        decreases 12 - month,
    {
        let ml: u8 = month_length(year, month);
        if rem < ml as u32 {
            break ;
        }
        proof {
            if month == 12 {
                lemma_months_fill_year(year as int);
                assert(false);
            }
        }
        rem = rem - ml as u32;
        month = month + 1;
    }
    let day: u8 = rem as u8 + 1;
    let hour: u8 = (msod / MILLIS_PER_HOUR) as u8;
    let rem_h: u64 = msod % MILLIS_PER_HOUR;
    let minute: u8 = (rem_h / MILLIS_PER_MINUTE) as u8;
    let rem_m: u64 = rem_h % MILLIS_PER_MINUTE;
    let second: u8 = (rem_m / MILLIS_PER_SECOND) as u8;
    let millisecond: u16 = (rem_m % MILLIS_PER_SECOND) as u16;
    proof {
        lemma_fundamental_div_mod(msod as int, MILLIS_PER_HOUR as int);
        lemma_mod_bound(msod as int, MILLIS_PER_HOUR as int);
        lemma_div_pos_is_pos(msod as int, MILLIS_PER_HOUR as int);
        lemma_fundamental_div_mod(rem_h as int, MILLIS_PER_MINUTE as int);
        lemma_mod_bound(rem_h as int, MILLIS_PER_MINUTE as int);
        lemma_div_pos_is_pos(rem_h as int, MILLIS_PER_MINUTE as int);
        lemma_fundamental_div_mod(rem_m as int, MILLIS_PER_SECOND as int);
        lemma_mod_bound(rem_m as int, MILLIS_PER_SECOND as int);
        lemma_div_pos_is_pos(rem_m as int, MILLIS_PER_SECOND as int);
    }
    CivilDateTime { year, month, day, hour, minute, second, millisecond }
}

} // verus!
