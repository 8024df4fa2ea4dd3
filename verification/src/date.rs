//! A plain calendar date (proleptic Gregorian) and its arithmetic: leap years,
//! days in a month, day numbers, weekdays, and stepping by a number of days.

use vstd::prelude::*;

verus! {

/// Years are kept in a symmetric range wide enough for any calendar use of a
/// date picker while leaving day numbers far from any integer limit.
pub const MIN_YEAR: i32 = -9999;
pub const MAX_YEAR: i32 = 9999;

/// A year is a leap year when it is divisible by 4 but not by 100, or
/// divisible by 400 (astronomical year numbering: year 0 is a leap year).
pub open spec fn is_leap_spec(y: int) -> bool {
    (y % 4 == 0 && y % 100 != 0) || y % 400 == 0
}

/// The number of days in the given month of the given year.
pub open spec fn days_in_month_spec(y: int, m: int) -> int {
    if m == 2 {
        if is_leap_spec(y) {
            29
        } else {
            28
        }
    } else if m == 4 || m == 6 || m == 9 || m == 11 {
        30
    } else {
        31
    }
}

/// A valid calendar date within the supported year range.
pub open spec fn valid_ymd(y: int, m: int, d: int) -> bool {
    &&& MIN_YEAR <= y <= MAX_YEAR
    &&& 1 <= m <= 12
    &&& 1 <= d <= days_in_month_spec(y, m)
}

/// A calendar date as plain year, month (1 to 12) and day-of-month values.
#[derive(Clone, Copy, PartialEq, Eq, Structural, Debug)]
pub struct PickerDate {
    pub year: i32,
    pub month: u32,
    pub day: u32,
}

impl PickerDate {
    /// The date is a valid proleptic-Gregorian date in the supported range.
    pub open spec fn inv(self) -> bool {
        valid_ymd(self.year as int, self.month as int, self.day as int)
    }
}

pub fn is_leap_year(y: i32) -> (r: bool)
    requires
        MIN_YEAR <= y <= MAX_YEAR,
    ensures
        r == is_leap_spec(y as int),
{
    // Shift by a multiple of 400 so that the remainder operators act on a
    // nonnegative value, where they agree with the mathematical remainder.
    let yy: i32 = y + 10000;
    proof {
        vstd::arithmetic::div_mod::lemma_mod_multiples_vanish(2500, y as int, 4);
        vstd::arithmetic::div_mod::lemma_mod_multiples_vanish(100, y as int, 100);
        vstd::arithmetic::div_mod::lemma_mod_multiples_vanish(25, y as int, 400);
    }
    (yy % 4 == 0 && yy % 100 != 0) || yy % 400 == 0
}

pub fn days_in_month(y: i32, m: u32) -> (r: u32)
    requires
        MIN_YEAR <= y <= MAX_YEAR,
        1 <= m <= 12,
    ensures
        r == days_in_month_spec(y as int, m as int),
{
    if m == 2 {
        if is_leap_year(y) {
            29
        } else {
            28
        }
    } else if m == 4 || m == 6 || m == 9 || m == 11 {
        30
    } else {
        31
    }
}

/// Number of days in the given year.
pub open spec fn days_in_year_spec(y: int) -> int {
    if is_leap_spec(y) {
        366
    } else {
        365
    }
}

/// Number of days of year `y` that lie strictly before month `m` (for
/// `1 <= m <= 13`; `m == 13` gives the whole year).
pub open spec fn days_before_month_spec(y: int, m: int) -> int
    decreases m,
{
    if m <= 1 {
        0
    } else {
        days_before_month_spec(y, m - 1) + days_in_month_spec(y, m - 1)
    }
}

/// Number of days between the first day of year 0 and the first day of year
/// `y` (negative when `y` is negative).
pub open spec fn days_before_year_spec(y: int) -> int
    decreases (if y >= 0 { y } else { -y }),
{
    if y > 0 {
        days_before_year_spec(y - 1) + days_in_year_spec(y - 1)
    } else if y < 0 {
        days_before_year_spec(y + 1) - days_in_year_spec(y)
    } else {
        0
    }
}

/// The day number of a date: days since the first day of year 0, which is
/// day 0. Consecutive dates have consecutive day numbers.
pub open spec fn day_number_spec(y: int, m: int, d: int) -> int {
    days_before_year_spec(y) + days_before_month_spec(y, m) + d - 1
}

/// The day number of a `PickerDate`.
pub open spec fn dn_of(d: PickerDate) -> int {
    day_number_spec(d.year as int, d.month as int, d.day as int)
}

pub proof fn lemma_days_before_month_13(y: int)
    ensures
        days_before_month_spec(y, 13) == days_in_year_spec(y),
{
    reveal_with_fuel(days_before_month_spec, 14);
}

/// A whole year's days stand between the starts of adjacent years.
pub proof fn lemma_dby_step(y: int)
    ensures
        days_before_year_spec(y + 1) == days_before_year_spec(y) + days_in_year_spec(y),
{
    if y + 1 > 0 {
        assert(days_before_year_spec(y + 1) == days_before_year_spec(y) + days_in_year_spec(y));
    } else {
        assert(days_before_year_spec(y) == days_before_year_spec(y + 1) - days_in_year_spec(y));
    }
}

impl PickerDate {
    /// Builds a date, returning `None` exactly when the components do not
    /// name a valid date in the supported range.
    pub fn new(year: i32, month: u32, day: u32) -> (r: Option<PickerDate>)
        ensures
            r is Some <==> valid_ymd(year as int, month as int, day as int),
            r matches Some(d) ==> d == (PickerDate { year, month, day }),
    {
        if MIN_YEAR <= year && year <= MAX_YEAR && 1 <= month && month <= 12 && 1 <= day
            && day <= days_in_month(year, month) {
            Some(PickerDate { year, month, day })
        } else {
            None
        }
    }
}

pub fn day_number(d: &PickerDate) -> (r: i64)
    requires
        d.inv(),
    ensures
        r == dn_of(*d),
        -3700000 <= r <= 3700000,
{
    let mut acc: i64 = 0;
    if d.year >= 0 {
        let mut i: i32 = 0;
        #[verifier::loop_isolation(false)]
        while i < d.year
            invariant
                0 <= i <= d.year,
                acc == days_before_year_spec(i as int),
                365 * i <= acc <= 366 * i,
            decreases d.year - i,
        {
            if is_leap_year(i) {
                acc = acc + 366;
            } else {
                acc = acc + 365;
            }
            proof {
                lemma_dby_step(i as int);
            }
            i = i + 1;
        }
    } else {
        let mut i: i32 = 0;
        #[verifier::loop_isolation(false)]
        while i > d.year
            invariant
                d.year <= i <= 0,
                acc == days_before_year_spec(i as int),
                366 * i <= acc <= 365 * i,
            decreases i - d.year,
        {
            i = i - 1;
            if is_leap_year(i) {
                acc = acc - 366;
            } else {
                acc = acc - 365;
            }
            proof {
                lemma_dby_step(i as int);
            }
        }
    }
    assert(-3660000 <= acc <= 3660000);
    let mut m: u32 = 1;
    #[verifier::loop_isolation(false)]
    while m < d.month
        invariant
            1 <= m <= d.month,
            acc == days_before_year_spec(d.year as int) + days_before_month_spec(
                d.year as int,
                m as int,
            ),
            acc <= 3660000 + 31 * (m - 1),
            acc >= -3660000,
        decreases d.month - m,
    {
        acc = acc + days_in_month(d.year, m) as i64;
        m = m + 1;
    }
    acc + d.day as i64 - 1
}

/// The number of days in a month, counted as the distance to the first day
/// of the following month.
pub fn get_days_from_month(year: i32, month: u32) -> (r: i64)
    requires
        MIN_YEAR <= year <= MAX_YEAR,
        1 <= month <= 12,
    ensures
        r == days_in_month_spec(year as int, month as int),
{
    days_in_month(year, month) as i64
}

/// Weekday index counted from Monday: Monday is 0, Sunday is 6.
/// (Day 0, the first day of year 0, was a Saturday; the offset 5 aligns the
/// numbering so that known dates get their historical weekday.)
pub open spec fn weekday_from_monday_spec(y: int, m: int, d: int) -> int {
    (day_number_spec(y, m, d) + 5) % 7
}

/// Weekday index counted from Sunday: Sunday is 0, Saturday is 6.
pub open spec fn weekday_from_sunday_spec(y: int, m: int, d: int) -> int {
    (day_number_spec(y, m, d) + 6) % 7
}

pub fn weekday_from_monday(d: &PickerDate) -> (r: u32)
    requires
        d.inv(),
    ensures
        r == weekday_from_monday_spec(d.year as int, d.month as int, d.day as int),
        r < 7,
{
    let dn: i64 = day_number(d);
    // Shift by a multiple of 7 so the remainder is taken of a nonnegative
    // value, where it agrees with the mathematical remainder.
    let k: u64 = (dn + 5 + 4900000) as u64;
    proof {
        vstd::arithmetic::div_mod::lemma_mod_multiples_vanish(700000, dn as int + 5, 7);
        vstd::arithmetic::div_mod::lemma_mod_division_less_than_divisor(dn as int + 5, 7);
    }
    (k % 7) as u32
}

pub fn weekday_from_sunday(d: &PickerDate) -> (r: u32)
    requires
        d.inv(),
    ensures
        r == weekday_from_sunday_spec(d.year as int, d.month as int, d.day as int),
        r < 7,
{
    let dn: i64 = day_number(d);
    let k: u64 = (dn + 6 + 4900000) as u64;
    proof {
        vstd::arithmetic::div_mod::lemma_mod_multiples_vanish(700000, dn as int + 6, 7);
        vstd::arithmetic::div_mod::lemma_mod_division_less_than_divisor(dn as int + 6, 7);
    }
    (k % 7) as u32
}

/// Stepping past the last day of a month lands on the first day of the next.
pub proof fn lemma_month_step(y: int, m: int)
    requires
        1 <= m <= 11,
    ensures
        day_number_spec(y, m, days_in_month_spec(y, m)) + 1 == day_number_spec(y, m + 1, 1),
{
}

/// Stepping past December 31 lands on January 1 of the next year.
pub proof fn lemma_year_step(y: int)
    ensures
        day_number_spec(y, 12, 31) + 1 == day_number_spec(y + 1, 1, 1),
{
    lemma_days_before_month_13(y);
    lemma_dby_step(y);
    assert(days_before_month_spec(y, 13) == days_before_month_spec(y, 12) + days_in_month_spec(
        y,
        12,
    ));
}

/// The date one day after `d`.
pub fn next_day(d: &PickerDate) -> (r: PickerDate)
    requires
        d.inv(),
        !(d.year == MAX_YEAR && d.month == 12 && d.day == 31),
    ensures
        r.inv(),
        dn_of(r) == dn_of(*d) + 1,
{
    if d.day < days_in_month(d.year, d.month) {
        PickerDate { year: d.year, month: d.month, day: d.day + 1 }
    } else if d.month < 12 {
        proof {
            lemma_month_step(d.year as int, d.month as int);
        }
        PickerDate { year: d.year, month: d.month + 1, day: 1 }
    } else {
        proof {
            lemma_year_step(d.year as int);
        }
        PickerDate { year: d.year + 1, month: 1, day: 1 }
    }
}

/// The date one day before `d`.
pub fn prev_day(d: &PickerDate) -> (r: PickerDate)
    requires
        d.inv(),
        !(d.year == MIN_YEAR && d.month == 1 && d.day == 1),
    ensures
        r.inv(),
        dn_of(r) == dn_of(*d) - 1,
{
    if d.day > 1 {
        PickerDate { year: d.year, month: d.month, day: d.day - 1 }
    } else if d.month > 1 {
        proof {
            lemma_month_step(d.year as int, d.month as int - 1);
        }
        let pm: u32 = d.month - 1;
        PickerDate { year: d.year, month: pm, day: days_in_month(d.year, pm) }
    } else {
        proof {
            lemma_year_step(d.year as int - 1);
        }
        PickerDate { year: d.year - 1, month: 12, day: 31 }
    }
}

/// Later years start later, by at least 365 and at most 366 days per year.
pub proof fn lemma_dby_mono(y1: int, y2: int)
    requires
        y1 <= y2,
    ensures
        days_before_year_spec(y1) + 365 * (y2 - y1) <= days_before_year_spec(y2),
        days_before_year_spec(y2) <= days_before_year_spec(y1) + 366 * (y2 - y1),
    decreases y2 - y1,
{
    if y1 < y2 {
        lemma_dby_mono(y1, y2 - 1);
        lemma_dby_step(y2 - 1);
    }
}

/// Later months of a year start later, by at most 31 days per month.
pub proof fn lemma_dbm_mono(y: int, m1: int, m2: int)
    requires
        1 <= m1 <= m2 <= 13,
    ensures
        days_before_month_spec(y, m1) <= days_before_month_spec(y, m2),
        days_before_month_spec(y, m2) <= days_before_month_spec(y, m1) + 31 * (m2 - m1),
    decreases m2 - m1,
{
    if m1 < m2 {
        lemma_dbm_mono(y, m1, m2 - 1);
    }
}

/// A valid date's day number falls within its year: at or after the year's
/// first day, strictly before the next year's first day.
pub proof fn lemma_dn_within_year(y: int, m: int, d: int)
    requires
        1 <= m <= 12,
        1 <= d <= days_in_month_spec(y, m),
    ensures
        days_before_year_spec(y) <= day_number_spec(y, m, d) < days_before_year_spec(y + 1),
{
    lemma_dbm_mono(y, 1, m);
    lemma_dbm_mono(y, m + 1, 13);
    lemma_days_before_month_13(y);
    lemma_dby_step(y);
    assert(days_before_month_spec(y, m + 1) == days_before_month_spec(y, m) + days_in_month_spec(
        y,
        m,
    ));
}

/// Two valid dates with the same day number are the same date.
pub proof fn lemma_dn_injective(a: PickerDate, b: PickerDate)
    requires
        a.inv(),
        b.inv(),
        dn_of(a) == dn_of(b),
    ensures
        a == b,
{
    lemma_dn_within_year(a.year as int, a.month as int, a.day as int);
    lemma_dn_within_year(b.year as int, b.month as int, b.day as int);
    if a.year < b.year {
        lemma_dby_mono(a.year as int + 1, b.year as int);
        assert(false);
    } else if b.year < a.year {
        lemma_dby_mono(b.year as int + 1, a.year as int);
        assert(false);
    }
    if a.month < b.month {
        lemma_dbm_mono(a.year as int, a.month as int + 1, b.month as int);
        assert(days_before_month_spec(a.year as int, a.month as int + 1)
            == days_before_month_spec(a.year as int, a.month as int) + days_in_month_spec(
            a.year as int,
            a.month as int,
        ));
        assert(false);
    } else if b.month < a.month {
        lemma_dbm_mono(b.year as int, b.month as int + 1, a.month as int);
        assert(days_before_month_spec(b.year as int, b.month as int + 1)
            == days_before_month_spec(b.year as int, b.month as int) + days_in_month_spec(
            b.year as int,
            b.month as int,
        ));
        assert(false);
    }
}

/// The date `n` days after `d` (before, for negative `n`). The result must
/// stay within the supported range.
pub fn add_days(d: &PickerDate, n: i64) -> (r: PickerDate)
    requires
        d.inv(),
        day_number_spec(MIN_YEAR as int, 1, 1) <= dn_of(*d) + n <= day_number_spec(
            MAX_YEAR as int,
            12,
            31,
        ),
    ensures
        r.inv(),
        dn_of(r) == dn_of(*d) + n,
{
    let mut cur: PickerDate = *d;
    let mut k: i64 = 0;
    if n >= 0 {
        #[verifier::loop_isolation(false)]
        while k < n
            invariant
                0 <= k <= n,
                cur.inv(),
                dn_of(cur) == dn_of(*d) + k,
            decreases n - k,
        {
            proof {
                if cur.year == MAX_YEAR && cur.month == 12 && cur.day == 31 {
                    assert(dn_of(cur) == day_number_spec(MAX_YEAR as int, 12, 31));
                }
            }
            cur = next_day(&cur);
            k = k + 1;
        }
    } else {
        #[verifier::loop_isolation(false)]
        while k > n
            invariant
                n <= k <= 0,
                cur.inv(),
                dn_of(cur) == dn_of(*d) + k,
            decreases k - n,
        {
            proof {
                if cur.year == MIN_YEAR && cur.month == 1 && cur.day == 1 {
                    assert(dn_of(cur) == day_number_spec(MIN_YEAR as int, 1, 1));
                }
            }
            cur = prev_day(&cur);
            k = k - 1;
        }
    }
    cur
}

/// The date `n` days away, or `None` exactly when that date would leave the
/// supported range.
pub fn checked_add_days(d: &PickerDate, n: i64) -> (r: Option<PickerDate>)
    requires
        d.inv(),
        -10000000 <= n <= 10000000,
    ensures
        r is Some <==> day_number_spec(MIN_YEAR as int, 1, 1) <= dn_of(*d) + n
            <= day_number_spec(MAX_YEAR as int, 12, 31),
        r matches Some(x) ==> x.inv() && dn_of(x) == dn_of(*d) + n,
{
    let dn: i64 = day_number(d);
    let lo: i64 = day_number(&PickerDate { year: MIN_YEAR, month: 1, day: 1 });
    let hi: i64 = day_number(&PickerDate { year: MAX_YEAR, month: 12, day: 31 });
    if lo <= dn + n && dn + n <= hi {
        Some(add_days(d, n))
    } else {
        None
    }
}

impl PickerDate {
    /// The same date with the year replaced, or `None` exactly when the
    /// month and day do not exist in that year (February 29 outside a leap
    /// year, or a year out of range).
    pub fn with_year(&self, year: i32) -> (r: Option<PickerDate>)
        ensures
            r is Some <==> valid_ymd(year as int, self.month as int, self.day as int),
            r matches Some(x) ==> x == (PickerDate { year, month: self.month, day: self.day }),
    {
        PickerDate::new(year, self.month, self.day)
    }

    /// The same date with the day of the month replaced, or `None` exactly
    /// when that day does not exist in the month.
    pub fn with_day(&self, day: u32) -> (r: Option<PickerDate>)
        ensures
            r is Some <==> valid_ymd(self.year as int, self.month as int, day as int),
            r matches Some(x) ==> x == (PickerDate { year: self.year, month: self.month, day }),
    {
        PickerDate::new(self.year, self.month, day)
    }
}

} // verus!
