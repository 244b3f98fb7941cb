//! Calendar dates and the linear Julian day index.
//!
//! Every date in the pipeline is carried as a single `i32` Julian day
//! number, the canonical arithmetic-friendly time axis.  This module
//! defines the proleptic Gregorian calendar as a specification
//! (`day_number`) and provides verified conversions in both directions,
//! together with the injectivity lemma that makes the two directions
//! inverse to each other.
//!
//! The supported calendar window is the four-digit years
//! `YEAR_MIN ..= YEAR_MAX`; the day number of `YEAR_MIN`-01-01 is
//! `JULIAN_ANCHOR`, chosen so that 1970-01-01 falls on day 2440588 and
//! 2015-03-14 on day 2457096.

use vstd::prelude::*;

verus! {

/// First calendar year the conversions accept.
pub const YEAR_MIN: i32 = 1000;

/// Last calendar year the conversions accept.
pub const YEAR_MAX: i32 = 9999;

/// Julian day number of January 1st of `YEAR_MIN`.
pub const JULIAN_ANCHOR: i32 = 2086303;

/// Gregorian leap year rule.
pub open spec fn is_leap_year(y: int) -> bool {
    y % 4 == 0 && (y % 100 != 0 || y % 400 == 0)
}

/// Length of year `y` in days.
pub open spec fn days_in_year(y: int) -> int {
    if is_leap_year(y) {
        366
    } else {
        365
    }
}

/// Length of month `m` of year `y` in days.
pub open spec fn days_in_month(y: int, m: int) -> int {
    if m == 2 {
        if is_leap_year(y) {
            29
        } else {
            28
        }
    } else if m == 4 || m == 6 || m == 9 || m == 11 {
        30
    } else {
        31
    }
}

/// Days of year `y` that lie strictly before month `m`.
pub open spec fn days_before_month(y: int, m: int) -> int
    decreases m,
{
    if m <= 1 {
        0
    } else {
        days_before_month(y, m - 1) + days_in_month(y, m - 1)
    }
}

/// Julian day number of January 1st of year `y`.
pub open spec fn year_start_day(y: int) -> int
    decreases y - (YEAR_MIN as int),
{
    if y <= YEAR_MIN as int {
        JULIAN_ANCHOR as int
    } else {
        year_start_day(y - 1) + days_in_year(y - 1)
    }
}

/// Julian day number of the calendar date `y`-`m`-`d`.
pub open spec fn day_number(y: int, m: int, d: int) -> int {
    year_start_day(y) + days_before_month(y, m) + d - 1
}

/// Which calendar dates the conversions are defined on.
pub open spec fn valid_date(y: int, m: int, d: int) -> bool {
    &&& YEAR_MIN as int <= y <= YEAR_MAX as int
    &&& 1 <= m <= 12
    &&& 1 <= d <= days_in_month(y, m)
}

/// Smallest Julian day number of the supported window.
pub open spec fn julian_min() -> int {
    day_number(YEAR_MIN as int, 1, 1)
}

/// Largest Julian day number of the supported window.
pub open spec fn julian_max() -> int {
    day_number(YEAR_MAX as int, 12, 31)
}

/// The calendar date a Julian day number stands for, as a (year, month,
/// day) triple; well defined on `julian_min() ..= julian_max()` by
/// `lemma_day_number_injective`.
pub open spec fn ymd_of(day: int) -> (int, int, int) {
    choose|t: (int, int, int)|
        valid_date(t.0, t.1, t.2) && day_number(t.0, t.1, t.2) == day
}

/// January 1st of the next year follows the last day of this one.
pub proof fn lemma_year_start_next(y: int)
    requires
        y >= YEAR_MIN as int,
    ensures
        year_start_day(y + 1) == year_start_day(y) + days_in_year(y),
{
}

/// Linear bounds on `year_start_day`, tight enough for `i32` arithmetic.
pub proof fn lemma_year_start_bounds(y: int)
    requires
        y >= YEAR_MIN as int,
    ensures
        JULIAN_ANCHOR as int + 365 * (y - YEAR_MIN as int) <= year_start_day(y),
        year_start_day(y) <= JULIAN_ANCHOR as int + 366 * (y - YEAR_MIN as int),
    decreases y - (YEAR_MIN as int),
{
    if y > YEAR_MIN as int {
        lemma_year_start_bounds(y - 1);
    }
}

/// `year_start_day` grows with the year.
pub proof fn lemma_year_start_mono(y1: int, y2: int)
    requires
        YEAR_MIN as int <= y1 <= y2,
    ensures
        year_start_day(y1) <= year_start_day(y2),
    decreases y2 - y1,
{
    if y1 < y2 {
        lemma_year_start_mono(y1, y2 - 1);
    }
}

/// `days_before_month` grows with the month.
pub proof fn lemma_days_before_month_mono(y: int, m1: int, m2: int)
    requires
        m1 <= m2,
    ensures
        days_before_month(y, m1) <= days_before_month(y, m2),
    decreases m2 - m1,
{
    if m1 < m2 {
        lemma_days_before_month_mono(y, m1, m2 - 1);
    }
}

/// The twelve months together make up the year exactly.
pub proof fn lemma_months_fill_year(y: int)
    ensures
        days_before_month(y, 13) == days_in_year(y),
{
    reveal_with_fuel(days_before_month, 14);
}

/// A valid date's day number lies inside its own year.
pub proof fn lemma_day_number_in_year(y: int, m: int, d: int)
    requires
        valid_date(y, m, d),
    ensures
        year_start_day(y) <= day_number(y, m, d),
        day_number(y, m, d) < year_start_day(y) + days_in_year(y),
{
    lemma_days_before_month_mono(y, 1, m);
    lemma_days_before_month_mono(y, m + 1, 13);
    lemma_months_fill_year(y);
}

/// Distinct valid dates have distinct day numbers.
pub proof fn lemma_day_number_injective(y1: int, m1: int, d1: int, y2: int, m2: int, d2: int)
    requires
        valid_date(y1, m1, d1),
        valid_date(y2, m2, d2),
        day_number(y1, m1, d1) == day_number(y2, m2, d2),
    ensures
        y1 == y2 && m1 == m2 && d1 == d2,
{
    if y1 < y2 {
        lemma_day_number_in_year(y1, m1, d1);
        lemma_day_number_in_year(y2, m2, d2);
        lemma_year_start_next(y1);
        lemma_year_start_mono(y1 + 1, y2);
    } else if y2 < y1 {
        lemma_day_number_in_year(y1, m1, d1);
        lemma_day_number_in_year(y2, m2, d2);
        lemma_year_start_next(y2);
        lemma_year_start_mono(y2 + 1, y1);
    } else {
        if m1 < m2 {
            lemma_days_before_month_mono(y1, m1 + 1, m2);
        } else if m2 < m1 {
            lemma_days_before_month_mono(y1, m2 + 1, m1);
        }
    }
}

/// `ymd_of` inverts `day_number` on valid dates.
pub proof fn lemma_ymd_of_day_number(y: int, m: int, d: int)
    requires
        valid_date(y, m, d),
    ensures
        ymd_of(day_number(y, m, d)) == (y, m, d),
{
    let day = day_number(y, m, d);
    let w = (y, m, d);
    assert(valid_date(w.0, w.1, w.2) && day_number(w.0, w.1, w.2) == day);
    assert(exists|t: (int, int, int)|
        valid_date(t.0, t.1, t.2) && day_number(t.0, t.1, t.2) == day);
    let t = choose|t: (int, int, int)|
        valid_date(t.0, t.1, t.2) && day_number(t.0, t.1, t.2) == day;
    lemma_day_number_injective(t.0, t.1, t.2, y, m, d);
}

/// Leap year test, matching the specification rule.
pub fn leap_year(y: i32) -> (r: bool)
    requires
        y >= 0,
    ensures
        r == is_leap_year(y as int),
{
    y % 4 == 0 && (y % 100 != 0 || y % 400 == 0)
}

/// Length of a month in days.
pub fn month_length(year: i32, month: u32) -> (r: u32)
    requires
        year >= 0,
        1 <= month <= 12,
    ensures
        r as int == days_in_month(year as int, month as int),
{
    if month == 2 {
        if leap_year(year) {
            29
        } else {
            28
        }
    } else if month == 4 || month == 6 || month == 9 || month == 11 {
        30
    } else {
        31
    }
}

/// Days of the year strictly before the given month.
fn month_prefix_days(year: i32, month: u32) -> (r: u32)
    requires
        year >= 0,
        1 <= month <= 12,
    ensures
        r as int == days_before_month(year as int, month as int),
{
    proof {
        reveal_with_fuel(days_before_month, 14);
    }
    let base: u32 = match month {
        1 => 0,
        2 => 31,
        3 => 59,
        4 => 90,
        5 => 120,
        6 => 151,
        7 => 181,
        8 => 212,
        9 => 243,
        10 => 273,
        11 => 304,
        _ => 334,
    };
    if month > 2 && leap_year(year) {
        base + 1
    } else {
        base
    }
}

/// Convert a year, month, day to the `i32` Julian day index.
pub fn ymd_to_day(year: i32, month: u32, day: u32) -> (r: i32)
    requires
        valid_date(year as int, month as int, day as int),
    ensures
        r as int == day_number(year as int, month as int, day as int),
        julian_min() <= r as int <= julian_max(),
{
    let mut y: i32 = YEAR_MIN;
    let mut acc: i32 = JULIAN_ANCHOR;
    while y < year
        invariant
            YEAR_MIN <= y <= year <= YEAR_MAX,
            acc as int == year_start_day(y as int),
        decreases year as int - y as int,
    {
        proof {
            lemma_year_start_bounds(y as int);
            lemma_year_start_next(y as int);
        }
        acc = acc + if leap_year(y) { 366 } else { 365 };
        y = y + 1;
    }
    proof {
        lemma_year_start_bounds(year as int);
        lemma_day_number_in_year(year as int, month as int, day as int);
        lemma_year_start_mono(YEAR_MIN as int, year as int);
        lemma_year_start_mono(year as int, YEAR_MAX as int);
        lemma_day_number_in_year(YEAR_MIN as int, 1, 1);
        lemma_day_number_in_year(YEAR_MAX as int, 12, 31);
        lemma_days_before_month_mono(YEAR_MAX as int, 1, 12);
        lemma_days_before_month_mono(year as int, 1, month as int);
        lemma_year_start_next(year as int);
        lemma_year_start_mono(year as int + 1, YEAR_MAX as int + 1);
        lemma_year_start_next(YEAR_MAX as int);
        lemma_months_fill_year(YEAR_MAX as int);
    }
    let r = acc + month_prefix_days(year, month) as i32 + day as i32 - 1;
    r
}

/// Convert an `i32` Julian day index back to (year, month, day).
pub fn day_to_ymd(day: i32) -> (r: (i32, u32, u32))
    requires
        julian_min() <= day as int <= julian_max(),
    ensures
        valid_date(r.0 as int, r.1 as int, r.2 as int),
        day_number(r.0 as int, r.1 as int, r.2 as int) == day as int,
        (r.0 as int, r.1 as int, r.2 as int) == ymd_of(day as int),
{
    let mut y: i32 = YEAR_MIN;
    let mut acc: i32 = JULIAN_ANCHOR;
    proof {
        lemma_day_number_in_year(YEAR_MIN as int, 1, 1);
    }
    loop
        invariant
            YEAR_MIN <= y <= YEAR_MAX,
            acc as int == year_start_day(y as int),
            acc <= day,
            julian_min() <= day as int <= julian_max(),
        ensures
            YEAR_MIN <= y <= YEAR_MAX,
            acc as int == year_start_day(y as int),
            acc as int <= day as int,
            (day as int) < acc as int + days_in_year(y as int),
        decreases YEAR_MAX as int - y as int,
    {
        proof {
            lemma_year_start_bounds(y as int);
            lemma_year_start_next(y as int);
            if y == YEAR_MAX {
                lemma_day_number_in_year(YEAR_MAX as int, 12, 31);
                lemma_days_before_month_mono(YEAR_MAX as int, 12, 13);
                lemma_months_fill_year(YEAR_MAX as int);
            }
        }
        let step: i32 = if leap_year(y) { 366 } else { 365 };
        if day < acc + step {
            break;
        }
        acc = acc + step;
        y = y + 1;
    }
    let mut m: u32 = 1;
    let mut before: u32 = 0;
    loop
        invariant
            1 <= m <= 12,
            year_start_day(y as int) == acc as int,
            acc as int <= day as int,
            (day as int) < acc as int + days_in_year(y as int),
            YEAR_MIN <= y <= YEAR_MAX,
            before as int == days_before_month(y as int, m as int),
            acc as int + before as int <= day as int,
        ensures
            1 <= m <= 12,
            before as int == days_before_month(y as int, m as int),
            acc as int + before as int <= day as int,
            day as int - acc as int - (before as int) < days_in_month(y as int, m as int),
        decreases 12 - m as int,
    {
        proof {
            lemma_year_start_bounds(y as int);
            if m == 12 {
                lemma_days_before_month_mono(y as int, 13, 13);
                lemma_months_fill_year(y as int);
            }
        }
        let len: u32 = month_length(y, m);
        if day < acc + before as i32 + len as i32 {
            break;
        }
        before = before + len;
        m = m + 1;
    }
    proof {
        lemma_year_start_bounds(y as int);
    }
    let d: u32 = ((day - acc - before as i32) + 1) as u32;
    proof {
        lemma_ymd_of_day_number(y as int, m as int, d as int);
    }
    (y, m, d)
}

/// The decimal digit character for `n` in `0 ..= 9`.
pub open spec fn digit_char(n: int) -> char {
    if n == 0 {
        '0'
    } else if n == 1 {
        '1'
    } else if n == 2 {
        '2'
    } else if n == 3 {
        '3'
    } else if n == 4 {
        '4'
    } else if n == 5 {
        '5'
    } else if n == 6 {
        '6'
    } else if n == 7 {
        '7'
    } else if n == 8 {
        '8'
    } else {
        '9'
    }
}

/// The ten characters of a date written as `YYYY-MM-DD`.
pub open spec fn date_chars(y: int, m: int, d: int) -> Seq<char> {
    seq![
        digit_char(y / 1000 % 10),
        digit_char(y / 100 % 10),
        digit_char(y / 10 % 10),
        digit_char(y % 10),
        '-',
        digit_char(m / 10 % 10),
        digit_char(m % 10),
        '-',
        digit_char(d / 10 % 10),
        digit_char(d % 10),
    ]
}

/// The one-character string for a decimal digit.
fn digit_str(n: u32) -> (r: &'static str)
    requires
        n < 10,
    ensures
        r@ =~= seq![digit_char(n as int)],
{
    proof {
        reveal_strlit("0");
        reveal_strlit("1");
        reveal_strlit("2");
        reveal_strlit("3");
        reveal_strlit("4");
        reveal_strlit("5");
        reveal_strlit("6");
        reveal_strlit("7");
        reveal_strlit("8");
        reveal_strlit("9");
    }
    match n {
        0 => "0",
        1 => "1",
        2 => "2",
        3 => "3",
        4 => "4",
        5 => "5",
        6 => "6",
        7 => "7",
        8 => "8",
        _ => "9",
    }
}

/// Format a date as the ten characters `YYYY-MM-DD`.
pub fn format_date(year: i32, month: u32, day: u32) -> (r: String)
    requires
        1000 <= year <= 9999,
        1 <= month <= 12,
        1 <= day <= 31,
    ensures
        r@ =~= date_chars(year as int, month as int, day as int),
{
    proof {
        reveal_strlit("-");
    }
    let y: u32 = year as u32;
    let mut r = String::new();
    r.append(digit_str(y / 1000 % 10));
    r.append(digit_str(y / 100 % 10));
    r.append(digit_str(y / 10 % 10));
    r.append(digit_str(y % 10));
    r.append("-");
    r.append(digit_str(month / 10 % 10));
    r.append(digit_str(month % 10));
    r.append("-");
    r.append(digit_str(day / 10 % 10));
    r.append(digit_str(day % 10));
    r
}

/// Concrete bounds on the supported Julian window, for `i32` arithmetic.
pub proof fn lemma_julian_window()
    ensures
        julian_min() == JULIAN_ANCHOR as int,
        julian_min() < julian_max(),
        julian_max() - julian_min() <= 3294000,
        julian_max() < 6000000,
{
    lemma_year_start_bounds(YEAR_MAX as int);
    lemma_day_number_in_year(YEAR_MAX as int, 12, 31);
    lemma_year_start_mono(YEAR_MIN as int, YEAR_MAX as int);
    lemma_day_number_in_year(YEAR_MIN as int, 1, 1);
}

/// A valid date's day number lies in the supported window.
pub proof fn lemma_day_number_in_window(y: int, m: int, d: int)
    requires
        valid_date(y, m, d),
    ensures
        julian_min() <= day_number(y, m, d) <= julian_max(),
{
    lemma_day_number_in_year(y, m, d);
    lemma_year_start_mono(YEAR_MIN as int, y);
    lemma_days_before_month_mono(YEAR_MIN as int, 1, 1);
    lemma_year_start_next(y);
    lemma_year_start_mono(y + 1, YEAR_MAX as int + 1);
    lemma_year_start_next(YEAR_MAX as int);
    lemma_months_fill_year(YEAR_MAX as int);
}

} // verus!
