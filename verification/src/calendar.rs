//! The proleptic Gregorian calendar, counted in days from 1970-01-01, and the
//! proof that the civil-from-days computation used for timestamps lands on
//! the one calendar date that carries a given day number.

use vstd::prelude::*;
use vstd::arithmetic::div_mod::{lemma_fundamental_div_mod, lemma_fundamental_div_mod_converse, lemma_mod_bound};

verus! {

/// Gregorian leap-year rule.
pub open spec fn is_leap_year(y: int) -> bool {
    (y % 4 == 0 && y % 100 != 0) || y % 400 == 0
}

pub open spec fn leap_days(y: int) -> int {
    if is_leap_year(y) { 1 } else { 0 }
}

pub open spec fn year_length(y: int) -> int {
    365 + leap_days(y)
}

pub open spec fn month_length(y: int, m: int) -> int {
    if m == 2 {
        28 + leap_days(y)
    } else if m == 4 || m == 6 || m == 9 || m == 11 {
        30
    } else {
        31
    }
}

/// Number of days from 1970-01-01 to January 1 of year `y` (negative before 1970).
pub open spec fn days_before_year(y: int) -> int
    decreases (if y >= 1970 { y - 1970 } else { 1970 - y }),
{
    if y == 1970 {
        0
    } else if y > 1970 {
        days_before_year(y - 1) + year_length(y - 1)
    } else {
        days_before_year(y + 1) - year_length(y)
    }
}

/// Number of days in year `y` before the first day of month `m`.
pub open spec fn days_before_month(y: int, m: int) -> int
    decreases m,
{
    if m <= 1 {
        0
    } else {
        days_before_month(y, m - 1) + month_length(y, m - 1)
    }
}

/// A month of a year and a day of that month.
pub open spec fn is_valid_date(y: int, m: int, d: int) -> bool {
    1 <= m <= 12 && 1 <= d <= month_length(y, m)
}

/// Days from 1970-01-01 to the date `y-m-d`.
pub open spec fn day_number(y: int, m: int, d: int) -> int {
    days_before_year(y) + days_before_month(y, m) + d - 1
}

/// The calendar date whose day number is `days`.
pub open spec fn civil_date(days: int) -> (int, int, int) {
    choose|date: (int, int, int)|
        is_valid_date(date.0, date.1, date.2) && day_number(date.0, date.1, date.2) == days
}

// ---------------------------------------------------------------------------
// Closed forms
// ---------------------------------------------------------------------------

/// Leap years among the years before `y`, up to a constant.
spec fn leap_count(y: int) -> int {
    (y - 1) / 4 - (y - 1) / 100 + (y - 1) / 400
}

proof fn lemma_div_step(y: int, k: int)
    requires
        k > 0,
    ensures
        y / k - (y - 1) / k == if y % k == 0 { 1int } else { 0int },
{
    let q = (y - 1) / k;
    let r = (y - 1) % k;
    lemma_fundamental_div_mod(y - 1, k);
    lemma_mod_bound(y - 1, k);
    assert((q + 1) * k == k * q + k && q * k == k * q) by (nonlinear_arith);
    if r == k - 1 {
        lemma_fundamental_div_mod_converse(y, k, q + 1, 0);
    } else {
        lemma_fundamental_div_mod_converse(y, k, q, r + 1);
    }
}

proof fn lemma_leap_count_step(y: int)
    ensures
        leap_count(y + 1) == leap_count(y) + leap_days(y),
{
    lemma_div_step(y, 4);
    lemma_div_step(y, 100);
    lemma_div_step(y, 400);
    lemma_divisibility_chain(y);
}

/// A multiple of 400 is a multiple of 100, and a multiple of 100 a multiple of 4.
proof fn lemma_divisibility_chain(y: int)
    ensures
        y % 400 == 0 ==> y % 100 == 0,
        y % 100 == 0 ==> y % 4 == 0,
{
    lemma_fundamental_div_mod(y, 400);
    lemma_fundamental_div_mod(y, 100);
    if y % 400 == 0 {
        lemma_fundamental_div_mod_converse(y, 100, 4 * (y / 400), 0);
    }
    if y % 100 == 0 {
        lemma_fundamental_div_mod_converse(y, 4, 25 * (y / 100), 0);
    }
}

proof fn lemma_days_before_year_closed(y: int)
    ensures
        days_before_year(y) == 365 * (y - 1970) + leap_count(y) - 477,
    decreases (if y >= 1970 { y - 1970 } else { 1970 - y }),
{
    if y == 1970 {
        assert(leap_count(1970) == 477);
    } else if y > 1970 {
        lemma_days_before_year_closed(y - 1);
        lemma_leap_count_step(y - 1);
    } else {
        lemma_days_before_year_closed(y + 1);
        lemma_leap_count_step(y);
    }
}

// ---------------------------------------------------------------------------
// Years counted from March, in eras of 400 years
// ---------------------------------------------------------------------------

/// Days from 0000-03-01 to March 1 of year `k`.
spec fn march_days(k: int) -> int {
    365 * k + k / 4 - k / 100 + k / 400
}

/// The civil-from-days computation, step by step over mathematical integers.
pub(crate) open spec fn era_of(days: int) -> int {
    (days + 719468) / 146097
}

pub(crate) open spec fn day_of_era(days: int) -> int {
    days + 719468 - era_of(days) * 146097
}

pub(crate) open spec fn year_of_era(doe: int) -> int {
    (doe - doe / 1460 + doe / 36524 - doe / 146096) / 365
}

pub(crate) open spec fn day_of_march_year(doe: int, yoe: int) -> int {
    doe - (365 * yoe + yoe / 4 - yoe / 100)
}

pub(crate) open spec fn march_month(doy: int) -> int {
    (5 * doy + 2) / 153
}

pub(crate) open spec fn march_month_start(mp: int) -> int {
    (153 * mp + 2) / 5
}

pub(crate) open spec fn civil_from_days_steps(days: int) -> (int, int, int) {
    let era = era_of(days);
    let doe = day_of_era(days);
    let yoe = year_of_era(doe);
    let y = yoe + era * 400;
    let doy = day_of_march_year(doe, yoe);
    let mp = march_month(doy);
    let d = doy - march_month_start(mp) + 1;
    let m = if mp < 10 { mp + 3 } else { mp - 9 };
    (if m <= 2 { y + 1 } else { y }, m, d)
}

proof fn lemma_div_exact(x: int, d: int, q: int)
    requires
        d > 0,
        d * q <= x < d * q + d,
    ensures
        x / d == q,
        x % d == x - d * q,
{
    assert(x == q * d + (x - d * q)) by (nonlinear_arith);
    lemma_fundamental_div_mod_converse(x, d, q, x - d * q);
}

/// Within one era, the year of the era and the day of that (March-based) year.
pub(crate) proof fn lemma_year_of_era(doe: int)
    requires
        0 <= doe <= 146096,
    ensures
        0 <= year_of_era(doe) <= 399,
        0 <= day_of_march_year(doe, year_of_era(doe)) < 365 + leap_days(year_of_era(doe) + 1),
{
    let yoe = year_of_era(doe);
    if doe == 146096 {
        lemma_div_exact(doe, 1460, 100);
        lemma_div_exact(doe, 36524, 4);
        lemma_div_exact(doe, 146096, 1);
        lemma_div_exact(145999, 365, 399);
        lemma_div_exact(399, 4, 99);
        lemma_div_exact(399, 100, 3);
        lemma_div_exact(400, 4, 100);
        lemma_div_exact(400, 100, 4);
        lemma_div_exact(400, 400, 1);
    } else {
        let b = doe / 36524;
        lemma_fundamental_div_mod(doe, 36524);
        lemma_mod_bound(doe, 36524);
        let r = doe - 36524 * b;
        assert(0 <= b <= 3);
        let q = r / 1461;
        lemma_fundamental_div_mod(r, 1461);
        lemma_mod_bound(r, 1461);
        let s = r - 1461 * q;
        assert(0 <= q <= 24);
        assert(q == 24 ==> s <= 1459);
        let delta: int = if q + s + 24 * b >= 1460 { 1 } else { 0 };
        lemma_div_exact(doe, 1460, 25 * b + q + delta);
        lemma_div_exact(doe, 146096, 0);
        let t = doe - doe / 1460 + doe / 36524 - doe / 146096;
        assert(t == 36500 * b + 1460 * q + s - delta);
        let j = (s - delta) / 365;
        lemma_fundamental_div_mod(s - delta, 365);
        lemma_mod_bound(s - delta, 365);
        let w = s - delta - 365 * j;
        assert(0 <= j <= 3);
        lemma_div_exact(t, 365, 100 * b + 4 * q + j);
        assert(yoe == 100 * b + 4 * q + j);
        lemma_div_exact(yoe, 4, 25 * b + q);
        lemma_div_exact(yoe, 100, b);
        assert(day_of_march_year(doe, yoe) == w + delta);
        if w + delta == 365 {
            assert(s == 1460);
            assert(q <= 23);
            lemma_div_exact(yoe + 1, 4, 25 * b + q + 1);
            lemma_div_exact(yoe + 1, 100, b);
        }
    }
}

/// The first day of each month, counted from January 1.
proof fn lemma_days_before_month_values(y: int)
    ensures
        days_before_month(y, 1) == 0,
        days_before_month(y, 2) == 31,
        days_before_month(y, 3) == 59 + leap_days(y),
        days_before_month(y, 4) == 90 + leap_days(y),
        days_before_month(y, 5) == 120 + leap_days(y),
        days_before_month(y, 6) == 151 + leap_days(y),
        days_before_month(y, 7) == 181 + leap_days(y),
        days_before_month(y, 8) == 212 + leap_days(y),
        days_before_month(y, 9) == 243 + leap_days(y),
        days_before_month(y, 10) == 273 + leap_days(y),
        days_before_month(y, 11) == 304 + leap_days(y),
        days_before_month(y, 12) == 334 + leap_days(y),
        days_before_month(y, 13) == year_length(y),
{
    reveal_with_fuel(days_before_month, 14);
}

/// Splitting a day of a March-based year into a month (0 = March) and a day of that month.
pub(crate) proof fn lemma_march_month(doy: int, leap: int)
    requires
        0 <= leap <= 1,
        0 <= doy < 365 + leap,
    ensures
        0 <= march_month(doy) <= 11,
        march_month_start(march_month(doy)) <= doy,
        march_month(doy) == 11 ==> doy - march_month_start(11) < 28 + leap,
        march_month(doy) < 11 ==> doy < march_month_start(march_month(doy) + 1),
        march_month_start(0) == 0,
        march_month_start(1) == 31,
        march_month_start(2) == 61,
        march_month_start(3) == 92,
        march_month_start(4) == 122,
        march_month_start(5) == 153,
        march_month_start(6) == 184,
        march_month_start(7) == 214,
        march_month_start(8) == 245,
        march_month_start(9) == 275,
        march_month_start(10) == 306,
        march_month_start(11) == 337,
{
    lemma_div_exact(2, 5, 0);
    lemma_div_exact(155, 5, 31);
    lemma_div_exact(308, 5, 61);
    lemma_div_exact(461, 5, 92);
    lemma_div_exact(614, 5, 122);
    lemma_div_exact(767, 5, 153);
    lemma_div_exact(920, 5, 184);
    lemma_div_exact(1073, 5, 214);
    lemma_div_exact(1226, 5, 245);
    lemma_div_exact(1379, 5, 275);
    lemma_div_exact(1532, 5, 306);
    lemma_div_exact(1685, 5, 337);
    lemma_div_exact(1838, 5, 367);
    lemma_fundamental_div_mod(5 * doy + 2, 153);
    lemma_mod_bound(5 * doy + 2, 153);
}

/// The leap-year rule repeats every 400 years.
pub(crate) proof fn lemma_leap_period(x: int, e: int)
    ensures
        leap_days(x + 400 * e) == leap_days(x),
{
    lemma_fundamental_div_mod(x, 4);
    lemma_mod_bound(x, 4);
    lemma_fundamental_div_mod(x, 100);
    lemma_mod_bound(x, 100);
    lemma_fundamental_div_mod(x, 400);
    lemma_mod_bound(x, 400);
    lemma_div_exact(x + 400 * e, 4, x / 4 + 100 * e);
    lemma_div_exact(x + 400 * e, 100, x / 100 + 4 * e);
    lemma_div_exact(x + 400 * e, 400, x / 400 + e);
}

/// March 1 of year `y`, as a day number.
proof fn lemma_march_first(y: int)
    ensures
        days_before_year(y) + days_before_month(y, 3) == march_days(y) - 719468,
{
    lemma_days_before_year_closed(y);
    lemma_leap_count_step(y);
    lemma_days_before_month_values(y);
}

/// March 1 of the year `yoe` of era `era`.
proof fn lemma_march_days_in_era(era: int, yoe: int)
    requires
        0 <= yoe <= 399,
    ensures
        march_days(yoe + era * 400) == era * 146097 + 365 * yoe + yoe / 4 - yoe / 100,
{
    lemma_fundamental_div_mod(yoe, 4);
    lemma_mod_bound(yoe, 4);
    lemma_fundamental_div_mod(yoe, 100);
    lemma_mod_bound(yoe, 100);
    lemma_div_exact(yoe + era * 400, 4, yoe / 4 + 100 * era);
    lemma_div_exact(yoe + era * 400, 100, yoe / 100 + 4 * era);
    lemma_div_exact(yoe + era * 400, 400, era);
}

/// The step-by-step computation yields a calendar date with the given day number.
proof fn lemma_civil_from_days_steps(days: int)
    ensures
        is_valid_date(
            civil_from_days_steps(days).0,
            civil_from_days_steps(days).1,
            civil_from_days_steps(days).2,
        ),
        day_number(
            civil_from_days_steps(days).0,
            civil_from_days_steps(days).1,
            civil_from_days_steps(days).2,
        ) == days,
{
    let z = days + 719468;
    let era = era_of(days);
    lemma_fundamental_div_mod(z, 146097);
    lemma_mod_bound(z, 146097);
    let doe = day_of_era(days);
    assert(0 <= doe <= 146096);
    let yoe = year_of_era(doe);
    lemma_year_of_era(doe);
    let y = yoe + era * 400;
    let doy = day_of_march_year(doe, yoe);
    lemma_leap_period(yoe + 1, era);
    assert(leap_days(y + 1) == leap_days(yoe + 1));
    lemma_march_month(doy, leap_days(y + 1));
    let mp = march_month(doy);
    let d = doy - march_month_start(mp) + 1;
    lemma_march_days_in_era(era, yoe);
    lemma_march_first(y);
    assert(days == days_before_year(y) + days_before_month(y, 3) + doy);
    lemma_days_before_month_values(y);
    lemma_days_before_month_values(y + 1);
    if mp < 10 {
        assert(civil_from_days_steps(days) == (y, mp + 3, d));
    } else {
        assert(days_before_year(y + 1) == days_before_year(y) + year_length(y));
        assert(civil_from_days_steps(days) == (y + 1, mp - 9, d));
    }
}

// ---------------------------------------------------------------------------
// Each day number belongs to exactly one date
// ---------------------------------------------------------------------------

proof fn lemma_days_before_year_step(y: int)
    ensures
        days_before_year(y + 1) == days_before_year(y) + year_length(y),
{
}

proof fn lemma_days_before_year_monotone(a: int, b: int)
    requires
        a <= b,
    ensures
        days_before_year(a) <= days_before_year(b),
    decreases b - a,
{
    if a < b {
        lemma_days_before_year_monotone(a, b - 1);
        lemma_days_before_year_step(b - 1);
    }
}

proof fn lemma_days_before_month_monotone(y: int, a: int, b: int)
    requires
        1 <= a <= b,
    ensures
        days_before_month(y, a) <= days_before_month(y, b),
    decreases b - a,
{
    if a < b {
        lemma_days_before_month_monotone(y, a, b - 1);
    }
}

/// The day of the year of a valid date lies within that year.
proof fn lemma_day_of_year_bounds(y: int, m: int, d: int)
    requires
        is_valid_date(y, m, d),
    ensures
        0 <= days_before_month(y, m) <= days_before_month(y, m) + d - 1 < days_before_month(y, m + 1),
        days_before_month(y, m + 1) <= year_length(y),
{
    lemma_days_before_month_values(y);
    lemma_days_before_month_monotone(y, 1, m);
}

/// Two valid dates with the same day number are the same date.
pub proof fn lemma_day_number_injective(y1: int, m1: int, d1: int, y2: int, m2: int, d2: int)
    requires
        is_valid_date(y1, m1, d1),
        is_valid_date(y2, m2, d2),
        day_number(y1, m1, d1) == day_number(y2, m2, d2),
    ensures
        y1 == y2 && m1 == m2 && d1 == d2,
{
    lemma_day_of_year_bounds(y1, m1, d1);
    lemma_day_of_year_bounds(y2, m2, d2);
    if y1 < y2 {
        lemma_days_before_year_step(y1);
        lemma_days_before_year_monotone(y1 + 1, y2);
    } else if y2 < y1 {
        lemma_days_before_year_step(y2);
        lemma_days_before_year_monotone(y2 + 1, y1);
    } else if m1 < m2 {
        lemma_days_before_month_monotone(y1, m1 + 1, m2);
    } else if m2 < m1 {
        lemma_days_before_month_monotone(y1, m2 + 1, m1);
    }
}

/// Every day number has a date, and the step-by-step computation finds it.
pub(crate) proof fn lemma_civil_date_steps(days: int)
    ensures
        civil_date(days) == civil_from_days_steps(days),
        is_valid_date(civil_date(days).0, civil_date(days).1, civil_date(days).2),
        day_number(civil_date(days).0, civil_date(days).1, civil_date(days).2) == days,
{
    lemma_civil_from_days_steps(days);
    let w = civil_from_days_steps(days);
    assert(is_valid_date(w.0, w.1, w.2) && day_number(w.0, w.1, w.2) == days);
    let c = civil_date(days);
    lemma_day_number_injective(c.0, c.1, c.2, w.0, w.1, w.2);
}

/// Every day number, however far before or after 1970, names a valid calendar
/// date, and `civil_date` gives that date.
pub proof fn lemma_civil_date(days: int)
    ensures
        is_valid_date(civil_date(days).0, civil_date(days).1, civil_date(days).2),
        day_number(civil_date(days).0, civil_date(days).1, civil_date(days).2) == days,
{
    lemma_civil_date_steps(days);
}

/// Dates in calendar order: by year, then month, then day.
pub open spec fn date_before(a: (int, int, int), b: (int, int, int)) -> bool {
    a.0 < b.0 || (a.0 == b.0 && (a.1 < b.1 || (a.1 == b.1 && a.2 < b.2)))
}

/// Day numbers grow with the calendar order of valid dates.
pub proof fn lemma_day_number_order(y1: int, m1: int, d1: int, y2: int, m2: int, d2: int)
    requires
        is_valid_date(y1, m1, d1),
        is_valid_date(y2, m2, d2),
        day_number(y1, m1, d1) < day_number(y2, m2, d2),
    ensures
        date_before((y1, m1, d1), (y2, m2, d2)),
{
    lemma_day_of_year_bounds(y1, m1, d1);
    lemma_day_of_year_bounds(y2, m2, d2);
    if y2 < y1 {
        lemma_days_before_year_step(y2);
        lemma_days_before_year_monotone(y2 + 1, y1);
    } else if y1 == y2 && m2 < m1 {
        lemma_days_before_month_monotone(y1, m2 + 1, m1);
    }
}

/// The years 0000 through 9999 run from day number -719528 to 2932896.
pub proof fn lemma_four_digit_years(days: int)
    requires
        -719528 <= days < 2932897,
    ensures
        0 <= civil_date(days).0 <= 9999,
{
    lemma_civil_date(days);
    let c = civil_date(days);
    lemma_days_before_year_closed(0);
    lemma_days_before_year_closed(10000);
    lemma_div_exact(-1, 4, -1);
    lemma_div_exact(-1, 100, -1);
    lemma_div_exact(-1, 400, -1);
    lemma_div_exact(9999, 4, 2499);
    lemma_div_exact(9999, 100, 99);
    lemma_div_exact(9999, 400, 24);
    assert(days_before_year(0) == -719528);
    assert(days_before_year(10000) == 2932897);
    lemma_day_of_year_bounds(c.0, c.1, c.2);
    if c.0 < 0 {
        lemma_days_before_year_step(c.0);
        lemma_days_before_year_monotone(c.0 + 1, 0);
    }
    if c.0 > 9999 {
        lemma_days_before_year_monotone(10000, c.0);
    }
}

} // verus!
