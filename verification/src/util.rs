//! Matrix-size normalization and UTC timestamps.

use vstd::prelude::*;
use vstd::arithmetic::div_mod::{lemma_fundamental_div_mod, lemma_mod_bound};

use crate::calendar::{civil_date, civil_from_days_steps, lemma_civil_date_steps};
use crate::calendar::{day_of_era, day_of_march_year, era_of, march_month, march_month_start, year_of_era};
use crate::text::{digit_char, padded_signed_decimal, push_padded_digits, push_padded_signed_decimal, radix_digits, zero_pad};
use crate::text::{lemma_four_digits, lemma_text_less_concat, lemma_text_less_irreflexive, lemma_two_digits, text_less};
use crate::calendar::{date_before, day_number, is_valid_date, lemma_civil_date, lemma_day_number_order, lemma_four_digit_years};
use crate::TILE_SIZE;

verus! {

/// Largest matrix size that normalization can represent: the largest
/// multiple of `TILE_SIZE` that fits in a `u32`.
pub const MAX_NORMALIZABLE_N: u32 = 4294967280;

/// The smallest positive multiple of `TILE_SIZE` that is at least `n`.
pub open spec fn tile_ceiling(n: int) -> int {
    if n <= 0 {
        TILE_SIZE as int
    } else {
        ((n + TILE_SIZE - 1) / TILE_SIZE as int) * TILE_SIZE
    }
}

/// `tile_ceiling(n)` is the least positive multiple of the tile size that is
/// not below `n`, and a size that is already such a multiple is left unchanged,
/// so normalizing twice is the same as normalizing once.
pub proof fn lemma_tile_ceiling(n: int)
    ensures
        tile_ceiling(n) > 0,
        tile_ceiling(n) % TILE_SIZE as int == 0,
        tile_ceiling(n) >= n,
        forall|m: int| #![trigger m % TILE_SIZE as int]
            m > 0 && m % TILE_SIZE as int == 0 && m >= n ==> tile_ceiling(n) <= m,
        (n > 0 && n % TILE_SIZE as int == 0) ==> tile_ceiling(n) == n,
        tile_ceiling(tile_ceiling(n)) == tile_ceiling(n),
{
    let c = tile_ceiling(n);
    if n > 0 {
        lemma_fundamental_div_mod(n + 15, 16);
        lemma_mod_bound(n + 15, 16);
    }
    assert(c % 16 == 0 && c > 0 && c >= n && c < n + 16 || n <= 0 && c == 16) by {
        if n > 0 {
            let q = (n + 15) / 16;
            assert(c == q * 16);
            assert((q * 16) % 16 == 0) by {
                vstd::arithmetic::div_mod::lemma_mod_multiples_basic(q, 16);
            }
        }
    }
    assert forall|m: int| #![trigger m % TILE_SIZE as int]
        m > 0 && m % TILE_SIZE as int == 0 && m >= n implies c <= m by {
        lemma_fundamental_div_mod(m, 16);
        if n > 0 {
            let q = (n + 15) / 16;
            assert(m / 16 >= q);
        }
    }
    if n > 0 && n % 16 == 0 {
        lemma_fundamental_div_mod(n, 16);
        assert((n + 15) / 16 == n / 16) by {
            vstd::arithmetic::div_mod::lemma_fundamental_div_mod_converse(n + 15, 16, n / 16, 15);
        }
    }
    let cc = tile_ceiling(c);
    lemma_fundamental_div_mod(c, 16);
    assert((c + 15) / 16 == c / 16) by {
        vstd::arithmetic::div_mod::lemma_fundamental_div_mod_converse(c + 15, 16, c / 16, 15);
    }
}

/// Normalizes a matrix size to a positive multiple of the tile size: zero
/// becomes one tile, and any other size is rounded up to the next multiple.
pub fn normalize_n(n: u32) -> (r: u32)
    requires
        n <= MAX_NORMALIZABLE_N,
    ensures
        r == tile_ceiling(n as int),
{
    if n == 0 {
        return TILE_SIZE;
    }
    if n % TILE_SIZE == 0 {
        proof {
            lemma_fundamental_div_mod(n as int, 16);
            vstd::arithmetic::div_mod::lemma_fundamental_div_mod_converse(
                n + 15,
                16,
                (n / 16) as int,
                15,
            );
        }
        n
    } else {
        proof {
            lemma_fundamental_div_mod(n as int, 16);
            lemma_mod_bound(n as int, 16);
            vstd::arithmetic::div_mod::lemma_fundamental_div_mod_converse(
                n + 15,
                16,
                n / 16 + 1,
                (n % 16) - 1,
            );
        }
        ((n / TILE_SIZE) + 1) * TILE_SIZE
    }
}

/// A non-negative integer below 100 as two decimal digits.
pub open spec fn two_digits(v: int) -> Seq<char> {
    zero_pad(radix_digits(v as nat, 10), 2)
}

/// The text `YYYY-MM-DDTHH:MM:SSZ` for `secs` seconds after
/// 1970-01-01T00:00:00Z (before it when negative): the calendar date of the
/// day, the year zero padded to four characters with its sign counted, then
/// hour, minute and second of that day.
pub open spec fn utc_text(secs: int) -> Seq<char> {
    let days = secs / 86400;
    let t = secs % 86400;
    let date = civil_date(days);
    padded_signed_decimal(date.0, 4) + seq!['-'] + two_digits(date.1) + seq!['-'] + two_digits(
        date.2,
    ) + seq!['T'] + two_digits(t / 3600) + seq![':'] + two_digits((t % 3600) / 60) + seq![':']
        + two_digits(t % 60) + seq!['Z']
}

/// Year, month and day of day number `days`.
fn civil_from_days(days: i64) -> (r: (i64, u64, u64))
    requires
        -200_000_000_000_000 <= days <= 200_000_000_000_000,
    ensures
        (r.0 as int, r.1 as int, r.2 as int) == civil_from_days_steps(days as int),
{
    let z = days + 719468;
    let era = match z.checked_div_euclid(146097) {
        Some(e) => e,
        None => 0,
    };
    proof {
        lemma_fundamental_div_mod(z as int, 146097);
        lemma_mod_bound(z as int, 146097);
    }
    let doe = (z - era * 146097) as u64;
    proof {
        assert(doe == day_of_era(days as int));
        crate::calendar::lemma_year_of_era(doe as int);
    }
    let yoe = (doe - doe / 1460 + doe / 36524 - doe / 146096) / 365;
    assert(yoe == year_of_era(doe as int));
    let y = yoe as i64 + era * 400;
    let doy = doe - (365 * yoe + yoe / 4 - yoe / 100);
    assert(doy == day_of_march_year(doe as int, yoe as int));
    proof {
        crate::calendar::lemma_leap_period(yoe + 1, era as int);
        crate::calendar::lemma_march_month(doy as int, crate::calendar::leap_days(yoe + 1));
    }
    let mp = (5 * doy + 2) / 153;
    assert(mp == march_month(doy as int));
    let d = doy - (153 * mp + 2) / 5 + 1;
    assert((153 * mp + 2) / 5 == march_month_start(mp as int));
    let m = if mp < 10 {
        mp + 3
    } else {
        mp - 9
    };
    let year = if m <= 2 {
        y + 1
    } else {
        y
    };
    (year, m, d)
}

/// Formats `secs` seconds since the Unix epoch as `YYYY-MM-DDTHH:MM:SSZ`.
pub fn format_utc(secs: i64) -> (r: String)
    ensures
        r@ == utc_text(secs as int),
{
    let days: i64 = match secs.checked_div_euclid(86400) {
        Some(d) => d,
        None => 0,
    };
    let rem: i64 = match secs.checked_rem_euclid(86400) {
        Some(t) => t,
        None => 0,
    };
    proof {
        lemma_fundamental_div_mod(secs as int, 86400);
        lemma_mod_bound(secs as int, 86400);
    }
    let t = rem as u64;
    let hh = t / 3600;
    let mm = (t % 3600) / 60;
    let ss = t % 60;
    let (year, month, day) = civil_from_days(days);
    proof {
        lemma_civil_date_steps(days as int);
        reveal_strlit("-");
        reveal_strlit("T");
        reveal_strlit(":");
        reveal_strlit("Z");
    }
    let mut out = String::new();
    push_padded_signed_decimal(&mut out, year, 4);
    out.append("-");
    push_padded_digits(&mut out, month, 10, 2);
    out.append("-");
    push_padded_digits(&mut out, day, 10, 2);
    out.append("T");
    push_padded_digits(&mut out, hh, 10, 2);
    out.append(":");
    push_padded_digits(&mut out, mm, 10, 2);
    out.append(":");
    push_padded_digits(&mut out, ss, 10, 2);
    out.append("Z");
    out
}

/// The system clock's time type.
#[verifier::external_type_specification]
#[verifier::external_body]
pub struct ExSystemTime(std::time::SystemTime);

/// `std::time::SystemTime::now`: the current time of the system clock. Nothing
/// is stated of it: it is the time.
#[verifier::external_body]
fn system_time_now() -> std::time::SystemTime {
    std::time::SystemTime::now()
}

/// `SystemTime::duration_since`, measured from `UNIX_EPOCH`: the time elapsed
/// since the Unix epoch, `None` where `t` lies before it. Nothing is stated of
/// which it is: that depends on the clock.
#[verifier::external_body]
fn duration_since_unix_epoch(t: &std::time::SystemTime) -> Option<std::time::Duration> {
    t.duration_since(std::time::UNIX_EPOCH).ok()
}

/// `Duration::as_secs`: the whole seconds of a duration. A `Duration` is opaque
/// here, so nothing is stated of the number.
#[verifier::external_body]
fn duration_whole_seconds(d: &std::time::Duration) -> u64 {
    d.as_secs()
}

/// Whole seconds since the Unix epoch by the system clock; `None` when the
/// clock stands before the epoch.
fn clock_reading() -> Option<u64> {
    let now = system_time_now();
    match duration_since_unix_epoch(&now) {
        Some(d) => Some(duration_whole_seconds(&d)),
        None => None,
    }
}

/// The seconds that a clock reading stands for: the reading taken as a signed
/// 64-bit count, or zero for a clock before the epoch.
pub open spec fn reading_seconds(reading: Option<u64>) -> int {
    match reading {
        Some(s) => (s as i64) as int,
        None => 0,
    }
}

/// The timestamp text for a clock reading of whole seconds since the Unix
/// epoch; a clock before the epoch (`None`) gives `1970-01-01T00:00:00Z`.
pub fn timestamp_from_reading(reading: Option<u64>) -> (r: String)
    ensures
        r@ == utc_text(reading_seconds(reading)),
{
    let secs: u64 = match reading {
        Some(s) => s,
        None => 0,
    };
    format_utc(secs as i64)
}

/// The current UTC time as `YYYY-MM-DDTHH:MM:SSZ`: the timestamp text of the
/// system clock's reading, exactly as `timestamp_from_reading` gives it for
/// that reading. The reading itself is the time, of which nothing can be
/// stated, so the contract names it only as some reading.
pub fn utc_now() -> (r: String)
    ensures
        exists|reading: Option<u64>| r@ == #[trigger] utc_text(reading_seconds(reading)),
{
    timestamp_from_reading(clock_reading())
}

// ---------------------------------------------------------------------------
// Timestamps of the years 0000 to 9999 sort like the times they name
// ---------------------------------------------------------------------------

/// First second of 0000-01-01 and last second of 9999-12-31.
pub open spec fn first_four_digit_second() -> int {
    -62167219200
}

pub open spec fn last_four_digit_second() -> int {
    253402300799
}

/// The timestamp text of a date in a four-digit year and a time of day.
spec fn stamp(y: int, mo: int, d: int, h: int, mi: int, sec: int) -> Seq<char> {
    zero_pad(radix_digits(y as nat, 10), 4) + seq!['-'] + two_digits(mo) + seq!['-'] + two_digits(d)
        + seq!['T'] + two_digits(h) + seq![':'] + two_digits(mi) + seq![':'] + two_digits(sec)
        + seq!['Z']
}

proof fn lemma_digit_code(d: int)
    requires
        0 <= d < 10,
    ensures
        digit_char(d) as u32 == 48 + d,
{
}

proof fn lemma_two_digits_order(v1: nat, v2: nat)
    requires
        v1 <= v2 < 100,
    ensures
        two_digits(v1 as int).len() == 2,
        v1 < v2 ==> text_less(two_digits(v1 as int), two_digits(v2 as int)),
{
    lemma_two_digits(v1);
    lemma_two_digits(v2);
    lemma_digit_code((v1 / 10) as int);
    lemma_digit_code((v2 / 10) as int);
    lemma_digit_code((v1 % 10) as int);
    lemma_digit_code((v2 % 10) as int);
    reveal_with_fuel(text_less, 3);
    let a = two_digits(v1 as int);
    let b = two_digits(v2 as int);
    assert(a.drop_first() =~= seq![digit_char((v1 % 10) as int)]);
    assert(b.drop_first() =~= seq![digit_char((v2 % 10) as int)]);
    assert(a.drop_first().drop_first() =~= Seq::<char>::empty());
    assert(b.drop_first().drop_first() =~= Seq::<char>::empty());
}

proof fn lemma_four_digits_order(v1: nat, v2: nat)
    requires
        v1 <= v2 < 10000,
    ensures
        zero_pad(radix_digits(v1, 10), 4).len() == 4,
        v1 < v2 ==> text_less(zero_pad(radix_digits(v1, 10), 4), zero_pad(radix_digits(v2, 10), 4)),
{
    lemma_four_digits_halves(v1);
    lemma_four_digits_halves(v2);
    let (h1, l1) = (v1 / 100, v1 % 100);
    let (h2, l2) = (v2 / 100, v2 % 100);
    assert(v1 == 100 * h1 + l1 && v2 == 100 * h2 + l2);
    lemma_two_digits_order(h1, h1);
    lemma_two_digits_order(h2, h2);
    lemma_two_digits_order(l1, l1);
    lemma_two_digits_order(l2, l2);
    if h1 < h2 {
        lemma_two_digits_order(h1, h2);
    } else if v1 < v2 {
        lemma_two_digits_order(l1, l2);
    }
    lemma_text_less_concat(two_digits(h1 as int), two_digits(l1 as int), two_digits(h2 as int), two_digits(l2 as int));
}

/// Four zero-padded digits are the two digits of the hundreds, then the two of the rest.
proof fn lemma_four_digits_halves(v: nat)
    requires
        v < 10000,
    ensures
        zero_pad(radix_digits(v, 10), 4) == two_digits((v / 100) as int) + two_digits((v % 100) as int),
        v / 100 < 100,
{
    lemma_four_digits(v);
    lemma_two_digits(v / 100);
    lemma_two_digits(v % 100);
    let a = v / 10;
    let b = a / 10;
    let c = b / 10;
    lemma_fundamental_div_mod(v as int, 10);
    lemma_mod_bound(v as int, 10);
    lemma_fundamental_div_mod(a as int, 10);
    lemma_mod_bound(a as int, 10);
    lemma_fundamental_div_mod(b as int, 10);
    lemma_mod_bound(b as int, 10);
    let r0 = v % 10;
    let r1 = a % 10;
    vstd::arithmetic::div_mod::lemma_fundamental_div_mod_converse(v as int, 100, b as int, (10 * r1 + r0) as int);
    vstd::arithmetic::div_mod::lemma_fundamental_div_mod_converse(v as int, 1000, c as int, (100 * (b % 10) + 10 * r1 + r0) as int);
    vstd::arithmetic::div_mod::lemma_fundamental_div_mod_converse((v % 100) as int, 10, r1 as int, r0 as int);
    assert(v / 1000 == (v / 100) / 10);
    assert((v % 100) / 10 == (v / 10) % 10);
    assert((v % 100) % 10 == v % 10);
    assert(zero_pad(radix_digits(v, 10), 4) =~= two_digits((v / 100) as int) + two_digits((v % 100) as int));
}

/// Timestamps ordered by their fields, year first.
proof fn lemma_stamp_order(a: (int, int, int, int, int, int), b: (int, int, int, int, int, int))
    requires
        0 <= a.0 <= b.0 < 10000,
        0 <= a.1 < 100 && 0 <= a.2 < 100 && 0 <= a.3 < 100 && 0 <= a.4 < 100 && 0 <= a.5 < 100,
        0 <= b.1 < 100 && 0 <= b.2 < 100 && 0 <= b.3 < 100 && 0 <= b.4 < 100 && 0 <= b.5 < 100,
        a.0 < b.0 || (a.0 == b.0 && (a.1 < b.1 || (a.1 == b.1 && (a.2 < b.2 || (a.2 == b.2 && (a.3
            < b.3 || (a.3 == b.3 && (a.4 < b.4 || (a.4 == b.4 && a.5 < b.5))))))))),
    ensures
        text_less(stamp(a.0, a.1, a.2, a.3, a.4, a.5), stamp(b.0, b.1, b.2, b.3, b.4, b.5)),
{
    lemma_four_digits_order(a.0 as nat, b.0 as nat);
    lemma_four_digits_order(b.0 as nat, b.0 as nat);
    lemma_two_digits_order(a.1 as nat, a.1 as nat);
    lemma_two_digits_order(b.1 as nat, b.1 as nat);
    lemma_two_digits_order(a.2 as nat, a.2 as nat);
    lemma_two_digits_order(b.2 as nat, b.2 as nat);
    lemma_two_digits_order(a.3 as nat, a.3 as nat);
    lemma_two_digits_order(b.3 as nat, b.3 as nat);
    lemma_two_digits_order(a.4 as nat, a.4 as nat);
    lemma_two_digits_order(b.4 as nat, b.4 as nat);
    lemma_two_digits_order(a.5 as nat, a.5 as nat);
    lemma_two_digits_order(b.5 as nat, b.5 as nat);
    if a.1 < b.1 { lemma_two_digits_order(a.1 as nat, b.1 as nat); }
    if a.2 < b.2 { lemma_two_digits_order(a.2 as nat, b.2 as nat); }
    if a.3 < b.3 { lemma_two_digits_order(a.3 as nat, b.3 as nat); }
    if a.4 < b.4 { lemma_two_digits_order(a.4 as nat, b.4 as nat); }
    if a.5 < b.5 { lemma_two_digits_order(a.5 as nat, b.5 as nat); }
    let ya = zero_pad(radix_digits(a.0 as nat, 10), 4);
    let yb = zero_pad(radix_digits(b.0 as nat, 10), 4);
    let p1a = ya + seq!['-'];
    let p1b = yb + seq!['-'];
    lemma_text_less_concat(ya, seq!['-'], yb, seq!['-']);
    let p2a = p1a + two_digits(a.1);
    let p2b = p1b + two_digits(b.1);
    lemma_text_less_concat(p1a, two_digits(a.1), p1b, two_digits(b.1));
    let p3a = p2a + seq!['-'];
    let p3b = p2b + seq!['-'];
    lemma_text_less_concat(p2a, seq!['-'], p2b, seq!['-']);
    let p4a = p3a + two_digits(a.2);
    let p4b = p3b + two_digits(b.2);
    lemma_text_less_concat(p3a, two_digits(a.2), p3b, two_digits(b.2));
    let p5a = p4a + seq!['T'];
    let p5b = p4b + seq!['T'];
    lemma_text_less_concat(p4a, seq!['T'], p4b, seq!['T']);
    let p6a = p5a + two_digits(a.3);
    let p6b = p5b + two_digits(b.3);
    lemma_text_less_concat(p5a, two_digits(a.3), p5b, two_digits(b.3));
    let p7a = p6a + seq![':'];
    let p7b = p6b + seq![':'];
    lemma_text_less_concat(p6a, seq![':'], p6b, seq![':']);
    let p8a = p7a + two_digits(a.4);
    let p8b = p7b + two_digits(b.4);
    lemma_text_less_concat(p7a, two_digits(a.4), p7b, two_digits(b.4));
    let p9a = p8a + seq![':'];
    let p9b = p8b + seq![':'];
    lemma_text_less_concat(p8a, seq![':'], p8b, seq![':']);
    let p10a = p9a + two_digits(a.5);
    let p10b = p9b + two_digits(b.5);
    lemma_text_less_concat(p9a, two_digits(a.5), p9b, two_digits(b.5));
    lemma_text_less_concat(p10a, seq!['Z'], p10b, seq!['Z']);
    lemma_text_less_irreflexive(seq!['-']);
    lemma_text_less_irreflexive(seq!['T']);
    lemma_text_less_irreflexive(seq![':']);
    lemma_text_less_irreflexive(seq!['Z']);
}

/// The fields of the timestamp of `secs`, for a second of a four-digit year.
proof fn lemma_stamp_fields(secs: int)
    requires
        first_four_digit_second() <= secs <= last_four_digit_second(),
    ensures
        ({
            let days = secs / 86400;
            let t = secs % 86400;
            let date = civil_date(days);
            &&& 0 <= date.0 <= 9999
            &&& is_valid_date(date.0, date.1, date.2)
            &&& day_number(date.0, date.1, date.2) == days
            &&& 0 <= t < 86400
            &&& secs == days * 86400 + t
            &&& utc_text(secs) == stamp(date.0, date.1, date.2, t / 3600, (t % 3600) / 60, t % 60)
        }),
{
    let days = secs / 86400;
    let t = secs % 86400;
    lemma_fundamental_div_mod(secs, 86400);
    lemma_mod_bound(secs, 86400);
    assert(-719528 <= days < 2932897);
    lemma_four_digit_years(days);
    lemma_civil_date(days);
}

/// Hours, minutes and seconds of a time of day, in order.
proof fn lemma_time_of_day(t1: int, t2: int)
    requires
        0 <= t1 <= t2 < 86400,
    ensures
        0 <= t1 / 3600 < 24 && 0 <= (t1 % 3600) / 60 < 60 && 0 <= t1 % 60 < 60,
        0 <= t2 / 3600 < 24 && 0 <= (t2 % 3600) / 60 < 60 && 0 <= t2 % 60 < 60,
        t1 < t2 ==> (t1 / 3600 < t2 / 3600 || (t1 / 3600 == t2 / 3600 && ((t1 % 3600) / 60 < (t2
            % 3600) / 60 || ((t1 % 3600) / 60 == (t2 % 3600) / 60 && t1 % 60 < t2 % 60)))),
{
    lemma_fundamental_div_mod(t1, 3600);
    lemma_mod_bound(t1, 3600);
    lemma_fundamental_div_mod(t2, 3600);
    lemma_mod_bound(t2, 3600);
    lemma_fundamental_div_mod(t1 % 3600, 60);
    lemma_mod_bound(t1 % 3600, 60);
    lemma_fundamental_div_mod(t2 % 3600, 60);
    lemma_mod_bound(t2 % 3600, 60);
    vstd::arithmetic::div_mod::lemma_mod_mod(t1, 3600, 60);
    vstd::arithmetic::div_mod::lemma_mod_mod(t2, 3600, 60);
    assert(3600int == 60 * 60);
}

/// Between 0000-01-01T00:00:00Z and 9999-12-31T23:59:59Z the timestamp texts
/// sort as the seconds they stand for: a later second has a text that comes
/// after, so no two seconds share a text.
pub proof fn lemma_utc_text_order(s1: int, s2: int)
    requires
        first_four_digit_second() <= s1 < s2 <= last_four_digit_second(),
    ensures
        text_less(utc_text(s1), utc_text(s2)),
        utc_text(s1) != utc_text(s2),
{
    lemma_stamp_fields(s1);
    lemma_stamp_fields(s2);
    let d1 = s1 / 86400;
    let d2 = s2 / 86400;
    let t1 = s1 % 86400;
    let t2 = s2 % 86400;
    let c1 = civil_date(d1);
    let c2 = civil_date(d2);
    assert(d1 < d2 || (d1 == d2 && t1 < t2));
    if d1 < d2 {
        lemma_day_number_order(c1.0, c1.1, c1.2, c2.0, c2.1, c2.2);
        lemma_time_of_day(t1, t1);
        lemma_time_of_day(t2, t2);
    } else {
        lemma_time_of_day(t1, t2);
    }
    lemma_stamp_order(
        (c1.0, c1.1, c1.2, t1 / 3600, (t1 % 3600) / 60, t1 % 60),
        (c2.0, c2.1, c2.2, t2 / 3600, (t2 % 3600) / 60, t2 % 60),
    );
    lemma_text_less_irreflexive(utc_text(s1));
}

} // verus!
