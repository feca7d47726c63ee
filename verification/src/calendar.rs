//! Proleptic Gregorian calendar arithmetic: day numbers since 1970-01-01 to
//! civil dates, and the timestamp strings built from them.

use vstd::prelude::*;

use crate::text::{fmt_padded, push_char, push_int_padded, push_u64_padded};

verus! {

pub open spec fn is_leap_year(y: int) -> bool {
    (y % 4 == 0 && y % 100 != 0) || y % 400 == 0
}

pub open spec fn days_in_month(y: int, m: int) -> int {
    if m == 2 {
        if is_leap_year(y) {
            29
        } else {
            28
        }
    } else if m == 4 || m == 6 || m == 9 || m == 11 {
        30
    } else {
        31
    }
}

pub open spec fn valid_date(y: int, m: int, d: int) -> bool {
    1 <= m <= 12 && 1 <= d <= days_in_month(y, m)
}

/// Number of leap years among the years before `y` (Gregorian rule).
pub open spec fn leaps_before(y: int) -> int {
    (y - 1) / 4 - (y - 1) / 100 + (y - 1) / 400
}

/// Days of the year that precede the first day of month `m`.
pub open spec fn days_before_month(y: int, m: int) -> int {
    let common: int = if m == 1 {
        0
    } else if m == 2 {
        31
    } else if m == 3 {
        59
    } else if m == 4 {
        90
    } else if m == 5 {
        120
    } else if m == 6 {
        151
    } else if m == 7 {
        181
    } else if m == 8 {
        212
    } else if m == 9 {
        243
    } else if m == 10 {
        273
    } else if m == 11 {
        304
    } else {
        334
    };
    let extra: int = if m > 2 && is_leap_year(y) {
        1
    } else {
        0
    };
    common + extra
}

/// The day number of a civil date, counted from 1970-01-01 (day 0).
pub open spec fn days_from_civil(y: int, m: int, d: int) -> int {
    365 * (y - 1970) + (leaps_before(y) - leaps_before(1970)) + days_before_month(y, m) + d - 1
}

/// First day (counted from March 1st of year 0 of the 400-year cycle) of the
/// `k`-th March-based year of a cycle.
spec fn year_start(k: int) -> int {
    365 * k + k / 4 - k / 100
}

spec fn year_of_era(doe: int) -> int {
    (doe - doe / 1460 + doe / 36524 - doe / 146096) / 365
}

proof fn lemma_year_of_era(doe: int)
    requires
        0 <= doe <= 146096,
    ensures
        0 <= year_of_era(doe) <= 399,
        year_start(year_of_era(doe)) <= doe,
        doe - year_start(year_of_era(doe)) <= 365,
        doe - year_start(year_of_era(doe)) == 365 ==> ((year_of_era(doe) + 1) % 4 == 0 && ((
        year_of_era(doe) + 1) % 100 != 0 || year_of_era(doe) == 399)),
{
}

/// Day of the March-based month table: the first day of month index `mp`
/// (0 = March, ..., 11 = February).
spec fn month_start(mp: int) -> int {
    (153 * mp + 2) / 5
}

proof fn lemma_month_of_year(doy: int)
    requires
        0 <= doy <= 365,
    ensures
        ({
            let mp = (5 * doy + 2) / 153;
            let d = doy - month_start(mp) + 1;
            let m = if mp < 10 { mp + 3 } else { mp - 9 };
            &&& 0 <= mp <= 11
            &&& 1 <= d
            &&& d <= days_in_month(1, m) || (m == 2 && d == 29 && doy == 365)
        }),
{
}

proof fn lemma_era_days(e: int, k: int)
    requires
        0 <= k < 400,
    ensures
        365 * (400 * e + k) + (400 * e + k) / 4 - (400 * e + k) / 100 + (400 * e + k) / 400
            == 146097 * e + year_start(k),
{
    assert((400 * e + k) / 4 == 100 * e + k / 4);
    assert((400 * e + k) / 100 == 4 * e + k / 100);
    assert((400 * e + k) / 400 == e + k / 400);
}

spec fn civil_of(z: int) -> (int, int, int) {
    let zz = z + 719468;
    let era = zz / 146097;
    let doe = zz % 146097;
    let yoe = year_of_era(doe);
    let doy = doe - year_start(yoe);
    let mp = (5 * doy + 2) / 153;
    let d = doy - month_start(mp) + 1;
    let m = if mp < 10 {
        mp + 3
    } else {
        mp - 9
    };
    let y = 400 * era + yoe + if m <= 2 {
        1int
    } else {
        0int
    };
    (y, m, d)
}

proof fn lemma_from_civil_late(yy: int, m: int, d: int)
    requires
        3 <= m <= 12,
    ensures
        days_from_civil(yy, m, d) + 719468 == 365 * yy + yy / 4 - yy / 100 + yy / 400
            + month_start(m - 3) + d - 1,
{
    assert(leaps_before(1970) == 477);
    assert(leaps_before(yy) + (if is_leap_year(yy) {
        1int
    } else {
        0
    }) == yy / 4 - yy / 100 + yy / 400);
}

proof fn lemma_from_civil_early(yy: int, m: int, d: int)
    requires
        1 <= m <= 2,
    ensures
        days_from_civil(yy + 1, m, d) + 719468 == 365 * yy + yy / 4 - yy / 100 + yy / 400
            + month_start(m + 9) + d - 1,
{
    assert(leaps_before(1970) == 477);
    assert(leaps_before(yy + 1) == yy / 4 - yy / 100 + yy / 400);
}

proof fn lemma_leap_in_era(era: int, yoe: int)
    requires
        0 <= yoe <= 399,
    ensures
        is_leap_year(400 * era + yoe + 1) == ((yoe + 1) % 4 == 0 && ((yoe + 1) % 100 != 0 || yoe
            == 399)),
{
    vstd::arithmetic::div_mod::lemma_mod_multiples_vanish(100 * era, yoe + 1, 4);
    vstd::arithmetic::div_mod::lemma_mod_multiples_vanish(4 * era, yoe + 1, 100);
    vstd::arithmetic::div_mod::lemma_mod_multiples_vanish(era, yoe + 1, 400);
    assert(4 * (100 * era) == 400 * era);
    assert(100 * (4 * era) == 400 * era);
}

proof fn lemma_civil_of(z: int)
    ensures
        valid_date(civil_of(z).0, civil_of(z).1, civil_of(z).2),
        days_from_civil(civil_of(z).0, civil_of(z).1, civil_of(z).2) == z,
{
    let zz = z + 719468;
    let era = zz / 146097;
    let doe = zz % 146097;
    lemma_year_of_era(doe);
    let yoe = year_of_era(doe);
    let doy = doe - year_start(yoe);
    lemma_month_of_year(doy);
    let yy = 400 * era + yoe;
    lemma_era_days(era, yoe);
    lemma_leap_in_era(era, yoe);
    let (y, m, d) = civil_of(z);
    if m <= 2 {
        lemma_from_civil_early(yy, m, d);
    } else {
        lemma_from_civil_late(yy, m, d);
    }
}

/// Converts a day number (days since 1970-01-01) to its civil date
/// `(year, month, day)` in the proleptic Gregorian calendar.
pub fn days_to_ymd(days: i64) -> (r: (i64, u32, u32))
    requires
        days <= i64::MAX - 719468,
    ensures
        valid_date(r.0 as int, r.1 as int, r.2 as int),
        days_from_civil(r.0 as int, r.1 as int, r.2 as int) == days as int,
        (r.0 as int, r.1 as int, r.2 as int) == date_of_day(days as int),
{
    proof {
        lemma_date_of_day(days as int);
    }
    let z = days + 719468;
    let era = if z >= 0 {
        z
    } else {
        z - 146096
    } / 146097;
    assert(era as int == (z as int) / 146097);
    let doe = (z - era * 146097) as u64;
    assert(doe as int == (z as int) % 146097);
    proof {
        lemma_year_of_era(doe as int);
        lemma_civil_of(days as int);
    }
    let yoe = (doe - doe / 1460 + doe / 36524 - doe / 146096) / 365;
    assert(yoe as int == year_of_era(doe as int));
    let y = yoe as i64 + era * 400;
    let doy = doe - (365 * yoe + yoe / 4 - yoe / 100);
    proof {
        lemma_month_of_year(doy as int);
    }
    let mp = (5 * doy + 2) / 153;
    let d = (doy - (153 * mp + 2) / 5 + 1) as u32;
    let m = (if mp < 10 {
        mp + 3
    } else {
        mp - 9
    }) as u32;
    let y = if m <= 2 {
        y + 1
    } else {
        y
    };
    assert((y as int, m as int, d as int) == civil_of(days as int));
    (y, m, d)
}

/// The same conversion with every component widened to `i64`.
pub fn civil_from_days(days: i64) -> (r: (i64, i64, i64))
    requires
        days <= i64::MAX - 719468,
    ensures
        valid_date(r.0 as int, r.1 as int, r.2 as int),
        days_from_civil(r.0 as int, r.1 as int, r.2 as int) == days as int,
{
    let (y, m, d) = days_to_ymd(days);
    (y, m as i64, d as i64)
}

/// The civil date `(year, month, day)` whose day number is `z`.
pub open spec fn date_of_day(z: int) -> (int, int, int) {
    choose|ymd: (int, int, int)|
        valid_date(ymd.0, ymd.1, ymd.2) && days_from_civil(ymd.0, ymd.1, ymd.2) == z
}

proof fn lemma_date_of_day(z: int)
    ensures
        date_of_day(z) == civil_of(z),
        valid_date(date_of_day(z).0, date_of_day(z).1, date_of_day(z).2),
        days_from_civil(date_of_day(z).0, date_of_day(z).1, date_of_day(z).2) == z,
{
    lemma_civil_of(z);
    let w = civil_of(z);
    assert(valid_date(w.0, w.1, w.2) && days_from_civil(w.0, w.1, w.2) == z);
    let c = date_of_day(z);
    lemma_days_from_civil_injective(c.0, c.1, c.2, w.0, w.1, w.2);
}

/// Every valid civil date is recovered from its own day number: converting a
/// date to days and back is the identity.
pub proof fn law_civil_roundtrip(y: int, m: int, d: int)
    requires
        valid_date(y, m, d),
    ensures
        date_of_day(days_from_civil(y, m, d)) == (y, m, d),
{
    let z = days_from_civil(y, m, d);
    lemma_date_of_day(z);
    let c = date_of_day(z);
    lemma_days_from_civil_injective(c.0, c.1, c.2, y, m, d);
}

/// Integer division truncating toward zero, as Rust's `/` on signed integers.
pub open spec fn tdiv(a: int, b: int) -> int {
    if a >= 0 {
        a / b
    } else {
        -((-a) / b)
    }
}

/// Remainder with the sign of the dividend, as Rust's `%` on signed integers.
pub open spec fn tmod(a: int, b: int) -> int {
    a - b * tdiv(a, b)
}

/// `YYYY-MM-DD HH:MM:SS` with the year padded to four digits and the rest to two.
pub open spec fn datetime_text(y: int, mo: int, d: int, h: int, mi: int, s: int) -> Seq<char> {
    fmt_padded(y, 4) + seq!['-'] + fmt_padded(mo, 2) + seq!['-'] + fmt_padded(d, 2) + seq![' ']
        + fmt_padded(h, 2) + seq![':'] + fmt_padded(mi, 2) + seq![':'] + fmt_padded(s, 2)
}

/// The text of a second count `secs` (seconds since 1970-01-01 00:00 of the
/// clock being shown), splitting days, hours, minutes and seconds with Rust's
/// truncating `/` and `%`.
pub open spec fn clock_text(secs: int) -> Seq<char> {
    let ymd = date_of_day(tdiv(secs, 86400));
    datetime_text(
        ymd.0,
        ymd.1,
        ymd.2,
        tdiv(tmod(secs, 86400), 3600),
        tdiv(tmod(secs, 3600), 60),
        tmod(secs, 60),
    )
}

/// Formats a second count as `YYYY-MM-DD HH:MM:SS`.
pub fn format_clock(secs: i64) -> (r: String)
    ensures
        r@ == clock_text(secs as int),
{
    let days = secs / 86400;
    let h = (secs % 86400) / 3600;
    let m = (secs % 3600) / 60;
    let s = secs % 60;
    let (y, mo, d) = days_to_ymd(days);
    let mut out = String::new();
    push_int_padded(&mut out, y, 4);
    push_char(&mut out, '-');
    push_int_padded(&mut out, mo as i64, 2);
    push_char(&mut out, '-');
    push_int_padded(&mut out, d as i64, 2);
    push_char(&mut out, ' ');
    push_int_padded(&mut out, h, 2);
    push_char(&mut out, ':');
    push_int_padded(&mut out, m, 2);
    push_char(&mut out, ':');
    push_int_padded(&mut out, s, 2);
    assert(out@ =~= clock_text(secs as int));
    out
}

/// The number of whole seconds since 1970-01-01 00:00 UTC on the system clock.
#[verifier::external_body]
pub(crate) fn unix_time_secs() -> u64 {
    std::time::SystemTime::now().duration_since(std::time::UNIX_EPOCH).map(|d| d.as_secs()).unwrap_or(0)
}

/// The current wall-clock time in UTC+8 as `YYYY-MM-DD HH:MM:SS` (the
/// system's Unix seconds, read as `i64`, plus eight hours).
pub fn chrono_now() -> (r: String)
    ensures
        exists|t: i64| r@ == #[trigger] clock_text(t.wrapping_add(28800) as int),
{
    let t = #[verifier::truncate] (unix_time_secs() as i64);
    let r = format_clock(t.wrapping_add(28800));
    assert(r@ == clock_text(t.wrapping_add(28800) as int));
    r
}



proof fn lemma_next_year(y: int)
    ensures
        days_from_civil(y + 1, 1, 1) == days_from_civil(y, 1, 1) + 365 + if is_leap_year(y) {
            1int
        } else {
            0
        },
{
}

proof fn lemma_within_year(y: int, m: int, d: int)
    requires
        valid_date(y, m, d),
    ensures
        days_from_civil(y, 1, 1) <= days_from_civil(y, m, d) < days_from_civil(y + 1, 1, 1),
{
    lemma_next_year(y);
}

proof fn lemma_months_ordered(y: int, m1: int, d1: int, m2: int, d2: int)
    requires
        valid_date(y, m1, d1),
        valid_date(y, m2, d2),
        m1 < m2,
    ensures
        days_from_civil(y, m1, d1) < days_from_civil(y, m2, d2),
{
}

proof fn lemma_years_ordered(y1: int, y2: int)
    requires
        y1 < y2,
    ensures
        days_from_civil(y1 + 1, 1, 1) <= days_from_civil(y2, 1, 1),
    decreases y2 - y1,
{
    if y1 + 1 < y2 {
        lemma_years_ordered(y1 + 1, y2);
        lemma_next_year(y1 + 1);
    }
}

/// Distinct valid dates have distinct day numbers.
pub proof fn lemma_days_from_civil_injective(y1: int, m1: int, d1: int, y2: int, m2: int, d2: int)
    requires
        valid_date(y1, m1, d1),
        valid_date(y2, m2, d2),
        days_from_civil(y1, m1, d1) == days_from_civil(y2, m2, d2),
    ensures
        y1 == y2 && m1 == m2 && d1 == d2,
{
    lemma_within_year(y1, m1, d1);
    lemma_within_year(y2, m2, d2);
    if y1 < y2 {
        lemma_years_ordered(y1, y2);
    } else if y2 < y1 {
        lemma_years_ordered(y2, y1);
    } else if m1 < m2 {
        lemma_months_ordered(y1, m1, d1, m2, d2);
    } else if m2 < m1 {
        lemma_months_ordered(y1, m2, d2, m1, d1);
    }
}

/// The calendar day after a valid date.
pub open spec fn next_date(y: int, m: int, d: int) -> (int, int, int) {
    if d < days_in_month(y, m) {
        (y, m, d + 1)
    } else if m < 12 {
        (y, m + 1, 1)
    } else {
        (y + 1, 1, 1)
    }
}

proof fn lemma_next_date_days(y: int, m: int, d: int)
    requires
        valid_date(y, m, d),
    ensures
        valid_date(next_date(y, m, d).0, next_date(y, m, d).1, next_date(y, m, d).2),
        days_from_civil(next_date(y, m, d).0, next_date(y, m, d).1, next_date(y, m, d).2) == days_from_civil(y, m, d) + 1,
{
    if d == days_in_month(y, m) && m == 12 {
        lemma_next_year(y);
    }
}

/// The date of the day after day `z` is the calendar day after the date of
/// day `z`.
pub proof fn law_civil_successor(z: int)
    ensures
        date_of_day(z + 1) == next_date(date_of_day(z).0, date_of_day(z).1, date_of_day(z).2),
{
    lemma_date_of_day(z);
    let c = date_of_day(z);
    lemma_next_date_days(c.0, c.1, c.2);
    let n = next_date(c.0, c.1, c.2);
    law_civil_roundtrip(n.0, n.1, n.2);
}

} // verus!
