//! Dates of the proleptic Gregorian calendar: which year, month, and day
//! a day count from 1970-01-01 names, and how the civil date of a Unix time
//! is found.

use vstd::prelude::*;

verus! {

/// Whether `y` is a leap year of the proleptic Gregorian calendar.
pub open spec fn is_leap_year(y: int) -> bool {
    y % 4 == 0 && (y % 100 != 0 || y % 400 == 0)
}

/// The number of days of month `m` (1 to 12) of year `y`.
pub open spec fn days_in_month(y: int, m: int) -> int {
    if m == 2 {
        if is_leap_year(y) { 29 } else { 28 }
    } else if m == 4 || m == 6 || m == 9 || m == 11 {
        30
    } else {
        31
    }
}

/// Whether year `y`, month `m`, and day `d` name a day of the calendar.
pub open spec fn is_valid_date(y: int, m: int, d: int) -> bool {
    1 <= m <= 12 && 1 <= d <= days_in_month(y, m)
}

/// The days of the months of year `y` before month `m`.
pub open spec fn days_before_month(y: int, m: int) -> int
    decreases m,
{
    if m <= 1 {
        0
    } else {
        days_before_month(y, m - 1) + days_in_month(y, m - 1)
    }
}

/// The number of leap years from year 0 up to, not including, year `y`:
/// the multiples of 4, less those of 100, plus those of 400 (counted
/// negatively for years before 0).
pub open spec fn leap_years_before(y: int) -> int {
    (y + 3) / 4 - (y + 99) / 100 + (y + 399) / 400
}

/// The days from 0000-01-01 to the first day of year `y`.
pub open spec fn days_before_year(y: int) -> int {
    365 * y + leap_years_before(y)
}

/// The number of the day `y`-`m`-`d` counted from 1970-01-01, which is
/// day 0.
pub open spec fn day_number(y: int, m: int, d: int) -> int {
    days_before_year(y) + days_before_month(y, m) + d - 1 - days_before_year(1970)
}

/// The date that day number `days` names: the valid date whose day number
/// it is (one exists, and only one, by `lemma_every_day_has_one_date`).
pub open spec fn calendar_date(days: int) -> (int, int, int) {
    choose|y: int, m: int, d: int| is_valid_date(y, m, d) && #[trigger] day_number(y, m, d) == days
}

/// Every day number names exactly one valid date, `calendar_date(days)`.
pub proof fn lemma_every_day_has_one_date(days: int)
    ensures
        is_valid_date(calendar_date(days).0, calendar_date(days).1, calendar_date(days).2),
        day_number(calendar_date(days).0, calendar_date(days).1, calendar_date(days).2) == days,
        forall|y: int, m: int, d: int|
            is_valid_date(y, m, d) && #[trigger] day_number(y, m, d) == days ==> calendar_date(days) == (y, m, d),
{
    let secs = days * 86400;
    assert(secs / 86400 == days);
    lemma_civil_fields_are_the_calendar_date(secs);
    let (y0, m0, d0, h0, mi0) = civil_fields(secs);
    assert(is_valid_date(y0, m0, d0) && day_number(y0, m0, d0) == days);
    let (y1, m1, d1) = calendar_date(days);
    assert forall|y: int, m: int, d: int|
        is_valid_date(y, m, d) && #[trigger] day_number(y, m, d) == days implies calendar_date(days) == (y, m, d) by {
        lemma_dates_are_unique(y, m, d, y1, m1, d1);
    }
}

/// Two valid dates with the same day number are the same date.
pub proof fn lemma_dates_are_unique(y1: int, m1: int, d1: int, y2: int, m2: int, d2: int)
    requires
        is_valid_date(y1, m1, d1),
        is_valid_date(y2, m2, d2),
        day_number(y1, m1, d1) == day_number(y2, m2, d2),
    ensures
        y1 == y2,
        m1 == m2,
        d1 == d2,
{
    lemma_day_in_year(y1, m1, d1);
    lemma_day_in_year(y2, m2, d2);
    if y1 < y2 {
        lemma_days_before_year_grows(y1 + 1, y2);
    } else if y2 < y1 {
        lemma_days_before_year_grows(y2 + 1, y1);
    }
    assert(y1 == y2);
    lemma_month_starts(y1);
}

/// From one year to the next the count of leap years grows by one exactly
/// when the earlier year is a leap year.
proof fn lemma_leap_years_step(y: int)
    ensures
        leap_years_before(y + 1) == leap_years_before(y) + if is_leap_year(y) { 1int } else { 0 },
{
    let a = (y + 4) / 4 - (y + 3) / 4;
    let b = (y + 100) / 100 - (y + 99) / 100;
    let c = (y + 400) / 400 - (y + 399) / 400;
    assert(a == if y % 4 == 0 { 1int } else { 0 }) by {
        assert(y == 4 * (y / 4) + y % 4);
    }
    assert(b == if y % 100 == 0 { 1int } else { 0 }) by {
        assert(y == 100 * (y / 100) + y % 100);
    }
    assert(c == if y % 400 == 0 { 1int } else { 0 }) by {
        assert(y == 400 * (y / 400) + y % 400);
    }
    assert(y % 100 == 0 ==> y % 4 == 0);
    assert(y % 400 == 0 ==> y % 100 == 0);
}

/// Each year has at least 365 days.
proof fn lemma_days_before_year_grows(a: int, b: int)
    requires
        a <= b,
    ensures
        days_before_year(a) + 365 * (b - a) <= days_before_year(b),
    decreases b - a,
{
    if a < b {
        lemma_days_before_year_grows(a, b - 1);
        lemma_leap_years_step(b - 1);
    }
}

/// The months of a year in order, and the length of the year.
proof fn lemma_month_starts(y: int)
    ensures
        days_before_month(y, 1) == 0,
        days_before_month(y, 2) == 31,
        days_before_month(y, 3) == 59 + if is_leap_year(y) { 1int } else { 0 },
        days_before_month(y, 4) == 90 + if is_leap_year(y) { 1int } else { 0 },
        days_before_month(y, 5) == 120 + if is_leap_year(y) { 1int } else { 0 },
        days_before_month(y, 6) == 151 + if is_leap_year(y) { 1int } else { 0 },
        days_before_month(y, 7) == 181 + if is_leap_year(y) { 1int } else { 0 },
        days_before_month(y, 8) == 212 + if is_leap_year(y) { 1int } else { 0 },
        days_before_month(y, 9) == 243 + if is_leap_year(y) { 1int } else { 0 },
        days_before_month(y, 10) == 273 + if is_leap_year(y) { 1int } else { 0 },
        days_before_month(y, 11) == 304 + if is_leap_year(y) { 1int } else { 0 },
        days_before_month(y, 12) == 334 + if is_leap_year(y) { 1int } else { 0 },
        days_before_year(y + 1) == days_before_year(y) + 365 + if is_leap_year(y) { 1int } else { 0 },
{
    reveal_with_fuel(days_before_month, 12);
    lemma_leap_years_step(y);
}

/// A valid date falls within its year.
proof fn lemma_day_in_year(y: int, m: int, d: int)
    requires
        is_valid_date(y, m, d),
    ensures
        days_before_year(y) <= day_number(y, m, d) + days_before_year(1970) < days_before_year(y + 1),
{
    lemma_month_starts(y);
}

/// Year, month, day, hour, and minute of Unix second `secs` in UTC, found
/// the way `civil_date` finds them: the day is counted from 0000-03-01 in
/// 400-year eras of 146097 days, with each year starting in March (the
/// days-to-civil algorithm of Howard Hinnant). That this is the calendar
/// date of the day is `lemma_civil_fields_are_the_calendar_date`.
pub open spec fn civil_fields(secs: int) -> (int, int, int, int, int) {
    let days = secs / 86400;
    let rem = secs % 86400;
    let hour = rem / 3600;
    let minute = (rem % 3600) / 60;
    let z = days + 719468;
    let era = z / 146097;
    let doe = z % 146097;
    let yoe = (doe - doe / 1460 + doe / 36524 - doe / 146096) / 365;
    let year = yoe + era * 400;
    let doy = doe - (365 * yoe + yoe / 4 - yoe / 100);
    let mp = (5 * doy + 2) / 153;
    let day = doy - (153 * mp + 2) / 5 + 1;
    let month = if mp < 10 { mp + 3 } else { mp - 9 };
    let year = if month <= 2 { year + 1 } else { year };
    (year, month, day, hour, minute)
}

/// The civil date of a time is a day of the proleptic Gregorian calendar,
/// and its day number is the count of whole days of `secs` since
/// 1970-01-01 (floor division before 1970); the hour and minute are those
/// of the remaining seconds of that day.
pub proof fn lemma_civil_fields_are_the_calendar_date(secs: int)
    ensures
        is_valid_date(civil_fields(secs).0, civil_fields(secs).1, civil_fields(secs).2),
        day_number(civil_fields(secs).0, civil_fields(secs).1, civil_fields(secs).2) == secs / 86400,
        civil_fields(secs).3 == (secs % 86400) / 3600,
        civil_fields(secs).4 == (secs % 3600) / 60,
{
    lemma_civil_fields_valid(secs);
    lemma_civil_fields_count_the_days(secs);
    lemma_minutes_of_the_day(secs);
}

/// The civil date of a time is a valid date.
#[verifier::rlimit(30)]
proof fn lemma_civil_fields_valid(secs: int)
    ensures
        is_valid_date(civil_fields(secs).0, civil_fields(secs).1, civil_fields(secs).2),
{
    lemma_civil_fields_in_range(secs);
    let (y, m, d, h, mi) = civil_fields(secs);
    let days = secs / 86400;
    let z = days + 719468;
    let era = z / 146097;
    let doe = z % 146097;
    lemma_leap_day(doe);
    let yoe = (doe - doe / 1460 + doe / 36524 - doe / 146096) / 365;
    let doy = doe - (365 * yoe + yoe / 4 - yoe / 100);
    let mp = (5 * doy + 2) / 153;
    assert(0 <= doy <= 365);
    assert(153 * mp <= 5 * doy + 2 < 153 * mp + 153);
    if mp == 11 && d == 29 {
        assert(doy == 365);
        assert(y == 400 * era + yoe + 1);
        assert(yoe == 4 * (yoe / 4) + 3);
        assert(y == 4 * (100 * era + yoe / 4 + 1));
        if yoe == 399 {
            assert(y == 400 * (era + 1));
        } else {
            assert(y == 100 * (4 * era + yoe / 100) + yoe % 100 + 1);
            assert(y % 100 == yoe % 100 + 1);
        }
        assert(is_leap_year(y));
    }
}

/// The day number of the civil date of a time is its day.
proof fn lemma_civil_fields_count_the_days(secs: int)
    ensures
        day_number(civil_fields(secs).0, civil_fields(secs).1, civil_fields(secs).2) == secs / 86400,
{
    let f = civil_fields(secs);
    lemma_civil_date_names_the_day(secs);
    lemma_civil_fields_in_range(secs);
    lemma_day_number_is_days_from_civil(f.0, f.1, f.2);
}

/// The minutes of the hour of a time are those of its day.
proof fn lemma_minutes_of_the_day(secs: int)
    ensures
        (secs % 86400) % 3600 == secs % 3600,
{
    assert(secs == 86400 * (secs / 86400) + secs % 86400);
    assert(86400 * (secs / 86400) == 3600 * (24 * (secs / 86400)));
}

/// The fields of a civil date are in range: month 1 to 12, day 1 to 31,
/// hour 0 to 23, minute 0 to 59.
proof fn lemma_civil_fields_in_range(secs: int)
    ensures
        1 <= civil_fields(secs).1 <= 12,
        1 <= civil_fields(secs).2 <= 31,
        0 <= civil_fields(secs).3 < 24,
        0 <= civil_fields(secs).4 < 60,
{
    let rem = secs % 86400;
    assert(0 <= rem < 86400);
    let z = secs / 86400 + 719468;
    let doe = z % 146097;
    assert(0 <= doe < 146097);
    let yoe = (doe - doe / 1460 + doe / 36524 - doe / 146096) / 365;
    assert(0 <= yoe < 400);
    let doy = doe - (365 * yoe + yoe / 4 - yoe / 100);
    assert(0 <= doy < 366);
    let mp = (5 * doy + 2) / 153;
    assert(0 <= mp < 12);
    assert(153 * mp <= 5 * doy + 2 < 153 * mp + 153);
    let day = doy - (153 * mp + 2) / 5 + 1;
    assert(1 <= day <= 31);
}

/// The day number of a date counted the way `civil_fields` counts: from
/// 0000-03-01 in 400-year eras of 146097 days, with each year starting in
/// March.
spec fn days_from_civil(year: int, month: int, day: int) -> int {
    let y = if month <= 2 { year - 1 } else { year };
    let era = y / 400;
    let yoe = y - era * 400;
    let mp = if month > 2 { month - 3 } else { month + 9 };
    let doy = (153 * mp + 2) / 5 + day - 1;
    let doe = yoe * 365 + yoe / 4 - yoe / 100 + doy;
    era * 146097 + doe - 719468
}

/// Counting the eras, years, and months of the civil date of a time back
/// to days gives the day of the time.
proof fn lemma_civil_date_names_the_day(secs: int)
    ensures
        days_from_civil(civil_fields(secs).0, civil_fields(secs).1, civil_fields(secs).2) == secs / 86400,
{
    lemma_civil_fields_in_range(secs);
    let days = secs / 86400;
    let z = days + 719468;
    let era = z / 146097;
    let doe = z % 146097;
    assert(z == era * 146097 + doe);
    let yoe = (doe - doe / 1460 + doe / 36524 - doe / 146096) / 365;
    assert(0 <= yoe < 400);
    let doy = doe - (365 * yoe + yoe / 4 - yoe / 100);
    let mp = (5 * doy + 2) / 153;
    assert(0 <= doy < 366);
    assert(0 <= mp < 12);
    let month = if mp < 10 { mp + 3 } else { mp - 9 };
    let y0 = yoe + era * 400;
    assert((y0) / 400 == era);
    assert(y0 - era * 400 == yoe);
}

/// On every month, the day number of the calendar and the era count of
/// `days_from_civil` agree.
proof fn lemma_day_number_is_days_from_civil(y: int, m: int, d: int)
    requires
        1 <= m <= 12,
    ensures
        day_number(y, m, d) == days_from_civil(y, m, d),
{
    reveal_with_fuel(days_before_month, 12);
    assert(days_before_year(1970) == 719528);
    let yp = if m <= 2 { y - 1 } else { y };
    let era = yp / 400;
    let yoe = yp - era * 400;
    assert(0 <= yoe < 400);
    assert(yp / 4 == 100 * era + yoe / 4);
    assert(yp / 100 == 4 * era + yoe / 100);
    assert(yp / 400 == era);
    assert(era * 146097 + yoe * 365 + yoe / 4 - yoe / 100 == 365 * yp + yp / 4 - yp / 100 + yp / 400);
    if m <= 2 {
        assert((y + 3) / 4 == yp / 4 + 1);
        assert((y + 99) / 100 == yp / 100 + 1);
        assert((y + 399) / 400 == yp / 400 + 1);
    } else {
        assert((y + 3) / 4 == y / 4 + if y % 4 != 0 { 1int } else { 0 });
        assert((y + 99) / 100 == y / 100 + if y % 100 != 0 { 1int } else { 0 });
        assert((y + 399) / 400 == y / 400 + if y % 400 != 0 { 1int } else { 0 });
    }
}

/// Within a 400-year era counted from March, day 365 of a year (its 366th
/// day) comes only in a year followed by a leap year.
proof fn lemma_leap_day(doe: int)
    requires
        0 <= doe < 146097,
    ensures
        ({
            let yoe = (doe - doe / 1460 + doe / 36524 - doe / 146096) / 365;
            let doy = doe - (365 * yoe + yoe / 4 - yoe / 100);
            doy == 365 ==> yoe % 4 == 3 && (yoe % 100 != 99 || yoe == 399)
        }),
{
    let c = if doe / 36524 < 3 { doe / 36524 } else { 3 };
    let r1 = doe - 36524 * c;
    let q = r1 / 1461;
    let r2 = r1 % 1461;
    let t = if r2 / 365 < 3 { r2 / 365 } else { 3 };
    let u = r2 - 365 * t;
    assert(r1 == 1461 * q + r2);
    lemma_yoe_case(doe, c, q, t, u);
    let yoe = 100 * c + 4 * q + t;
    assert(yoe / 4 == 25 * c + q);
    assert(yoe / 100 == c);
    assert(doe - (365 * yoe + yoe / 4 - yoe / 100) == u);
    if u == 365 {
        assert(t == 3);
        assert(yoe % 4 == 3);
        assert(yoe % 100 == 4 * q + 3);
        if q == 24 {
            assert(c == 3);
        }
    }
}

/// With the day `doe` of a March-based 400-year era split into centuries
/// `c`, four-year cycles `q`, years `t`, and days `u`, the year of the era
/// found from `doe` is `100 * c + 4 * q + t`.
proof fn lemma_yoe_case(doe: int, c: int, q: int, t: int, u: int)
    requires
        0 <= c <= 3,
        0 <= q <= 24,
        0 <= t <= 3,
        0 <= u,
        u <= 364 || (t == 3 && u == 365),
        1461 * q + 365 * t + u <= 36524,
        c < 3 ==> 1461 * q + 365 * t + u <= 36523,
        doe == 36524 * c + 1461 * q + 365 * t + u,
    ensures
        (doe - doe / 1460 + doe / 36524 - doe / 146096) / 365 == 100 * c + 4 * q + t,
{
    if doe == 146096 {
    } else {
        assert(doe / 146096 == 0);
        assert(doe / 36524 == c);
        let s = 365 * t + u;
        assert(doe == 1460 * (25 * c + q) + (24 * c + q + s));
        let e = (24 * c + q + s) / 1460;
        assert(0 <= e <= 1);
        assert(doe / 1460 == 25 * c + q + e);
        assert(u == 0 ==> e == 0);
        assert(u == 365 ==> e == 1);
        assert(doe - doe / 1460 + doe / 36524 - doe / 146096 == 365 * (100 * c + 4 * q + t) + u - e);
    }
}

} // verus!
