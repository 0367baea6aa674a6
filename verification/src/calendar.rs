//! The proleptic Gregorian calendar, in UTC days since 1970-01-01.

use vstd::arithmetic::div_mod::*;
use vstd::prelude::*;

verus! {

/// Whether a year has a 29th of February.
pub open spec fn is_leap(y: int) -> bool {
    y % 4 == 0 && (y % 100 != 0 || y % 400 == 0)
}

/// The number of days of a month.
pub open spec fn days_in_month(y: int, m: int) -> int {
    if m == 2 {
        if is_leap(y) {
            29
        } else {
            28
        }
    } else if m == 4 || m == 6 || m == 9 || m == 11 {
        30
    } else {
        31
    }
}

/// The number of days of a year before the first of a month.
pub open spec fn days_before_month(y: int, m: int) -> int
    decreases m,
{
    if m <= 1 {
        0
    } else {
        days_before_month(y, m - 1) + days_in_month(y, m - 1)
    }
}

/// The number of leap years from year 1 up to, not including, `y` (counted
/// backwards, and so below zero, for years before that).
pub open spec fn leaps_before(y: int) -> int {
    (y - 1) / 4 - (y - 1) / 100 + (y - 1) / 400
}

/// The day on which a year begins.
pub open spec fn year_start(y: int) -> int {
    365 * (y - 1970) + leaps_before(y) - leaps_before(1970)
}

/// Whether a day of that name exists.
pub open spec fn is_date(y: int, m: int, d: int) -> bool {
    1 <= m <= 12 && 1 <= d <= days_in_month(y, m)
}

/// The number of days from 1970-01-01 to a date.
pub open spec fn epoch_day(y: int, m: int, d: int) -> int {
    year_start(y) + days_before_month(y, m) + d - 1
}

/// The date of a day.
pub open spec fn date_of(day: int) -> (int, int, int) {
    choose|y: int, m: int, d: int| #[trigger] is_date(y, m, d) && epoch_day(y, m, d) == day
}

/// Day zero is the first of January 1970, and each year begins where the one
/// before it ends.
pub proof fn law_years_follow_each_other(y: int)
    ensures
        year_start(1970) == 0,
        year_start(y + 1) == year_start(y) + days_before_month(y, 13),
{
    lemma_months(y);
    lemma_months(1970);
}

/// The months of a year, written out.
proof fn lemma_months(y: int)
    ensures
        days_before_month(y, 1) == 0,
        days_before_month(y, 2) == 31,
        ({
            let f = days_in_month(y, 2);
            &&& days_before_month(y, 3) == 31 + f
            &&& days_before_month(y, 4) == 62 + f
            &&& days_before_month(y, 5) == 92 + f
            &&& days_before_month(y, 6) == 123 + f
            &&& days_before_month(y, 7) == 153 + f
            &&& days_before_month(y, 8) == 184 + f
            &&& days_before_month(y, 9) == 215 + f
            &&& days_before_month(y, 10) == 245 + f
            &&& days_before_month(y, 11) == 276 + f
            &&& days_before_month(y, 12) == 306 + f
            &&& days_before_month(y, 13) == 337 + f
        }),
{
    reveal_with_fuel(days_before_month, 14);
}

/// A date lies within its year.
proof fn lemma_day_of_year(y: int, m: int, d: int)
    requires
        is_date(y, m, d),
    ensures
        0 <= days_before_month(y, m) + d - 1 < days_before_month(y, 13),
{
    lemma_months(y);
}

proof fn lemma_years_grow(y1: int, y2: int)
    requires
        y1 < y2,
    ensures
        year_start(y1) + days_before_month(y1, 13) <= year_start(y2),
    decreases y2 - y1,
{
    law_years_follow_each_other(y1);
    if y1 + 1 < y2 {
        lemma_years_grow(y1 + 1, y2);
        lemma_months(y1 + 1);
    }
}

proof fn lemma_months_grow(y: int, m1: int, m2: int)
    requires
        1 <= m1 < m2,
    ensures
        days_before_month(y, m1) + days_in_month(y, m1) <= days_before_month(y, m2),
    decreases m2 - m1,
{
    if m1 + 1 < m2 {
        lemma_months_grow(y, m1, m2 - 1);
    }
}

/// No two dates name the same day.
pub proof fn law_dates_are_distinct(y1: int, m1: int, d1: int, y2: int, m2: int, d2: int)
    requires
        is_date(y1, m1, d1),
        is_date(y2, m2, d2),
        epoch_day(y1, m1, d1) == epoch_day(y2, m2, d2),
    ensures
        y1 == y2 && m1 == m2 && d1 == d2,
{
    lemma_day_of_year(y1, m1, d1);
    lemma_day_of_year(y2, m2, d2);
    if y1 < y2 {
        lemma_years_grow(y1, y2);
    } else if y2 < y1 {
        lemma_years_grow(y2, y1);
    } else if m1 < m2 {
        lemma_months_grow(y1, m1, m2);
    } else if m2 < m1 {
        lemma_months_grow(y1, m2, m1);
    }
}

/// A day that lies between the beginnings of two years has a date in one of the
/// years from the first up to, not including, the second.
pub proof fn lemma_year_between(y: int, m: int, d: int, low: int, high: int)
    requires
        is_date(y, m, d),
        year_start(low) <= epoch_day(y, m, d) < year_start(high),
    ensures
        low <= y < high,
{
    lemma_day_of_year(y, m, d);
    law_years_follow_each_other(y);
    if y < low {
        lemma_years_grow(y, low);
    }
    if y > high {
        lemma_years_grow(high, y);
        lemma_months(high);
    }
}

/// An earlier day has an earlier date: an earlier year, or in the same year an
/// earlier month, or in the same month an earlier day.
pub proof fn lemma_dates_are_ordered(y1: int, m1: int, d1: int, y2: int, m2: int, d2: int)
    requires
        is_date(y1, m1, d1),
        is_date(y2, m2, d2),
        epoch_day(y1, m1, d1) < epoch_day(y2, m2, d2),
    ensures
        y1 < y2 || (y1 == y2 && (m1 < m2 || (m1 == m2 && d1 < d2))),
{
    lemma_day_of_year(y1, m1, d1);
    lemma_day_of_year(y2, m2, d2);
    if y2 < y1 {
        lemma_years_grow(y2, y1);
    } else if y1 == y2 && m2 < m1 {
        lemma_months_grow(y1, m2, m1);
    }
}

/// The date of the day of a date is that date.
pub proof fn lemma_date_of(y: int, m: int, d: int)
    requires
        is_date(y, m, d),
    ensures
        date_of(epoch_day(y, m, d)) == (y, m, d),
{
    let (y2, m2, d2) = date_of(epoch_day(y, m, d));
    law_dates_are_distinct(y, m, d, y2, m2, d2);
}

/// The year of a four-century cycle that starts on the first of March, found
/// from the day of the cycle.
#[verifier::rlimit(40)]
proof fn lemma_year_of_cycle(doe: int, yoe: int)
    requires
        0 <= doe <= 146096,
        yoe == (doe - doe / 1460 + doe / 36524 - doe / 146096) / 365,
    ensures
        0 <= yoe <= 399,
        0 <= doe - (365 * yoe + yoe / 4 - yoe / 100) <= 365,
        doe - (365 * yoe + yoe / 4 - yoe / 100) == 365 ==> (yoe + 1) % 4 == 0 && ((yoe + 1) % 100
            != 0 || yoe == 399),
{
}

/// The day on which the first of March of a year falls.
spec fn march_start(y: int) -> int {
    365 * y + y / 4 - y / 100 + y / 400 - 719468
}

/// Each leap year adds one to the count of leap years.
proof fn lemma_leaps(y: int)
    ensures
        leaps_before(y + 1) == y / 4 - y / 100 + y / 400,
        leaps_before(y + 1) == leaps_before(y) + if is_leap(y) {
            1int
        } else {
            0
        },
{
    lemma_quotient_before(y, 4);
    lemma_quotient_before(y, 100);
    lemma_quotient_before(y, 400);
    assert(y % 400 == 0 ==> y % 100 == 0) by {
        lemma_mod_multiples_vanish(4 * (y / 400), y % 400, 100);
    }
    assert(y % 100 == 0 ==> y % 4 == 0) by {
        lemma_mod_multiples_vanish(25 * (y / 100), y % 100, 4);
    }
}

/// The quotient grows by one at each multiple of the divisor.
proof fn lemma_quotient_before(y: int, k: int)
    requires
        k > 1,
    ensures
        (y - 1) / k == if y % k == 0 {
            y / k - 1
        } else {
            y / k
        },
{
    lemma_fundamental_div_mod(y, k);
    if y % k == 0 {
        assert(y - 1 == (y / k - 1) * k + (k - 1)) by (nonlinear_arith)
            requires
                y == k * (y / k),
        ;
        lemma_fundamental_div_mod_converse(y - 1, k, y / k - 1, k - 1);
    } else {
        assert(y - 1 == (y / k) * k + (y % k - 1)) by (nonlinear_arith)
            requires
                y == k * (y / k) + (y % k),
        ;
        lemma_fundamental_div_mod_converse(y - 1, k, y / k, y % k - 1);
    }
}

proof fn lemma_march_start(y: int)
    ensures
        epoch_day(y, 3, 1) == march_start(y),
        march_start(y) + 306 == year_start(y + 1),
        march_start(y) + 337 + days_in_month(y + 1, 2) == march_start(y + 1),
{
    lemma_months(y);
    lemma_months(y + 1);
    lemma_leaps(y);
    lemma_leaps(y + 1);
    assert(leaps_before(1970) == 477);
}

/// A year counted within its four-century cycle.
#[verifier::rlimit(40)]
proof fn lemma_cycle(era: int, yoe: int)
    requires
        0 <= yoe <= 399,
    ensures
        march_start(400 * era + yoe) == 146097 * era + 365 * yoe + yoe / 4 - yoe / 100 - 719468,
{
    let y = 400 * era + yoe;
    assert(y / 4 == 100 * era + yoe / 4);
    assert(y / 100 == 4 * era + yoe / 100);
    assert(y / 400 == era);
}

proof fn lemma_cycle_leap(era: int, yoe: int)
    requires
        0 <= yoe <= 399,
    ensures
        is_leap(400 * era + yoe + 1) <==> (yoe + 1) % 4 == 0 && ((yoe + 1) % 100 != 0 || yoe
            == 399),
{
    let n = 400 * era + yoe + 1;
    assert(n % 4 == (yoe + 1) % 4) by {
        lemma_mod_multiples_vanish(100 * era, yoe + 1, 4);
    }
    assert(n % 100 == (yoe + 1) % 100) by {
        lemma_mod_multiples_vanish(4 * era, yoe + 1, 100);
    }
    assert(n % 400 == (yoe + 1) % 400) by {
        lemma_mod_multiples_vanish(era, yoe + 1, 400);
    }
    assert((yoe + 1) % 400 == 0 <==> yoe == 399);
    assert(yoe == 399 ==> (yoe + 1) % 4 == 0);
}

/// The month and the day of the month, found from the day of a year that
/// starts on the first of March.
#[verifier::rlimit(40)]
proof fn lemma_month_of_year(y: int, doy: int, mp: int, d: int)
    requires
        0 <= doy <= 365,
        doy == 365 ==> is_leap(y + 1),
        mp == (5 * doy + 2) / 153,
        d == doy - (153 * mp + 2) / 5 + 1,
    ensures
        0 <= mp <= 11,
        1 <= d <= 31,
        mp < 10 ==> is_date(y, mp + 3, d) && epoch_day(y, mp + 3, d) == march_start(y) + doy,
        mp >= 10 ==> is_date(y + 1, mp - 9, d) && epoch_day(y + 1, mp - 9, d) == march_start(y)
            + doy,
{
    lemma_months(y);
    lemma_months(y + 1);
    lemma_march_start(y);
    assert(0 <= mp <= 11);
    if mp == 0 {
    } else if mp == 1 {
    } else if mp == 2 {
    } else if mp == 3 {
    } else if mp == 4 {
    } else if mp == 5 {
    } else if mp == 6 {
    } else if mp == 7 {
    } else if mp == 8 {
    } else if mp == 9 {
    } else if mp == 10 {
    } else {
        assert(mp == 11);
    }
}

proof fn lemma_march_grows(y1: int, y2: int)
    requires
        y1 <= y2,
    ensures
        march_start(y1) + 365 * (y2 - y1) <= march_start(y2),
    decreases y2 - y1,
{
    if y1 < y2 {
        lemma_march_grows(y1, y2 - 1);
        lemma_march_start(y2 - 1);
    }
}

/// Every day has a date, and only one.
#[verifier::rlimit(40)]
pub proof fn law_every_day_has_one_date(day: int)
    ensures
        ({
            let (y, m, d) = date_of(day);
            is_date(y, m, d) && epoch_day(y, m, d) == day
        }),
        forall|y: int, m: int, d: int| #[trigger]
            is_date(y, m, d) && epoch_day(y, m, d) == day ==> date_of(day) == (y, m, d),
{
    let z = day + 719468;
    let era = z / 146097;
    let doe = z % 146097;
    let yoe = (doe - doe / 1460 + doe / 36524 - doe / 146096) / 365;
    let y = 400 * era + yoe;
    lemma_year_of_cycle(doe, yoe);
    lemma_cycle(era, yoe);
    lemma_cycle_leap(era, yoe);
    let doy = doe - (365 * yoe + yoe / 4 - yoe / 100);
    let mp = (5 * doy + 2) / 153;
    let d = doy - (153 * mp + 2) / 5 + 1;
    lemma_month_of_year(y, doy, mp, d);
    assert(z == 146097 * era + doe);
    if mp < 10 {
        assert(is_date(y, mp + 3, d) && epoch_day(y, mp + 3, d) == day);
    } else {
        assert(is_date(y + 1, mp - 9, d) && epoch_day(y + 1, mp - 9, d) == day);
    }
    assert forall|y: int, m: int, d: int| #[trigger]
        is_date(y, m, d) && epoch_day(y, m, d) == day implies date_of(day) == (y, m, d) by {
        lemma_date_of(y, m, d);
    }
}

/// A million days on either side of 1970 lie within the years of an `i32`.
pub proof fn lemma_million_days()
    ensures
        epoch_day(i32::MIN as int, 3, 1) <= -1_000_000,
        1_000_000 <= epoch_day(i32::MAX as int, 12, 31),
{
    lemma_march_start(i32::MIN as int);
    lemma_march_start(i32::MAX as int);
    lemma_months(i32::MAX as int);
}

/// The date of a day. The year fits into an `i32` from the first of March of
/// the lowest such year on.
#[verifier::rlimit(40)]
pub fn days_to_date(days: i64) -> (r: (i32, u32, u32))
    requires
        epoch_day(i32::MIN as int, 3, 1) <= days <= epoch_day(i32::MAX as int, 12, 31),
    ensures
        is_date(r.0 as int, r.1 as int, r.2 as int),
        epoch_day(r.0 as int, r.1 as int, r.2 as int) == days,
        date_of(days as int) == (r.0 as int, r.1 as int, r.2 as int),
{
    proof {
        lemma_march_start(i32::MIN as int);
        lemma_march_start(i32::MAX as int);
        lemma_months(i32::MAX as int);
    }
    let z: i64 = days + 719468;
    let low: i64 = if z >= 0 {
        z
    } else {
        z - 146096
    };
    let era: i64 = low / 146097;
    let doe: u32 = (z - era * 146097) as u32;
    let yoe: u32 = (doe - doe / 1460 + doe / 36524 - doe / 146096) / 365;
    let ghost cycle_year = 400 * era + yoe;
    proof {
        lemma_year_of_cycle(doe as int, yoe as int);
        lemma_cycle(era as int, yoe as int);
        lemma_cycle_leap(era as int, yoe as int);
        if cycle_year < i32::MIN {
            lemma_march_grows(cycle_year + 1, i32::MIN as int);
            lemma_march_start(cycle_year);
        }
        if cycle_year > i32::MAX {
            lemma_march_grows(i32::MAX + 1, cycle_year);
        }
    }
    let y: i32 = (yoe as i64 + era * 400) as i32;
    let doy: u32 = doe - (365 * yoe + yoe / 4 - yoe / 100);
    let mp: u32 = (5 * doy + 2) / 153;
    let d: u32 = doy - (153 * mp + 2) / 5 + 1;
    proof {
        lemma_month_of_year(y as int, doy as int, mp as int, d as int);
    }
    let m: u32 = if mp < 10 {
        mp + 3
    } else {
        mp - 9
    };
    let year: i32 = if m <= 2 {
        y + 1
    } else {
        y
    };
    proof {
        lemma_date_of(year as int, m as int, d as int);
    }
    (year, m, d)
}

} // verus!
