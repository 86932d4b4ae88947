//! The proleptic Gregorian calendar counted in days from 1970-01-01.
use vstd::prelude::*;

verus! {

/// Whether `y` is a leap year.
pub open spec fn is_leap(y: nat) -> bool {
    (y % 4 == 0 && y % 100 != 0) || y % 400 == 0
}

/// The number of days of year `y`.
pub open spec fn year_len(y: nat) -> nat {
    if is_leap(y) {
        366
    } else {
        365
    }
}

/// The number of days of month `m` (1 to 12) of year `y`.
pub open spec fn month_len(y: nat, m: nat) -> nat {
    if m == 2 {
        if is_leap(y) {
            29
        } else {
            28
        }
    } else if m == 4 || m == 6 || m == 9 || m == 11 {
        30
    } else {
        31
    }
}

/// The number of days of year `y` from the first day of month `m` to its end.
pub open spec fn rest_of_year(y: nat, m: nat) -> nat
    decreases 13 - m,
{
    if 1 <= m <= 12 {
        month_len(y, m) + rest_of_year(y, m + 1)
    } else {
        0
    }
}

/// The month and day of the month of the day `doy` days after the first day of month
/// `m` of year `y`.
pub open spec fn month_day(y: nat, m: nat, doy: nat) -> (nat, nat)
    decreases 12 - m,
{
    if m < 12 && doy >= month_len(y, m) {
        month_day(y, m + 1, (doy - month_len(y, m)) as nat)
    } else {
        (m, doy + 1)
    }
}

/// The date `days` days after the first day of year `y`, as (year, month, day).
pub open spec fn date_from(y: nat, days: nat) -> (nat, nat, nat)
    decreases days,
{
    if days >= year_len(y) {
        date_from(y + 1, (days - year_len(y)) as nat)
    } else {
        let (m, d) = month_day(y, 1, days);
        (y, m, d)
    }
}

/// The civil date of day `days` after 1970-01-01, as (year, month, day of the month).
pub open spec fn civil_from_days(days: nat) -> (nat, nat, nat) {
    date_from(1970, days)
}

/// The weekday of day `days` after 1970-01-01 (a Thursday), counted from Monday as 0.
pub open spec fn weekday_from_monday(days: int) -> int {
    (days + 3) % 7
}

/// The weekday of day `days` after 1970-01-01, counted from Sunday as 0.
pub open spec fn weekday_from_sunday(days: int) -> int {
    (days + 4) % 7
}

/// Counting weekdays from Sunday moves each day one place up from its number counted
/// from Monday, and Sunday, the last day counted from Monday, to 0.
pub proof fn lemma_weekday_numbering(days: int)
    ensures
        weekday_from_sunday(days) == (weekday_from_monday(days) + 1) % 7,
{
}

proof fn lemma_rest_of_year(y: nat)
    ensures
        rest_of_year(y, 1) == year_len(y),
        rest_of_year(y, 12) == 31,
{
    reveal_with_fuel(rest_of_year, 13);
}

/// The year that day `days` after the first day of year `y` falls in, and the day of
/// that year it is (0 for its first day).
pub open spec fn year_doy(y: nat, days: nat) -> (nat, nat)
    decreases days,
{
    if days >= year_len(y) {
        year_doy(y + 1, (days - year_len(y)) as nat)
    } else {
        (y, days)
    }
}

proof fn lemma_date_from_year_doy(y: nat, days: nat)
    ensures
        ({
            let (yy, r) = year_doy(y, days);
            &&& date_from(y, days) == (yy, month_day(yy, 1, r).0, month_day(yy, 1, r).1)
            &&& r <= days
            &&& r < year_len(yy)
        }),
    decreases days,
{
    if days >= year_len(y) {
        lemma_date_from_year_doy(y + 1, (days - year_len(y)) as nat);
    }
}

proof fn lemma_year_doy_shift(y: nat, days: nat, delta: int)
    requires
        0 <= year_doy(y, days).1 + delta < year_len(year_doy(y, days).0),
    ensures
        days + delta >= 0,
        year_doy(y, (days + delta) as nat) == (year_doy(y, days).0, (year_doy(y, days).1 + delta) as nat),
    decreases days,
{
    lemma_date_from_year_doy(y, days);
    if days >= year_len(y) {
        let rest = (days - year_len(y)) as nat;
        lemma_date_from_year_doy(y + 1, rest);
        lemma_year_doy_shift(y + 1, rest, delta);
        assert((days + delta) as nat >= year_len(y));
        assert(((days + delta) as nat - year_len(y)) as nat == (rest + delta) as nat);
    }
}

proof fn lemma_month_day_shift(y: nat, m0: nat, x: nat, d: nat)
    requires
        1 <= m0 <= 12,
        1 <= d <= month_len(y, month_day(y, m0, x).0),
    ensures
        month_day(y, m0, x).1 <= x + 1,
        month_day(y, m0, (x + 1 - month_day(y, m0, x).1 + d - 1) as nat) == (month_day(y, m0, x).0, d),
        x + 1 - month_day(y, m0, x).1 + d - 1 < rest_of_year(y, m0),
    decreases 12 - m0,
{
    let ml = month_len(y, m0);
    if m0 < 12 && x >= ml {
        lemma_month_day_shift(y, m0 + 1, (x - ml) as nat, d);
        let dd = month_day(y, m0, x).1;
        let x2 = (x + 1 - dd + d - 1) as nat;
        assert(x2 >= ml);
        assert((x2 - ml) as nat == ((x - ml) as nat + 1 - dd + d - 1) as nat);
    } else {
        assert(rest_of_year(y, m0) == ml + rest_of_year(y, m0 + 1));
    }
}

proof fn lemma_month_day_bounds(y: nat, m0: nat, x: nat)
    requires
        1 <= m0 <= 12,
        x < rest_of_year(y, m0),
    ensures
        m0 <= month_day(y, m0, x).0 <= 12,
        1 <= month_day(y, m0, x).1 <= month_len(y, month_day(y, m0, x).0),
    decreases 12 - m0,
{
    assert(rest_of_year(y, m0) == month_len(y, m0) + rest_of_year(y, m0 + 1));
    if m0 < 12 && x >= month_len(y, m0) {
        lemma_month_day_bounds(y, m0 + 1, (x - month_len(y, m0)) as nat);
    } else if m0 == 12 {
        assert(rest_of_year(y, 13) == 0);
    }
}

/// A civil date has a month from 1 to 12 and a day that the month has.
pub proof fn lemma_civil_bounds(days: nat)
    ensures
        1 <= civil_from_days(days).1 <= 12,
        1 <= civil_from_days(days).2 <= month_len(civil_from_days(days).0, civil_from_days(days).1),
        civil_from_days(days).2 <= 31,
{
    lemma_date_from_year_doy(1970, days);
    let (yy, r) = year_doy(1970, days);
    lemma_rest_of_year(yy);
    lemma_month_day_bounds(yy, 1, r);
}

/// Moving within a month: from any day, going forward or back to day `d` of the same
/// month (when the month has that day) lands on that day of that month of that year.
pub proof fn lemma_same_month(days: nat, d: nat)
    requires
        1 <= d <= month_len(civil_from_days(days).0, civil_from_days(days).1),
    ensures
        days + d - civil_from_days(days).2 >= 0,
        civil_from_days((days + d - civil_from_days(days).2) as nat) == (
            civil_from_days(days).0,
            civil_from_days(days).1,
            d,
        ),
{
    lemma_date_from_year_doy(1970, days);
    let (yy, r) = year_doy(1970, days);
    lemma_month_day_shift(yy, 1, r, d);
    lemma_rest_of_year(yy);
    let dd = month_day(yy, 1, r).1;
    let delta = d - dd;
    lemma_year_doy_shift(1970, days, delta);
    lemma_date_from_year_doy(1970, (days + delta) as nat);
    assert((r + 1 - dd + d - 1) as nat == (r + delta) as nat);
}

/// The number of days of month `m` of year `y`.
pub fn days_in_month(y: u64, m: u64) -> (n: u64)
    ensures
        n == month_len(y as nat, m as nat),
{
    if m == 2 {
        if (y % 4 == 0 && y % 100 != 0) || y % 400 == 0 {
            29
        } else {
            28
        }
    } else if m == 4 || m == 6 || m == 9 || m == 11 {
        30
    } else {
        31
    }
}

/// The civil date of day `days` after 1970-01-01, up to the end of year 9999.
pub fn civil_date(days: u64) -> (r: (u64, u64, u64))
    requires
        days <= 3_000_000,
    ensures
        (r.0 as nat, r.1 as nat, r.2 as nat) == civil_from_days(days as nat),
        1 <= r.1 <= 12,
        1 <= r.2 <= month_len(r.0 as nat, r.1 as nat),
        r.0 <= 1970 + days,
{
    let mut y: u64 = 1970;
    let mut rest: u64 = days;
    loop
        invariant
            1970 <= y <= 1970 + (days - rest),
            rest <= days <= 3_000_000,
            date_from(y as nat, rest as nat) == civil_from_days(days as nat),
        ensures
            1970 <= y <= 1970 + (days - rest),
            date_from(y as nat, rest as nat) == civil_from_days(days as nat),
            rest < year_len(y as nat),
        decreases rest,
    {
        let len: u64 = if (y % 4 == 0 && y % 100 != 0) || y % 400 == 0 {
            366
        } else {
            365
        };
        assert(len == year_len(y as nat));
        if rest < len {
            break ;
        }
        rest = rest - len;
        y = y + 1;
    }
    let leap: bool = (y % 4 == 0 && y % 100 != 0) || y % 400 == 0;
    assert(leap == is_leap(y as nat));
    proof {
        lemma_rest_of_year(y as nat);
    }
    let mut m: u64 = 1;
    let mut d: u64 = rest;
    assert(rest_of_year(y as nat, 12) == month_len(y as nat, 12) + rest_of_year(y as nat, 13));
    while m < 12
        invariant
            1 <= m <= 12,
            leap == is_leap(y as nat),
            d < rest_of_year(y as nat, m as nat),
            month_day(y as nat, m as nat, d as nat) == month_day(y as nat, 1, rest as nat),
            rest_of_year(y as nat, 12) == 31,
        ensures
            1 <= m <= 12,
            d < month_len(y as nat, m as nat),
            month_day(y as nat, m as nat, d as nat) == month_day(y as nat, 1, rest as nat),
        decreases 12 - m,
    {
        let len: u64 = if m == 2 {
            if leap {
                29
            } else {
                28
            }
        } else if m == 4 || m == 6 || m == 9 || m == 11 {
            30
        } else {
            31
        };
        assert(len == month_len(y as nat, m as nat));
        if d < len {
            break ;
        }
        d = d - len;
        m = m + 1;
    }
    (y, m, d + 1)
}

} // verus!
