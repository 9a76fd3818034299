//! The calendar, and the clocks of the American east coast.

use vstd::prelude::*;

verus! {

/// Seconds of a day.
pub const DAY: i64 = 86_400;

/// Seconds of an hour.
pub const HOUR: i64 = 3600;

/// Days after which the calendar repeats: 400 years, and whole weeks.
pub const ERA: i64 = 146_097;

pub open spec fn is_leap(year: int) -> bool {
    year % 4 == 0 && (year % 100 != 0 || year % 400 == 0)
}

/// Days from the first day of 1970 to the first day of a year.
pub open spec fn days_before_year(year: int) -> int {
    let last = year - 1;
    365 * (year - 1970) + (last / 4 - last / 100 + last / 400) - (1969int / 4 - 1969int / 100
        + 1969int / 400)
}

/// Days of a year before the first of a month; those of the whole year for the month after the
/// last.
pub open spec fn days_before_month(leap: bool, month: int) -> int {
    (if month <= 1 {
        0int
    } else if month == 2 {
        31
    } else if month == 3 {
        59
    } else if month == 4 {
        90
    } else if month == 5 {
        120
    } else if month == 6 {
        151
    } else if month == 7 {
        181
    } else if month == 8 {
        212
    } else if month == 9 {
        243
    } else if month == 10 {
        273
    } else if month == 11 {
        304
    } else if month == 12 {
        334
    } else {
        365
    }) + (if leap && month > 2 {
        1int
    } else {
        0
    })
}

/// Days from the first day of 1970 to a date.
pub open spec fn day_number(year: int, month: int, day: int) -> int {
    days_before_year(year) + days_before_month(is_leap(year), month) + day - 1
}

/// Whether a date is the day with this number.
pub open spec fn is_date(number: int, year: int, month: int, day: int) -> bool {
    &&& 1 <= month <= 12
    &&& 1 <= day <= days_before_month(is_leap(year), month + 1) - days_before_month(
        is_leap(year),
        month,
    )
    &&& number == day_number(year, month, day)
}

/// Day of the week: 0 is a Sunday. The first day of 1970 was a Thursday.
pub open spec fn weekday(number: int) -> int {
    (number + 4) % 7
}

/// The first Sunday on or after a day.
pub open spec fn sunday_from(number: int) -> int {
    number + (7 - weekday(number)) % 7
}

/// When clocks are put forward: at two on the second Sunday in March, which is seven in Greenwich.
pub open spec fn summer_start(year: int) -> int {
    (sunday_from(day_number(year, 3, 1)) + 7) * DAY + 7 * HOUR
}

/// When clocks are put back: at two on the first Sunday in November, which is six in Greenwich.
pub open spec fn summer_end(year: int) -> int {
    sunday_from(day_number(year, 11, 1)) * DAY + 6 * HOUR
}

/// What clocks on the east coast are behind Greenwich at the second `t` of a year, in seconds.
pub open spec fn behind(year: int, t: int) -> int {
    if summer_start(year) <= t < summer_end(year) {
        4 * HOUR
    } else {
        5 * HOUR
    }
}

/// A moment as clocks on the east coast show it, to the hour.
#[derive(Clone, Copy, Debug, PartialEq, Eq, Structural)]
pub struct EasternHour {
    pub year: i64,
    pub month: u8,
    pub day: u8,
    pub hour: u8,
}

/// Whether clocks on the east coast show this at the second `t` since 1970 in Greenwich.
pub open spec fn is_eastern(t: int, e: EasternHour) -> bool {
    exists|year: int| #[trigger]
        is_year(t / (DAY as int), year) && shows(t - behind(year, t), e)
}

/// What clocks on the east coast show at the second `t`.
pub open spec fn eastern(t: int) -> EasternHour {
    choose|e: EasternHour| is_eastern(t, e)
}

/// Whether a day lies in a year.
pub open spec fn is_year(number: int, year: int) -> bool {
    days_before_year(year) <= number < days_before_year(year + 1)
}

/// Whether a clock shows this at a second of local time.
pub open spec fn shows(local: int, e: EasternHour) -> bool {
    &&& is_date(local / (DAY as int), e.year as int, e.month as int, e.day as int)
    &&& e.hour == (local % (DAY as int)) / (HOUR as int)
}

/// A year is over when the next begins, and no year is longer than 366 days.
proof fn lemma_year(year: int)
    ensures
        days_before_year(year + 1) == days_before_year(year) + 365 + (if is_leap(year) {
            1int
        } else {
            0
        }),
{
}

/// After 400 years the calendar repeats.
proof fn lemma_era(year: int, eras: int)
    ensures
        days_before_year(year + 400 * eras) == days_before_year(year) + 146_097 * eras,
        is_leap(year + 400 * eras) == is_leap(year),
{
    let last = year - 1;
    vstd::arithmetic::div_mod::lemma_hoist_over_denominator(last, 100 * eras, 4);
    vstd::arithmetic::div_mod::lemma_hoist_over_denominator(last, 4 * eras, 100);
    vstd::arithmetic::div_mod::lemma_hoist_over_denominator(last, eras, 400);
    vstd::arithmetic::div_mod::lemma_mod_multiples_vanish(100 * eras, year, 4);
    vstd::arithmetic::div_mod::lemma_mod_multiples_vanish(4 * eras, year, 100);
    vstd::arithmetic::div_mod::lemma_mod_multiples_vanish(eras, year, 400);
}

/// Years follow each other.
proof fn lemma_years_ordered(a: int, b: int)
    requires
        a <= b,
    ensures
        days_before_year(a) <= days_before_year(b),
    decreases b - a,
{
    if a < b {
        lemma_years_ordered(a, b - 1);
        lemma_year(b - 1);
    }
}

/// A day lies in one year only.
pub proof fn year_is_unique(number: int, a: int, b: int)
    requires
        is_year(number, a),
        is_year(number, b),
    ensures
        a == b,
{
    if a < b {
        lemma_years_ordered(a + 1, b);
    }
    if b < a {
        lemma_years_ordered(b + 1, a);
    }
}

/// A day has one date only.
pub proof fn date_is_unique(
    number: int,
    year1: int,
    month1: int,
    day1: int,
    year2: int,
    month2: int,
    day2: int,
)
    requires
        is_date(number, year1, month1, day1),
        is_date(number, year2, month2, day2),
    ensures
        year1 == year2,
        month1 == month2,
        day1 == day2,
{
    lemma_year(year1);
    lemma_year(year2);
    year_is_unique(number, year1, year2);
}

/// Clocks show one thing at a time.
pub proof fn eastern_is_unique(t: int, a: EasternHour, b: EasternHour)
    requires
        is_eastern(t, a),
        is_eastern(t, b),
    ensures
        a == b,
{
    let y = choose|year: int| #[trigger]
        is_year(t / (DAY as int), year) && shows(t - behind(year, t), a);
    let z = choose|year: int| #[trigger]
        is_year(t / (DAY as int), year) && shows(t - behind(year, t), b);
    year_is_unique(t / (DAY as int), y, z);
    let number = (t - behind(y, t)) / (DAY as int);
    date_is_unique(
        number,
        a.year as int,
        a.month as int,
        a.day as int,
        b.year as int,
        b.month as int,
        b.day as int,
    );
}

/// Every day since 1969 lies in a year.
proof fn lemma_has_year(number: int) -> (year: int)
    requires
        -365 <= number,
    ensures
        is_year(number, year),
        1969 <= year <= 2334 + number,
    decreases number + 365,
{
    if number == -365 {
        1969
    } else {
        let before = lemma_has_year(number - 1);
        lemma_year(before);
        lemma_year(before + 1);
        if number < days_before_year(before + 1) {
            before
        } else {
            before + 1
        }
    }
}

/// Every day since 1969 has a date.
proof fn lemma_has_date(number: int) -> (date: (int, int, int))
    requires
        -365 <= number,
    ensures
        is_date(number, date.0, date.1, date.2),
        1969 <= date.0 <= 2334 + number,
{
    let year = lemma_has_year(number);
    lemma_year(year);
    let rest = number - days_before_year(year);
    let leap = is_leap(year);
    let month: int = if rest < days_before_month(leap, 2) {
        1
    } else if rest < days_before_month(leap, 3) {
        2
    } else if rest < days_before_month(leap, 4) {
        3
    } else if rest < days_before_month(leap, 5) {
        4
    } else if rest < days_before_month(leap, 6) {
        5
    } else if rest < days_before_month(leap, 7) {
        6
    } else if rest < days_before_month(leap, 8) {
        7
    } else if rest < days_before_month(leap, 9) {
        8
    } else if rest < days_before_month(leap, 10) {
        9
    } else if rest < days_before_month(leap, 11) {
        10
    } else if rest < days_before_month(leap, 12) {
        11
    } else {
        12
    };
    (year, month, rest - days_before_month(leap, month) + 1)
}

/// Clocks on the east coast show something at every moment since 1970.
pub proof fn clocks_show(t: int)
    requires
        -DAY <= t <= i64::MAX,
    ensures
        is_eastern(t, eastern(t)),
{
    let year = lemma_has_year(t / (DAY as int));
    let local = t - behind(year, t);
    let (y, m, d) = lemma_has_date(local / (DAY as int));
    let e = EasternHour {
        year: y as i64,
        month: m as u8,
        day: d as u8,
        hour: ((local % (DAY as int)) / (HOUR as int)) as u8,
    };
    assert(is_date(local / (DAY as int), e.year as int, e.month as int, e.day as int));
    assert(shows(local, e));
    assert(is_year(t / (DAY as int), year));
    assert(is_eastern(t, e));
}

/// What clocks show lies in the calendar and in a day.
pub proof fn lemma_shown(t: int, e: EasternHour)
    requires
        is_eastern(t, e),
    ensures
        1 <= e.month <= 12,
        1 <= e.day <= 31,
        e.hour < 24,
{
    let y = choose|year: int| #[trigger]
        is_year(t / (DAY as int), year) && shows(t - behind(year, t), e);
    let local = t - behind(y, t);
    assert(0 <= local % (DAY as int) < DAY);
}

/// The year of a day, and how many days of it have passed.
fn year_and_rest(number: i64) -> (r: (i64, i64))
    requires
        -ERA <= number <= 0x1_0000_0000_0000,
    ensures
        is_year(number as int, r.0 as int),
        r.1 == number - days_before_year(r.0 as int),
        0 <= r.1 <= 365,
        1570 <= r.0 <= 0x1000_0000_0000,
{
    let (era, day): (i64, i64) = if number < 0 {
        (-1, number + ERA)
    } else {
        (number / ERA, number % ERA)
    };
    let mut year: i64 = 1970;
    let mut rest: i64 = day;
    proof {
        lemma_era(1970, 1);
    }
    loop
        invariant
            1970 <= year < 2370,
            0 <= day < ERA,
            rest == day - days_before_year(year as int),
            rest >= 0,
            days_before_year(2370) == ERA,
        ensures
            1970 <= year < 2370,
            rest == day - days_before_year(year as int),
            0 <= rest < days_before_year(year + 1) - days_before_year(year as int),
        decreases 2370 - year,
    {
        proof {
            lemma_year(year as int);
        }
        let leap: bool = year % 4 == 0 && (year % 100 != 0 || year % 400 == 0);
        let length: i64 = if leap { 366 } else { 365 };
        if rest < length {
            break;
        }
        proof {
            if year == 2369 {
                assert(false);
            }
        }
        rest = rest - length;
        year = year + 1;
    }
    proof {
        lemma_era(year as int, era as int);
        lemma_era(year + 1, era as int);
        lemma_year(year as int);
    }
    (year + 400 * era, rest)
}

/// Days of a year before the first of a month.
fn before_month(leap: bool, month: u8) -> (r: i64)
    requires
        1 <= month <= 13,
    ensures
        r == days_before_month(leap, month as int),
{
    let plain: i64 = if month == 1 {
        0
    } else if month == 2 {
        31
    } else if month == 3 {
        59
    } else if month == 4 {
        90
    } else if month == 5 {
        120
    } else if month == 6 {
        151
    } else if month == 7 {
        181
    } else if month == 8 {
        212
    } else if month == 9 {
        243
    } else if month == 10 {
        273
    } else if month == 11 {
        304
    } else if month == 12 {
        334
    } else {
        365
    };
    if leap && month > 2 {
        plain + 1
    } else {
        plain
    }
}

/// The date of a day.
fn date_of(number: i64) -> (r: (i64, u8, u8))
    requires
        -ERA <= number <= 0x1_0000_0000_0000,
    ensures
        is_date(number as int, r.0 as int, r.1 as int, r.2 as int),
        r.2 <= 31,
{
    let (year, rest): (i64, i64) = year_and_rest(number);
    let leap: bool = year % 4 == 0 && (year % 100 != 0 || year % 400 == 0);
    proof {
        lemma_year(year as int);
    }
    let mut month: u8 = 1;
    while month < 12 && before_month(leap, month + 1) <= rest
        invariant
            1 <= month <= 12,
            days_before_month(leap, month as int) <= rest <= 365,
        ensures
            1 <= month <= 12,
            days_before_month(leap, month as int) <= rest,
            month < 12 ==> rest < days_before_month(leap, month + 1),
        decreases 12 - month,
    {
        month = month + 1;
    }
    let first: i64 = before_month(leap, month);
    (year, month, (rest - first + 1) as u8)
}

/// The first Sunday on or after the first of a month, in the year that begins with this day.
fn sunday_after(new_year: i64, leap: bool, month: u8) -> (r: i64)
    requires
        -2 * ERA <= new_year <= 0x1_0000_0000_0000,
        1 <= month <= 12,
    ensures
        r == sunday_from(new_year + days_before_month(leap, month as int)),
        new_year <= r <= new_year + 400,
{
    let number: i64 = new_year + before_month(leap, month);
    // Whole weeks keep the day of the week and make the number positive.
    let shifted: i64 = number + 7 * ERA + 4;
    let week: i64 = shifted % 7;
    proof {
        assert((number + 4 + 7 * 146_097) % 7 == (number + 4) % 7);
    }
    number + (7 - week) % 7
}

/// What clocks on the east coast show at a second since 1970 in Greenwich.
pub fn eastern_hour(t: i64) -> (r: EasternHour)
    requires
        -DAY <= t,
    ensures
        is_eastern(t as int, r),
        r == eastern(t as int),
        1 <= r.month <= 12,
        1 <= r.day <= 31,
        r.hour < 24,
{
    // In Greenwich.
    let number: i64 = if t < 0 { -1 } else { t / DAY };
    assert(number == t as int / (DAY as int));
    let (year, rest): (i64, i64) = year_and_rest(number);
    let leap: bool = year % 4 == 0 && (year % 100 != 0 || year % 400 == 0);
    let new_year: i64 = number - rest;
    let start: i128 = (sunday_after(new_year, leap, 3) as i128 + 7) * DAY as i128 + 7
        * HOUR as i128;
    let end: i128 = sunday_after(new_year, leap, 11) as i128 * DAY as i128 + 6 * HOUR as i128;
    assert(start == summer_start(year as int));
    assert(end == summer_end(year as int));
    let summer: bool = start <= t as i128 && (t as i128) < end;
    let local: i64 = if summer { t - 4 * HOUR } else { t - 5 * HOUR };
    assert(local == t - behind(year as int, t as int));
    // Seconds of local time, counted from a day that is not after it.
    let (base, within): (i64, i64) = if local < 0 {
        (-2, local + 2 * DAY)
    } else {
        (0, local)
    };
    let days: i64 = within / DAY;
    let seconds: i64 = within % DAY;
    let local_day: i64 = base + days;
    proof {
        assert(local_day == local as int / (DAY as int));
        assert(seconds == local as int % (DAY as int));
    }
    let (y, m, d): (i64, u8, u8) = date_of(local_day);
    let e: EasternHour = EasternHour { year: y, month: m, day: d, hour: (seconds / HOUR) as u8 };
    proof {
        assert(shows(t - behind(year as int, t as int), e));
        assert(is_year(t as int / (DAY as int), year as int));
        assert(is_eastern(t as int, e));
        eastern_is_unique(t as int, e, eastern(t as int));
    }
    e
}

} // verus!
