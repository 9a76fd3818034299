//! What the calendar, the clocks and the names of markets come to, told by days, hours and texts.

use vstd::prelude::*;

use super::calendar;
use super::calendar::EasternHour;
use super::slugs;
use crate::text;

verus! {

/// Years are counted from 1970. Each has 365 days, and one more where it is divided by four,
/// but not by a hundred unless by four hundred.
pub proof fn years_follow_each_other(year: int)
    ensures
        calendar::days_before_year(1970) == 0,
        year % 4 != 0 ==> calendar::days_before_year(year + 1) == calendar::days_before_year(year)
            + 365,
        year % 4 == 0 && year % 100 != 0 ==> calendar::days_before_year(year + 1)
            == calendar::days_before_year(year) + 366,
        year % 100 == 0 && year % 400 != 0 ==> calendar::days_before_year(year + 1)
            == calendar::days_before_year(year) + 365,
        year % 400 == 0 ==> calendar::days_before_year(year + 1) == calendar::days_before_year(year)
            + 366,
        calendar::is_leap(year) <==> calendar::days_before_year(year + 1)
            == calendar::days_before_year(year) + 366,
{
}

/// Number of days of a month.
pub open spec fn month_length(year: int, month: int) -> int {
    calendar::day_number(year, month + 1, 1) - calendar::day_number(year, month, 1)
}

/// Thirty days have April, June, September and November, February has 28 or 29, and the others
/// have 31; the year starts with January and ends with December.
pub proof fn months_follow_each_other(year: int, month: int)
    requires
        1 <= month <= 12,
    ensures
        month_length(year, month) == if month == 4 || month == 6 || month == 9 || month == 11 {
            30int
        } else if month != 2 {
            31
        } else if calendar::is_leap(year) {
            29
        } else {
            28
        },
        calendar::day_number(year, 1, 1) == calendar::days_before_year(year),
        calendar::day_number(year, 13, 1) == calendar::days_before_year(year + 1),
{
    lemma_month_length(calendar::is_leap(year), month);
    years_follow_each_other(year);
}

proof fn lemma_month_length(leap: bool, month: int)
    requires
        1 <= month <= 12,
    ensures
        calendar::days_before_month(leap, month + 1) - calendar::days_before_month(leap, month)
            == if month == 4 || month == 6 || month == 9 || month == 11 {
            30int
        } else if month != 2 {
            31
        } else if leap {
            29
        } else {
            28
        },
        calendar::days_before_month(leap, 1) == 0,
        calendar::days_before_month(leap, 13) == if leap {
            366int
        } else {
            365
        },
{
}

/// A date is a day of a month: those of the month, counted from the first.
pub proof fn dates_are_days_of_months(number: int, year: int, month: int, day: int)
    requires
        1 <= month <= 12,
    ensures
        calendar::is_date(number, year, month, day) <==> 1 <= day <= month_length(year, month)
            && number == calendar::day_number(year, month, 1) + day - 1,
{
}

/// Days of the week go round by seven, and the first day of 1970 is a Thursday, the fourth after
/// a Sunday.
pub proof fn weekdays_go_round(number: int)
    ensures
        calendar::weekday(0) == 4,
        0 <= calendar::weekday(number) <= 6,
        calendar::weekday(number) < 6 ==> calendar::weekday(number + 1) == calendar::weekday(number)
            + 1,
        calendar::weekday(number) == 6 ==> calendar::weekday(number + 1) == 0,
{
}

/// Clocks are put forward on the Sunday from the 8th to the 14th of March, at two in the night,
/// and put back on that from the 1st to the 7th of November, at two by summer time.
pub proof fn clocks_change_on_sundays(year: int) -> (days: (int, int))
    ensures
        8 <= days.0 <= 14,
        calendar::weekday(calendar::day_number(year, 3, days.0)) == 0,
        calendar::summer_start(year) == calendar::day_number(year, 3, days.0) * 86_400 + (2 + 5)
            * 3600,
        1 <= days.1 <= 7,
        calendar::weekday(calendar::day_number(year, 11, days.1)) == 0,
        calendar::summer_end(year) == calendar::day_number(year, 11, days.1) * 86_400 + (2 + 4)
            * 3600,
{
    let march = calendar::day_number(year, 3, 1);
    let november = calendar::day_number(year, 11, 1);
    let a = calendar::sunday_from(march) - march;
    let b = calendar::sunday_from(november) - november;
    lemma_sunday(march);
    lemma_sunday(november);
    lemma_days_of_month(year, 3, a + 8);
    lemma_days_of_month(year, 11, b + 1);
    (a + 8, b + 1)
}

proof fn lemma_sunday(number: int)
    ensures
        ({
            let days = calendar::sunday_from(number) - number;
            &&& 0 <= days <= 6
            &&& calendar::weekday(number + days) == 0
            &&& calendar::weekday(number + days + 7) == 0
        }),
{
}

proof fn lemma_days_of_month(year: int, month: int, day: int)
    ensures
        calendar::day_number(year, month, day) == calendar::day_number(year, month, 1) + day - 1,
{
}

/// The hour that clocks on the east coast show holds the moment: it is four hours behind
/// Greenwich in summer and else five.
pub proof fn clocks_show_the_hour(t: int, e: EasternHour, year: int)
    requires
        calendar::is_eastern(t, e),
        calendar::days_before_year(year) <= t / 86_400 < calendar::days_before_year(year + 1),
    ensures
        ({
            let shown = calendar::day_number(e.year as int, e.month as int, e.day as int) * 86_400
                + e.hour * 3600;
            let summer = calendar::summer_start(year) <= t < calendar::summer_end(year);
            &&& summer ==> shown <= t - 4 * 3600 < shown + 3600
            &&& !summer ==> shown <= t - 5 * 3600 < shown + 3600
        }),
        1 <= e.month <= 12,
        1 <= e.day <= month_length(e.year as int, e.month as int),
        e.hour < 24,
{
    let y = choose|y: int| #[trigger]
        calendar::is_year(t / (calendar::DAY as int), y) && calendar::shows(
            t - calendar::behind(y, t),
            e,
        );
    calendar::year_is_unique(t / (calendar::DAY as int), y, year);
    let local = t - calendar::behind(y, t);
    assert(local == 86_400 * (local / 86_400) + local % 86_400);
    assert(0 <= local % 86_400 < 86_400);
}

/// On a clock of twelve hours the hours go from one to twelve, twice a day; midnight and noon are
/// the twelfth hour, and the day has its first half before noon.
pub proof fn clocks_have_twelve_hours(hour: int)
    requires
        0 <= hour < 24,
    ensures
        1 <= slugs::hour12(hour) <= 12,
        (slugs::hour12(hour) - hour) % 12 == 0,
        slugs::half_day(hour) == "am"@ <==> hour < 12,
        slugs::half_day(hour) == "pm"@ <==> hour >= 12,
{
    reveal_strlit("am");
    reveal_strlit("pm");
    assert("am"@[0] != "pm"@[0]);
}

/// The months by their names.
pub open spec fn month_names() -> Seq<Seq<char>> {
    seq![
        "january"@,
        "february"@,
        "march"@,
        "april"@,
        "may"@,
        "june"@,
        "july"@,
        "august"@,
        "september"@,
        "october"@,
        "november"@,
        "december"@,
    ]
}

/// The name of an hourly market tells asset, month, day and hour, parted by dashes.
pub proof fn hourly_names_tell_the_hour(e: EasternHour)
    requires
        1 <= e.month <= 12,
        e.hour < 24,
    ensures
        ({
            let time = month_names()[e.month - 1] + "-"@ + (text::spec_decimal(e.day as nat) + "-"@
                + (text::spec_decimal(slugs::hour12(e.hour as int)) + (if e.hour < 12 {
                "am"@
            } else {
                "pm"@
            } + "-et"@)));
            &&& slugs::hourly_slug("btc"@, e) == "bitcoin"@ + "-up-or-down-"@ + time
            &&& slugs::hourly_slug("eth"@, e) == "ethereum"@ + "-up-or-down-"@ + time
        }),
{
    reveal_strlit("btc");
    reveal_strlit("eth");
    assert("btc"@[0] != "eth"@[0]);
}

/// The name of a shorter market tells asset, length and start; that of an hourly one the hour on
/// the east coast.
pub proof fn names_tell_length_and_start(asset: Seq<char>, start: int)
    ensures
        slugs::slug_of(asset, "5min"@, start) == asset + "-updown-5m-"@
            + text::spec_signed_decimal(start),
        slugs::slug_of(asset, "15min"@, start) == asset + "-updown-15m-"@
            + text::spec_signed_decimal(start),
        slugs::slug_of(asset, "1hr"@, start) == slugs::hourly_slug(asset, calendar::eastern(start)),
        slugs::spec_interval_of("5min"@) == 5 * 60,
        slugs::spec_interval_of("15min"@) == 15 * 60,
        slugs::spec_interval_of("1hr"@) == 60 * 60,
{
    reveal_strlit("5min");
    reveal_strlit("15min");
    reveal_strlit("1hr");
    assert("5min"@.len() == 4 && "15min"@.len() == 5 && "1hr"@.len() == 3);
}

} // verus!
