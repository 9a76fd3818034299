//! The names of markets: what the market of an asset in a timeframe is called, given when its
//! window starts.

use vstd::prelude::*;

use super::calendar;
use super::calendar::EasternHour;
use crate::text;

verus! {

/// Whether markets of an asset are known.
pub open spec fn is_known(asset: Seq<char>) -> bool {
    asset == "btc"@ || asset == "eth"@
}

/// Length of the windows of a timeframe in seconds; zero for one that is not known.
pub open spec fn spec_interval_of(timeframe: Seq<char>) -> int {
    if timeframe == "5min"@ {
        300
    } else if timeframe == "15min"@ {
        900
    } else if timeframe == "1hr"@ {
        3600
    } else {
        0
    }
}

/// Length of the windows of a timeframe in seconds; zero for one that is not known.
pub fn interval_of(timeframe: &str) -> (r: i64)
    ensures
        r == spec_interval_of(timeframe@),
{
    if text::same(timeframe, "5min") {
        300
    } else if text::same(timeframe, "15min") {
        900
    } else if text::same(timeframe, "1hr") {
        3600
    } else {
        0
    }
}

/// The English name of a month.
pub open spec fn month_name(month: int) -> Seq<char> {
    if month == 1 {
        "january"@
    } else if month == 2 {
        "february"@
    } else if month == 3 {
        "march"@
    } else if month == 4 {
        "april"@
    } else if month == 5 {
        "may"@
    } else if month == 6 {
        "june"@
    } else if month == 7 {
        "july"@
    } else if month == 8 {
        "august"@
    } else if month == 9 {
        "september"@
    } else if month == 10 {
        "october"@
    } else if month == 11 {
        "november"@
    } else {
        "december"@
    }
}

fn month_text(month: u8) -> (r: &'static str)
    ensures
        r@ == month_name(month as int),
{
    if month == 1 {
        "january"
    } else if month == 2 {
        "february"
    } else if month == 3 {
        "march"
    } else if month == 4 {
        "april"
    } else if month == 5 {
        "may"
    } else if month == 6 {
        "june"
    } else if month == 7 {
        "july"
    } else if month == 8 {
        "august"
    } else if month == 9 {
        "september"
    } else if month == 10 {
        "october"
    } else if month == 11 {
        "november"
    } else {
        "december"
    }
}

/// An hour on a dial of twelve.
pub open spec fn hour12(hour: int) -> nat {
    if hour == 0 || hour == 12 {
        12
    } else if hour < 12 {
        hour as nat
    } else {
        (hour - 12) as nat
    }
}

/// The half of the day.
pub open spec fn half_day(hour: int) -> Seq<char> {
    if hour < 12 {
        "am"@
    } else {
        "pm"@
    }
}

/// What an asset is called in the names of hourly markets.
pub open spec fn full_name(asset: Seq<char>) -> Seq<char> {
    if asset == "btc"@ {
        "bitcoin"@
    } else {
        "ethereum"@
    }
}

/// The name of an hourly market, given the hour on the east coast at which it starts.
pub open spec fn hourly_slug(asset: Seq<char>, e: EasternHour) -> Seq<char> {
    full_name(asset) + "-up-or-down-"@ + (month_name(e.month as int) + "-"@ + (text::spec_decimal(
        e.day as nat,
    ) + "-"@ + (text::spec_decimal(hour12(e.hour as int)) + (half_day(e.hour as int) + "-et"@))))
}

/// What stands between the asset and the start in the names of the shorter markets.
pub open spec fn infix_of(timeframe: Seq<char>) -> Seq<char> {
    if timeframe == "5min"@ {
        "-updown-5m-"@
    } else {
        "-updown-15m-"@
    }
}

/// The name of the market whose window starts at a second since 1970.
pub open spec fn slug_of(asset: Seq<char>, timeframe: Seq<char>, start: int) -> Seq<char> {
    if timeframe == "1hr"@ {
        hourly_slug(asset, calendar::eastern(start))
    } else {
        asset + infix_of(timeframe) + text::spec_signed_decimal(start)
    }
}

/// The name of an hourly market.
pub fn slug_at_hour(asset: &str, e: EasternHour) -> (r: String)
    requires
        e.hour < 24,
    ensures
        r@ == hourly_slug(asset@, e),
{
    let mut slug: String = if text::same(asset, "btc") {
        "bitcoin".to_string()
    } else {
        "ethereum".to_string()
    };
    slug.append("-up-or-down-");
    slug.append(month_text(e.month));
    slug.append("-");
    slug.append(text::decimal(e.day as u64).as_str());
    slug.append("-");
    let hour: u8 = if e.hour == 0 || e.hour == 12 {
        12
    } else if e.hour < 12 {
        e.hour
    } else {
        e.hour - 12
    };
    slug.append(text::decimal(hour as u64).as_str());
    slug.append(if e.hour < 12 { "am" } else { "pm" });
    slug.append("-et");
    assert(slug@ =~= hourly_slug(asset@, e));
    slug
}

/// The name of the market whose window starts at a second since 1970.
pub fn slug_for(asset: &str, timeframe: &str, start: i64) -> (r: String)
    requires
        -calendar::DAY <= start,
    ensures
        r@ == slug_of(asset@, timeframe@, start as int),
{
    if text::same(timeframe, "1hr") {
        return slug_at_hour(asset, calendar::eastern_hour(start));
    }
    let mut slug: String = asset.to_string();
    slug.append(if text::same(timeframe, "5min") { "-updown-5m-" } else { "-updown-15m-" });
    slug.append(text::signed_decimal(start).as_str());
    slug
}

/// Where two texts are put together of parts that do not hold a mark, the mark, and the rest,
/// the parts are told apart by it.
proof fn lemma_split(a: Seq<char>, b: Seq<char>, x: Seq<char>, y: Seq<char>, mark: char)
    requires
        a.push(mark) + x == b.push(mark) + y,
        forall|i: int| 0 <= i < a.len() ==> #[trigger] a[i] != mark,
        forall|i: int| 0 <= i < b.len() ==> #[trigger] b[i] != mark,
    ensures
        a == b,
        x == y,
{
    let s = a.push(mark) + x;
    let t = b.push(mark) + y;
    if a.len() < b.len() {
        assert(s[a.len() as int] == mark);
        assert(t[a.len() as int] == b[a.len() as int]);
    }
    if b.len() < a.len() {
        assert(t[b.len() as int] == mark);
        assert(s[b.len() as int] == a[b.len() as int]);
    }
    assert(a =~= s.subrange(0, a.len() as int));
    assert(b =~= t.subrange(0, b.len() as int));
    assert(x =~= s.subrange((a.len() + 1) as int, s.len() as int));
    assert(y =~= t.subrange((b.len() + 1) as int, t.len() as int));
}

/// Where two texts are put together of digits and of something that starts with none, the digits
/// are told from the rest.
proof fn lemma_digits_end(a: Seq<char>, b: Seq<char>, x: Seq<char>, y: Seq<char>)
    requires
        a + x == b + y,
        forall|i: int| 0 <= i < a.len() ==> text::is_digit(#[trigger] a[i]),
        forall|i: int| 0 <= i < b.len() ==> text::is_digit(#[trigger] b[i]),
        x.len() > 0 && !text::is_digit(x[0]),
        y.len() > 0 && !text::is_digit(y[0]),
    ensures
        a == b,
        x == y,
{
    let s = a + x;
    let t = b + y;
    if a.len() < b.len() {
        assert(s[a.len() as int] == x[0]);
        assert(t[a.len() as int] == b[a.len() as int]);
    }
    if b.len() < a.len() {
        assert(t[b.len() as int] == y[0]);
        assert(s[b.len() as int] == a[b.len() as int]);
    }
    assert(a =~= s.subrange(0, a.len() as int));
    assert(b =~= t.subrange(0, b.len() as int));
    assert(x =~= s.subrange(a.len() as int, s.len() as int));
    assert(y =~= t.subrange(b.len() as int, t.len() as int));
}

/// Names of months are words, and their first three letters tell them apart.
proof fn lemma_month(month: int)
    requires
        1 <= month <= 12,
    ensures
        month_name(month).len() >= 3,
        forall|i: int| 0 <= i < month_name(month).len() ==> #[trigger] month_name(month)[i] != '-',
        ({
            let n = month_name(month);
            &&& month == 1 <==> n[0] == 'j' && n[1] == 'a'
            &&& month == 2 <==> n[0] == 'f'
            &&& month == 3 <==> n[0] == 'm' && n[2] == 'r'
            &&& month == 4 <==> n[0] == 'a' && n[1] == 'p'
            &&& month == 5 <==> n[0] == 'm' && n[2] == 'y'
            &&& month == 6 <==> n[0] == 'j' && n[1] == 'u' && n[2] == 'n'
            &&& month == 7 <==> n[0] == 'j' && n[1] == 'u' && n[2] == 'l'
            &&& month == 8 <==> n[0] == 'a' && n[1] == 'u'
            &&& month == 9 <==> n[0] == 's'
            &&& month == 10 <==> n[0] == 'o'
            &&& month == 11 <==> n[0] == 'n'
            &&& month == 12 <==> n[0] == 'd'
        }),
{
    reveal_strlit("january");
    reveal_strlit("february");
    reveal_strlit("march");
    reveal_strlit("april");
    reveal_strlit("may");
    reveal_strlit("june");
    reveal_strlit("july");
    reveal_strlit("august");
    reveal_strlit("september");
    reveal_strlit("october");
    reveal_strlit("november");
    reveal_strlit("december");
}

/// The name of an hourly market tells the asset, and the month, the day and the hour on the east
/// coast at which it starts.
pub proof fn hourly_slugs_differ(a: Seq<char>, b: Seq<char>, e: EasternHour, g: EasternHour)
    requires
        is_known(a),
        is_known(b),
        1 <= e.month <= 12 && e.hour < 24,
        1 <= g.month <= 12 && g.hour < 24,
        hourly_slug(a, e) == hourly_slug(b, g),
    ensures
        a == b,
        e.month == g.month,
        e.day == g.day,
        e.hour == g.hour,
{
    reveal_strlit("bitcoin");
    reveal_strlit("ethereum");
    reveal_strlit("-up-or-down-");
    reveal_strlit("-");
    reveal_strlit("am");
    reveal_strlit("pm");
    reveal_strlit("-et");
    let s = hourly_slug(a, e);
    let t = hourly_slug(b, g);
    assert(s[0] == full_name(a)[0]);
    assert(t[0] == full_name(b)[0]);
    assert(full_name(a) == full_name(b));
    let skip = (full_name(a).len() + 12) as int;
    let half1 = half_day(e.hour as int) + "-et"@;
    let half2 = half_day(g.hour as int) + "-et"@;
    let hour1 = text::spec_decimal(hour12(e.hour as int));
    let hour2 = text::spec_decimal(hour12(g.hour as int));
    let day1 = text::spec_decimal(e.day as nat);
    let day2 = text::spec_decimal(g.day as nat);
    let m1 = month_name(e.month as int);
    let m2 = month_name(g.month as int);
    assert("-"@ =~= seq!['-']);
    lemma_month(e.month as int);
    lemma_month(g.month as int);
    let r1 = day1 + "-"@ + (hour1 + half1);
    let r2 = day2 + "-"@ + (hour2 + half2);
    assert(s.subrange(skip, s.len() as int) =~= m1.push('-') + r1);
    assert(t.subrange(skip, t.len() as int) =~= m2.push('-') + r2);
    lemma_split(m1, m2, r1, r2, '-');
    assert(r1 =~= day1.push('-') + (hour1 + half1));
    assert(r2 =~= day2.push('-') + (hour2 + half2));
    text::lemma_decimal_digits(e.day as nat);
    text::lemma_decimal_digits(g.day as nat);
    text::lemma_decimal_digits(hour12(e.hour as int));
    text::lemma_decimal_digits(hour12(g.hour as int));
    lemma_split(day1, day2, hour1 + half1, hour2 + half2, '-');
    assert(half1[0] == half_day(e.hour as int)[0]);
    assert(half2[0] == half_day(g.hour as int)[0]);
    lemma_digits_end(hour1, hour2, half1, half2);
    text::decimals_differ(e.day as nat, g.day as nat);
    text::decimals_differ(hour12(e.hour as int), hour12(g.hour as int));
}

/// Markets of different assets, timeframes or windows have different names. Of two hourly markets
/// this is so unless clocks on the east coast show the same month, day and hour at the start of
/// both, as they do when they are put back, and after years.
pub proof fn slugs_differ(
    asset1: Seq<char>,
    timeframe1: Seq<char>,
    start1: int,
    asset2: Seq<char>,
    timeframe2: Seq<char>,
    start2: int,
)
    requires
        is_known(asset1),
        is_known(asset2),
        spec_interval_of(timeframe1) > 0,
        spec_interval_of(timeframe2) > 0,
        slug_of(asset1, timeframe1, start1) == slug_of(asset2, timeframe2, start2),
        -calendar::DAY <= start1 <= i64::MAX,
        -calendar::DAY <= start2 <= i64::MAX,
    ensures
        asset1 == asset2,
        timeframe1 == timeframe2,
        timeframe1 != "1hr"@ ==> start1 == start2,
        timeframe1 == "1hr"@ ==> {
            let e = calendar::eastern(start1);
            let g = calendar::eastern(start2);
            e.month == g.month && e.day == g.day && e.hour == g.hour
        },
{
    reveal_strlit("btc");
    reveal_strlit("eth");
    reveal_strlit("bitcoin");
    reveal_strlit("ethereum");
    reveal_strlit("-updown-5m-");
    reveal_strlit("-updown-15m-");
    reveal_strlit("-up-or-down-");
    reveal_strlit("5min");
    reveal_strlit("15min");
    reveal_strlit("1hr");
    let s = slug_of(asset1, timeframe1, start1);
    let t = slug_of(asset2, timeframe2, start2);
    if timeframe1 == "1hr"@ && timeframe2 == "1hr"@ {
        calendar::clocks_show(start1);
        calendar::clocks_show(start2);
        calendar::lemma_shown(start1, calendar::eastern(start1));
        calendar::lemma_shown(start2, calendar::eastern(start2));
        hourly_slugs_differ(
            asset1,
            asset2,
            calendar::eastern(start1),
            calendar::eastern(start2),
        );
    } else if timeframe1 == "1hr"@ {
        assert(s[0] == full_name(asset1)[0] && s[1] == full_name(asset1)[1] && s[3] == full_name(
            asset1,
        )[3]);
        assert(t[0] == asset2[0] && t[1] == asset2[1] && t[3] == '-');
        assert(false);
    } else if timeframe2 == "1hr"@ {
        assert(t[0] == full_name(asset2)[0] && t[1] == full_name(asset2)[1] && t[3] == full_name(
            asset2,
        )[3]);
        assert(s[0] == asset1[0] && s[1] == asset1[1] && s[3] == '-');
        assert(false);
    } else {
        assert(s[0] == asset1[0] && t[0] == asset2[0]);
        assert(s[11] == infix_of(timeframe1)[8] && t[11] == infix_of(timeframe2)[8]);
        let skip = (3 + infix_of(timeframe1).len()) as int;
        assert(text::spec_signed_decimal(start1) =~= s.subrange(skip, s.len() as int));
        assert(text::spec_signed_decimal(start2) =~= t.subrange(skip, t.len() as int));
        text::signed_decimals_differ(start1, start2);
    }
}

} // verus!
