//! What holds of slugs, of the search for a market and of what is redeemed.
use crate::calendar::{hour_instant, in_calendar, new_york_clock};
use crate::discovery::{
    acceptable, error_text, market_slug, period_secs, running_period, timeframe_minutes,
    timeframe_text, DiscoveryErrorView, SearchView,
};
use crate::json::{member_from, JsonView, MemberView};
use crate::models::MarketView;
use crate::redeem::marked_id;
use crate::slug::{
    asset_name, hour_number, hourly_end, hourly_start, hourly_texts, month_name, month_number,
    slug_duration, slug_timestamp, twelve_hour_text,
};
use crate::slug_laws::{
    lacks, law_hour_slug_start, law_month_of_name, lemma_last_index, lemma_texts, lemma_texts_of,
};
use crate::text::{
    all_digits, contains, decimal, ends_with, is_digit, last_index, lowercase, number,
    read_unsigned, starts_with, trim, trim_end_matches,
};
use crate::text_laws::{law_cut_at_first, law_end_is_taken_off, law_last_mark};
use vstd::prelude::*;

verus! {

/// There are markets of 5, 15 and 60 minutes and no others.
pub proof fn law_lengths_of_markets(minutes: u64)
    ensures
        period_secs(minutes) is Some <==> minutes == 5 || minutes == 15 || minutes == 60,
        period_secs(minutes) matches Some(secs) ==> secs == 60 * minutes,
{
}

/// A length is told by its short name, in any case and with white space around it.
/// Another name stands for fifteen minutes.
pub proof fn law_length_of_short_name(s: Seq<char>)
    ensures
        lowercase(trim(s)) == "1h"@ ==> timeframe_minutes(s) == 60,
        lowercase(trim(s)) == "5m"@ ==> timeframe_minutes(s) == 5,
        lowercase(trim(s)) != "1h"@ && lowercase(trim(s)) != "5m"@ ==> timeframe_minutes(s) == 15,
        timeframe_text(60) == "1h"@,
        timeframe_text(15) == "15m"@,
        timeframe_text(5) == "5m"@,
{
    reveal_strlit("1h");
    reveal_strlit("5m");
    assert("1h"@[0] != "5m"@[0]);
}

/// What is told of an error names what was asked for.
pub proof fn law_error_names_its_cause(asset: Seq<char>, minutes: u64)
    ensures
        error_text(DiscoveryErrorView::UnsupportedAsset { asset }) == "Unsupported asset: "@ + asset
            + ". This bot supports BTC only (5m market)."@,
        error_text(DiscoveryErrorView::UnsupportedDuration { minutes })
            == "Only 5m, 15m and 1h markets are supported, got "@ + decimal(minutes as nat) + "m"@,
        error_text(DiscoveryErrorView::NotFound { market_name: asset, minutes })
            == "Could not find active "@ + asset + " "@ + timeframe_text(minutes)
            + " up/down market. Set condition_id in config if needed."@,
{
}

/// A market can be taken exactly where it is active, not closed and not known yet.
pub proof fn law_open_market_is_taken(m: MarketView, seen: Seq<Seq<char>>)
    ensures
        acceptable(m, seen) <==> m.active && !m.closed && forall|i: int|
            0 <= i < seen.len() ==> #[trigger] seen[i] != m.condition_id,
{
    if seen.contains(m.condition_id) {
        let i = choose|i: int| 0 <= i < seen.len() && seen[i] == m.condition_id;
        assert(seen[i] == m.condition_id);
    }
}

/// An answer that can be taken ends a search with that market. Any other sends it back
/// by one period, and changes nothing else.
pub proof fn law_search_goes_back(
    search: SearchView,
    found: Option<MarketView>,
    seen: Seq<Seq<char>>,
)
    requires
        search.wf(),
        search.offset <= 3,
    ensures
        ({
            let (after, taken) = search.answered(found, seen);
            let ends = found matches Some(m) && acceptable(m, seen);
            &&& ends ==> taken == found && after == search
            &&& !ends ==> {
                &&& taken is None
                &&& after.period_start() == search.period_start() - search.period_secs
                &&& after.market_name == search.market_name
                &&& after.slug_prefix == search.slug_prefix
                &&& after.minutes == search.minutes
                &&& after.period_secs == search.period_secs
            }
        }),
{
    let o = search.offset as int;
    let p = search.period_secs as int;
    assert((o + 1) * p == o * p + p) by (nonlinear_arith);
}

/// A search looks up four periods: that which is running and the three before.
pub proof fn law_search_looks_back_three_periods(search: SearchView)
    ensures
        search.slug() is Some <==> search.offset <= 3,
        search.offset == 0 ==> search.period_start() == search.rounded_time,
        search.period_start() == search.rounded_time - search.offset * search.period_secs,
{
    assert(0 * search.period_secs == 0);
}

/// The slug of a market of minutes holds its prefix, its length and when it begins.
pub proof fn law_slug_of_minutes(prefix: Seq<char>, start: u64)
    ensures
        market_slug(prefix, 5, start) == prefix + "-updown-5m-"@ + decimal(start as nat),
        market_slug(prefix, 15, start) == prefix + "-updown-15m-"@ + decimal(start as nat),
{
    reveal_strlit("-updown-5m-");
    reveal_strlit("-updown-15m-");
    reveal_strlit("-updown-");
    reveal_strlit("5m");
    reveal_strlit("15m");
    reveal_strlit("-");
    assert("-updown-"@ + "5m"@ + "-"@ =~= "-updown-5m-"@);
    assert("-updown-"@ + "15m"@ + "-"@ =~= "-updown-15m-"@);
    let d = decimal(start as nat);
    assert(prefix + "-updown-"@ + "5m"@ + "-"@ + d =~= prefix + ("-updown-"@ + "5m"@ + "-"@) + d);
    assert(prefix + "-updown-"@ + "15m"@ + "-"@ + d =~= prefix + ("-updown-"@ + "15m"@ + "-"@) + d);
}

/// The slug of an hourly market is read as the hour that the clock of New York shows
/// when the market begins.
pub proof fn law_slug_of_an_hour(prefix: Seq<char>, start: u64)
    requires
        !contains(asset_name(prefix) + "-"@, "up-or-down-"@),
        in_calendar(start as int),
        ({
            let c = new_york_clock(start as i64);
            1 <= c.1 <= 12 && c.3 < 24
        }),
    ensures
        ({
            let c = new_york_clock(start as i64);
            hourly_start(market_slug(prefix, 60, start)) == Some((c.1, c.2, c.3 as int))
        }),
{
    let c = new_york_clock(start as i64);
    law_hour_slug_start(prefix, c.1 as int, c.2 as nat, c.3 as int);
}

/// The period that is running began at a multiple of its length, less than that ago.
pub proof fn law_running_period_holds_now(now: u64, period_secs: u64)
    requires
        period_secs > 0,
    ensures
        running_period(now, period_secs) <= now < running_period(now, period_secs) + period_secs,
        running_period(now, period_secs) as int % period_secs as int == 0,
{
    let n = now as int;
    let p = period_secs as int;
    vstd::arithmetic::div_mod::lemma_fundamental_div_mod(n, p);
    vstd::arithmetic::div_mod::lemma_mod_bound(n, p);
    vstd::arithmetic::div_mod::lemma_mod_multiples_basic(n / p, p);
    assert(n / p * p == p * (n / p)) by (nonlinear_arith);
}

/// A slug tells when its period begins by the number behind its last dash, 0 where that
/// is no number or there is no dash.
pub proof fn law_slug_tells_start(head: Seq<char>, tail: Seq<char>)
    requires
        lacks(tail, '-'),
    ensures
        match read_unsigned(tail, u64::MAX as int) {
            Some(n) => slug_timestamp(head + seq!['-'] + tail) == n,
            None => slug_timestamp(head + seq!['-'] + tail) == 0,
        },
        slug_timestamp(tail) == 0,
{
    let s = head + seq!['-'] + tail;
    lemma_last_index(head, tail, '-');
    assert(s.skip(head.len() as int + 1) =~= tail);
    law_last_mark(tail, '-');
    let i = last_index(tail, '-');
    if i >= 0 {
        assert(tail[i] == '-');
    }
}

/// A slug tells how long its market lasts: five minutes, fifteen or an hour by the mark
/// between its dashes, an hour also by the form of hourly slugs, and else five minutes.
pub proof fn law_slug_tells_length(slug: Seq<char>)
    ensures
        ({
            let hourly = contains(slug, "-1h-"@) || (contains(slug, "up-or-down"@) && ends_with(
                slug,
                "-et"@,
            ));
            let five = contains(slug, "-5m-"@);
            let fifteen = contains(slug, "-15m-"@);
            &&& slug_duration(slug) == 900 <==> fifteen && !five
            &&& slug_duration(slug) == 3600 <==> hourly && !five && !fifteen
            &&& slug_duration(slug) == 300 <==> five || !(fifteen || hourly)
        }),
{
}

/// The names of the months.
pub proof fn law_names_of_months(name: Seq<char>)
    ensures
        month_name(1) == "january"@ && month_name(2) == "february"@ && month_name(3) == "march"@
            && month_name(4) == "april"@ && month_name(5) == "may"@ && month_name(6) == "june"@,
        month_name(7) == "july"@ && month_name(8) == "august"@ && month_name(9) == "september"@
            && month_name(10) == "october"@ && month_name(11) == "november"@ && month_name(12)
            == "december"@,
        month_number(name) matches Some(m) ==> 1 <= m <= 12 && month_name(m as int) == name,
        forall|m: int| 1 <= m <= 12 && name == #[trigger] month_name(m) ==> month_number(name)
            == Some(m as u32),
{
    assert forall|m: int| 1 <= m <= 12 && name == #[trigger] month_name(m) implies month_number(
        name,
    ) == Some(m as u32) by {
        law_month_of_name(m);
    }
}

/// The name of an asset in an hourly slug.
pub proof fn law_names_of_assets(prefix: Seq<char>)
    ensures
        asset_name("btc"@) == "bitcoin"@,
        asset_name("eth"@) == "ethereum"@,
        prefix != "btc"@ && prefix != "eth"@ ==> asset_name(prefix) == prefix,
{
    reveal_strlit("btc");
    reveal_strlit("eth");
    assert("btc"@[0] != "eth"@[0]);
}

/// The hour on a clock of twelve hours: midnight and noon are twelve.
pub proof fn law_twelve_hour_clock(hour: int)
    requires
        0 <= hour < 24,
    ensures
        ({
            let n = if hour % 12 == 0 {
                12
            } else {
                hour % 12
            };
            twelve_hour_text(hour) == decimal(n as nat) + (if hour < 12 {
                "am"@
            } else {
                "pm"@
            })
        }),
{
}

/// An hour of a clock of twelve hours is read as it is written: twelve is midnight in the
/// first half of the day and noon in the second. Without a half of the day it is none.
pub proof fn law_hour_is_read(digits: Seq<char>)
    requires
        digits.len() > 0,
        all_digits(digits),
        number(digits) <= u32::MAX,
    ensures
        ({
            let n = number(digits) as int;
            &&& n != 12 ==> hour_number(digits + "am"@) == Some(n) && hour_number(digits + "pm"@)
                == Some(n + 12)
            &&& n == 12 ==> hour_number(digits + "am"@) == Some(0int) && hour_number(digits + "pm"@)
                == Some(12int)
            &&& hour_number(digits) is None
        }),
{
    reveal_strlit("am");
    reveal_strlit("pm");
    let d = digits;
    assert(is_digit(d[d.len() - 1]));
    assert(is_digit(d[0]));
    if ends_with(d, "am"@) {
        assert(d.subrange(d.len() - 2, d.len() as int)[1] == d.last());
    }
    if ends_with(d, "pm"@) {
        assert(d.subrange(d.len() - 2, d.len() as int)[1] == d.last());
    }
    law_end_is_taken_off(d, "am"@);
    law_end_is_taken_off(d, "pm"@);
    let am = d + "am"@;
    let pm = d + "pm"@;
    assert(am.subrange(am.len() - 2, am.len() as int) =~= "am"@);
    assert(pm.subrange(pm.len() - 2, pm.len() as int) =~= "pm"@);
    assert(pm.subrange(pm.len() - 2, pm.len() as int)[0] == 'p');
    assert(!ends_with(pm, "am"@)) by {
        if ends_with(pm, "am"@) {
            assert("am"@[0] == "pm"@[0]);
        }
    }
}

/// The half of the day stands at the end of an hour, and what stands before it is the
/// number; a text that ends in neither half tells no hour.
pub proof fn law_half_of_the_day(text: Seq<char>)
    ensures
        ({
            let am = read_unsigned(trim_end_matches(text, "am"@), u32::MAX as int);
            let pm = read_unsigned(trim_end_matches(text, "pm"@), u32::MAX as int);
            let h = hour_number(text);
            &&& ends_with(text, "am"@) ==> (h is Some <==> am is Some) && (am is Some ==> h->0
                == am->0 % 12 || (am->0 > 12 && h->0 == am->0))
            &&& ends_with(text, "pm"@) && !ends_with(text, "am"@) ==> (h is Some <==> pm is Some)
                && (pm is Some ==> h->0 == pm->0 % 12 + 12 || (pm->0 > 12 && h->0 == pm->0 + 12))
            &&& !ends_with(text, "am"@) && !ends_with(text, "pm"@) ==> h is None
        }),
{
}

/// An hourly slug tells the month, the day and the hour that stand between its dashes, in
/// any case; where one of them cannot be read it tells none.
pub proof fn law_hourly_slug_is_read(
    asset: Seq<char>,
    month: Seq<char>,
    day: Seq<char>,
    hour: Seq<char>,
)
    requires
        !contains(asset + "-"@, "up-or-down-"@),
        lacks(month, '-'),
        lacks(day, '-'),
        lacks(hour, '-'),
        hour.len() > 0,
    ensures
        ({
            let slug = asset + "-up-or-down-"@ + month + "-"@ + day + "-"@ + hour + "-et"@;
            let m = month_number(lowercase(month));
            let d = read_unsigned(day, u32::MAX as int);
            let h = hour_number(lowercase(hour));
            &&& m is Some && d is Some && h is Some ==> hourly_start(slug) == Some(
                (m->0, d->0 as u32, h->0),
            )
            &&& m is None || d is None || h is None ==> hourly_start(slug) is None
        }),
{
    lemma_texts(asset, month, day, hour);
}

/// What stands behind the hour in an hourly slug is passed over.
pub proof fn law_hourly_slug_with_more(
    asset: Seq<char>,
    month: Seq<char>,
    day: Seq<char>,
    hour: Seq<char>,
    more: Seq<char>,
)
    requires
        !contains(asset + "-"@, "up-or-down-"@),
        lacks(month, '-'),
        lacks(day, '-'),
        lacks(hour, '-'),
        more.len() > 0,
        more.last() != '-',
        !contains(
            month + seq!['-'] + (day + seq!['-'] + (hour + seq!['-'] + more)),
            "up-or-down-"@,
        ),
    ensures
        ({
            let tail = month + seq!['-'] + (day + seq!['-'] + (hour + seq!['-'] + more));
            hourly_texts(asset + "-up-or-down-"@ + tail + "-et"@) == Some((month, day, hour))
        }),
{
    let last = hour + seq!['-'] + more;
    let tail = month + seq!['-'] + (day + seq!['-'] + last);
    lemma_texts_of(asset, tail);
    law_cut_at_first(month, day + seq!['-'] + last, '-');
    law_cut_at_first(day, last, '-');
    law_cut_at_first(hour, more, '-');
}

/// A slug without the form of an hourly one tells no hour.
pub proof fn law_other_slugs_tell_no_hour(slug: Seq<char>)
    requires
        !ends_with(slug, "-et"@) || !contains(slug, "up-or-down"@),
    ensures
        hourly_start(slug) is None,
{
}

/// An hourly market ends an hour after the hour its slug tells, where the clock of New
/// York shows that hour in the given year. There are no hours past the day.
pub proof fn law_hourly_market_ends(slug: Seq<char>, year: i32)
    ensures
        hourly_start(slug) is None ==> hourly_end(slug, year) is None,
        hourly_start(slug) matches Some((month, day, hour)) ==> {
            &&& hour >= 24 ==> hourly_end(slug, year) is None
            &&& 0 <= hour < 24 ==> match hour_instant(year, month, day, hour as u32) {
                Some(t) => {
                    &&& t + 3600 >= 0 ==> hourly_end(slug, year) == Some((t + 3600) as u64)
                    &&& t + 3600 < 0 ==> hourly_end(slug, year) is None
                },
                None => hourly_end(slug, year) is None,
            }
        },
{
}

/// Marking an id puts `0x` before it, unless it begins with that.
pub proof fn law_id_is_marked(s: Seq<char>)
    ensures
        starts_with(s, "0x"@) ==> marked_id(s) == s,
        !starts_with(s, "0x"@) ==> marked_id(s) == "0x"@ + s,
{
}

/// Of the members of an object that have a key, the first one counts.
pub proof fn law_first_member_counts(members: Seq<MemberView>, key: Seq<char>, i: int)
    ensures
        0 <= i < members.len() && members[i].key == key && (forall|k: int|
            0 <= k < i ==> (#[trigger] members[k]).key != key) ==> member_from(members, key)
            == Some(members[i].value),
        (forall|k: int| 0 <= k < members.len() ==> (#[trigger] members[k]).key != key)
            ==> member_from(members, key) is None,
    decreases members.len(),
{
    if members.len() > 0 && members[0].key != key {
        let rest = members.skip(1);
        law_first_member_counts(rest, key, i - 1);
        if 0 <= i < members.len() && members[i].key == key && (forall|k: int|
            0 <= k < i ==> (#[trigger] members[k]).key != key) {
            assert(rest[i - 1] == members[i]);
            assert forall|k: int| 0 <= k < i - 1 implies (#[trigger] rest[k]).key != key by {
                assert(rest[k] == members[k + 1]);
            }
        }
        if forall|k: int| 0 <= k < members.len() ==> (#[trigger] members[k]).key != key {
            assert forall|k: int| 0 <= k < rest.len() implies (#[trigger] rest[k]).key != key by {
                assert(rest[k] == members[k + 1]);
            }
        }
    }
}

/// A text or a list stands under a key only where it is one, and only in an object.
pub proof fn law_members_have_their_kind(v: JsonView, members: Seq<MemberView>, key: Seq<char>)
    ensures
        !(v is Object) ==> v.text_member(key) is None && v.list_member(key) is None,
        ({
            let j = JsonView::Object(members);
            &&& match member_from(members, key) {
                Some(JsonView::Text(s)) => j.text_member(key) == Some(s) && j.list_member(key)
                    is None,
                Some(JsonView::List(v)) => j.list_member(key) == Some(v) && j.text_member(key)
                    is None,
                _ => j.text_member(key) is None && j.list_member(key) is None,
            }
        }),
{
}

} // verus!
