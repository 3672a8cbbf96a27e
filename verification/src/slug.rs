//! The slugs by which the exchange names a market: what period they tell of,
//! and how one is made.
use crate::calendar::{
    hour_instant, in_calendar, new_york_clock, only_shows_hour, read_new_york_clock,
};
use crate::text::{
    before, chars_of, contains, cut, decimal, decimal_of, ends, ends_in, ends_with, find, find_in,
    holds, last_index, last_place, lowercase, read_u32, read_u64, read_unsigned, same_text,
    split_once, text_of, to_lowercase, trim_end_matches, without_end,
};
use crate::slug_laws::law_hour_slug_end;
use vstd::prelude::*;
use vstd::slice::slice_subrange;
use vstd::string::StringExecFns;

verus! {

/// The number behind the last dash, 0 where there is none.
pub open spec fn slug_timestamp(slug: Seq<char>) -> int {
    let i = last_index(slug, '-');
    if i < 0 {
        0
    } else {
        match read_unsigned(slug.skip(i + 1), u64::MAX as int) {
            Some(n) => n,
            None => 0,
        }
    }
}

/// How long the market of a slug lasts, in seconds.
pub open spec fn slug_duration(slug: Seq<char>) -> int {
    if contains(slug, "-5m-"@) {
        300
    } else if contains(slug, "-15m-"@) {
        900
    } else if contains(slug, "-1h-"@) || (contains(slug, "up-or-down"@) && ends_with(
        slug,
        "-et"@,
    )) {
        3600
    } else {
        300
    }
}

/// The name of a month.
pub open spec fn month_name(month: int) -> Seq<char> {
    if month == 2 {
        "february"@
    } else if month == 3 {
        "march"@
    } else if month == 4 {
        "april"@
    } else if month == 5 {
        "may"@
    } else if month == 6 {
        "june"@
    } else if month == 7 {
        "july"@
    } else if month == 8 {
        "august"@
    } else if month == 9 {
        "september"@
    } else if month == 10 {
        "october"@
    } else if month == 11 {
        "november"@
    } else if month == 12 {
        "december"@
    } else {
        "january"@
    }
}

/// The month of a name.
pub open spec fn month_number(name: Seq<char>) -> Option<u32> {
    if name == "january"@ {
        Some(1)
    } else if name == "february"@ {
        Some(2)
    } else if name == "march"@ {
        Some(3)
    } else if name == "april"@ {
        Some(4)
    } else if name == "may"@ {
        Some(5)
    } else if name == "june"@ {
        Some(6)
    } else if name == "july"@ {
        Some(7)
    } else if name == "august"@ {
        Some(8)
    } else if name == "september"@ {
        Some(9)
    } else if name == "october"@ {
        Some(10)
    } else if name == "november"@ {
        Some(11)
    } else if name == "december"@ {
        Some(12)
    } else {
        None
    }
}

/// The hour from midnight that a text such as `11pm` tells.
pub open spec fn hour_number(text: Seq<char>) -> Option<int> {
    if ends_with(text, "am"@) {
        match read_unsigned(trim_end_matches(text, "am"@), u32::MAX as int) {
            Some(h) => Some(
                if h == 12 {
                    0
                } else {
                    h
                },
            ),
            None => None,
        }
    } else if ends_with(text, "pm"@) {
        match read_unsigned(trim_end_matches(text, "pm"@), u32::MAX as int) {
            Some(h) => Some(
                if h == 12 {
                    12
                } else {
                    h + 12
                },
            ),
            None => None,
        }
    } else {
        None
    }
}

/// What stands behind the first `p`, up to the next one.
pub open spec fn second_piece(s: Seq<char>, p: Seq<char>) -> Option<Seq<char>> {
    match find(s, p) {
        Some(i) => {
            let tail = s.skip(i + p.len());
            match find(tail, p) {
                Some(j) => Some(tail.take(j)),
                None => Some(tail),
            }
        },
        None => None,
    }
}

/// The texts of the month, the day and the hour in the slug of an hourly market.
pub open spec fn hourly_texts(slug: Seq<char>) -> Option<(Seq<char>, Seq<char>, Seq<char>)> {
    if !ends_with(slug, "-et"@) || !contains(slug, "up-or-down"@) {
        None
    } else {
        let rest = trim_end_matches(slug.take(slug.len() - 3), seq!['-']);
        match second_piece(rest, "up-or-down-"@) {
            Some(after) => match split_once(after, '-') {
                Some((month, more)) => match split_once(more, '-') {
                    Some((day, last)) => Some((month, day, before(last, '-'))),
                    None => None,
                },
                None => None,
            },
            None => None,
        }
    }
}

/// The month, the day and the hour from midnight at which the market of an
/// hourly slug begins, by the clock of New York.
pub open spec fn hourly_start(slug: Seq<char>) -> Option<(u32, u32, int)> {
    match hourly_texts(slug) {
        Some((month, day, hour)) => match (
            month_number(lowercase(month)),
            read_unsigned(day, u32::MAX as int),
            hour_number(lowercase(hour)),
        ) {
            (Some(m), Some(d), Some(h)) => Some((m, d as u32, h)),
            _ => None,
        },
        None => None,
    }
}

/// When the market of an hourly slug ends in the given year, in seconds since
/// 1970: an hour after it begins.
pub open spec fn hourly_end(slug: Seq<char>, year: i32) -> Option<u64> {
    match hourly_start(slug) {
        Some((month, day, hour)) => if hour >= 24 {
            None
        } else {
            match hour_instant(year, month, day, hour as u32) {
                Some(t) => if t + 3600 < 0 {
                    None
                } else {
                    Some((t + 3600) as u64)
                },
                None => None,
            }
        },
        None => None,
    }
}

/// The month of a name.
pub fn read_month(name: &str) -> (r: Option<u32>)
    ensures
        r == month_number(name@),
{
    if same_text(name, "january") {
        Some(1)
    } else if same_text(name, "february") {
        Some(2)
    } else if same_text(name, "march") {
        Some(3)
    } else if same_text(name, "april") {
        Some(4)
    } else if same_text(name, "may") {
        Some(5)
    } else if same_text(name, "june") {
        Some(6)
    } else if same_text(name, "july") {
        Some(7)
    } else if same_text(name, "august") {
        Some(8)
    } else if same_text(name, "september") {
        Some(9)
    } else if same_text(name, "october") {
        Some(10)
    } else if same_text(name, "november") {
        Some(11)
    } else if same_text(name, "december") {
        Some(12)
    } else {
        None
    }
}

/// The hour from midnight that a text such as `11pm` tells.
pub fn read_hour(text: &str) -> (r: Option<u64>)
    ensures
        match r {
            Some(h) => hour_number(text@) == Some(h as int),
            None => hour_number(text@) is None,
        },
{
    let v: Vec<char> = chars_of(text);
    let am: Vec<char> = chars_of("am");
    let pm: Vec<char> = chars_of("pm");
    if ends_in(v.as_slice(), am.as_slice()) {
        match read_u32(without_end(v.as_slice(), am.as_slice())) {
            Some(h) => Some(
                if h == 12 {
                    0
                } else {
                    h as u64
                },
            ),
            None => None,
        }
    } else if ends_in(v.as_slice(), pm.as_slice()) {
        match read_u32(without_end(v.as_slice(), pm.as_slice())) {
            Some(h) => Some(
                if h == 12 {
                    12
                } else {
                    h as u64 + 12
                },
            ),
            None => None,
        }
    } else {
        None
    }
}

/// What stands behind the first `p`, up to the next one.
fn piece<'a>(s: &'a [char], p: &[char]) -> (r: Option<&'a [char]>)
    ensures
        match r {
            Some(t) => second_piece(s@, p@) == Some(t@),
            None => second_piece(s@, p@) is None,
        },
{
    let n: usize = s.len();
    match find_in(s, p) {
        Some(i) => {
            let tail: &'a [char] = slice_subrange(s, i + p.len(), n);
            proof {
                assert(tail@ == s@.skip(i + p@.len()));
            }
            match find_in(tail, p) {
                Some(j) => {
                    proof {
                        assert(tail@.subrange(0, j as int) == tail@.take(j as int));
                    }
                    Some(slice_subrange(tail, 0, j))
                },
                None => Some(tail),
            }
        },
        None => None,
    }
}

/// The month, the day and the hour from midnight at which the market of an
/// hourly slug begins, by the clock of New York.
pub fn read_hourly_slug(slug: &str) -> (r: Option<(u32, u32, u64)>)
    ensures
        match r {
            Some((month, day, hour)) => hourly_start(slug@) == Some((month, day, hour as int)),
            None => hourly_start(slug@) is None,
        },
{
    if !ends(slug, "-et") || !holds(slug, "up-or-down") {
        return None;
    }
    proof {
        reveal_strlit("-et");
    }
    let v: Vec<char> = chars_of(slug);
    let mut dash: Vec<char> = Vec::new();
    dash.push('-');
    proof {
        assert(dash@ == seq!['-']);
        assert(slug@.subrange(0, slug@.len() - 3) == slug@.take(slug@.len() - 3));
    }
    let body: &[char] = slice_subrange(v.as_slice(), 0, v.len() - 3);
    let rest: &[char] = without_end(body, dash.as_slice());
    let key: Vec<char> = chars_of("up-or-down-");
    let after: &[char] = match piece(rest, key.as_slice()) {
        Some(t) => t,
        None => {
            return None;
        },
    };
    let (month, more) = match cut(after, '-') {
        Some(p) => p,
        None => {
            return None;
        },
    };
    let (day, last) = match cut(more, '-') {
        Some(p) => p,
        None => {
            return None;
        },
    };
    let hour: &[char] = match cut(last, '-') {
        Some((head, _)) => head,
        None => last,
    };
    let month_text: String = text_of(month);
    let hour_text: String = text_of(hour);
    let m: Option<u32> = read_month(to_lowercase(month_text.as_str()).as_str());
    let d: Option<u32> = read_u32(day);
    let h: Option<u64> = read_hour(to_lowercase(hour_text.as_str()).as_str());
    match (m, d, h) {
        (Some(m), Some(d), Some(h)) => Some((m, d, h)),
        _ => None,
    }
}

/// The number behind the last dash.
pub fn read_timestamp(slug: &str) -> (r: u64)
    ensures
        r == slug_timestamp(slug@),
{
    let v: Vec<char> = chars_of(slug);
    let n: usize = v.len();
    match last_place(v.as_slice(), '-') {
        Some(i) => {
            let tail: &[char] = slice_subrange(v.as_slice(), i + 1, n);
            proof {
                assert(tail@ == slug@.skip(i + 1));
            }
            match read_u64(tail) {
                Some(n) => n,
                None => 0,
            }
        },
        None => 0,
    }
}

/// How long the market of a slug lasts, in seconds.
pub fn read_duration(slug: &str) -> (r: u64)
    ensures
        r == slug_duration(slug@),
        r == 300 || r == 900 || r == 3600,
{
    if holds(slug, "-5m-") {
        300
    } else if holds(slug, "-15m-") {
        900
    } else if holds(slug, "-1h-") || (holds(slug, "up-or-down") && ends(slug, "-et")) {
        3600
    } else {
        300
    }
}

/// The hour on a clock of twelve hours, and which half of the day it is in.
pub open spec fn twelve_hour_text(hour: int) -> Seq<char> {
    if hour == 0 {
        decimal(12) + "am"@
    } else if hour < 12 {
        decimal(hour as nat) + "am"@
    } else if hour == 12 {
        decimal(12) + "pm"@
    } else {
        decimal((hour - 12) as nat) + "pm"@
    }
}

/// The name of the asset that a slug prefix stands for.
pub open spec fn asset_name(prefix: Seq<char>) -> Seq<char> {
    if prefix == "btc"@ {
        "bitcoin"@
    } else if prefix == "eth"@ {
        "ethereum"@
    } else {
        prefix
    }
}

/// The slug of the hourly market that begins at a month, a day and an hour.
pub open spec fn hour_slug(prefix: Seq<char>, month: int, day: int, hour: int) -> Seq<char> {
    asset_name(prefix) + "-up-or-down-"@ + month_name(month) + "-"@ + decimal(day as nat) + "-"@
        + twelve_hour_text(hour) + "-et"@
}

/// The name of a month.
pub fn write_month(month: u32) -> (r: &'static str)
    ensures
        r@ == month_name(month as int),
{
    match month {
        2 => "february",
        3 => "march",
        4 => "april",
        5 => "may",
        6 => "june",
        7 => "july",
        8 => "august",
        9 => "september",
        10 => "october",
        11 => "november",
        12 => "december",
        _ => "january",
    }
}

/// The hour on a clock of twelve hours, and which half of the day it is in.
pub fn write_hour(hour: u32) -> (r: String)
    ensures
        r@ == twelve_hour_text(hour as int),
{
    if hour == 0 {
        decimal_of(12).concat("am")
    } else if hour < 12 {
        decimal_of(hour as u64).concat("am")
    } else if hour == 12 {
        decimal_of(12).concat("pm")
    } else {
        decimal_of((hour - 12) as u64).concat("pm")
    }
}

/// The slug of the hourly market that begins at a month, a day and an hour.
pub fn write_hour_slug(slug_prefix: &str, month: u32, day: u32, hour: u32) -> (r: String)
    ensures
        r@ == hour_slug(slug_prefix@, month as int, day as int, hour as int),
{
    let asset: &str = if same_text(slug_prefix, "btc") {
        "bitcoin"
    } else if same_text(slug_prefix, "eth") {
        "ethereum"
    } else {
        slug_prefix
    };
    let day_text: String = decimal_of(day as u64);
    let hour_text: String = write_hour(hour);
    let mut r: String = String::new();
    r.append(asset);
    r.append("-up-or-down-");
    r.append(write_month(month));
    r.append("-");
    r.append(day_text.as_str());
    r.append("-");
    r.append(hour_text.as_str());
    r.append("-et");
    proof {
        assert(Seq::<char>::empty() + asset@ =~= asset@);
    }
    r
}

/// The slug of a market of minutes whose period begins at an instant.
pub open spec fn minute_slug(prefix: Seq<char>, kind: Seq<char>, start: nat) -> Seq<char> {
    prefix + "-updown-"@ + kind + "-"@ + decimal(start)
}

/// The slug of a market of minutes whose period begins at an instant, such as
/// `btc-updown-5m-1700000100`.
pub fn write_minute_slug(slug_prefix: &str, kind: &str, period_start: u64) -> (r: String)
    ensures
        r@ == minute_slug(slug_prefix@, kind@, period_start as nat),
{
    let digits: String = decimal_of(period_start);
    let mut r: String = String::new();
    r.append(slug_prefix);
    r.append("-updown-");
    r.append(kind);
    r.append("-");
    r.append(digits.as_str());
    proof {
        assert(Seq::<char>::empty() + slug_prefix@ =~= slug_prefix@);
    }
    r
}

/// The slug of the hourly market whose period begins at an instant, such as
/// `bitcoin-up-or-down-february-2-11pm-et`.
pub fn slug_1h_human_readable(period_start_unix: u64, slug_prefix: &str) -> (r: String)
    requires
        in_calendar(period_start_unix as i64 as int),
    ensures
        ({
            let clock = new_york_clock(period_start_unix as i64);
            r@ == hour_slug(slug_prefix@, clock.1 as int, clock.2 as int, clock.3 as int)
        }),
        // Read in the year it was made in, the slug of a full hour that the clock
        // shows once tells the end of that hour.
        ({
            let start = period_start_unix as i64;
            let clock = new_york_clock(start);
            0 <= start && start % 3600 == 0 && only_shows_hour(
                start,
                clock.0,
                clock.1,
                clock.2,
                clock.3,
            ) && !contains(asset_name(slug_prefix@) + "-"@, "up-or-down-"@) ==> hourly_end(
                r@,
                clock.0,
            ) == Some((start + 3600) as u64)
        }),
{
    let clock: (i32, u32, u32, u32, u32, u32) = read_new_york_clock(period_start_unix as i64);
    proof {
        let start = period_start_unix as i64;
        if 0 <= start && !contains(asset_name(slug_prefix@) + "-"@, "up-or-down-"@) {
            law_hour_slug_end(slug_prefix@, start);
        }
    }
    write_hour_slug(slug_prefix, clock.1, clock.2, clock.3)
}

} // verus!
