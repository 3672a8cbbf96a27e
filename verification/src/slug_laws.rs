//! What a slug tells is what it was made of.
use crate::slug::{
    asset_name, hour_number, hour_slug, hourly_end, hourly_start, hourly_texts, minute_slug,
    month_name, month_number, second_piece, slug_duration, slug_timestamp, twelve_hour_text,
};
use crate::calendar::{in_calendar, is_date, new_york_clock, only_shows_hour, shows_hour};
use crate::text::{
    at, before, contains, decimal, ends_with, find, is_digit, last_index, lemma_decimal_reads_back,
    lemma_find_is_first, lower_text, lowercase, read_unsigned, split_once, trim_end_matches,
};
use vstd::prelude::*;

verus! {

/// `c` does not occur in `s`.
pub open spec fn lacks(s: Seq<char>, c: char) -> bool {
    forall|i: int| 0 <= i < s.len() ==> #[trigger] s[i] != c
}

pub proof fn lemma_last_index(x: Seq<char>, y: Seq<char>, c: char)
    requires
        lacks(y, c),
    ensures
        last_index(x + seq![c] + y, c) == x.len(),
    decreases y.len(),
{
    let s = x + seq![c] + y;
    if y.len() == 0 {
        assert(s.last() == c);
    } else {
        assert(s.last() == y.last());
        assert(y[y.len() - 1] != c);
        assert(s.drop_last() =~= x + seq![c] + y.drop_last());
        lemma_last_index(x, y.drop_last(), c);
    }
}

pub proof fn lemma_no_split(x: Seq<char>, c: char)
    requires
        lacks(x, c),
    ensures
        split_once(x, c) is None,
        before(x, c) == x,
{
    lemma_find_is_first(x, seq![c]);
    if find(x, seq![c]) is Some {
        let i = find(x, seq![c])->0;
        assert(x.subrange(i, i + 1)[0] == x[i]);
    }
}

pub proof fn lemma_split(x: Seq<char>, y: Seq<char>, c: char)
    requires
        lacks(x, c),
    ensures
        split_once(x + seq![c] + y, c) == Some((x, y)),
{
    let s = x + seq![c] + y;
    let p = seq![c];
    lemma_find_is_first(s, p);
    assert(s.subrange(x.len() as int, x.len() as int + 1) =~= p);
    assert(at(s, p, x.len() as int));
    let k = find(s, p)->0;
    assert(s.subrange(k, k + 1)[0] == s[k]);
    if k < x.len() {
        assert(s[k] == x[k]);
    }
    assert(s.take(k) =~= x);
    assert(s.skip(k + 1) =~= y);
}

pub proof fn lemma_decimal_lacks(n: nat, c: char)
    requires
        !is_digit(c),
    ensures
        lacks(decimal(n), c),
{
    lemma_decimal_reads_back(n);
    assert forall|i: int| 0 <= i < decimal(n).len() implies #[trigger] decimal(n)[i] != c by {
        assert(is_digit(decimal(n)[i]));
    }
}

/// The timestamp of a slug of minutes is the start it was made with.
pub proof fn law_minute_slug_timestamp(prefix: Seq<char>, kind: Seq<char>, start: nat)
    requires
        start <= u64::MAX,
    ensures
        slug_timestamp(minute_slug(prefix, kind, start)) == start,
{
    let digits = decimal(start);
    let head = prefix + "-updown-"@ + kind;
    let s = minute_slug(prefix, kind, start);
    reveal_strlit("-");
    lemma_decimal_lacks(start, '-');
    lemma_decimal_reads_back(start);
    assert("-"@ =~= seq!['-']);
    lemma_last_index(head, digits, '-');
    assert(s.skip(head.len() as int + 1) =~= digits);
}

/// A slug of five minutes tells a duration of five minutes.
pub proof fn law_five_minute_slug_duration(prefix: Seq<char>, start: nat)
    ensures
        slug_duration(minute_slug(prefix, "5m"@, start)) == 300,
{
    let s = minute_slug(prefix, "5m"@, start);
    reveal_strlit("-updown-");
    reveal_strlit("5m");
    reveal_strlit("-");
    reveal_strlit("-5m-");
    let i: int = prefix.len() as int + 7;
    assert(s.subrange(i, i + 4) =~= "-5m-"@);
    assert(at(s, "-5m-"@, i));
}

/// A slug of fifteen minutes tells a duration of fifteen minutes, where its
/// prefix does not tell one of five.
pub proof fn law_fifteen_minute_slug_duration(prefix: Seq<char>, start: nat)
    requires
        !contains(prefix + "-"@, "-5m-"@),
    ensures
        slug_duration(minute_slug(prefix, "15m"@, start)) == 900,
{
    let s = minute_slug(prefix, "15m"@, start);
    let digits = decimal(start);
    reveal_strlit("-updown-");
    reveal_strlit("15m");
    reveal_strlit("-");
    reveal_strlit("-5m-");
    reveal_strlit("-15m-");
    let n: int = prefix.len() as int;
    lemma_decimal_lacks(start, '-');
    let i: int = n + 7;
    assert(s.subrange(i, i + 5) =~= "-15m-"@);
    assert(at(s, "-15m-"@, i));
    assert forall|j: int| !at(s, "-5m-"@, j) by {
        if at(s, "-5m-"@, j) {
            let sub = s.subrange(j, j + 4);
            assert(sub[0] == s[j] && sub[1] == s[j + 1] && sub[2] == s[j + 2] && sub[3] == s[j + 3]);
            if j + 4 <= n + 1 {
                assert((prefix + "-"@).subrange(j, j + 4) =~= sub);
                assert(at(prefix + "-"@, "-5m-"@, j));
            } else if j < n {
                assert(s[n] == '-');
            }
            if j + 3 >= n + 12 {
                assert(s[j + 3] == digits[j + 3 - (n + 12)]);
            }
        }
    }
}

/// Lower-case letters and digits.
spec fn plain(s: Seq<char>) -> bool {
    forall|i: int| 0 <= i < s.len() ==> is_digit(#[trigger] s[i]) || 'a' <= s[i] <= 'z'
}

proof fn lemma_plain(s: Seq<char>)
    requires
        plain(s),
    ensures
        lowercase(s) == s,
        lacks(s, '-'),
{
    assert forall|i: int| 0 <= i < s.len() implies (#[trigger] s[i]) < '\u{80}' by {
        assert(is_digit(s[i]) || 'a' <= s[i] <= 'z');
    }
    assert(lower_text(s) =~= s) by {
        assert forall|i: int| 0 <= i < s.len() implies #[trigger] lower_text(s)[i] == s[i] by {
            assert(is_digit(s[i]) || 'a' <= s[i] <= 'z');
        }
    }
    assert forall|i: int| 0 <= i < s.len() implies #[trigger] s[i] != '-' by {
        assert(is_digit(s[i]) || 'a' <= s[i] <= 'z');
    }
}

proof fn lemma_month(month: int)
    requires
        1 <= month <= 12,
    ensures
        month_number(month_name(month)) == Some(month as u32),
        plain(month_name(month)),
        lacks(month_name(month), '5'),
        month_name(month).len() > 0,
{
    reveal_strlit("january");
    reveal_strlit("february");
    reveal_strlit("march");
    reveal_strlit("april");
    reveal_strlit("may");
    reveal_strlit("june");
    reveal_strlit("july");
    reveal_strlit("august");
    reveal_strlit("september");
    reveal_strlit("october");
    reveal_strlit("november");
    reveal_strlit("december");
    assert("january"@[1] == 'a' && "june"@[1] == 'u' && "july"@[2] == 'l' && "june"@[2] == 'n');
    assert("march"@[0] == 'm' && "may"@[2] == 'y' && "april"@[0] == 'a' && "august"@[1] == 'u');
    assert("february"@[0] == 'f' && "november"@[0] == 'n' && "december"@[0] == 'd');
    assert("october"@[0] == 'o' && "january"@[0] == 'j' && "may"@.len() == 3);
}

/// The text of an hour is read as that hour.
/// The month of a month's name is that month.
pub proof fn law_month_of_name(month: int)
    requires
        1 <= month <= 12,
    ensures
        month_number(month_name(month)) == Some(month as u32),
{
    lemma_month(month);
}

proof fn lemma_hour(hour: int)
    requires
        0 <= hour < 24,
    ensures
        hour_number(twelve_hour_text(hour)) == Some(hour),
        plain(twelve_hour_text(hour)),
        twelve_hour_text(hour).len() >= 3,
        ({
            let t = twelve_hour_text(hour);
            (t[t.len() - 2] == 'a' || t[t.len() - 2] == 'p') && t.last() == 'm'
        }),
        forall|i: int|
            0 <= i < twelve_hour_text(hour).len() - 2 ==> is_digit(
                #[trigger] twelve_hour_text(hour)[i],
            ),
{
    let n: nat = if hour == 0 || hour == 12 {
        12
    } else if hour < 12 {
        hour as nat
    } else {
        (hour - 12) as nat
    };
    let half = if hour < 12 {
        "am"@
    } else {
        "pm"@
    };
    let digits = decimal(n);
    let t = digits + half;
    reveal_strlit("am");
    reveal_strlit("pm");
    lemma_decimal_reads_back(n);
    assert(twelve_hour_text(hour) == t);
    assert(t.subrange(t.len() - 2, t.len() as int) =~= half);
    assert(at(t, half, t.len() - 2));
    assert(t.take(t.len() - 2) =~= digits);
    // The digits themselves end in no half of the day.
    assert(!ends_with(digits, half)) by {
        if ends_with(digits, half) {
            assert(digits.subrange(digits.len() - 2, digits.len() as int)[1] == digits.last());
            assert(is_digit(digits[digits.len() - 1]));
        }
    }
    assert(trim_end_matches(digits, half) == digits);
    assert(trim_end_matches(t, half) == digits);
    if hour >= 12 {
        assert(!ends_with(t, "am"@)) by {
            if ends_with(t, "am"@) {
                assert(t.subrange(t.len() - 2, t.len() as int)[0] == 'p');
            }
        }
    }
    assert forall|i: int| 0 <= i < t.len() - 2 implies is_digit(#[trigger] t[i]) by {
        assert(t[i] == digits[i]);
        assert(is_digit(digits[i]));
    }
    assert forall|i: int| 0 <= i < t.len() implies is_digit(#[trigger] t[i]) || 'a' <= t[i]
        <= 'z' by {
        if i < digits.len() {
            assert(is_digit(digits[i]));
        }
    }
}

/// The key stands right behind the asset and the dash.
proof fn lemma_key_place(asset: Seq<char>, tail: Seq<char>)
    requires
        !contains(asset + "-"@, "up-or-down-"@),
    ensures
        find(asset + "-up-or-down-"@ + tail, "up-or-down-"@) == Some(asset.len() as int + 1),
{
    let body = asset + "-up-or-down-"@ + tail;
    let p = "up-or-down-"@;
    let n: int = asset.len() as int;
    reveal_strlit("-up-or-down-");
    reveal_strlit("up-or-down-");
    assert(body.subrange(n + 1, n + 12) =~= p);
    assert(at(body, p, n + 1));
    lemma_find_is_first(body, p);
    let k = find(body, p)->0;
    if k < n + 1 {
        let sub = body.subrange(k, k + 11);
        reveal_strlit("-");
        if k + 11 <= n + 1 {
            assert((asset + "-"@).subrange(k, k + 11) =~= sub);
            assert(at(asset + "-"@, p, k));
        } else {
            // The dash behind the asset would be one inside the key.
            assert(sub[n - k] == body[n] && sub[n - k + 1] == body[n + 1]);
            assert(body[n] == '-' && body[n + 1] == 'u');
        }
        assert(false);
    }
}

/// The key holds three dashes, and so stands nowhere where there are but two.
proof fn lemma_no_key(name: Seq<char>, digits: Seq<char>, last: Seq<char>)
    requires
        lacks(name, '-'),
        lacks(digits, '-'),
        lacks(last, '-'),
    ensures
        find(name + seq!['-'] + (digits + seq!['-'] + last), "up-or-down-"@) is None,
{
    let tail = name + seq!['-'] + (digits + seq!['-'] + last);
    let p = "up-or-down-"@;
    reveal_strlit("up-or-down-");
    lemma_find_is_first(tail, p);
    if find(tail, p) is Some {
        let k = find(tail, p)->0;
        let sub = tail.subrange(k, k + 11);
        assert(sub[2] == tail[k + 2] && sub[5] == tail[k + 5] && sub[10] == tail[k + 10]);
        assert forall|i: int| 0 <= i < tail.len() && #[trigger] tail[i] == '-' implies i
            == name.len() || i == name.len() + 1 + digits.len() by {
            if i < name.len() {
                assert(tail[i] == name[i]);
            } else if name.len() < i < name.len() + 1 + digits.len() {
                assert(tail[i] == digits[i - name.len() - 1]);
            } else if i > name.len() + 1 + digits.len() {
                assert(tail[i] == last[i - name.len() - digits.len() - 2]);
            }
        }
        assert(false);
    }
}

/// The texts of an hourly slug are those behind its key.
pub proof fn lemma_texts_of(asset: Seq<char>, tail: Seq<char>)
    requires
        !contains(asset + "-"@, "up-or-down-"@),
        !contains(tail, "up-or-down-"@),
        tail.len() > 0,
        tail.last() != '-',
    ensures
        hourly_texts(asset + "-up-or-down-"@ + tail + "-et"@) == (match split_once(tail, '-') {
            Some((month, more)) => match split_once(more, '-') {
                Some((day, last)) => Some((month, day, before(last, '-'))),
                None => None,
            },
            None => None,
        }),
{
    let body = asset + "-up-or-down-"@ + tail;
    let s = body + "-et"@;
    let n: int = asset.len() as int;
    reveal_strlit("-up-or-down-");
    reveal_strlit("up-or-down-");
    reveal_strlit("up-or-down");
    reveal_strlit("-et");
    assert(s.subrange(s.len() - 3, s.len() as int) =~= "-et"@);
    assert(at(s, "-et"@, s.len() - 3));
    assert(s.subrange(n + 1, n + 11) =~= "up-or-down"@);
    assert(at(s, "up-or-down"@, n + 1));
    assert(s.take(s.len() - 3) =~= body);
    assert(trim_end_matches(body, seq!['-']) == body) by {
        if ends_with(body, seq!['-']) {
            assert(body.subrange(body.len() - 1, body.len() as int)[0] == body.last());
            assert(body.last() == tail.last());
        }
    }
    lemma_key_place(asset, tail);
    assert(body.skip(n + 1 + 11) =~= tail);
    lemma_find_is_first(tail, "up-or-down-"@);
    assert(second_piece(body, "up-or-down-"@) == Some(tail));
}

pub proof fn lemma_texts(asset: Seq<char>, name: Seq<char>, digits: Seq<char>, last: Seq<char>)
    requires
        !contains(asset + "-"@, "up-or-down-"@),
        lacks(name, '-'),
        lacks(digits, '-'),
        lacks(last, '-'),
        last.len() > 0,
    ensures
        hourly_texts(
            asset + "-up-or-down-"@ + name + "-"@ + digits + "-"@ + last + "-et"@,
        ) == Some((name, digits, last)),
{
    let s = asset + "-up-or-down-"@ + name + "-"@ + digits + "-"@ + last + "-et"@;
    let n: int = asset.len() as int;
    let tail = name + seq!['-'] + (digits + seq!['-'] + last);
    let body = asset + "-up-or-down-"@ + tail;
    reveal_strlit("-up-or-down-");
    reveal_strlit("up-or-down-");
    reveal_strlit("up-or-down");
    reveal_strlit("-");
    reveal_strlit("-et");
    assert("-"@ =~= seq!['-']);
    assert(s =~= body + "-et"@);
    assert(s.subrange(s.len() - 3, s.len() as int) =~= "-et"@);
    assert(at(s, "-et"@, s.len() - 3));
    assert(s.subrange(n + 1, n + 11) =~= "up-or-down"@);
    assert(at(s, "up-or-down"@, n + 1));
    assert(s.take(s.len() - 3) =~= body);
    assert(trim_end_matches(body, seq!['-']) == body) by {
        if ends_with(body, seq!['-']) {
            assert(body.subrange(body.len() - 1, body.len() as int)[0] == body.last());
            assert(body.last() == last[last.len() - 1]);
        }
    }
    lemma_key_place(asset, tail);
    assert(body.skip(n + 1 + 11) =~= tail);
    lemma_no_key(name, digits, last);
    assert(second_piece(body, "up-or-down-"@) == Some(tail));
    lemma_split(name, digits + seq!['-'] + last, '-');
    lemma_split(digits, last, '-');
    lemma_no_split(last, '-');
}

/// The slug of an hourly market tells the month, the day and the hour that it
/// was made with, where the asset name with a dash behind it does not itself hold
/// the words that go before the month.
pub proof fn law_hour_slug_start(prefix: Seq<char>, month: int, day: nat, hour: int)
    requires
        !contains(asset_name(prefix) + "-"@, "up-or-down-"@),
        1 <= month <= 12,
        day <= u32::MAX,
        0 <= hour < 24,
    ensures
        hourly_start(hour_slug(prefix, month, day as int, hour)) == Some(
            (month as u32, day as u32, hour),
        ),
{
    lemma_month(month);
    lemma_hour(hour);
    lemma_plain(month_name(month));
    lemma_plain(twelve_hour_text(hour));
    lemma_decimal_reads_back(day);
    lemma_decimal_lacks(day, '-');
    lemma_texts(asset_name(prefix), month_name(month), decimal(day), twelve_hour_text(hour));
    assert(read_unsigned(decimal(day), u32::MAX as int) == Some(day as int));
}

/// The end that is read from the slug of an hourly market is an hour after the
/// full hour the slug was made for, in the year that the clock showed then; it is
/// read unless the clock shows that hour twice. Where it is not read, another
/// instant shows the same hour.
pub proof fn law_hour_slug_end(prefix: Seq<char>, start: i64)
    requires
        !contains(asset_name(prefix) + "-"@, "up-or-down-"@),
        in_calendar(start as int),
        0 <= start,
    ensures
        ({
            let c = new_york_clock(start);
            let end = hourly_end(hour_slug(prefix, c.1 as int, c.2 as int, c.3 as int), c.0);
            let full_hour = is_date(c.0 as int, c.1 as int, c.2 as int) && c.3 < 24 && c.4 == 0
                && c.5 == 0;
            full_hour ==> if only_shows_hour(start, c.0, c.1, c.2, c.3) {
                end == Some((start + 3600) as u64)
            } else {
                end is None
            }
        }),
{
    let c = new_york_clock(start);
    if is_date(c.0 as int, c.1 as int, c.2 as int) && c.3 < 24 && c.4 == 0 && c.5 == 0 {
        law_hour_slug_start(prefix, c.1 as int, c.2 as nat, c.3 as int);
        assert(shows_hour(start, c.0, c.1, c.2, c.3));
        if exists|t: i64| #[trigger] only_shows_hour(t, c.0, c.1, c.2, c.3) {
            let t = choose|t: i64| #[trigger] only_shows_hour(t, c.0, c.1, c.2, c.3);
            assert(start == t);
        }
    }
}

/// Behind the asset no `5` is followed by an `m`, so that no slug of an hour is
/// taken for one of minutes.
proof fn lemma_no_minutes(
    asset: Seq<char>,
    name: Seq<char>,
    digits: Seq<char>,
    last: Seq<char>,
    j: int,
)
    requires
        lacks(name, '5'),
        lacks(digits, 'm'),
        last.len() >= 3,
        last.last() == 'm',
        last[last.len() - 2] == 'a' || last[last.len() - 2] == 'p',
        forall|i: int| 0 <= i < last.len() - 2 ==> is_digit(#[trigger] last[i]),
        ({
            let s = asset + "-up-or-down-"@ + name + "-"@ + digits + "-"@ + last + "-et"@;
            asset.len() <= j < s.len() - 1
        }),
    ensures
        ({
            let s = asset + "-up-or-down-"@ + name + "-"@ + digits + "-"@ + last + "-et"@;
            s[j] == '5' ==> s[j + 1] != 'm'
        }),
{
    let s = asset + "-up-or-down-"@ + name + "-"@ + digits + "-"@ + last + "-et"@;
    reveal_strlit("-up-or-down-");
    reveal_strlit("-");
    reveal_strlit("-et");
    let a: int = asset.len() as int + 12;
    let b: int = a + name.len() as int + 1;
    let c: int = b + digits.len() as int + 1;
    let d: int = c + last.len() as int;
    if j < a {
        assert(s[j] == "-up-or-down-"@[j - asset.len()]);
    } else if j < b - 1 {
        assert(s[j] == name[j - a]);
    } else if b <= j < c - 1 {
        if j + 1 < c - 1 {
            assert(s[j + 1] == digits[j + 1 - b]);
        } else {
            assert(s[j + 1] == '-');
        }
    } else if c <= j < d {
        assert(s[j] == last[j - c]);
        if j + 1 < d {
            assert(s[j + 1] == last[j + 1 - c]);
            if j + 1 - c < last.len() - 2 {
                assert(is_digit(last[j + 1 - c]));
            }
        }
    }
}

/// The slug of an hourly market tells a duration of an hour and no timestamp,
/// where its asset name does not tell one of minutes.
pub proof fn law_hour_slug_duration(prefix: Seq<char>, month: int, day: nat, hour: int)
    requires
        !contains(asset_name(prefix) + "-"@, "-5m-"@),
        !contains(asset_name(prefix) + "-"@, "-15m-"@),
        1 <= month <= 12,
        0 <= hour < 24,
    ensures
        slug_duration(hour_slug(prefix, month, day as int, hour)) == 3600,
        slug_timestamp(hour_slug(prefix, month, day as int, hour)) == 0,
{
    let asset = asset_name(prefix);
    let name = month_name(month);
    let digits = decimal(day);
    let last = twelve_hour_text(hour);
    let s = asset + "-up-or-down-"@ + name + "-"@ + digits + "-"@ + last + "-et"@;
    let n: int = asset.len() as int;
    lemma_month(month);
    lemma_hour(hour);
    lemma_decimal_lacks(day, 'm');
    reveal_strlit("-up-or-down-");
    reveal_strlit("up-or-down");
    reveal_strlit("-5m-");
    reveal_strlit("-15m-");
    reveal_strlit("-et");
    reveal_strlit("-");
    assert forall|i: int| !at(s, "-5m-"@, i) by {
        if at(s, "-5m-"@, i) {
            let sub = s.subrange(i, i + 4);
            assert(sub[0] == s[i] && sub[1] == s[i + 1] && sub[2] == s[i + 2]);
            if i + 4 <= n + 1 {
                assert((asset + "-"@).subrange(i, i + 4) =~= sub);
                assert(at(asset + "-"@, "-5m-"@, i));
            } else if i == n - 2 {
                assert(s[n] == '-');
            } else {
                lemma_no_minutes(asset, name, digits, last, i + 1);
            }
        }
    }
    assert forall|i: int| !at(s, "-15m-"@, i) by {
        if at(s, "-15m-"@, i) {
            let sub = s.subrange(i, i + 5);
            assert(sub[0] == s[i] && sub[2] == s[i + 2] && sub[3] == s[i + 3]);
            if i + 5 <= n + 1 {
                assert((asset + "-"@).subrange(i, i + 5) =~= sub);
                assert(at(asset + "-"@, "-15m-"@, i));
            } else if i == n - 3 {
                assert(s[n] == '-');
            } else {
                lemma_no_minutes(asset, name, digits, last, i + 2);
            }
        }
    }
    assert(s.subrange(n + 1, n + 11) =~= "up-or-down"@);
    assert(at(s, "up-or-down"@, n + 1));
    assert(s.subrange(s.len() - 3, s.len() as int) =~= "-et"@);
    assert(at(s, "-et"@, s.len() - 3));
    // The text behind the last dash is no number.
    let head = asset + "-up-or-down-"@ + name + "-"@ + digits + "-"@ + last;
    let tail = seq!['e', 't'];
    assert(s =~= head + seq!['-'] + tail);
    lemma_last_index(head, tail, '-');
    assert(s.skip(head.len() as int + 1) =~= tail);
    assert(!is_digit(tail[0]));
}

} // verus!
