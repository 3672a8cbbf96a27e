//! Reading a history of trades, and telling what they came to.
use crate::binary64::{difference, product, sum, Binary64};
use crate::strategy::{zero, zero_value, Side};
use crate::text::{
    begins, before, chars_of, contains, cut, holds, read_i64, read_signed, same_text, split_once,
    starts_with, text_of, trim, trim_end_matches, trimmed, without_end, words, words_of,
};
use vstd::prelude::*;
use vstd::string::StringExecFns;

verus! {

/// The numbers of an ISO 8601 date and time.
pub struct IsoFields {
    pub year: int,
    pub month: int,
    pub day: int,
    pub hour: int,
    pub minute: int,
    pub second: int,
}

/// The six texts between the marks of a date and a time; a fraction of a second
/// is left out.
pub open spec fn iso_pieces(s: Seq<char>) -> Option<Seq<Seq<char>>> {
    match split_once(trim_end_matches(s, seq!['Z']), 'T') {
        Some((date, time)) => match (split_once(date, '-'), split_once(time, ':')) {
            (Some((year, month_day)), Some((hour, rest))) => match (
                split_once(month_day, '-'),
                split_once(rest, ':'),
            ) {
                (Some((month, day)), Some((minute, second))) => Some(
                    seq![year, month, day, hour, minute, before(second, '.')],
                ),
                _ => None,
            },
            _ => None,
        },
        None => None,
    }
}

/// The numbers of a date and a time, where each can be read.
pub open spec fn iso_fields(s: Seq<char>) -> Option<IsoFields> {
    match iso_pieces(s) {
        Some(p) => match (
            read_signed(p[0]),
            read_signed(p[1]),
            read_signed(p[2]),
            read_signed(p[3]),
            read_signed(p[4]),
            read_signed(p[5]),
        ) {
            (
                Some(year),
                Some(month),
                Some(day),
                Some(hour),
                Some(minute),
                Some(second),
            ) => Some(IsoFields { year, month, day, hour, minute, second }),
            _ => None,
        },
        None => None,
    }
}

/// The number of a day, by which days can be ordered. Every month counts as 31
/// days and every year as twelve of them; the year 2026 begins 56 years of 365 days
/// after 1970.
pub open spec fn day_number(year: int, month: int, day: int) -> int {
    372 * (year - 2026) + 56 * 365 + 31 * (month - 1) + day - 1
}

impl IsoFields {
    /// Seconds by which times can be ordered.
    pub open spec fn secs(self) -> int {
        day_number(self.year, self.month, self.day) * 86400 + self.hour * 3600 + self.minute * 60
            + self.second
    }

    /// Within the ranges of a date and a time.
    pub open spec fn in_range(self) -> bool {
        &&& 1 <= self.month <= 12
        &&& 1 <= self.day <= 31
        &&& 0 <= self.hour < 24
        &&& 0 <= self.minute < 60
        &&& 0 <= self.second < 60
    }

    /// Earlier, year by year and down to the second.
    pub open spec fn earlier(self, other: IsoFields) -> bool {
        ||| self.year < other.year
        ||| self.year == other.year && self.month < other.month
        ||| self.year == other.year && self.month == other.month && self.day < other.day
        ||| self.year == other.year && self.month == other.month && self.day == other.day
            && self.hour < other.hour
        ||| self.year == other.year && self.month == other.month && self.day == other.day
            && self.hour == other.hour && self.minute < other.minute
        ||| self.year == other.year && self.month == other.month && self.day == other.day
            && self.hour == other.hour && self.minute == other.minute && self.second < other.second
    }
}

/// Of two days, the earlier one has the smaller number.
proof fn lemma_days(a: IsoFields, b: IsoFields)
    requires
        a.in_range(),
        b.in_range(),
        a.year < b.year || (a.year == b.year && (a.month < b.month || (a.month == b.month && a.day
            < b.day))),
    ensures
        day_number(a.year, a.month, a.day) < day_number(b.year, b.month, b.day),
{
}

/// The earlier of two times has the smaller seconds.
proof fn lemma_earlier(a: IsoFields, b: IsoFields)
    requires
        a.in_range(),
        b.in_range(),
        a.earlier(b),
    ensures
        a.secs() < b.secs(),
{
    if a.year != b.year || a.month != b.month || a.day != b.day {
        lemma_days(a, b);
    }
    let x = day_number(a.year, a.month, a.day);
    let y = day_number(b.year, b.month, b.day);
    let p = a.hour * 3600 + a.minute * 60 + a.second;
    let q = b.hour * 3600 + b.minute * 60 + b.second;
    assert(0 <= p < 86400 && 0 <= q < 86400);
    assert(x < y || (x == y && p < q));
}

/// Seconds order times as years, months, days, hours, minutes and seconds do, one
/// after the other, and two times have the same seconds only where they are the
/// same.
pub proof fn law_seconds_order_times(a: IsoFields, b: IsoFields)
    requires
        a.in_range(),
        b.in_range(),
    ensures
        a.secs() < b.secs() <==> a.earlier(b),
        a.secs() == b.secs() <==> a == b,
{
    if a.earlier(b) {
        lemma_earlier(a, b);
    } else if b.earlier(a) {
        lemma_earlier(b, a);
    } else {
        assert(a == b);
    }
}

/// Times of one day lie as far apart as their seconds.
pub proof fn law_seconds_of_a_day(a: IsoFields, b: IsoFields)
    requires
        a.year == b.year,
        a.month == b.month,
        a.day == b.day,
    ensures
        b.secs() - a.secs() == (b.hour - a.hour) * 3600 + (b.minute - a.minute) * 60 + (b.second
            - a.second),
{
}

/// The seconds that a date and a time stand for, where they fit.
pub open spec fn iso_secs(s: Seq<char>) -> Option<int> {
    match iso_fields(s) {
        Some(f) => if i64::MIN <= f.secs() <= i64::MAX {
            Some(f.secs())
        } else {
            None
        },
        None => None,
    }
}

/// Reads the seconds that a date and a time stand for, such as
/// `2026-02-03T06:12:28.000Z`. They are good for ordering only.
pub fn parse_iso_to_secs(s: &str) -> (r: Option<i64>)
    ensures
        match r {
            Some(n) => iso_secs(s@) == Some(n as int),
            None => iso_secs(s@) is None,
        },
{
    let chars: Vec<char> = chars_of(s);
    let mut mark: Vec<char> = Vec::new();
    mark.push('Z');
    proof {
        assert(mark@ =~= seq!['Z']);
    }
    let (date, time) = match cut(without_end(chars.as_slice(), mark.as_slice()), 'T') {
        Some(p) => p,
        None => {
            return None;
        },
    };
    let (year, month_day) = match cut(date, '-') {
        Some(p) => p,
        None => {
            return None;
        },
    };
    let (hour, rest) = match cut(time, ':') {
        Some(p) => p,
        None => {
            return None;
        },
    };
    let (month, day) = match cut(month_day, '-') {
        Some(p) => p,
        None => {
            return None;
        },
    };
    let (minute, second) = match cut(rest, ':') {
        Some(p) => p,
        None => {
            return None;
        },
    };
    let second: &[char] = match cut(second, '.') {
        Some((whole, _)) => whole,
        None => second,
    };
    match (
        read_i64(year),
        read_i64(month),
        read_i64(day),
        read_i64(hour),
        read_i64(minute),
        read_i64(second),
    ) {
        (Some(y), Some(m), Some(d), Some(h), Some(min), Some(sec)) => {
            let days: i128 = 372 * (y as i128 - 2026) + 56 * 365 + 31 * (m as i128 - 1) + (
            d as i128 - 1);
            let secs: i128 = days * 86400 + h as i128 * 3600 + min as i128 * 60 + sec as i128;
            if secs < i64::MIN as i128 || secs > i64::MAX as i128 {
                None
            } else {
                Some(secs as i64)
            }
        },
        _ => None,
    }
}

/// Which side a history says has won.
pub open spec fn won_side(s: Seq<char>) -> Seq<char> {
    if contains(s, "Won: Down"@) {
        "Down"@
    } else if contains(s, "Won: Up"@) {
        "Up"@
    } else {
        "Unknown"@
    }
}

/// Which side a history says has won: `Down`, `Up` or `Unknown`.
pub fn extract_won(content: &str) -> (r: &'static str)
    ensures
        r@ == won_side(content@),
{
    if holds(content, "Won: Down") {
        "Down"
    } else if holds(content, "Won: Up") {
        "Up"
    } else {
        "Unknown"
    }
}

/// A trade as a line tells it, its numbers still in text.
#[derive(Debug)]
pub struct TradeLine {
    pub time: i64,
    pub side: Side,
    pub price: String,
    pub size: String,
}

/// What a line tells.
pub struct LineView {
    pub time: int,
    pub side: Side,
    pub price: Seq<char>,
    pub size: Seq<char>,
}

impl View for TradeLine {
    type V = LineView;

    open spec fn view(&self) -> LineView {
        LineView { time: self.time as int, side: self.side, price: self.price@, size: self.size@ }
    }
}

/// The line that is there, if any.
pub open spec fn line_view(l: Option<TradeLine>) -> Option<LineView> {
    match l {
        Some(l) => Some(l@),
        None => None,
    }
}

/// The side of a name.
pub open spec fn side_of_name(s: Seq<char>) -> Option<Side> {
    if s == "Up"@ {
        Some(Side::Up)
    } else if s == "Down"@ {
        Some(Side::Down)
    } else {
        None
    }
}

/// A line that tells of no trade: an empty one, a heading or a rule.
pub open spec fn is_heading(s: Seq<char>) -> bool {
    ||| s.len() == 0
    ||| starts_with(s, ">"@)
    ||| starts_with(s, "Market"@)
    ||| starts_with(s, "Condition"@)
    ||| starts_with(s, "Time"@)
    ||| starts_with(s, "-"@)
}

/// In which column the side stands. The price and the size follow it.
pub open spec fn side_column(columns: Seq<Seq<char>>) -> int {
    if columns[1] != "BUY"@ && side_of_name(columns[2]) is Some {
        2
    } else {
        3
    }
}

/// The time of a line: the first column, or, where that is a date alone, the first
/// two.
pub open spec fn time_text(columns: Seq<Seq<char>>) -> Seq<char> {
    if !contains(columns[0], "T"@) && columns[2] == "BUY"@ {
        columns[0] + "T"@ + columns[1]
    } else {
        columns[0]
    }
}

/// The trade that a line tells of.
pub open spec fn trade_of_line(s: Seq<char>) -> Option<LineView> {
    let line = trim(s);
    let columns = words(line);
    if is_heading(line) || columns.len() < 6 {
        None
    } else {
        let i = side_column(columns);
        match (iso_secs(time_text(columns)), side_of_name(columns[i])) {
            (Some(time), Some(side)) => Some(
                LineView { time, side, price: columns[i + 1], size: columns[i + 2] },
            ),
            _ => None,
        }
    }
}

fn read_side(s: &str) -> (r: Option<Side>)
    ensures
        r == side_of_name(s@),
{
    if same_text(s, "Up") {
        Some(Side::Up)
    } else if same_text(s, "Down") {
        Some(Side::Down)
    } else {
        None
    }
}

/// Reads the trade that a line tells of, its price and size left as they are
/// written.
pub fn parse_line(line: &str) -> (r: Option<TradeLine>)
    ensures
        line_view(r) == trade_of_line(line@),
{
    let chars: Vec<char> = chars_of(line);
    let inner: &[char] = trimmed(chars.as_slice());
    let text: String = text_of(inner);
    if inner.len() == 0 || begins(text.as_str(), ">") || begins(text.as_str(), "Market") || begins(
        text.as_str(),
        "Condition",
    ) || begins(text.as_str(), "Time") || begins(text.as_str(), "-") {
        return None;
    }
    let columns: Vec<String> = words_of(inner);
    let ghost views = columns@.map_values(|w: String| w@);
    proof {
        assert(views == words(inner@));
        assert(views.len() == columns@.len());
        assert forall|j: int| 0 <= j < views.len() implies #[trigger] views[j]
            == columns@[j]@ by {}
    }
    if columns.len() < 6 {
        return None;
    }
    let i: usize = if !same_text(columns[1].as_str(), "BUY") && read_side(
        columns[2].as_str(),
    ).is_some() {
        2
    } else {
        3
    };
    proof {
        assert(views[1] == columns@[1]@ && views[2] == columns@[2]@);
        assert(i == side_column(views));
        assert(views[0] == columns@[0]@ && views[i as int] == columns@[i as int]@);
        assert(views[i + 1] == columns@[i + 1]@ && views[i + 2] == columns@[i + 2]@);
    }
    let mut time: String = columns[0].clone();
    if !holds(columns[0].as_str(), "T") && same_text(columns[2].as_str(), "BUY") {
        time.append("T");
        time.append(columns[1].as_str());
    }
    match (parse_iso_to_secs(time.as_str()), read_side(columns[i].as_str())) {
        (Some(time), Some(side)) => Some(
            TradeLine {
                time,
                side,
                price: columns[i + 1].clone(),
                size: columns[i + 2].clone(),
            },
        ),
        _ => None,
    }
}

/// The trade that a line tells of, if any, as a sequence.
pub open spec fn told_trade(line: Seq<char>) -> Seq<LineView> {
    match trade_of_line(line) {
        Some(t) => seq![t],
        None => Seq::empty(),
    }
}

/// The trades that the lines of a history tell of, in their order.
pub open spec fn trades_of_lines(s: Seq<char>) -> Seq<LineView>
    decreases s.len(),
{
    proof {
        lemma_split_shortens(s, '\n');
    }
    match split_once(s, '\n') {
        Some((line, rest)) => told_trade(line) + trades_of_lines(rest),
        None => told_trade(s),
    }
}

/// Reads the trades that the lines of a history tell of.
pub fn parse_lines(content: &str) -> (r: Vec<TradeLine>)
    ensures
        r@.map_values(|l: TradeLine| l@) == trades_of_lines(content@),
{
    let chars: Vec<char> = chars_of(content);
    let mut left: &[char] = chars.as_slice();
    let mut r: Vec<TradeLine> = Vec::new();
    let ghost view = |l: TradeLine| l@;
    loop
        invariant
            view == |l: TradeLine| l@,
            r@.map_values(view) + trades_of_lines(left@) == trades_of_lines(content@),
        decreases left@.len(),
    {
        let ghost before = r@;
        match cut(left, '\n') {
            Some((line, rest)) => {
                proof {
                    lemma_split_shortens(left@, '\n');
                }
                if let Some(t) = parse_line(text_of(line).as_str()) {
                    r.push(t);
                    proof {
                        assert(r@.map_values(view) =~= before.map_values(view).push(t@));
                    }
                }
                proof {
                    assert(r@.map_values(view) + trades_of_lines(rest@) =~= before.map_values(view)
                        + trades_of_lines(left@));
                }
                left = rest;
            },
            None => {
                if let Some(t) = parse_line(text_of(left).as_str()) {
                    r.push(t);
                    proof {
                        assert(r@.map_values(view) =~= before.map_values(view).push(t@));
                    }
                }
                proof {
                    assert(r@.map_values(view) =~= before.map_values(view) + trades_of_lines(
                        left@,
                    ));
                }
                return r;
            },
        }
    }
}

pub proof fn lemma_split_shortens(s: Seq<char>, c: char)
    ensures
        split_once(s, c) matches Some((head, tail)) ==> tail.len() < s.len(),
{
    crate::text::lemma_find_is_first(s, seq![c]);
}

/// A trade of a history.
#[derive(Debug, Clone, Copy, PartialEq, Eq, Structural)]
pub struct HistoryTrade {
    pub time: i64,
    pub side: Side,
    pub price: Binary64,
    pub size: Binary64,
}

/// No trade stands before an earlier one.
pub open spec fn in_order(trades: Seq<HistoryTrade>) -> bool {
    forall|i: int, j: int|
        0 <= i <= j < trades.len() ==> (#[trigger] trades[i]).time <= (#[trigger] trades[j]).time
}

/// The trades of one time, in their order.
pub open spec fn of_time(trades: Seq<HistoryTrade>, time: i64) -> Seq<HistoryTrade> {
    trades.filter(|t: HistoryTrade| t.time == time)
}

/// Of trades in order, those of a time do not stand behind a later one.
proof fn lemma_none_of_time(trades: Seq<HistoryTrade>, time: i64)
    requires
        forall|i: int| 0 <= i < trades.len() ==> (#[trigger] trades[i]).time != time,
    ensures
        of_time(trades, time) == Seq::<HistoryTrade>::empty(),
    decreases trades.len(),
{
    reveal(Seq::filter);
    if trades.len() > 0 {
        assert forall|i: int| 0 <= i < trades.len() - 1 implies (
        #[trigger] trades.drop_last()[i]).time != time by {
            assert(trades.drop_last()[i] == trades[i]);
        }
        lemma_none_of_time(trades.drop_last(), time);
        assert(trades[trades.len() - 1].time != time);
    }
}

/// Putting a trade behind those that are not later keeps the order, and puts it
/// behind the others of its time.
proof fn lemma_put(trades: Seq<HistoryTrade>, t: HistoryTrade, k: int)
    requires
        in_order(trades),
        0 <= k <= trades.len(),
        forall|i: int| 0 <= i < k ==> (#[trigger] trades[i]).time <= t.time,
        forall|i: int| k <= i < trades.len() ==> (#[trigger] trades[i]).time > t.time,
    ensures
        in_order(trades.insert(k, t)),
        forall|time: i64| #[trigger]
            of_time(trades.insert(k, t), time) == (if time == t.time {
                of_time(trades, time).push(t)
            } else {
                of_time(trades, time)
            }),
{
    let after = trades.insert(k, t);
    let head = trades.take(k);
    let tail = trades.skip(k);
    assert forall|i: int, j: int| 0 <= i <= j < after.len() implies (#[trigger] after[i]).time <= (
    #[trigger] after[j]).time by {
        if i < k && j > k {
            assert(after[i] == trades[i] && after[j] == trades[j - 1]);
        } else if j < k {
            assert(after[i] == trades[i] && after[j] == trades[j]);
        } else if i > k {
            assert(after[i] == trades[i - 1] && after[j] == trades[j - 1]);
        }
    }
    assert forall|time: i64| #[trigger]
        of_time(after, time) == (if time == t.time {
            of_time(trades, time).push(t)
        } else {
            of_time(trades, time)
        }) by {
        let pred = |x: HistoryTrade| x.time == time;
        assert(trades =~= head + tail);
        assert(after =~= (head + seq![t]) + tail);
        Seq::filter_distributes_over_add(head, tail, pred);
        Seq::filter_distributes_over_add(head + seq![t], tail, pred);
        Seq::filter_distributes_over_add(head, seq![t], pred);
        reveal(Seq::filter);
        assert(seq![t].drop_last() =~= Seq::<HistoryTrade>::empty());
        if time == t.time {
            assert forall|i: int| 0 <= i < tail.len() implies (#[trigger] tail[i]).time
                != time by {
                assert(tail[i] == trades[i + k]);
            }
            lemma_none_of_time(tail, time);
            assert(seq![t].filter(pred) =~= seq![t]);
            assert(of_time(after, time) =~= of_time(trades, time).push(t));
        } else {
            lemma_none_of_time(seq![t], time);
            assert(of_time(seq![t], time) == seq![t].filter(pred));
            assert(of_time(after, time) =~= of_time(trades, time));
        }
    }
}

/// The trades in the order of their times; those of one time stay in the order
/// in which they came.
pub fn sort_trades(trades: &Vec<HistoryTrade>) -> (r: Vec<HistoryTrade>)
    ensures
        in_order(r@),
        r@.len() == trades@.len(),
        forall|time: i64| #[trigger] of_time(r@, time) == of_time(trades@, time),
{
    let mut r: Vec<HistoryTrade> = Vec::new();
    let mut n: usize = 0;
    proof {
        assert(r@ =~= trades@.take(0));
    }
    while n < trades.len()
        invariant
            n <= trades@.len(),
            in_order(r@),
            r@.len() == n,
            forall|time: i64| #[trigger] of_time(r@, time) == of_time(trades@.take(n as int), time),
        decreases trades@.len() - n,
    {
        let t: HistoryTrade = trades[n];
        let mut k: usize = r.len();
        while k > 0 && r[k - 1].time > t.time
            invariant
                k <= r@.len(),
                in_order(r@),
                forall|i: int| k <= i < r@.len() ==> (#[trigger] r@[i]).time > t.time,
            decreases k,
        {
            k = k - 1;
        }
        proof {
            assert forall|i: int| 0 <= i < k implies (#[trigger] r@[i]).time <= t.time by {
                assert(r@[i].time <= r@[k - 1].time);
            }
            lemma_put(r@, t, k as int);
            assert forall|time: i64| #[trigger]
                of_time(trades@.take(n + 1), time) == (if time == t.time {
                    of_time(trades@.take(n as int), time).push(t)
                } else {
                    of_time(trades@.take(n as int), time)
                }) by {
                reveal(Seq::filter);
                assert(trades@.take(n + 1).drop_last() =~= trades@.take(n as int));
            }
        }
        r.insert(k, t);
        n = n + 1;
    }
    proof {
        assert(trades@.take(n as int) =~= trades@);
    }
    r
}

/// Trades are put into one order only: two runs in order that hold the same
/// trades of every time, in the same order, are the same run.
pub proof fn law_order_is_unique(a: Seq<HistoryTrade>, b: Seq<HistoryTrade>)
    requires
        in_order(a),
        in_order(b),
        forall|time: i64| #[trigger] of_time(a, time) == of_time(b, time),
    ensures
        a == b,
    decreases a.len(),
{
    reveal(Seq::filter);
    if a.len() == 0 || b.len() == 0 {
        if a.len() > 0 {
            assert(of_time(a, a.last().time).len() > 0);
            assert(of_time(b, a.last().time).len() == 0);
        }
        if b.len() > 0 {
            assert(of_time(b, b.last().time).len() > 0);
            assert(of_time(a, b.last().time).len() == 0);
        }
        assert(a =~= b);
    } else {
        let t = a.last().time;
        let u = b.last().time;
        if t < u {
            lemma_none_of_time(a, u);
        } else if u < t {
            lemma_none_of_time(b, t);
        }
        assert(of_time(a, t).last() == a.last());
        assert(of_time(b, u).last() == b.last());
        assert forall|time: i64| #[trigger]
            of_time(a.drop_last(), time) == of_time(b.drop_last(), time) by {
            assert(of_time(a, time) == of_time(b, time));
            if time == t {
                assert(of_time(a, time).drop_last() =~= of_time(a.drop_last(), time));
                assert(of_time(b, time).drop_last() =~= of_time(b.drop_last(), time));
            }
        }
        assert forall|i: int, j: int| 0 <= i <= j < a.len() - 1 implies (
        #[trigger] a.drop_last()[i]).time <= (#[trigger] a.drop_last()[j]).time by {
            assert(a[i].time <= a[j].time);
        }
        assert forall|i: int, j: int| 0 <= i <= j < b.len() - 1 implies (
        #[trigger] b.drop_last()[i]).time <= (#[trigger] b.drop_last()[j]).time by {
            assert(b[i].time <= b[j].time);
        }
        law_order_is_unique(a.drop_last(), b.drop_last());
        assert(a =~= a.drop_last().push(a.last()));
        assert(b =~= b.drop_last().push(b.last()));
    }
}

/// What the trades of a side cost, added up in their order.
pub open spec fn side_cost(trades: Seq<HistoryTrade>, side: Side) -> Binary64
    decreases trades.len(),
{
    if trades.len() == 0 {
        zero()
    } else if trades.last().side == side {
        sum(
            side_cost(trades.drop_last(), side),
            product(trades.last().price, trades.last().size),
        )
    } else {
        side_cost(trades.drop_last(), side)
    }
}

/// The shares of a side, added up in the order of the trades.
pub open spec fn side_shares(trades: Seq<HistoryTrade>, side: Side) -> Binary64
    decreases trades.len(),
{
    if trades.len() == 0 {
        zero()
    } else if trades.last().side == side {
        sum(side_shares(trades.drop_last(), side), trades.last().size)
    } else {
        side_shares(trades.drop_last(), side)
    }
}

/// The times of the trades whose side is not that of the trade before.
pub open spec fn switch_times(trades: Seq<HistoryTrade>) -> Seq<i64>
    decreases trades.len(),
{
    if trades.len() < 2 {
        Seq::empty()
    } else {
        let earlier = switch_times(trades.drop_last());
        if trades.last().side != trades[trades.len() - 2].side {
            earlier.push(trades.last().time)
        } else {
            earlier
        }
    }
}

/// The sum of the intervals between one time and the next.
pub open spec fn interval_sum(times: Seq<i64>) -> int
    decreases times.len(),
{
    if times.len() < 2 {
        0
    } else {
        interval_sum(times.drop_last()) + (times.last() - times[times.len() - 2])
    }
}

/// The mean of the intervals between one time and the next, in whole seconds.
pub open spec fn mean_interval(times: Seq<i64>) -> Option<int> {
    if times.len() < 2 {
        None
    } else {
        Some(interval_sum(times) / (times.len() - 1))
    }
}

/// The intervals add up to the time from the first to the last.
pub proof fn law_intervals_add_up(times: Seq<i64>)
    requires
        times.len() > 0,
    ensures
        interval_sum(times) == times.last() - times[0],
    decreases times.len(),
{
    if times.len() > 1 {
        law_intervals_add_up(times.drop_last());
    }
}

/// What a history comes to.
#[derive(Debug, Clone, Copy, PartialEq, Eq, Structural)]
pub struct Summary {
    pub trades: usize,
    pub shares_up: Binary64,
    pub shares_down: Binary64,
    pub total_cost: Binary64,
    pub pnl_if_up: Binary64,
    pub pnl_if_down: Binary64,
    /// The profit of the side that won; that of down where none is known.
    pub realized: Binary64,
    /// How often the side changed from one trade to the next.
    pub switches: usize,
    /// The mean time between two changes.
    pub avg_interval_secs: Option<i64>,
}

/// What all trades cost.
pub open spec fn history_cost(trades: Seq<HistoryTrade>) -> Binary64 {
    sum(side_cost(trades, Side::Up), side_cost(trades, Side::Down))
}

/// The profit if a side wins.
pub open spec fn history_pnl(trades: Seq<HistoryTrade>, side: Side) -> Binary64 {
    difference(side_shares(trades, side), history_cost(trades))
}

/// In order, the times of changes lie between the first trade and the last.
proof fn lemma_switch_times(trades: Seq<HistoryTrade>)
    requires
        in_order(trades),
    ensures
        switch_times(trades).len() < trades.len() || switch_times(trades).len() == 0,
        forall|i: int|
            0 <= i < switch_times(trades).len() ==> trades[0].time <= #[trigger] switch_times(
                trades,
            )[i] <= trades.last().time,
        switch_times(trades).len() > 0 ==> switch_times(trades)[0] <= switch_times(trades).last(),
    decreases trades.len(),
{
    if trades.len() >= 2 {
        let front = trades.drop_last();
        assert forall|i: int, j: int| 0 <= i <= j < front.len() implies (#[trigger] front[i]).time
            <= (#[trigger] front[j]).time by {
            assert(trades[i].time <= trades[j].time);
        }
        lemma_switch_times(front);
        assert(trades[0].time <= trades[trades.len() - 1].time);
        assert(trades[trades.len() - 2].time <= trades[trades.len() - 1].time);
        let earlier = switch_times(front);
        if earlier.len() > 0 {
            assert(earlier[0] <= front.last().time);
        }
    }
}

/// Tells what trades in order come to.
pub fn summarize(trades: &Vec<HistoryTrade>, won: &str) -> (r: Summary)
    requires
        in_order(trades@),
        switch_times(trades@).len() > 0 ==> switch_times(trades@).last() - switch_times(trades@)[0]
            <= i64::MAX,
    ensures
        r.trades == trades@.len(),
        r.shares_up == side_shares(trades@, Side::Up),
        r.shares_down == side_shares(trades@, Side::Down),
        r.total_cost == history_cost(trades@),
        r.pnl_if_up == history_pnl(trades@, Side::Up),
        r.pnl_if_down == history_pnl(trades@, Side::Down),
        r.realized == (if won@ == "Up"@ {
            history_pnl(trades@, Side::Up)
        } else {
            history_pnl(trades@, Side::Down)
        }),
        r.switches == switch_times(trades@).len(),
        match r.avg_interval_secs {
            Some(n) => mean_interval(switch_times(trades@)) == Some(n as int),
            None => mean_interval(switch_times(trades@)) is None,
        },
{
    let mut cost_up: Binary64 = zero_value();
    let mut cost_down: Binary64 = zero_value();
    let mut shares_up: Binary64 = zero_value();
    let mut shares_down: Binary64 = zero_value();
    let mut switches: Vec<i64> = Vec::new();
    let mut i: usize = 0;
    while i < trades.len()
        invariant
            i <= trades@.len(),
            cost_up == side_cost(trades@.take(i as int), Side::Up),
            cost_down == side_cost(trades@.take(i as int), Side::Down),
            shares_up == side_shares(trades@.take(i as int), Side::Up),
            shares_down == side_shares(trades@.take(i as int), Side::Down),
            switches@ == switch_times(trades@.take(i as int)),
        decreases trades@.len() - i,
    {
        let t: HistoryTrade = trades[i];
        proof {
            assert(trades@.take(i + 1).drop_last() =~= trades@.take(i as int));
        }
        let cost: Binary64 = t.price.times(t.size);
        if t.side == Side::Up {
            cost_up = cost_up.plus(cost);
            shares_up = shares_up.plus(t.size);
        } else {
            cost_down = cost_down.plus(cost);
            shares_down = shares_down.plus(t.size);
        }
        if i > 0 && trades[i - 1].side != t.side {
            switches.push(t.time);
        }
        i = i + 1;
    }
    proof {
        assert(trades@.take(i as int) =~= trades@);
        lemma_switch_times(trades@);
    }
    let total_cost: Binary64 = cost_up.plus(cost_down);
    let pnl_if_up: Binary64 = shares_up.minus(total_cost);
    let pnl_if_down: Binary64 = shares_down.minus(total_cost);
    let n: usize = switches.len();
    let avg: Option<i64> = if n < 2 {
        None
    } else {
        proof {
            law_intervals_add_up(switches@);
        }
        let span: i128 = switches[n - 1] as i128 - switches[0] as i128;
        let mean: i128 = span / (n as i128 - 1);
        proof {
            vstd::arithmetic::div_mod::lemma_div_pos_is_pos(span as int, n - 1);
            vstd::arithmetic::div_mod::lemma_div_is_ordered_by_denominator(span as int, 1, n - 1);
            vstd::arithmetic::div_mod::lemma_div_basics(span as int);
        }
        Some(mean as i64)
    };
    Summary {
        trades: trades.len(),
        shares_up,
        shares_down,
        total_cost,
        pnl_if_up,
        pnl_if_down,
        realized: if same_text(won, "Up") {
            pnl_if_up
        } else {
            pnl_if_down
        },
        switches: n,
        avg_interval_secs: avg,
    }
}

} // verus!
