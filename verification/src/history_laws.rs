//! What holds of the lines of a history and of what its trades come to.
use crate::binary64::{difference, product, sum, whole};
use crate::history::{
    history_cost, history_pnl, in_order, interval_sum, iso_fields, iso_pieces, iso_secs,
    law_intervals_add_up, mean_interval, of_time, side_cost, side_shares, switch_times,
    trade_of_line, trades_of_lines, won_side, HistoryTrade, IsoFields, LineView,
};
use crate::slug_laws::lacks;
use crate::strategy::{opposite, Side};
use crate::text::{
    all_digits, before, contains, ends_with, is_digit, number, starts_with, trim, trim_end_matches,
    words,
};
use crate::text_laws::{law_cut_at_first, law_end_is_taken_off, law_sign_is_read};
use vstd::prelude::*;

verus! {

/// Every trade counts, whatever its time: one more at the end adds its price times its
/// size to the cost of its side and its size to the shares of its side, and nothing to
/// the other side. No trades cost nothing and hold nothing.
pub proof fn law_every_trade_counts(trades: Seq<HistoryTrade>, t: HistoryTrade)
    ensures
        side_cost(trades.push(t), t.side) == sum(
            side_cost(trades, t.side),
            product(t.price, t.size),
        ),
        side_shares(trades.push(t), t.side) == sum(side_shares(trades, t.side), t.size),
        side_cost(trades.push(t), opposite(t.side)) == side_cost(trades, opposite(t.side)),
        side_shares(trades.push(t), opposite(t.side)) == side_shares(trades, opposite(t.side)),
        side_cost(Seq::empty(), t.side) == whole(0),
        side_shares(Seq::empty(), t.side) == whole(0),
{
    assert(trades.push(t).drop_last() =~= trades);
}

/// The two runs hold trades of the same sides, prices and sizes in the same order.
pub open spec fn same_but_for_times(a: Seq<HistoryTrade>, b: Seq<HistoryTrade>) -> bool {
    a.len() == b.len() && forall|i: int|
        0 <= i < a.len() ==> (#[trigger] a[i]).side == b[i].side && a[i].price == b[i].price
            && a[i].size == b[i].size
}

/// What trades cost and hold does not depend on their times.
pub proof fn law_times_do_not_count(a: Seq<HistoryTrade>, b: Seq<HistoryTrade>, side: Side)
    requires
        same_but_for_times(a, b),
    ensures
        side_cost(a, side) == side_cost(b, side),
        side_shares(a, side) == side_shares(b, side),
        history_cost(a) == history_cost(b),
        history_pnl(a, side) == history_pnl(b, side),
    decreases a.len(),
{
    if a.len() > 0 {
        let n = a.len() - 1;
        assert(a[n].side == b[n].side);
        assert forall|i: int| 0 <= i < n implies (#[trigger] a.drop_last()[i]).side
            == b.drop_last()[i].side && a.drop_last()[i].price == b.drop_last()[i].price
            && a.drop_last()[i].size == b.drop_last()[i].size by {
            assert(a[i].side == b[i].side);
        }
        law_times_do_not_count(a.drop_last(), b.drop_last(), side);
        law_times_do_not_count(a.drop_last(), b.drop_last(), opposite(side));
    }
}

/// Trades cost what both sides cost, and if a side wins they earn a dollar for each
/// share of it less that cost.
pub proof fn law_cost_and_profit(trades: Seq<HistoryTrade>, side: Side)
    ensures
        history_cost(trades) == sum(side_cost(trades, Side::Up), side_cost(trades, Side::Down)),
        history_pnl(trades, side) == difference(
            side_shares(trades, side),
            sum(side_cost(trades, Side::Up), side_cost(trades, Side::Down)),
        ),
{
}

/// A trade of another side than the one before is a change, at its own time. A trade
/// of the same side is none, nor is the first trade.
pub proof fn law_change_of_side_is_told(trades: Seq<HistoryTrade>, t: HistoryTrade)
    ensures
        switch_times(Seq::empty()) == Seq::<i64>::empty(),
        trades.len() == 0 ==> switch_times(trades.push(t)) == Seq::<i64>::empty(),
        trades.len() > 0 && trades.last().side != t.side ==> switch_times(trades.push(t))
            == switch_times(trades).push(t.time),
        trades.len() > 0 && trades.last().side == t.side ==> switch_times(trades.push(t))
            == switch_times(trades),
{
    assert(trades.push(t).drop_last() =~= trades);
}

/// The mean of the intervals, times their number, is the time from the first to the
/// last, up to whole seconds; with fewer than two times there is none.
pub proof fn law_mean_of_intervals(times: Seq<i64>)
    ensures
        mean_interval(times) is Some <==> times.len() >= 2,
        mean_interval(times) matches Some(m) ==> {
            let n = times.len() - 1;
            m * n <= times.last() - times[0] < (m + 1) * n
        },
{
    if times.len() >= 2 {
        let n = times.len() - 1;
        let x = interval_sum(times);
        law_intervals_add_up(times);
        vstd::arithmetic::div_mod::lemma_fundamental_div_mod(x, n);
        vstd::arithmetic::div_mod::lemma_mod_bound(x, n);
        let m = x / n;
        assert(m * n == n * m && (m + 1) * n == n * m + n) by (nonlinear_arith);
    }
}

/// Trades in order have each its time, none after a later one.
pub proof fn law_order_is_by_time(trades: Seq<HistoryTrade>)
    ensures
        in_order(trades) <==> forall|i: int, j: int|
            0 <= i < j < trades.len() ==> !((#[trigger] trades[j]).time < (
            #[trigger] trades[i]).time),
{
}

/// The trades of a time are all those of that time, in their order.
pub proof fn law_trades_of_a_time(trades: Seq<HistoryTrade>, t: HistoryTrade, time: i64)
    ensures
        of_time(Seq::empty(), time) == Seq::<HistoryTrade>::empty(),
        t.time == time ==> of_time(trades.push(t), time) == of_time(trades, time).push(t),
        t.time != time ==> of_time(trades.push(t), time) == of_time(trades, time),
{
    reveal(Seq::filter);
    assert(trades.push(t).drop_last() =~= trades);
}

/// Down has won where a history says so, up where it says that alone.
pub proof fn law_winner_is_told(s: Seq<char>)
    ensures
        contains(s, "Won: Down"@) ==> won_side(s) == "Down"@,
        contains(s, "Won: Up"@) && !contains(s, "Won: Down"@) ==> won_side(s) == "Up"@,
        !contains(s, "Won: Up"@) && !contains(s, "Won: Down"@) ==> won_side(s) == "Unknown"@,
{
}

/// Digits that write a number of the size that is read.
pub open spec fn writes_number(s: Seq<char>) -> bool {
    s.len() > 0 && all_digits(s) && number(s) <= i64::MAX
}

proof fn lemma_digits_lack(s: Seq<char>, c: char)
    requires
        all_digits(s),
        !is_digit(c),
    ensures
        lacks(s, c),
{
    assert forall|i: int| 0 <= i < s.len() implies #[trigger] s[i] != c by {
        assert(is_digit(s[i]));
    }
}

/// A date and a time as they are written, with a text behind the seconds.
pub open spec fn written_time(
    year: Seq<char>,
    month: Seq<char>,
    day: Seq<char>,
    hour: Seq<char>,
    minute: Seq<char>,
    second: Seq<char>,
) -> Seq<char> {
    (year + seq!['-'] + (month + seq!['-'] + day)) + seq!['T'] + (hour + seq![':'] + (minute + seq![
        ':',
    ] + second))
}

proof fn lemma_date_lacks(year: Seq<char>, month: Seq<char>, day: Seq<char>, c: char)
    requires
        all_digits(year),
        all_digits(month),
        all_digits(day),
        !is_digit(c),
        c != '-',
    ensures
        lacks(year + seq!['-'] + (month + seq!['-'] + day), c),
{
    let month_day = month + seq!['-'] + day;
    let date = year + seq!['-'] + month_day;
    assert forall|i: int| 0 <= i < date.len() implies #[trigger] date[i] != c by {
        if i < year.len() {
            assert(date[i] == year[i]);
        } else if i > year.len() {
            let k = i - year.len() - 1;
            assert(date[i] == month_day[k]);
            if k < month.len() {
                assert(month_day[k] == month[k]);
            } else if k > month.len() {
                assert(month_day[k] == day[k - month.len() - 1]);
            }
        }
    }
}

/// What stands behind the digits of the seconds: nothing, or a fraction.
spec fn is_fraction(behind: Seq<char>) -> bool {
    behind.len() == 0 || (behind[0] == '.' && behind.last() != 'Z')
}

proof fn lemma_seconds(second: Seq<char>, behind: Seq<char>)
    requires
        writes_number(second),
        is_fraction(behind),
    ensures
        before(second + behind, '.') == second,
        (second + behind).last() != 'Z',
        (second + behind).len() > 0,
{
    let last = second + behind;
    assert(is_digit(second[second.len() - 1]));
    lemma_digits_lack(second, '.');
    if behind.len() == 0 {
        assert(last =~= second);
        law_cut_at_first(second, seq![], '.');
    } else {
        assert(last =~= second + seq!['.'] + behind.skip(1));
        law_cut_at_first(second, behind.skip(1), '.');
    }
}

/// A `Z` at the end is passed over.
proof fn lemma_zone(text: Seq<char>)
    requires
        text.len() > 0,
        text.last() != 'Z',
    ensures
        trim_end_matches(text, seq!['Z']) == text,
        trim_end_matches(text + seq!['Z'], seq!['Z']) == text,
{
    let z = seq!['Z'];
    if ends_with(text, z) {
        assert(text.subrange(text.len() - 1, text.len() as int)[0] == text.last());
    }
    law_end_is_taken_off(text, z);
}

proof fn lemma_pieces(
    year: Seq<char>,
    month: Seq<char>,
    day: Seq<char>,
    hour: Seq<char>,
    minute: Seq<char>,
    second: Seq<char>,
    behind: Seq<char>,
)
    requires
        writes_number(year),
        writes_number(month),
        writes_number(day),
        writes_number(hour),
        writes_number(minute),
        writes_number(second),
        is_fraction(behind),
    ensures
        ({
            let text = written_time(year, month, day, hour, minute, second + behind);
            let pieces = Some(seq![year, month, day, hour, minute, second]);
            iso_pieces(text) == pieces && iso_pieces(text + seq!['Z']) == pieces
        }),
{
    let last = second + behind;
    let month_day = month + seq!['-'] + day;
    let date = year + seq!['-'] + month_day;
    let rest = minute + seq![':'] + last;
    let time = hour + seq![':'] + rest;
    let text = written_time(year, month, day, hour, minute, last);
    lemma_seconds(second, behind);
    assert(text.last() == last.last());
    lemma_zone(text);
    lemma_date_lacks(year, month, day, 'T');
    lemma_digits_lack(year, '-');
    lemma_digits_lack(month, '-');
    lemma_digits_lack(hour, ':');
    lemma_digits_lack(minute, ':');
    law_cut_at_first(date, time, 'T');
    law_cut_at_first(year, month_day, '-');
    law_cut_at_first(month, day, '-');
    law_cut_at_first(hour, rest, ':');
    law_cut_at_first(minute, last, ':');
}

proof fn lemma_time_is_read(
    year: Seq<char>,
    month: Seq<char>,
    day: Seq<char>,
    hour: Seq<char>,
    minute: Seq<char>,
    second: Seq<char>,
    behind: Seq<char>,
)
    requires
        writes_number(year),
        writes_number(month),
        writes_number(day),
        writes_number(hour),
        writes_number(minute),
        writes_number(second),
        is_fraction(behind),
    ensures
        ({
            let text = written_time(year, month, day, hour, minute, second + behind);
            let fields = Some(
                (IsoFields {
                    year: number(year) as int,
                    month: number(month) as int,
                    day: number(day) as int,
                    hour: number(hour) as int,
                    minute: number(minute) as int,
                    second: number(second) as int,
                }),
            );
            iso_fields(text) == fields && iso_fields(text + seq!['Z']) == fields
        }),
{
    lemma_pieces(year, month, day, hour, minute, second, behind);
    law_sign_is_read(year);
    law_sign_is_read(month);
    law_sign_is_read(day);
    law_sign_is_read(hour);
    law_sign_is_read(minute);
    law_sign_is_read(second);
}

/// A date and a time are read as they are written: year, month and day between
/// dashes, hour, minute and second between colons. A fraction of a second and the `Z`
/// at the end change nothing.
pub proof fn law_time_is_read(
    year: Seq<char>,
    month: Seq<char>,
    day: Seq<char>,
    hour: Seq<char>,
    minute: Seq<char>,
    second: Seq<char>,
    fraction: Seq<char>,
)
    requires
        writes_number(year),
        writes_number(month),
        writes_number(day),
        writes_number(hour),
        writes_number(minute),
        writes_number(second),
        all_digits(fraction),
    ensures
        ({
            let text = written_time(year, month, day, hour, minute, second);
            let fine = written_time(
                year,
                month,
                day,
                hour,
                minute,
                second + (seq!['.'] + fraction),
            );
            let fields = Some(
                (IsoFields {
                    year: number(year) as int,
                    month: number(month) as int,
                    day: number(day) as int,
                    hour: number(hour) as int,
                    minute: number(minute) as int,
                    second: number(second) as int,
                }),
            );
            &&& iso_fields(text) == fields
            &&& iso_fields(text + seq!['Z']) == fields
            &&& iso_fields(fine) == fields
            &&& iso_fields(fine + seq!['Z']) == fields
        }),
{
    assert(second + Seq::<char>::empty() =~= second);
    lemma_time_is_read(year, month, day, hour, minute, second, Seq::empty());
    let behind = seq!['.'] + fraction;
    if fraction.len() > 0 {
        assert(is_digit(fraction[fraction.len() - 1]));
    }
    lemma_time_is_read(year, month, day, hour, minute, second, behind);
}

/// A text without the mark between date and time tells no time.
pub proof fn law_time_needs_its_mark(s: Seq<char>)
    requires
        lacks(s, 'T'),
    ensures
        iso_fields(s) is None,
        s.len() > 0 && s.last() != 'Z' ==> iso_fields(s + seq!['Z']) is None,
{
    lemma_shorter_lacks(s, seq!['Z'], 'T');
    law_cut_at_first(trim_end_matches(s, seq!['Z']), seq![], 'T');
    if s.len() > 0 && s.last() != 'Z' {
        lemma_zone(s);
    }
}

proof fn lemma_shorter_lacks(s: Seq<char>, p: Seq<char>, c: char)
    requires
        lacks(s, c),
    ensures
        lacks(trim_end_matches(s, p), c),
    decreases s.len(),
{
    if p.len() > 0 && ends_with(s, p) {
        let front = s.take(s.len() - p.len());
        assert forall|i: int| 0 <= i < front.len() implies #[trigger] front[i] != c by {
            assert(front[i] == s[i]);
        }
        lemma_shorter_lacks(front, p, c);
    }
}

/// Seconds count 86400 for a day, 31 days for a month and 372 for a year, and 56 years
/// of 365 days up to the first instant of 2026.
pub proof fn law_seconds_apart(a: IsoFields, b: IsoFields)
    ensures
        b.secs() - a.secs() == 86400 * (372 * (b.year - a.year) + 31 * (b.month - a.month) + (b.day
            - a.day)) + 3600 * (b.hour - a.hour) + 60 * (b.minute - a.minute) + (b.second
            - a.second),
        a == (IsoFields { year: 2026, month: 1, day: 1, hour: 0, minute: 0, second: 0 })
            ==> a.secs() == 56 * 365 * 86400,
{
}

/// A date and a time have their seconds exactly where their numbers can be read and the
/// seconds fit.
pub proof fn law_time_tells_seconds(s: Seq<char>)
    ensures
        iso_fields(s) is None ==> iso_secs(s) is None,
        iso_fields(s) matches Some(f) ==> i64::MIN <= f.secs() <= i64::MAX ==> iso_secs(s) == Some(
            f.secs(),
        ),
        iso_fields(s) matches Some(f) ==> !(i64::MIN <= f.secs() <= i64::MAX) ==> iso_secs(s)
            is None,
{
}

/// The name of a side.
pub open spec fn side_name(side: Side) -> Seq<char> {
    match side {
        Side::Up => "Up"@,
        Side::Down => "Down"@,
    }
}

proof fn lemma_names()
    ensures
        "Up"@ != "Down"@,
        "Up"@ != "BUY"@,
        "Down"@ != "BUY"@,
{
    reveal_strlit("Up");
    reveal_strlit("Down");
    reveal_strlit("BUY");
    assert("Up"@.len() == 2 && "Down"@.len() == 4 && "BUY"@.len() == 3);
}

/// A line of a table: it is none of the headings and rules, and it has six words.
pub open spec fn is_row(s: Seq<char>) -> bool {
    let line = trim(s);
    line.len() > 0 && !starts_with(line, ">"@) && !starts_with(line, "Market"@) && !starts_with(
        line,
        "Condition"@,
    ) && !starts_with(line, "Time"@) && !starts_with(line, "-"@) && words(line).len() >= 6
}

/// The trade that time, side, price and size make, where the time can be read.
pub open spec fn tells(
    t: Option<LineView>,
    time: Seq<char>,
    side: Side,
    price: Seq<char>,
    size: Seq<char>,
) -> bool {
    match iso_secs(time) {
        Some(secs) => t == Some((LineView { time: secs, side, price, size })),
        None => t is None,
    }
}

/// A line that is no row tells of no trade.
pub proof fn law_other_lines_tell_no_trade(s: Seq<char>)
    requires
        !is_row(s),
    ensures
        trade_of_line(s) is None,
{
}

/// A row tells of the trade in its columns, in one of three layouts: time and then
/// `BUY` and a kind; a date, a time of day and then `BUY`; or time and a kind without
/// `BUY`. Behind that stand the side, the price and the size. A row without a side
/// there tells of no trade.
pub proof fn law_row_tells_its_trade(s: Seq<char>, side: Side)
    requires
        is_row(s),
    ensures
        ({
            let w = words(trim(s));
            let t = trade_of_line(s);
            let side_second = w[2] == "Up"@ || w[2] == "Down"@;
            &&& w[1] == "BUY"@ && w[2] != "BUY"@ && w[3] == side_name(side) ==> tells(
                t,
                w[0],
                side,
                w[4],
                w[5],
            )
            &&& w[1] != "BUY"@ && w[2] == "BUY"@ && !contains(w[0], "T"@) && w[3] == side_name(side)
                ==> tells(t, w[0] + "T"@ + w[1], side, w[4], w[5])
            &&& w[1] != "BUY"@ && w[2] == side_name(side) ==> tells(t, w[0], side, w[3], w[4])
            &&& w[1] != "BUY"@ && w[2] != "BUY"@ && !side_second && w[3] == side_name(side)
                ==> tells(t, w[0], side, w[4], w[5])
            &&& w[3] != "Up"@ && w[3] != "Down"@ && (w[1] == "BUY"@ || !side_second) ==> t is None
        }),
{
    lemma_names();
}

/// The time of a row is its first column, with the second behind it where the first is a
/// date alone and `BUY` stands in the third.
pub proof fn law_row_tells_its_time(s: Seq<char>)
    requires
        is_row(s),
    ensures
        ({
            let w = words(trim(s));
            let time = if contains(w[0], "T"@) || w[2] != "BUY"@ {
                w[0]
            } else {
                w[0] + "T"@ + w[1]
            };
            &&& iso_secs(time) is None ==> trade_of_line(s) is None
            &&& trade_of_line(s) matches Some(t) ==> iso_secs(time) == Some(t.time)
        }),
{
}

/// A row tells a trade of the side that stands in its third column, and where that is no
/// side, or `BUY` stands before it, of the side in the fourth.
pub proof fn law_row_tells_its_side(s: Seq<char>)
    requires
        is_row(s),
    ensures
        ({
            let w = words(trim(s));
            let third = w[1] != "BUY"@ && (w[2] == "Up"@ || w[2] == "Down"@);
            trade_of_line(s) matches Some(t) ==> {
                &&& third ==> w[2] == side_name(t.side) && t.price == w[3] && t.size == w[4]
                &&& !third ==> w[3] == side_name(t.side) && t.price == w[4] && t.size == w[5]
            }
        }),
{
    lemma_names();
}

/// The lines of a history are read one by one: the trades of a line come before those
/// of the lines behind it.
pub proof fn law_lines_are_read_in_turn(line: Seq<char>, rest: Seq<char>)
    requires
        lacks(line, '\n'),
    ensures
        trades_of_lines(line + seq!['\n'] + rest) == trades_of_lines(line) + trades_of_lines(rest),
        match trade_of_line(line) {
            Some(t) => trades_of_lines(line) == seq![t],
            None => trades_of_lines(line) == Seq::<LineView>::empty(),
        },
{
    law_cut_at_first(line, rest, '\n');
}

} // verus!
