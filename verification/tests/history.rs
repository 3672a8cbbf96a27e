use updown::binary64::Binary64;
use updown::history::{
    extract_won, parse_iso_to_secs, parse_line, parse_lines, sort_trades, summarize, HistoryTrade,
    Summary, TradeLine,
};
use updown::strategy::Side;

fn of(x: f64) -> Binary64 {
    Binary64 { bits: x.to_bits() }
}

fn float(b: Binary64) -> f64 {
    f64::from_bits(b.bits)
}

fn trade(time: i64, side: Side, price: f64, size: f64) -> HistoryTrade {
    HistoryTrade { time, side, price: of(price), size: of(size) }
}

/// Seconds in months of 31 days, which are those of years of 365 days in 2026.
fn secs(y: i64, m: i64, d: i64, h: i64, min: i64, s: i64) -> i64 {
    let days: i64 = 56 * 365 + (y - 2026) * 372 + (m - 1) * 31 + (d - 1);
    days * 24 * 3600 + h * 3600 + min * 60 + s
}

#[test]
fn times_are_read() {
    assert_eq!(
        parse_iso_to_secs("2026-02-03T06:12:28.000Z"),
        Some(secs(2026, 2, 3, 6, 12, 28))
    );
    assert_eq!(parse_iso_to_secs("2026-02-03T06:12:28.000Z"), Some(1768889548));
    assert_eq!(parse_iso_to_secs("2026-01-01T00:00:00"), Some(56 * 365 * 86400));
    assert_eq!(parse_iso_to_secs("2026-01-01T00:00:07ZZ"), Some(56 * 365 * 86400 + 7));
    // A month past the twelfth, and one before the first.
    assert_eq!(parse_iso_to_secs("2025-14-03T06:12:28"), Some(1768889548));
    // Every time of 2026 has the seconds of years of 365 and months of 31 days.
    for (m, d) in [(1i64, 1i64), (2, 3), (3, 1), (7, 31), (12, 31)] {
        assert_eq!(
            parse_iso_to_secs(&format!("2026-{:02}-{:02}T01:02:03Z", m, d)),
            Some((2026 - 1970) * 365 * 86400 + (m - 1) * 31 * 86400 + (d - 1) * 86400 + 3723)
        );
    }
    assert_eq!(
        parse_iso_to_secs("2026-00-03T06:12:28"),
        Some(secs(2025, 12, 3, 6, 12, 28))
    );
    assert_eq!(parse_iso_to_secs("-1-1-1T0:0:0"), None);
    for s in ["", "2026-02-03", "2026-02T06:12:28", "2026-02-03T06:12", "2026-02-03T06:12:x"] {
        assert_eq!(parse_iso_to_secs(s), None, "{}", s);
    }
    // Beyond what 64 bits hold.
    assert_eq!(parse_iso_to_secs("9223372036854775807-01-01T00:00:00"), None);
}

#[test]
fn times_are_in_order() {
    let v: Vec<&str> = vec![
        "2023-12-31T23:59:59Z",
        "2024-02-28T23:59:59Z",
        "2024-02-29T00:00:00Z",
        "2024-03-01T00:00:00Z",
        "2024-12-31T23:59:59Z",
        "2025-01-01T00:00:00Z",
        "2025-12-31T23:59:59Z",
        "2026-01-01T00:00:00Z",
        "2026-01-31T23:59:59Z",
        "2026-02-01T00:00:00Z",
        "2026-02-01T00:00:01Z",
        "2026-02-01T00:01:00Z",
        "2026-02-01T01:00:00Z",
        "2026-02-30T00:00:00Z",
        "2026-03-01T00:00:00Z",
        "2026-03-02T00:00:00Z",
        "2026-12-31T23:59:59Z",
        "2028-01-01T00:00:00Z",
    ];
    for i in 1..v.len() {
        assert!(parse_iso_to_secs(v[i - 1]) < parse_iso_to_secs(v[i]), "{}", v[i]);
    }
}

#[test]
fn days_of_a_year_are_ordered_by_month_and_day() {
    let mut last: Option<i64> = None;
    for y in [2025, 2026, 2027] {
        for m in 1..=12 {
            for d in 1..=31 {
                let t: Option<i64> =
                    parse_iso_to_secs(&format!("{}-{:02}-{:02}T00:00:00Z", y, m, d));
                assert_eq!(t, Some(secs(y, m, d, 0, 0, 0)));
                assert!(last < t);
                last = t;
            }
        }
    }
}

#[test]
fn who_has_won() {
    assert_eq!(extract_won("x\nWon: Down token\n"), "Down");
    assert_eq!(extract_won("Won: Up"), "Up");
    assert_eq!(extract_won("Won: Up, Won: Down"), "Down");
    assert_eq!(extract_won("won: up"), "Unknown");
}

#[test]
fn lines_of_trades() {
    let l: TradeLine = parse_line("2026-02-03T06:12:28.000Z BUY x Up 0.52 24 rest").unwrap();
    assert_eq!(l.time, secs(2026, 2, 3, 6, 12, 28));
    assert_eq!(l.side, Side::Up);
    assert_eq!(l.price, "0.52");
    assert_eq!(l.size, "24");
    let m: TradeLine = parse_line("  2026-02-03T06:12:28Z 1 Down 0.44 10 y\t").unwrap();
    assert_eq!((m.side, m.price.as_str(), m.size.as_str()), (Side::Down, "0.44", "10"));
    let n: TradeLine = parse_line("2026-02-03T06:12:28Z 06:12 BUY Down 0.44 10").unwrap();
    assert_eq!((n.side, n.price.as_str(), n.size.as_str()), (Side::Down, "0.44", "10"));
    // The date in one column and the time in the next.
    let o: TradeLine = parse_line("2026-02-03 06:12:28.000Z BUY Up 0.52 24").unwrap();
    assert_eq!(o.time, 1768889548);
    assert_eq!((o.side, o.price.as_str(), o.size.as_str()), (Side::Up, "0.52", "24"));
    for s in [
        "",
        "   ",
        "2026-02-03 06:12:28Z SELL Up 0.52 24",
        "> a quote 1 2 3 4 5",
        "Market a b c d e f",
        "Condition a b c d e",
        "Time a b c d e f",
        "---- a b c d e f",
        "2026-02-03T06:12:28Z BUY x Up 0.52",
        "2026-02-03T06:12:28Z BUY x Sideways 0.52 24",
        "yesterday BUY x Up 0.52 24",
    ] {
        assert!(parse_line(s).is_none(), "{}", s);
    }
}

#[test]
fn all_lines_are_read() {
    let text: &str = "Time Side\r\n2026-02-03T06:12:28Z BUY x Up 0.52 24\r\n\n2026-02-03T06:12:29Z BUY x Down 0.44 10";
    let v: Vec<TradeLine> = parse_lines(text);
    assert_eq!(v.len(), 2);
    assert_eq!(v[0].side, Side::Up);
    assert_eq!(v[0].size, "24");
    assert_eq!(v[1].side, Side::Down);
    assert_eq!(v[1].size, "10");
    assert!(parse_lines("").is_empty());
}

#[test]
fn trades_of_one_time_stay_in_order() {
    let v: Vec<HistoryTrade> = vec![
        trade(5, Side::Up, 0.1, 1.0),
        trade(3, Side::Up, 0.2, 2.0),
        trade(5, Side::Down, 0.3, 3.0),
        trade(-1, Side::Up, 0.4, 4.0),
        trade(3, Side::Down, 0.5, 5.0),
    ];
    let r: Vec<HistoryTrade> = sort_trades(&v);
    let mut expected: Vec<HistoryTrade> = v.clone();
    expected.sort_by_key(|t| t.time);
    assert_eq!(r, expected);
    assert!(sort_trades(&Vec::new()).is_empty());
}

#[test]
fn what_trades_come_to() {
    let v: Vec<HistoryTrade> = vec![
        trade(0, Side::Up, 0.5, 10.0),
        trade(10, Side::Down, 0.25, 20.0),
        trade(12, Side::Down, 0.25, 4.0),
        trade(25, Side::Up, 0.5, 2.0),
        trade(31, Side::Down, 0.5, 2.0),
    ];
    let s: Summary = summarize(&v, "Up");
    assert_eq!(s.trades, 5);
    assert_eq!(float(s.shares_up), 12.0);
    assert_eq!(float(s.shares_down), 26.0);
    assert_eq!(float(s.total_cost), 13.0);
    assert_eq!(float(s.pnl_if_up), -1.0);
    assert_eq!(float(s.pnl_if_down), 13.0);
    assert_eq!(float(s.realized), -1.0);
    assert_eq!(s.switches, 3);
    // From 10 to 25 and from 25 to 31.
    assert_eq!(s.avg_interval_secs, Some(10));
    assert_eq!(float(summarize(&v, "Unknown").realized), 13.0);
}

#[test]
fn no_trades_come_to_nothing() {
    let s: Summary = summarize(&Vec::new(), "Down");
    assert_eq!(s.trades, 0);
    assert_eq!(float(s.total_cost), 0.0);
    assert_eq!(s.switches, 0);
    assert_eq!(s.avg_interval_secs, None);
    let one: Summary = summarize(
        &vec![trade(0, Side::Up, 0.5, 10.0), trade(9, Side::Down, 0.5, 10.0)],
        "Down",
    );
    assert_eq!(one.switches, 1);
    assert_eq!(one.avg_interval_secs, None);
}
