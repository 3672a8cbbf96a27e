use std::time::Instant;
use updown::binary64::Binary64;
use updown::decimal::Decimal;
use updown::models::{MarketData, MarketDetails, MarketToken, TokenPrice};
use updown::monitor::MarketSnapshot;
use updown::strategy::{Side, Trend};
use updown::trader::{key_of, PendingBuy, Settlement, Trader};

const START: u64 = 1770091200;

fn of(x: f64) -> Binary64 {
    Binary64 { bits: x.to_bits() }
}

fn float(b: Binary64) -> f64 {
    f64::from_bits(b.bits)
}

fn trader(simulation: bool, cooldown: u64) -> Trader {
    Trader::new(
        simulation,
        of(0.99),
        of(0.05),
        of(0.99),
        cooldown,
        45,
        Some(of(10.0)),
        0,
        of(0.5),
        of(2.0),
    )
}

fn price(id: &str, cents: i128) -> Option<TokenPrice> {
    Some(TokenPrice {
        token_id: id.to_string(),
        bid: None,
        ask: Some(Decimal { mantissa: cents, scale: 2 }),
    })
}

fn snapshot(up: i128, down: i128, remaining: u64) -> MarketSnapshot {
    MarketSnapshot {
        market_name: "BTC 5m".to_string(),
        btc_market_15m: MarketData {
            condition_id: "0xc0ffee".to_string(),
            market_name: "BTC 5m".to_string(),
            up_token: price("u", up),
            down_token: price("d", down),
        },
        timestamp: Instant::now(),
        btc_15m_time_remaining: remaining,
        btc_15m_period_timestamp: START,
        market_duration_secs: 300,
    }
}

fn closed(up_won: bool, down_won: bool) -> MarketDetails {
    let token = |id: &str, winner: bool| MarketToken {
        token_id: id.to_string(),
        outcome: String::new(),
        winner,
    };
    MarketDetails {
        closed: true,
        end_date_iso: String::new(),
        tokens: vec![token("u", up_won), token("d", down_won)],
    }
}

#[test]
fn the_key_of_a_market_and_a_period() {
    assert_eq!(key_of("0xab", 300), "0xab:300");
    assert_eq!(key_of("", 0), ":0");
    assert_ne!(key_of("a:1", 2), key_of("a", 12));
}

#[test]
fn nothing_is_bought_without_time_or_prices() {
    let mut t: Trader = trader(true, 0);
    assert!(t.process_snapshot(&snapshot(52, 49, 0), START, true).is_none());
    assert!(t.process_snapshot(&snapshot(0, 49, 200), START, true).is_none());
    assert!(t.process_snapshot(&snapshot(52, -1, 200), START, true).is_none());
    let mut missing: MarketSnapshot = snapshot(52, 49, 200);
    missing.btc_market_15m.down_token = None;
    assert!(t.process_snapshot(&missing, START, true).is_none());
    let mut no_ask: MarketSnapshot = snapshot(52, 49, 200);
    no_ask.btc_market_15m.up_token.as_mut().unwrap().ask = None;
    assert!(t.process_snapshot(&no_ask, START, true).is_none());
    assert!(t.price_history.keys().is_empty());
}

#[test]
fn the_first_purchase_is_of_the_higher_side() {
    let mut t: Trader = trader(true, 0);
    let b: PendingBuy = t.process_snapshot(&snapshot(52, 49, 200), START + 100, true).unwrap();
    assert_eq!(b.side, Side::Up);
    assert_eq!(b.token_id, "u");
    assert_eq!(b.condition_id, "0xc0ffee");
    assert_eq!(b.period_timestamp, START);
    assert_eq!(b.market_duration_secs, 300);
    assert_eq!(b.market_name, "BTC 5m");
    assert_eq!(float(b.price), 0.52);
    assert_eq!(float(b.size), 19.23);
    assert_eq!(b.trend, Trend::Flat);
    assert!(!b.lock);
    assert!(b.no_position);
    assert_eq!(float(b.report.order_amount_raw), 10.0);
    assert_eq!(float(b.report.order_amount), 10.0);
    assert_eq!(float(b.report.cost_per_pair), 0.52);
    assert_eq!(float(b.report.up_shares), 19.23);
    assert_eq!(float(b.report.up_avg), (19.23 * 0.52) / 19.23);
    assert_eq!(float(b.report.down_shares), 0.0);
    assert_eq!(float(b.report.down_avg), 0.0);
    assert_eq!(float(b.report.invest_up), 19.23 * 0.52);
    assert_eq!(float(b.report.invest_down), 0.0);
    assert_eq!(float(b.report.total_invest), 19.23 * 0.52);
    assert_eq!(float(b.report.pnl_if_up_wins), 19.23 - 19.23 * 0.52);
    assert_eq!(float(b.report.pnl_if_down_wins), 0.0 - 19.23 * 0.52);
    // Nothing is ordered in a simulation.
    assert!(b.order_shares.is_none());
    let mut real: Trader = trader(false, 0);
    let c: PendingBuy = real.process_snapshot(&snapshot(52, 49, 200), START + 100, true).unwrap();
    assert_eq!(c.order_shares.map(float), Some((19.23f64 * 10000.0).round() / 10000.0));
    // The shares spend the amount to a hundredth of a share.
    assert!(19.23 * 0.52 <= 10.0 && 10.0 < 19.24 * 0.52);
}

#[test]
fn one_purchase_in_a_period_is_enough() {
    let mut t: Trader = trader(true, 0);
    let b: PendingBuy = t.process_snapshot(&snapshot(52, 49, 200), START + 100, true).unwrap();
    t.finish_buy(&b);
    let key: String = key_of("0xc0ffee", START);
    assert_eq!(float(t.position_under(&key).up_shares), 19.23);
    assert_eq!(t.wave_under(&key).buys_up_since_lock, 1);
    assert_eq!(t.wave_under(&key).flat_buys_since_lock, 1);
    for i in 1..100u64 {
        assert!(t.process_snapshot(&snapshot(57, 40, 100), START + 100 + i, true).is_none());
    }
    assert_eq!(t.price_history.get(&key).unwrap().ticks.len(), 1);
    // The next period starts anew.
    let mut next: MarketSnapshot = snapshot(52, 49, 200);
    next.btc_15m_period_timestamp = START + 300;
    assert!(t.process_snapshot(&next, START + 400, true).is_some());
}

#[test]
fn a_cheap_other_side_locks_what_is_held() {
    let mut t: Trader = trader(true, 0);
    let b: PendingBuy = t.process_snapshot(&snapshot(45, 40, 200), START + 100, false).unwrap();
    t.finish_buy(&b);
    let l: PendingBuy = t.process_snapshot(&snapshot(57, 44, 190), START + 110, false).unwrap();
    assert_eq!(l.side, Side::Down);
    assert!(l.lock);
    assert!(!l.no_position);
    assert_eq!(l.token_id, "d");
    assert_eq!(float(l.size), 22.72);
    assert_eq!(float(l.report.up_avg), (22.22 * 0.45) / 22.22);
    assert_eq!(float(l.report.down_shares), 22.72);
    t.finish_buy(&l);
    let key: String = key_of("0xc0ffee", START);
    assert_eq!(float(t.position_under(&key).up_shares), 22.22);
    assert_eq!(float(t.position_under(&key).down_shares), 22.72);
    assert_eq!(t.wave_under(&key).buys_up_since_lock, 0);
    assert_eq!(t.wave_under(&key).flat_buys_since_lock, 0);
}

#[test]
fn a_rising_side_is_bought_again() {
    let mut t: Trader = trader(true, 0);
    for i in 0..3u64 {
        let b = t.process_snapshot(&snapshot(50, 51, 200), START + i, true);
        assert_eq!(b.unwrap().side, Side::Down);
    }
    let b: PendingBuy = t.process_snapshot(&snapshot(52, 49, 200), START + 3, true).unwrap();
    assert_eq!(b.trend, Trend::UpRising);
    assert_eq!(b.side, Side::Up);
}

#[test]
fn the_last_five_prices_are_kept() {
    let mut t: Trader = trader(true, 0);
    for i in 0..8u64 {
        t.update_trend("k", i, of(i as f64), of(0.5));
    }
    let times: Vec<u64> = t.price_history.get("k").unwrap().ticks.iter().map(|x| x.time).collect();
    assert_eq!(times, vec![3, 4, 5, 6, 7]);
    assert_eq!(t.update_trend("other", 9, of(0.5), of(0.5)), Trend::Flat);
    assert_eq!(t.price_history.get("k").unwrap().ticks.len(), 5);
}

#[test]
fn the_cooldown_holds() {
    let mut t: Trader = trader(true, 10);
    assert!(t.process_snapshot(&snapshot(52, 49, 200), START + 100, true).is_some());
    assert!(t.process_snapshot(&snapshot(52, 49, 200), START + 109, true).is_none());
    assert!(t.process_snapshot(&snapshot(52, 49, 200), START + 99, true).is_none());
    assert!(t.process_snapshot(&snapshot(52, 49, 200), START + 110, true).is_some());
    // Another market has a cooldown of its own, and forgets the others.
    let mut other: MarketSnapshot = snapshot(52, 49, 200);
    other.btc_market_15m.condition_id = "0xother".to_string();
    assert!(t.process_snapshot(&other, START + 111, true).is_some());
    assert_eq!(t.last_buy.keys(), vec!["0xother"]);
}

#[test]
fn hourly_markets_have_their_own_cooldown() {
    for named in [false, true] {
        let mut t: Trader = trader(true, 0);
        let mut s: MarketSnapshot = snapshot(52, 49, 200);
        if named {
            s.market_name = "BTC 1h".to_string();
        } else {
            s.market_duration_secs = 3600;
        }
        assert!(t.process_snapshot(&s, START + 100, true).is_some());
        assert!(t.process_snapshot(&s, START + 144, true).is_none());
        assert!(t.process_snapshot(&s, START + 145, true).is_some());
    }
}

#[test]
fn a_new_period_ends_the_cooldown() {
    let mut t: Trader = trader(true, 1000);
    assert!(t.process_snapshot(&snapshot(52, 49, 200), START + 100, true).is_some());
    let mut next: MarketSnapshot = snapshot(52, 49, 200);
    next.btc_15m_period_timestamp = START + 300;
    assert!(t.process_snapshot(&next, START + 301, true).is_some());
    assert!(t.process_snapshot(&next, START + 302, true).is_none());
    t.reset_period();
    assert!(t.process_snapshot(&next, START + 303, true).is_some());
}

#[test]
fn a_trade_changes_its_own_side_and_market_only() {
    let mut t: Trader = trader(true, 0);
    t.record_trade("a", START, 300, Side::Up, "u", of(10.0), of(0.5));
    t.record_trade("b", START, 300, Side::Up, "u", of(7.0), of(0.5));
    t.record_trade("a", START + 300, 300, Side::Up, "u", of(5.0), of(0.5));
    t.record_trade("a", START, 300, Side::Down, "d", of(4.0), of(0.25));
    let a = t.position_under(&key_of("a", START));
    assert_eq!((float(a.up_shares), float(a.up_avg_price)), (10.0, 0.5));
    assert_eq!((float(a.down_shares), float(a.down_avg_price)), (4.0, 0.25));
    assert_eq!(float(t.position_under(&key_of("b", START)).up_shares), 7.0);
    assert_eq!(float(t.position_under(&key_of("a", START + 300)).up_shares), 5.0);
    let trade = t.trades.get(&key_of("a", START)).unwrap();
    assert_eq!(trade.up_token_id.as_deref(), Some("u"));
    assert_eq!(trade.down_token_id.as_deref(), Some("d"));
    assert!(t.position_under("nothing").nothing());
}

#[test]
fn a_trade_is_settled_after_its_market_has_closed() {
    let mut t: Trader = trader(false, 0);
    let key: String = key_of("a", START);
    t.record_trade("a", START, 300, Side::Up, "u", of(10.0), of(0.5));
    t.record_trade("a", START, 300, Side::Down, "d", of(4.0), of(0.25));
    assert!(t.closure_due(&key, START + 299).is_none());
    assert!(t.check_market_closure(START + 299).is_empty());
    assert_eq!(t.closure_due(&key, START + 300).as_deref(), Some("a"));
    assert_eq!(t.check_market_closure(START + 300), vec![key.clone()]);
    let mut open: MarketDetails = closed(true, false);
    open.closed = false;
    assert!(t.settle(&key, &open, START + 300).is_none());
    assert!(t.settle("other", &closed(true, false), START + 300).is_none());
    let s: Settlement = t.settle(&key, &closed(true, false), START + 300).unwrap();
    assert_eq!(s.condition_id, "a");
    assert_eq!(s.winner, Some(Side::Up));
    assert_eq!(float(s.total_cost), 6.0);
    assert_eq!(float(s.payout), 10.0);
    assert_eq!(float(s.pnl), 4.0);
    assert_eq!(s.redeem, Some(("u".to_string(), Side::Up)));
    assert_eq!(float(t.get_total_profit()), 4.0);
    assert_eq!(float(t.get_period_profit()), 4.0);
    assert!(t.trades.keys().is_empty());
    assert!(t.check_market_closure(START + 900).is_empty());
}

#[test]
fn what_is_earned_is_the_profit_of_the_winner() {
    for (up_won, down_won) in [(true, false), (false, true), (true, true)] {
        let mut t: Trader = trader(true, 0);
        let key: String = key_of("a", START);
        t.record_trade("a", START, 300, Side::Up, "u", of(10.0), of(0.5));
        t.record_trade("a", START, 300, Side::Down, "d", of(4.0), of(0.25));
        let p = t.position_under(&key);
        let s: Settlement = t.settle(&key, &closed(up_won, down_won), START + 300).unwrap();
        let expected: f64 = if up_won {
            float(p.pnl_if(Side::Up))
        } else {
            float(p.pnl_if(Side::Down))
        };
        assert_eq!(float(s.pnl), expected);
        // Nothing is redeemed in a simulation.
        assert!(s.redeem.is_none());
    }
}

#[test]
fn the_token_that_won_is_redeemed() {
    let mut t: Trader = trader(false, 0);
    t.record_trade("a", START, 300, Side::Down, "d", of(4.0), of(0.25));
    let s: Settlement = t.settle(&key_of("a", START), &closed(false, true), START + 300).unwrap();
    assert_eq!(s.redeem, Some(("d".to_string(), Side::Down)));
    // Hardly any share of up: the other token is named, though it is not known.
    t.record_trade("b", START, 300, Side::Up, "u", of(0.001), of(0.5));
    let s: Settlement = t.settle(&key_of("b", START), &closed(true, false), START + 300).unwrap();
    assert_eq!(s.redeem, Some((String::new(), Side::Down)));
    t.record_trade("c", START, 300, Side::Up, "u", of(5.0), of(0.5));
    let s: Settlement = t.settle(&key_of("c", START), &closed(false, true), START + 300).unwrap();
    assert_eq!(s.winner, None);
    assert_eq!(s.redeem, None);
    assert_eq!(float(s.pnl), -2.5);
}

#[test]
fn a_condition_is_settled_once_in_a_period() {
    let mut t: Trader = trader(true, 0);
    t.record_trade("a", START, 300, Side::Up, "u", of(10.0), of(0.5));
    t.record_trade("a", START + 300, 300, Side::Up, "u", of(10.0), of(0.5));
    assert!(t.settle(&key_of("a", START), &closed(true, false), START + 900).is_some());
    assert!(t.closure_due(&key_of("a", START + 300), START + 900).is_none());
    assert!(t.settle(&key_of("a", START + 300), &closed(true, false), START + 900).is_none());
    t.reset_period();
    assert!(t.settle(&key_of("a", START + 300), &closed(true, false), START + 900).is_some());
    assert_eq!(float(t.get_total_profit()), 10.0);
}

#[test]
fn profits_are_told_once_there_are_any() {
    let mut t: Trader = trader(true, 0);
    assert!(t.profits_to_tell().is_none());
    t.record_trade("a", START, 300, Side::Up, "u", of(10.0), of(0.5));
    t.settle(&key_of("a", START), &closed(true, false), START + 900);
    let (period, total) = t.profits_to_tell().unwrap();
    assert_eq!((float(period), float(total)), (5.0, 5.0));
}

#[test]
fn a_simulation_tells_the_same_profit() {
    for (up_won, down_won) in [(true, false), (false, true)] {
        let mut told: Vec<(Option<Side>, f64, f64)> = Vec::new();
        for simulation in [true, false] {
            let mut t: Trader = trader(simulation, 0);
            t.record_trade("a", START, 300, Side::Up, "u", of(19.23), of(0.52));
            t.record_trade("a", START, 300, Side::Down, "d", of(22.72), of(0.44));
            let key: String = key_of("a", START);
            let s: Settlement = t.settle(&key, &closed(up_won, down_won), START + 300).unwrap();
            told.push((s.winner, float(s.payout), float(s.pnl)));
        }
        assert_eq!(told[0], told[1]);
    }
}

#[test]
fn settling_a_trade_leaves_the_others() {
    let mut t: Trader = trader(true, 0);
    t.record_trade("a", START, 300, Side::Up, "u", of(10.0), of(0.5));
    t.record_trade("b", START, 300, Side::Up, "u", of(6.0), of(0.5));
    assert!(t.settle(&key_of("a", START), &closed(true, false), START + 300).is_some());
    assert!(t.position_under(&key_of("a", START)).nothing());
    assert_eq!(float(t.position_under(&key_of("b", START)).up_shares), 6.0);
    assert!(t.settle(&key_of("b", START), &closed(true, false), START + 300).is_some());
    assert_eq!(float(t.get_total_profit()), 8.0);
}

#[test]
fn a_closed_market_without_a_winner_is_not_settled() {
    let mut t: Trader = trader(false, 0);
    let key: String = key_of("a", START);
    t.record_trade("a", START, 300, Side::Up, "u", of(10.0), of(0.5));
    assert!(t.settle(&key, &closed(false, false), START + 300).is_none());
    assert_eq!(float(t.get_total_profit()), 0.0);
    assert_eq!(float(t.get_period_profit()), 0.0);
    assert_eq!(t.check_market_closure(START + 300), vec![key.clone()]);
    // Once the winner is known it is.
    let s: Settlement = t.settle(&key, &closed(true, false), START + 320).unwrap();
    assert_eq!(float(s.pnl), 5.0);
}

#[test]
fn nothing_is_bought_where_the_higher_side_is_too_dear() {
    let mut t: Trader = trader(false, 0);
    let mut s: MarketSnapshot = snapshot(52, 6, 200);
    s.btc_market_15m.up_token.as_mut().unwrap().ask =
        Some(Decimal { mantissa: 995, scale: 3 });
    assert!(t.process_snapshot(&s, START + 100, true).is_none());
}

#[test]
fn a_side_that_goes_on_rising_is_bought_twice() {
    let mut t: Trader = trader(true, 0);
    for i in 0..3u64 {
        t.update_trend(&key_of("0xc0ffee", START), START + i, of(0.50), of(0.51));
    }
    let first: PendingBuy = t.process_snapshot(&snapshot(52, 49, 200), START + 3, false).unwrap();
    t.finish_buy(&first);
    let second: PendingBuy = t.process_snapshot(&snapshot(52, 49, 199), START + 4, false).unwrap();
    t.finish_buy(&second);
    for b in [&first, &second] {
        assert_eq!((b.side, b.lock, b.trend), (Side::Up, false, Trend::UpRising));
        assert_eq!(float(b.price), 0.52);
    }
    let p = t.position_under(&key_of("0xc0ffee", START));
    assert_eq!(float(p.up_shares), 38.46);
    assert!((float(p.up_avg_price) - 0.52).abs() < 1e-15);
    assert_eq!(float(p.down_shares), 0.0);
}

#[test]
fn recorded_costs_add_up() {
    let mut t: Trader = trader(true, 0);
    let buys = [(19.23, 0.52), (22.72, 0.44), (11.11, 0.9), (100.0, 0.05)];
    let mut cost: f64 = 0.0;
    for (shares, price) in buys {
        t.record_trade("a", START, 300, Side::Up, "u", of(shares), of(price));
        cost += shares * price;
        let p = t.position_under(&key_of("a", START));
        let product: f64 = float(p.up_shares) * float(p.up_avg_price);
        assert!((product - cost).abs() < cost * 1e-14);
        assert!(float(p.up_avg_price) >= 0.05 && float(p.up_avg_price) <= 0.9);
    }
}
