use std::time::Instant;
use updown::decimal::Decimal;
use updown::models::{token_won, Market, MarketDetails, MarketToken, TokenPrice};
use updown::monitor::{format_remaining_time, FeedAction, IdleAction, MarketMonitor, PriceFeed};

fn market(slug: &str) -> Market {
    Market {
        condition_id: "0xc0ffee".to_string(),
        slug: slug.to_string(),
        active: true,
        closed: false,
    }
}

fn monitor(slug: &str, now: u64) -> MarketMonitor {
    MarketMonitor::new(
        "BTC 5m".to_string(),
        market(slug),
        1000,
        "WebSocket".to_string(),
        "https://clob.polymarket.com".to_string(),
        now,
    )
}

fn token(token_id: &str, outcome: &str, winner: bool) -> MarketToken {
    MarketToken {
        token_id: token_id.to_string(),
        outcome: outcome.to_string(),
        winner,
    }
}

fn details(end: &str, tokens: Vec<MarketToken>) -> MarketDetails {
    MarketDetails { closed: false, end_date_iso: end.to_string(), tokens }
}

fn cents(n: i128) -> Option<Decimal> {
    Some(Decimal { mantissa: n, scale: 2 })
}

#[test]
fn a_monitor_begins_without_tokens() {
    let m: MarketMonitor = monitor("btc-updown-15m-1770091200", 1770091299);
    assert_eq!(m.data_source, "websocket");
    assert!(m.uses_websocket());
    assert_eq!(m.period_duration_secs, 900);
    assert_eq!(m.current_period_timestamp, 1770091200);
    assert!(m.btc_15m_up_token_id.is_none());
    assert!(m.btc_15m_down_token_id.is_none());
    assert!(m.cached_period_end_timestamp.is_none());
    assert!(m.open_feed().is_none());
    assert_eq!(m.get_current_condition_id(), "0xc0ffee");
    assert_eq!(MarketMonitor::period_of(1770091299, 300), 1770091200);
}

#[test]
fn tokens_are_taken_by_their_outcome() {
    let mut m: MarketMonitor = monitor("btc-updown-5m-1770091200", 1770091200);
    assert!(m.token_refresh_due(0));
    let d: MarketDetails = details(
        "2026-02-03T04:05:00Z",
        vec![token("1", "Up", false), token("2", "down", false), token("3", "other", false)],
    );
    m.refresh_market_tokens(Some(&d), Instant::now());
    assert_eq!(m.btc_15m_up_token_id.as_deref(), Some("1"));
    assert_eq!(m.btc_15m_down_token_id.as_deref(), Some("2"));
    assert_eq!(m.cached_period_end_timestamp, Some(1770091500));
    assert!(!m.token_refresh_due(899));
    assert!(m.token_refresh_due(900));
    m.update_market(market("btc-updown-5m-1770091500"), 1770091501);
    assert!(m.btc_15m_up_token_id.is_none());
    assert!(m.btc_15m_down_token_id.is_none());
    assert!(m.cached_period_end_timestamp.is_none());
    assert!(m.token_refresh_due(0));
    assert_eq!(m.current_period_timestamp, 1770091500);
    assert_eq!(m.btc_market_15m.slug, "btc-updown-5m-1770091500");
}

#[test]
fn one_token_is_not_enough() {
    let mut m: MarketMonitor = monitor("btc-updown-5m-1770091200", 1770091200);
    m.refresh_market_tokens(None, Instant::now());
    assert!(m.token_refresh_due(0));
    let d: MarketDetails = details("never", vec![token("7", "1", false)]);
    m.refresh_market_tokens(Some(&d), Instant::now());
    assert_eq!(m.btc_15m_up_token_id.as_deref(), Some("7"));
    assert!(m.btc_15m_down_token_id.is_none());
    assert!(m.cached_period_end_timestamp.is_none());
    assert!(m.token_refresh_due(0));
    let e: MarketDetails = details("never", vec![token("8", "0", false), token("9", "0", false)]);
    m.refresh_market_tokens(Some(&e), Instant::now());
    assert_eq!(m.btc_15m_down_token_id.as_deref(), Some("9"));
    assert!(!m.token_refresh_due(0));
}

#[test]
fn when_a_market_began() {
    let mut m: MarketMonitor = monitor("btc-updown-5m-1770091200", 0);
    assert_eq!(m.market_timestamp(None), 1770091200);
    assert_eq!(m.get_current_market_timestamp(), 1770091200);
    m.update_market(market("bitcoin-up-or-down-february-2-11pm-et"), 0);
    assert_eq!(m.market_timestamp(Some(1770094800)), 1770091200);
    assert_eq!(m.market_timestamp(None), 0);
    m.cached_period_end_timestamp = Some(1770094800);
    assert_eq!(m.market_timestamp(None), 1770091200);
    m.cached_period_end_timestamp = Some(10);
    assert_eq!(m.market_timestamp(None), 0);
}

#[test]
fn a_snapshot_tells_how_much_time_is_left() {
    let m: MarketMonitor = monitor("btc-updown-5m-1770091200", 1770091200);
    let s = m.create_snapshot_from_prices(None, None, 1770091260, Instant::now());
    assert_eq!(s.btc_15m_time_remaining, 240);
    assert_eq!(s.btc_15m_period_timestamp, 1770091200);
    assert_eq!(s.market_duration_secs, 300);
    assert_eq!(s.market_name, "BTC 5m");
    assert_eq!(s.btc_market_15m.condition_id, "0xc0ffee");
    let late = m.create_snapshot_from_prices(None, None, 1770091500, Instant::now());
    assert_eq!(late.btc_15m_time_remaining, 0);
    let hour: MarketMonitor = monitor("bitcoin-up-or-down-february-2-11pm-et", 0);
    let h = hour.snapshot_of(None, None, 1770091201, Instant::now(), Some(1770094800));
    assert_eq!(h.btc_15m_time_remaining, 3599);
    assert_eq!(h.btc_15m_period_timestamp, 1770091200);
    assert_eq!(h.market_duration_secs, 3600);
}

#[test]
fn fetched_prices_make_a_snapshot() {
    let mut m: MarketMonitor = monitor("btc-updown-5m-1770091200", 1770091200);
    let d: MarketDetails =
        details("", vec![token("1", "Up", false), token("2", "Down", false)]);
    m.refresh_market_tokens(Some(&d), Instant::now());
    let s = m.fetch_market_data((cents(51), cents(52)), (None, None), 1770091200, Instant::now());
    let up: TokenPrice = s.btc_market_15m.up_token.unwrap();
    assert_eq!(up.token_id, "1");
    assert_eq!(up.bid, cents(51));
    assert_eq!(up.ask, cents(52));
    assert!(s.btc_market_15m.down_token.is_none());
    let t = m.fetch_market_data((None, None), (cents(48), None), 1770091200, Instant::now());
    assert!(t.btc_market_15m.up_token.is_none());
    assert_eq!(t.btc_market_15m.down_token.unwrap().ask, None);
    assert!(MarketMonitor::fetch_token_price(&None, cents(1), cents(2)).is_none());
}

#[test]
fn remaining_time_is_written() {
    assert_eq!(format_remaining_time(0), "0s");
    assert_eq!(format_remaining_time(59), "59s");
    assert_eq!(format_remaining_time(60), "1m 0s");
    assert_eq!(format_remaining_time(247), "4m 7s");
    assert_eq!(format_remaining_time(3600), "60m 0s");
}

fn feed() -> PriceFeed {
    let mut m: MarketMonitor = monitor("btc-updown-5m-1770091200", 1770091200);
    let d: MarketDetails =
        details("", vec![token("11", "Up", false), token("22", "Down", false)]);
    m.refresh_market_tokens(Some(&d), Instant::now());
    m.open_feed().unwrap()
}

#[test]
fn a_feed_subscribes_to_both_tokens() {
    let mut f: PriceFeed = feed();
    assert_eq!(f.subscribe_message(), "{\"assets_ids\":[\"11\",\"22\"],\"type\":\"market\"}");
    f.up_id = "a\"b\\".to_string();
    let v: serde_json::Value = serde_json::from_str(&f.subscribe_message()).unwrap();
    assert_eq!(v["assets_ids"][0].as_str(), Some("a\"b\\"));
    assert_eq!(v["type"].as_str(), Some("market"));
}

#[test]
fn ids_are_escaped_in_a_subscription() {
    let mut f: PriceFeed = feed();
    let mut id: String = String::new();
    for code in 0u32..0x180 {
        id.push(char::from_u32(code).unwrap());
    }
    f.up_id = id.clone();
    f.down_id = "\u{1}\u{1f}\n\"\\".to_string();
    let v: serde_json::Value = serde_json::from_str(&f.subscribe_message()).unwrap();
    assert_eq!(v["assets_ids"][0].as_str(), Some(id.as_str()));
    assert!(f.subscribe_message().contains("\"\\u0001\\u001f\\n\\\"\\\\\""));
}

#[test]
fn a_snapshot_begins_with_its_market() {
    for slug in ["btc-updown-5m-1770091200", "bitcoin-up-or-down-february-2-11pm-et"] {
        for hourly in [None, Some(1770094800)] {
            for cached in [None, Some(1770098400)] {
                let mut m: MarketMonitor = monitor(slug, 0);
                m.cached_period_end_timestamp = cached;
                let s = m.snapshot_of(None, None, 1770091201, Instant::now(), hourly);
                assert_eq!(s.btc_15m_period_timestamp, m.market_timestamp(hourly));
            }
        }
    }
}

#[test]
fn best_prices_come_over_a_feed() {
    let mut f: PriceFeed = feed();
    let text: &str = "{\"event_type\":\"best_bid_ask\",\"asset_id\":\"11\",\"best_bid\":\"0.51\",\"best_ask\":\"0.52\"}";
    assert_eq!(f.on_text(text, "0xc0ffee", 999, 1000), FeedAction::Wait);
    assert_eq!(f.on_text(text, "0xc0ffee", 1000, 1000), FeedAction::Snapshot);
    let (up, down) = f.prices();
    assert_eq!(up.as_ref().unwrap().bid, cents(51));
    assert_eq!(up.as_ref().unwrap().ask, cents(52));
    assert_eq!(up.unwrap().token_id, "11");
    assert!(down.is_none());
    let other: &str = "{\"event_type\":\"best_bid_ask\",\"asset_id\":\"22\",\"best_bid\":\"x\",\"best_ask\":\"1\"}";
    assert_eq!(f.on_text(other, "0xc0ffee", 0, 1000), FeedAction::Wait);
    let (up, down) = f.prices();
    assert!(up.is_some());
    assert_eq!(down.as_ref().unwrap().bid, None);
    assert_eq!(down.unwrap().ask, Some(Decimal { mantissa: 1, scale: 0 }));
}

#[test]
fn changes_of_both_tokens_come_in_one_message() {
    let mut f: PriceFeed = feed();
    let text: &str = "{\"event_type\":\"price_change\",\"price_changes\":[{\"asset_id\":\"22\",\"best_bid\":\"0.40\",\"best_ask\":\"0.41\"},{\"asset_id\":\"11\",\"best_ask\":\"0.60\"},{\"asset_id\":\"22\",\"best_bid\":\"0.42\",\"best_ask\":\"0.43\"},{\"asset_id\":\"33\"}]}";
    assert_eq!(f.on_text(text, "0xc0ffee", 5000, 1000), FeedAction::Snapshot);
    let (up, down) = f.prices();
    assert_eq!(up.as_ref().unwrap().bid, None);
    assert_eq!(up.unwrap().ask, cents(60));
    assert_eq!(down.as_ref().unwrap().bid, cents(42));
    assert_eq!(down.unwrap().ask, cents(43));
}

#[test]
fn other_messages_are_passed_over() {
    for text in [
        "PONG",
        "not json",
        "{}",
        "[]",
        "{\"event_type\":\"book\",\"asset_id\":\"11\",\"best_bid\":\"0.51\"}",
        "{\"event_type\":\"best_bid_ask\",\"asset_id\":\"33\",\"best_bid\":\"0.51\"}",
        "{\"event_type\":\"best_bid_ask\",\"best_bid\":\"0.51\"}",
        "{\"event_type\":\"price_change\"}",
        "{\"event_type\":\"price_change\",\"price_changes\":[]}",
        "{\"event_type\":\"price_change\",\"price_changes\":[{\"asset_id\":\"33\"}]}",
        "{\"event_type\":7}",
    ] {
        let mut f: PriceFeed = feed();
        assert_eq!(f.on_text(text, "0xc0ffee", 5000, 1000), FeedAction::Wait, "{}", text);
        assert!(f.up_price.is_none() && f.down_price.is_none());
    }
}

#[test]
fn a_feed_is_opened_anew_for_another_market() {
    let mut f: PriceFeed = feed();
    let text: &str = "{\"event_type\":\"best_bid_ask\",\"asset_id\":\"11\",\"best_ask\":\"0.52\"}";
    assert_eq!(f.on_text(text, "0xother", 5000, 1000), FeedAction::Reconnect);
    assert!(f.up_price.is_none());
    assert_eq!(f.on_idle("0xother", 0), IdleAction::Reconnect);
    assert_eq!(f.on_idle("0xc0ffee", 4), IdleAction::Wait);
    assert_eq!(f.on_idle("0xc0ffee", 5), IdleAction::Ping);
}

#[test]
fn decimals_become_the_nearest_numbers() {
    for (m, s) in [(52i128, 2u32), (0, 0), (1, 0), (5, 3), (-7, 1), (123456789012345678, 20)] {
        let d: Decimal = Decimal { mantissa: m, scale: s };
        let x: f64 = rust_decimal::Decimal::from_i128_with_scale(m, s).to_string().parse().unwrap();
        assert_eq!(f64::from_bits(d.to_binary64().bits), x);
    }
    let top: Decimal = Decimal { mantissa: 79228162514264337593543950335, scale: 28 };
    assert_eq!(f64::from_bits(top.to_binary64().bits), 7.9228162514264337593543950335);
}

#[test]
fn decimals_of_every_cent() {
    for n in 0..=100i128 {
        let d: Decimal = Decimal { mantissa: n, scale: 2 };
        assert_eq!(f64::from_bits(d.to_binary64().bits), n as f64 / 100.0);
    }
}

#[test]
fn a_token_has_won_where_its_id_is_marked() {
    let v: Vec<MarketToken> = vec![token("1", "Up", false), token("2", "Down", true)];
    assert!(!token_won(&v, "1"));
    assert!(token_won(&v, "2"));
    assert!(!token_won(&v, "3"));
}
