use updown::discovery::{
    discover_market, discover_market_for_asset_timeframe, read_timeframe, write_market_name,
    write_timeframe, DiscoveryError, MarketSearch, PeriodWatch,
};
use updown::models::Market;
use updown::monitor::MarketMonitor;

const NOW: u64 = 1770091299;

fn market(id: &str, active: bool, closed: bool) -> Market {
    Market {
        condition_id: id.to_string(),
        slug: "slug".to_string(),
        active,
        closed,
    }
}

#[test]
fn timeframes() {
    assert_eq!(read_timeframe("1h"), 60);
    assert_eq!(read_timeframe(" 1H "), 60);
    assert_eq!(read_timeframe("5M"), 5);
    assert_eq!(read_timeframe("15m"), 15);
    assert_eq!(read_timeframe("\u{212a}"), 15);
    assert_eq!(read_timeframe(""), 15);
    assert_eq!(write_timeframe(60), "1h");
    assert_eq!(write_timeframe(5), "5m");
    assert_eq!(write_timeframe(15), "15m");
    assert_eq!(write_market_name("btc", "5m"), "BTC 5m");
    assert_eq!(write_market_name("stra\u{df}e", "5m"), "STRASSE 5m");
}

#[test]
fn a_search_goes_back_three_periods() {
    let mut s: MarketSearch = discover_market("btc", "btc", 5, NOW).unwrap();
    let seen: Vec<String> = vec!["known".to_string()];
    assert_eq!(s.next_slug().as_deref(), Some("btc-updown-5m-1770091200"));
    assert!(s.take_answer(None, &seen).is_none());
    assert_eq!(s.next_slug().as_deref(), Some("btc-updown-5m-1770090900"));
    assert!(s.take_answer(Some(market("a", true, true)), &seen).is_none());
    assert_eq!(s.next_slug().as_deref(), Some("btc-updown-5m-1770090600"));
    assert!(s.take_answer(Some(market("b", false, false)), &seen).is_none());
    assert_eq!(s.next_slug().as_deref(), Some("btc-updown-5m-1770090300"));
    assert!(s.take_answer(Some(market("known", true, false)), &seen).is_none());
    assert!(s.next_slug().is_none());
    assert_eq!(
        s.not_found().message(),
        "Could not find active btc 5m up/down market. Set condition_id in config if needed."
    );
}

#[test]
fn a_search_ends_with_the_first_open_market() {
    let mut s: MarketSearch = discover_market("btc", "btc", 15, NOW).unwrap();
    let seen: Vec<String> = Vec::new();
    assert_eq!(s.next_slug().as_deref(), Some("btc-updown-15m-1770091200"));
    assert!(s.take_answer(Some(market("a", true, true)), &seen).is_none());
    assert_eq!(s.next_slug().as_deref(), Some("btc-updown-15m-1770090300"));
    let found: Market = s.take_answer(Some(market("b", true, false)), &seen).unwrap();
    assert_eq!(found.condition_id, "b");
}

#[test]
fn a_search_by_the_hour_shows_the_clock_of_new_york() {
    let mut s: MarketSearch = discover_market("btc", "btc", 60, 1770091299).unwrap();
    assert_eq!(s.next_slug().as_deref(), Some("bitcoin-up-or-down-february-2-11pm-et"));
    assert!(s.take_answer(None, &Vec::new()).is_none());
    assert_eq!(s.next_slug().as_deref(), Some("bitcoin-up-or-down-february-2-10pm-et"));
}

#[test]
fn slugs_of_a_search_tell_their_period() {
    for minutes in [5u64, 15] {
        let mut s: MarketSearch = discover_market("btc", "btc", minutes, NOW).unwrap();
        let current: u64 = NOW / (minutes * 60) * (minutes * 60);
        for i in 0..4u64 {
            let slug: String = s.next_slug().unwrap();
            assert_eq!(
                MarketMonitor::extract_timestamp_from_slug(&slug),
                current - i * minutes * 60
            );
            assert_eq!(MarketMonitor::extract_duration_from_slug(&slug), minutes * 60);
            s.take_answer(None, &Vec::new());
        }
    }
}

#[test]
fn what_cannot_be_searched() {
    match discover_market("btc", "btc", 30, NOW) {
        Err(e) => assert_eq!(
            e.message(),
            "Only 5m, 15m and 1h markets are supported, got 30m"
        ),
        Ok(_) => panic!("there are no markets of 30 minutes"),
    }
    match discover_market_for_asset_timeframe("doge", 5, NOW) {
        Err(e) => {
            assert!(matches!(e, DiscoveryError::UnsupportedAsset { .. }));
            assert_eq!(
                e.message(),
                "Unsupported asset: doge. This bot supports BTC only (5m market)."
            );
        }
        Ok(_) => panic!("only bitcoin is traded"),
    }
    assert!(matches!(
        discover_market_for_asset_timeframe("btc", 7, NOW),
        Err(DiscoveryError::UnsupportedDuration { minutes: 7 })
    ));
    let s: MarketSearch = discover_market_for_asset_timeframe("BTC", 5, NOW).unwrap();
    assert_eq!(s.market_name, "BTC");
    assert_eq!(s.next_slug().as_deref(), Some("btc-updown-5m-1770091200"));
}

#[test]
fn a_period_is_noticed_once() {
    let mut w: PeriodWatch = PeriodWatch::new(300);
    assert_eq!(w.sleep_secs(1770091200, 1770091299), 201);
    assert_eq!(w.sleep_secs(1770091200, 1770091500), 0);
    assert_eq!(w.notice(1770091299), Some(1770091200));
    assert_eq!(w.notice(1770091499), None);
    assert_eq!(w.notice(1770091500), Some(1770091500));
    assert_eq!(w.last_period, Some(1770091500));
}
