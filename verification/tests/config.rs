use updown::binary64::Binary64;
use updown::config::{
    default_cooldown_seconds, default_cooldown_seconds_1h, default_cost_per_pair_max,
    default_data_source, default_market_closure_check_interval, default_markets,
    default_max_side_price, default_min_side_price, default_size_min_ratio,
    default_size_min_shares, default_size_reduce_after_secs, default_timeframes, Args, Config,
};

fn args(simulation: bool, production: bool) -> Args {
    Args {
        simulation,
        production,
        config: "config.json".to_string(),
        redeem: false,
        condition_id: None,
    }
}

fn float(b: Binary64) -> f64 {
    f64::from_bits(b.bits)
}

#[test]
fn production_comes_before_simulation() {
    assert!(args(true, false).is_simulation());
    assert!(!args(true, true).is_simulation());
    assert!(!args(false, true).is_simulation());
    assert!(!args(false, false).is_simulation());
}

#[test]
fn defaults() {
    assert_eq!(default_market_closure_check_interval(), 20);
    assert_eq!(default_data_source(), "api");
    assert_eq!(default_markets(), vec!["btc"]);
    assert_eq!(default_timeframes(), vec!["5m"]);
    assert_eq!(float(default_cost_per_pair_max()), 1.01);
    assert_eq!(float(default_min_side_price()), 0.05);
    assert_eq!(float(default_max_side_price()), 0.99);
    assert_eq!(default_cooldown_seconds(), 0);
    assert_eq!(default_cooldown_seconds_1h(), 45);
    assert_eq!(default_size_reduce_after_secs(), 300);
    assert_eq!(float(default_size_min_ratio()), 0.5);
    assert_eq!(float(default_size_min_shares()), 5.0);
}

#[test]
fn default_config_is_made_of_the_defaults() {
    let c: Config = Config::default();
    assert_eq!(c.polymarket.gamma_api_url, "https://gamma-api.polymarket.com");
    assert_eq!(c.polymarket.clob_api_url, "https://clob.polymarket.com");
    assert!(c.polymarket.api_key.is_none());
    assert!(c.polymarket.api_secret.is_none());
    assert!(c.polymarket.api_passphrase.is_none());
    assert!(c.polymarket.private_key.is_none());
    assert!(c.polymarket.proxy_wallet_address.is_none());
    assert!(c.polymarket.signature_type.is_none());
    assert_eq!(c.trading.check_interval_ms, 1000);
    assert_eq!(
        c.trading.market_closure_check_interval_seconds,
        default_market_closure_check_interval()
    );
    assert_eq!(c.trading.data_source, default_data_source());
    assert_eq!(c.trading.markets, default_markets());
    assert_eq!(c.trading.timeframes, default_timeframes());
    assert_eq!(c.trading.cost_per_pair_max, default_cost_per_pair_max());
    assert_eq!(c.trading.min_side_price, default_min_side_price());
    assert_eq!(c.trading.max_side_price, default_max_side_price());
    assert_eq!(c.trading.cooldown_seconds, default_cooldown_seconds());
    assert_eq!(c.trading.cooldown_seconds_1h, default_cooldown_seconds_1h());
    assert!(c.trading.shares.is_none());
    assert_eq!(c.trading.size_reduce_after_secs, default_size_reduce_after_secs());
    assert_eq!(c.trading.size_min_ratio, default_size_min_ratio());
    assert_eq!(c.trading.size_min_shares, default_size_min_shares());
}
