//! What the program is started with and what it is set to.
use crate::binary64::{ratio, whole, Binary64};
use vstd::prelude::*;
use vstd::string::StringExecFns;

verus! {

/// What the program is started with.
#[derive(Debug)]
pub struct Args {
    pub simulation: bool,
    pub production: bool,
    /// Where the configuration is kept.
    pub config: String,
    /// Redeem what has been won, and do nothing else.
    pub redeem: bool,
    /// The one condition to redeem.
    pub condition_id: Option<String>,
}

impl Args {
    /// Whether orders are only simulated: production comes before simulation.
    pub fn is_simulation(&self) -> (r: bool)
        ensures
            r == (self.simulation && !self.production),
    {
        if self.production {
            false
        } else {
            self.simulation
        }
    }
}

/// What the program is set to.
#[derive(Debug, Clone)]
pub struct Config {
    pub polymarket: PolymarketConfig,
    pub trading: TradingConfig,
}

/// How the exchange is reached.
#[derive(Debug, Clone)]
pub struct PolymarketConfig {
    pub gamma_api_url: String,
    pub clob_api_url: String,
    pub api_key: Option<String>,
    pub api_secret: Option<String>,
    pub api_passphrase: Option<String>,
    pub private_key: Option<String>,
    pub proxy_wallet_address: Option<String>,
    pub signature_type: Option<u8>,
}

/// How the markets are traded.
#[derive(Debug, Clone)]
pub struct TradingConfig {
    pub check_interval_ms: u64,
    pub market_closure_check_interval_seconds: u64,
    pub data_source: String,
    pub markets: Vec<String>,
    /// The lengths of the markets to trade.
    pub timeframes: Vec<String>,
    /// What a pair may cost once a side is added.
    pub cost_per_pair_max: Binary64,
    /// No token is bought below this price.
    pub min_side_price: Binary64,
    /// No token is bought above this price.
    pub max_side_price: Binary64,
    /// The seconds between two purchases in a market.
    pub cooldown_seconds: u64,
    /// The seconds between two purchases in a market of an hour.
    pub cooldown_seconds_1h: u64,
    /// The amount of an order.
    pub shares: Option<Binary64>,
    /// Orders are smaller in the last seconds of a market, this many of them.
    pub size_reduce_after_secs: u64,
    /// The part of an order that is left at the end of a market.
    pub size_min_ratio: Binary64,
    /// The least amount of a smaller order.
    pub size_min_shares: Binary64,
}

/// The texts of a list.
pub open spec fn texts(v: Seq<String>) -> Seq<Seq<char>> {
    v.map_values(|s: String| s@)
}

pub fn default_market_closure_check_interval() -> (r: u64)
    ensures
        r == 20,
{
    20
}

pub fn default_data_source() -> (r: String)
    ensures
        r@ == "api"@,
{
    String::from_str("api")
}

/// A list of one text.
fn only(s: &str) -> (r: Vec<String>)
    ensures
        texts(r@) == seq![s@],
{
    let mut r: Vec<String> = Vec::new();
    r.push(String::from_str(s));
    proof {
        assert(texts(r@) =~= seq![s@]);
    }
    r
}

pub fn default_markets() -> (r: Vec<String>)
    ensures
        texts(r@) == seq!["btc"@],
{
    only("btc")
}

pub fn default_timeframes() -> (r: Vec<String>)
    ensures
        texts(r@) == seq!["5m"@],
{
    only("5m")
}

/// 1.01.
pub fn default_cost_per_pair_max() -> (r: Binary64)
    ensures
        r == ratio(101, 100),
{
    Binary64::from_ratio(false, 101, 100)
}

/// 0.05.
pub fn default_min_side_price() -> (r: Binary64)
    ensures
        r == ratio(5, 100),
{
    Binary64::from_ratio(false, 5, 100)
}

/// 0.99.
pub fn default_max_side_price() -> (r: Binary64)
    ensures
        r == ratio(99, 100),
{
    Binary64::from_ratio(false, 99, 100)
}

pub fn default_cooldown_seconds() -> (r: u64)
    ensures
        r == 0,
{
    0
}

pub fn default_cooldown_seconds_1h() -> (r: u64)
    ensures
        r == 45,
{
    45
}

pub fn default_size_reduce_after_secs() -> (r: u64)
    ensures
        r == 300,
{
    300
}

/// 0.5.
pub fn default_size_min_ratio() -> (r: Binary64)
    ensures
        r == ratio(1, 2),
{
    Binary64::from_ratio(false, 1, 2)
}

/// 5.
pub fn default_size_min_shares() -> (r: Binary64)
    ensures
        r == whole(5),
{
    Binary64::from_u64(5)
}

impl PolymarketConfig {
    /// The public addresses of the exchange, and no credentials.
    pub open spec fn is_default(&self) -> bool {
        &&& self.gamma_api_url@ == "https://gamma-api.polymarket.com"@
        &&& self.clob_api_url@ == "https://clob.polymarket.com"@
        &&& self.api_key is None
        &&& self.api_secret is None
        &&& self.api_passphrase is None
        &&& self.private_key is None
        &&& self.proxy_wallet_address is None
        &&& self.signature_type is None
    }
}

impl TradingConfig {
    /// Every setting is at its default, and no amount is set.
    pub open spec fn is_default(&self) -> bool {
        &&& self.check_interval_ms == 1000
        &&& self.market_closure_check_interval_seconds == 20
        &&& self.data_source@ == "api"@
        &&& texts(self.markets@) == seq!["btc"@]
        &&& texts(self.timeframes@) == seq!["5m"@]
        &&& self.cost_per_pair_max == ratio(101, 100)
        &&& self.min_side_price == ratio(5, 100)
        &&& self.max_side_price == ratio(99, 100)
        &&& self.cooldown_seconds == 0
        &&& self.cooldown_seconds_1h == 45
        &&& self.shares is None
        &&& self.size_reduce_after_secs == 300
        &&& self.size_min_ratio == ratio(1, 2)
        &&& self.size_min_shares == whole(5)
    }
}

impl Default for Config {
    fn default() -> (r: Config)
        ensures
            r.polymarket.is_default(),
            r.trading.is_default(),
    {
        Config {
            polymarket: PolymarketConfig {
                gamma_api_url: String::from_str("https://gamma-api.polymarket.com"),
                clob_api_url: String::from_str("https://clob.polymarket.com"),
                api_key: None,
                api_secret: None,
                api_passphrase: None,
                private_key: None,
                proxy_wallet_address: None,
                signature_type: None,
            },
            trading: TradingConfig {
                check_interval_ms: 1000,
                market_closure_check_interval_seconds: default_market_closure_check_interval(),
                data_source: default_data_source(),
                markets: default_markets(),
                timeframes: default_timeframes(),
                cost_per_pair_max: default_cost_per_pair_max(),
                min_side_price: default_min_side_price(),
                max_side_price: default_max_side_price(),
                cooldown_seconds: default_cooldown_seconds(),
                cooldown_seconds_1h: default_cooldown_seconds_1h(),
                shares: None,
                size_reduce_after_secs: default_size_reduce_after_secs(),
                size_min_ratio: default_size_min_ratio(),
                size_min_shares: default_size_min_shares(),
            },
        }
    }
}

} // verus!
