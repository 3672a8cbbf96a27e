//! Trading the up and down markets of Polymarket: which side of a market to buy,
//! when, how much, and what it has earned once the market is closed.
pub mod amount_laws;
pub mod arithmetic_laws;
pub mod binary64;
pub mod binary64_laws;
pub mod calendar;
pub mod config;
pub mod decimal;
pub mod decision_laws;
pub mod discovery;
pub mod discovery_laws;
pub mod history;
pub mod history_laws;
pub mod json;
pub mod models;
pub mod monitor;
pub mod monitor_laws;
pub mod order_laws;
pub mod redeem;
pub mod slug;
pub mod slug_laws;
pub mod strategy;
pub mod strategy_laws;
pub mod table;
pub mod text;
pub mod text_laws;
pub mod trade_laws;
pub mod trader;
pub mod trader_laws;
