//! Real-time index pipeline: exchange tickers are turned into composite index
//! values, rolling OHLC candles and throttled snapshots.
//!
//! Every function in this crate is verified. Calls into other crates stand
//! behind small wrappers whose contracts are stated but not proved.

pub mod binance;
pub mod bitget;
pub mod calculator;
pub mod candle;
pub mod client;
pub mod clock;
pub mod decimal;
pub mod exchange;
pub mod formula;
pub mod interval;
pub mod json;
pub mod manager;
pub mod persister;
pub mod price_updater;
pub mod text;
pub mod text_map;
pub mod ticker;
pub mod trade;
