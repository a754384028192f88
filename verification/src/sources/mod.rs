//! Market-data sources: the price feed and the prediction-market feed.
pub mod binance;
pub mod polymarket;
