//! Verified core of a trading bot for binary up/down crypto markets.
pub mod clock;
pub mod decimal;
pub mod strmap;
pub mod text;
pub mod types;
pub mod portfolio;
pub mod strategy;
pub mod sources;
pub mod config;
pub mod execution;
pub mod engine;
