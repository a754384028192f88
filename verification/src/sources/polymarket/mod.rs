pub mod rest;
pub mod types;
pub mod ws;

pub use ws::PolymarketWsClient;
