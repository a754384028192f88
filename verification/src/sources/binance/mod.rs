pub mod types;
pub mod ws;

pub use ws::BinanceWsClient;
