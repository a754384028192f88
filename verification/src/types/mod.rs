pub mod market;
pub mod order;
pub mod levels;
pub mod orderbook;
pub mod tick;

pub use market::{AssetInfo, CryptoPair, Market, Outcome};
pub use orderbook::{OrderbookEvent, OrderbookManager, PriceLevel};
pub use tick::{PriceTick, TickSource};
