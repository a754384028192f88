//! Trade events of the price feed's combined stream.
use vstd::prelude::*;

use crate::decimal::{decimal_units, parse_decimal};
use crate::text::{lower_text, to_lowercase};
use crate::types::{PriceTick, TickSource};

verus! {

/// Single trade event of the price feed. Price and quantity are decimal
/// texts as the feed sends them.
#[derive(Debug, Clone)]
pub struct BinanceTradeEvent {
    /// Event type (always "trade")
    pub event_type: String,
    /// Event time
    pub event_time: u64,
    /// Symbol (e.g. "BTCUSDT")
    pub symbol: String,
    /// Trade ID
    pub trade_id: u64,
    /// Price
    pub price: String,
    /// Quantity
    pub quantity: String,
    /// Trade time
    pub trade_time: u64,
    /// Is the buyer the market maker?
    pub is_buyer_maker: bool,
}

impl BinanceTradeEvent {
    /// The tick of this trade, with the symbol lower-cased; `None` when the
    /// price or the quantity is not a decimal number (see `parse_decimal`).
    pub fn into_tick(self) -> (r: Option<PriceTick>)
        ensures
            r is Some <==> decimal_units(self.price@) is Some && decimal_units(self.quantity@) is Some,
            r matches Some(t) ==> {
                &&& t.source == TickSource::Binance
                &&& t.symbol@ == lower_text(self.symbol@)
                &&& Some(t.price) == decimal_units(self.price@)
                &&& Some(t.quantity) == decimal_units(self.quantity@)
                &&& t.timestamp_ms == self.trade_time
                &&& t.is_buyer_maker == self.is_buyer_maker
            },
    {
        let price = match parse_decimal(self.price.as_str()) {
            Some(p) => p,
            None => return None,
        };
        let quantity = match parse_decimal(self.quantity.as_str()) {
            Some(q) => q,
            None => return None,
        };
        Some(
            PriceTick {
                source: TickSource::Binance,
                symbol: to_lowercase(self.symbol.as_str()),
                price,
                quantity,
                timestamp_ms: self.trade_time,
                is_buyer_maker: self.is_buyer_maker,
            },
        )
    }
}

/// Combined-stream wrapper: `{ "stream": "btcusdt@trade", "data": {...} }`.
#[derive(Debug, Clone)]
pub struct BinanceCombinedStream {
    pub stream: String,
    pub data: BinanceTradeEvent,
}

} // verus!
