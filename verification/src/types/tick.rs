//! Trade ticks from the price feed.
use vstd::prelude::*;
use vstd::string::*;

use crate::text::{bool_text, decimal_string, fixed_string, push_bool, push_decimal, push_fixed};

verus! {

#[derive(Debug, Clone, Copy, PartialEq, Eq, Structural)]
pub enum TickSource {
    Binance,
    Polymarket,
}

/// Name of a source, as displayed.
pub open spec fn source_text(s: TickSource) -> Seq<char> {
    match s {
        TickSource::Binance => "Binance"@,
        TickSource::Polymarket => "Polymarket"@,
    }
}

impl TickSource {
    /// Name of the source, as displayed.
    pub fn to_string(&self) -> (r: String)
        ensures
            r@ == source_text(*self),
    {
        match self {
            TickSource::Binance => String::from_str("Binance"),
            TickSource::Polymarket => String::from_str("Polymarket"),
        }
    }
}

/// One trade. Price and quantity are in fixed-point units (see `decimal`).
#[derive(Debug, Clone)]
pub struct PriceTick {
    pub source: TickSource,
    pub symbol: String,
    pub price: u64,
    pub quantity: u64,
    pub timestamp_ms: u64,
    pub is_buyer_maker: bool,
}

/// Displayed form of a tick: `[<source>] <symbol> price=<price with 6
/// decimals> qty=<quantity with 6 decimals> ts=<timestamp> maker=<flag>`.
pub open spec fn tick_text(t: PriceTick) -> Seq<char> {
    "["@ + source_text(t.source) + "] "@ + t.symbol@ + " price="@ + fixed_string(t.price as nat, 6)
        + " qty="@ + fixed_string(t.quantity as nat, 6) + " ts="@ + decimal_string(
        t.timestamp_ms as nat,
    ) + " maker="@ + bool_text(t.is_buyer_maker)
}

impl PriceTick {
    /// Displayed form (see `tick_text`).
    pub fn to_string(&self) -> (r: String)
        ensures
            r@ == tick_text(*self),
    {
        let mut s = String::from_str("[");
        s.append(self.source.to_string().as_str());
        s.append("] ");
        s.append(self.symbol.as_str());
        s.append(" price=");
        push_fixed(&mut s, self.price, 6);
        s.append(" qty=");
        push_fixed(&mut s, self.quantity, 6);
        s.append(" ts=");
        push_decimal(&mut s, self.timestamp_ms);
        s.append(" maker=");
        push_bool(&mut s, self.is_buyer_maker);
        assert(s@ =~= tick_text(*self));
        s
    }
}

} // verus!
