//! Subscription to the price feed's trade streams.
use vstd::prelude::*;
use vstd::string::*;

use crate::text::{lower_text, to_lowercase};

verus! {

/// Base address of the combined trade stream.
pub open spec fn binance_ws_base() -> Seq<char> {
    "wss://stream.binance.com:9443/stream?streams="@
}

/// The stream names of the symbols, `<lower-case symbol>@trade`, joined
/// with `/`.
pub open spec fn trade_streams(symbols: Seq<Seq<char>>) -> Seq<char>
    decreases symbols.len(),
{
    if symbols.len() == 0 {
        Seq::empty()
    } else if symbols.len() == 1 {
        lower_text(symbols[0]) + "@trade"@
    } else {
        trade_streams(symbols.drop_last()) + "/"@ + lower_text(symbols.last()) + "@trade"@
    }
}

pub struct BinanceWsClient {
    pub symbols: Vec<String>,
}

impl BinanceWsClient {
    pub fn new(symbols: Vec<String>) -> (c: Self)
        ensures
            c.symbols == symbols,
    {
        BinanceWsClient { symbols }
    }

    /// Address of the combined stream of all the client's symbols.
    pub fn build_url(&self) -> (r: String)
        ensures
            r@ == binance_ws_base() + trade_streams(self.symbols@.map_values(|s: String| s@)),
    {
        let ghost syms = self.symbols@.map_values(|s: String| s@);
        let mut url = String::from_str("wss://stream.binance.com:9443/stream?streams=");
        let mut i: usize = 0;
        while i < self.symbols.len()
            invariant
                i <= self.symbols@.len(),
                syms == self.symbols@.map_values(|s: String| s@),
                url@ == binance_ws_base() + trade_streams(syms.take(i as int)),
            decreases self.symbols@.len() - i,
        {
            proof {
                assert(syms.take(i as int + 1).drop_last() =~= syms.take(i as int));
                assert(syms.take(i as int + 1).last() == self.symbols@[i as int]@);
            }
            if i > 0 {
                url.append("/");
            }
            let lower = to_lowercase(self.symbols[i].as_str());
            url.append(lower.as_str());
            url.append("@trade");
            proof {
                if i == 0 {
                    assert(syms.take(1)[0] == self.symbols@[0]@);
                }
            }
            i = i + 1;
        }
        proof {
            assert(syms.take(self.symbols@.len() as int) =~= syms);
        }
        url
    }
}

} // verus!
