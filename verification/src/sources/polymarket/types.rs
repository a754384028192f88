//! Messages of the prediction-market APIs and their conversion into the
//! library's market and order-book types.
use vstd::prelude::*;
use vstd::string::*;

use crate::decimal::{decimal_units, parse_decimal};
use crate::types::market::Market;
use crate::types::orderbook::{OrderbookEvent, PriceLevel};

verus! {

/// The list of strings that a JSON text encodes (`None` when the text is
/// not a JSON array of strings).
pub uninterp spec fn json_string_list(text: Seq<char>) -> Option<Seq<Seq<char>>>;

/// Calls `serde_json::from_str::<Vec<String>>`. Trusted: the result is
/// `json_string_list` of the text, the strings taken by their characters;
/// parsing depends on the text alone. What `json_string_list` is on a given
/// text is not stated here.
#[verifier::external_body]
fn parse_json_string_list(text: &str) -> (r: Option<Vec<String>>)
    ensures
        match r {
            Some(v) => json_string_list(text@) == Some(v@.map_values(|s: String| s@)),
            None => json_string_list(text@) is None,
        },
{
    serde_json::from_str::<Vec<String>>(text).ok()
}

/// Response of the market-data API for one market. The list fields hold
/// JSON-encoded arrays of strings, e.g. `"[\"Up\",\"Down\"]"`.
#[derive(Debug, Clone)]
pub struct GammaMarketResponse {
    pub id: Option<String>,
    pub slug: Option<String>,
    pub question: Option<String>,
    pub condition_id: Option<String>,
    pub outcomes: Option<String>,
    pub outcome_prices: Option<String>,
    pub clob_token_ids: Option<String>,
    pub active: Option<bool>,
    pub closed: Option<bool>,
}

/// The strings a JSON-encoded list field holds: none when the field is
/// missing or is not a JSON array of strings.
pub open spec fn listed_strings(field: Option<String>) -> Seq<Seq<char>> {
    match field {
        Some(s) => match json_string_list(s@) {
            Some(l) => l,
            None => Seq::empty(),
        },
        None => Seq::empty(),
    }
}

/// The prices among a list of texts, in order, skipping texts that are not
/// decimal numbers.
pub open spec fn parsed_prices(texts: Seq<Seq<char>>) -> Seq<u64>
    decreases texts.len(),
{
    if texts.len() == 0 {
        Seq::empty()
    } else {
        let before = parsed_prices(texts.drop_last());
        match decimal_units(texts.last()) {
            Some(p) => before.push(p),
            None => before,
        }
    }
}

pub open spec fn text_or_empty(s: Option<String>) -> Seq<char> {
    match s {
        Some(t) => t@,
        None => Seq::empty(),
    }
}

fn string_or_empty(s: Option<String>) -> (r: String)
    ensures
        r@ == text_or_empty(s),
{
    match s {
        Some(t) => t,
        None => String::new(),
    }
}

fn strings_of_field(field: &Option<String>) -> (r: Vec<String>)
    ensures
        r@.map_values(|s: String| s@) == listed_strings(*field),
{
    match field {
        Some(s) => match parse_json_string_list(s.as_str()) {
            Some(v) => v,
            None => {
                let v: Vec<String> = Vec::new();
                assert(v@.map_values(|s: String| s@) =~= Seq::<Seq<char>>::empty());
                v
            },
        },
        None => {
            let v: Vec<String> = Vec::new();
            assert(v@.map_values(|s: String| s@) =~= Seq::<Seq<char>>::empty());
            v
        },
    }
}

/// The outcome prices of a market from the texts its price list holds, in
/// order, skipping texts that are not decimal numbers.
pub fn parse_outcome_prices(price_texts: &Vec<String>) -> (r: Vec<u64>)
    ensures
        r@ == parsed_prices(price_texts@.map_values(|s: String| s@)),
{
    let ghost texts = price_texts@.map_values(|s: String| s@);
    let mut outcome_prices: Vec<u64> = Vec::new();
    let mut i: usize = 0;
    while i < price_texts.len()
        invariant
            i <= price_texts@.len(),
            texts == price_texts@.map_values(|s: String| s@),
            outcome_prices@ == parsed_prices(texts.take(i as int)),
        decreases price_texts@.len() - i,
    {
        proof {
            assert(texts.take(i as int + 1).drop_last() =~= texts.take(i as int));
            assert(texts.take(i as int + 1).last() == price_texts@[i as int]@);
        }
        match parse_decimal(price_texts[i].as_str()) {
            Some(p) => outcome_prices.push(p),
            None => {},
        }
        i = i + 1;
    }
    proof {
        assert(texts.take(texts.len() as int) =~= texts);
    }
    outcome_prices
}

impl GammaMarketResponse {
    /// The market this response describes: missing text fields become
    /// empty, missing flags false, list fields that are missing or not JSON
    /// string arrays become empty, and outcome prices that are not decimal
    /// numbers are skipped.
    pub fn into_market(self) -> (m: Market)
        ensures
            m.id@ == text_or_empty(self.id),
            m.slug@ == text_or_empty(self.slug),
            m.question@ == text_or_empty(self.question),
            m.condition_id@ == text_or_empty(self.condition_id),
            m.outcomes@.map_values(|s: String| s@) == listed_strings(self.outcomes),
            m.outcome_prices@ == parsed_prices(listed_strings(self.outcome_prices)),
            m.clob_token_ids@.map_values(|s: String| s@) == listed_strings(self.clob_token_ids),
            m.active == (self.active == Some(true)),
            m.closed == (self.closed == Some(true)),
    {
        let outcomes = strings_of_field(&self.outcomes);
        let price_texts = strings_of_field(&self.outcome_prices);
        let outcome_prices = parse_outcome_prices(&price_texts);
        let clob_token_ids = strings_of_field(&self.clob_token_ids);
        Market {
            id: string_or_empty(self.id),
            slug: string_or_empty(self.slug),
            question: string_or_empty(self.question),
            condition_id: string_or_empty(self.condition_id),
            outcomes,
            outcome_prices,
            clob_token_ids,
            active: match self.active {
                Some(b) => b,
                None => false,
            },
            closed: match self.closed {
                Some(b) => b,
                None => false,
            },
        }
    }
}

/// A price level as the order-book feed sends it.
#[derive(Debug, Clone)]
pub struct PolymarketLevel {
    pub price: String,
    pub size: String,
}

/// One price change as the order-book feed sends it.
#[derive(Debug, Clone)]
pub struct PolymarketPriceChange {
    pub asset_id: String,
    pub price: String,
    pub size: String,
    pub side: String,
    pub best_bid: String,
    pub best_ask: String,
}

/// An order-book feed event, by its event type.
#[derive(Debug, Clone)]
pub enum PolymarketWsEvent {
    Book {
        asset_id: String,
        market: String,
        bids: Vec<PolymarketLevel>,
        asks: Vec<PolymarketLevel>,
        timestamp: Option<String>,
    },
    PriceChange {
        market: String,
        price_changes: Vec<PolymarketPriceChange>,
        timestamp: Option<String>,
    },
    LastTradePrice {
        asset_id: String,
        market: String,
        price: String,
        size: String,
        side: String,
        timestamp: Option<String>,
    },
    TickSizeChange {
        asset_id: String,
        market: String,
        old_tick_size: String,
        new_tick_size: String,
        timestamp: Option<String>,
    },
}

/// A level whose price and size are both decimal numbers.
pub open spec fn level_of(l: PolymarketLevel) -> Option<PriceLevel> {
    match (decimal_units(l.price@), decimal_units(l.size@)) {
        (Some(price), Some(size)) => Some(PriceLevel { price, size }),
        _ => None,
    }
}

/// The levels that parse, in order.
pub open spec fn levels_of(ls: Seq<PolymarketLevel>) -> Seq<PriceLevel>
    decreases ls.len(),
{
    if ls.len() == 0 {
        Seq::empty()
    } else {
        let before = levels_of(ls.drop_last());
        match level_of(ls.last()) {
            Some(l) => before.push(l),
            None => before,
        }
    }
}

/// The order-book event of a price change whose four numbers all parse.
pub open spec fn change_event(market: String, pc: PolymarketPriceChange, timestamp: Option<String>) -> Option<
    OrderbookEvent,
> {
    match (
        decimal_units(pc.price@),
        decimal_units(pc.size@),
        decimal_units(pc.best_bid@),
        decimal_units(pc.best_ask@),
    ) {
        (Some(price), Some(size), Some(best_bid), Some(best_ask)) => Some(
            OrderbookEvent::PriceChange {
                asset_id: pc.asset_id,
                market,
                price,
                size,
                side: pc.side,
                best_bid,
                best_ask,
                timestamp,
            },
        ),
        _ => None,
    }
}

/// The events of the price changes that parse, in order.
pub open spec fn change_events(
    market: String,
    pcs: Seq<PolymarketPriceChange>,
    timestamp: Option<String>,
) -> Seq<OrderbookEvent>
    decreases pcs.len(),
{
    if pcs.len() == 0 {
        Seq::empty()
    } else {
        let before = change_events(market, pcs.drop_last(), timestamp);
        match change_event(market, pcs.last(), timestamp) {
            Some(e) => before.push(e),
            None => before,
        }
    }
}

fn level_exec(l: &PolymarketLevel) -> (r: Option<PriceLevel>)
    ensures
        r == level_of(*l),
{
    match (parse_decimal(l.price.as_str()), parse_decimal(l.size.as_str())) {
        (Some(price), Some(size)) => Some(PriceLevel { price, size }),
        _ => None,
    }
}

fn levels_exec(ls: &Vec<PolymarketLevel>) -> (r: Vec<PriceLevel>)
    ensures
        r@ == levels_of(ls@),
{
    let mut r: Vec<PriceLevel> = Vec::new();
    let mut i: usize = 0;
    while i < ls.len()
        invariant
            i <= ls@.len(),
            r@ == levels_of(ls@.take(i as int)),
        decreases ls@.len() - i,
    {
        proof {
            assert(ls@.take(i as int + 1).drop_last() =~= ls@.take(i as int));
        }
        match level_exec(&ls[i]) {
            Some(l) => r.push(l),
            None => {},
        }
        i = i + 1;
    }
    assert(ls@.take(ls@.len() as int) =~= ls@);
    r
}

fn clone_text(t: &Option<String>) -> (r: Option<String>)
    ensures
        r == *t,
{
    match t {
        Some(s) => Some(s.clone()),
        None => None,
    }
}

impl PolymarketWsEvent {
    /// The order-book events this feed event stands for: a book message
    /// gives one snapshot (levels whose price or size do not parse are
    /// skipped), a price-change message one event per change whose numbers
    /// all parse, a last-trade message one trade event when its price and
    /// size parse, and a tick-size change none.
    pub fn into_orderbook_events(self) -> (r: Vec<OrderbookEvent>)
        ensures
            match self {
                PolymarketWsEvent::Book { asset_id, market, bids, asks, timestamp } => {
                    &&& r@.len() == 1
                    &&& r@[0] matches OrderbookEvent::Snapshot {
                        asset_id: a,
                        market: m,
                        bids: b,
                        asks: k,
                        timestamp: t,
                    }
                    &&& a == asset_id && m == market && t == timestamp
                    &&& b@ == levels_of(bids@) && k@ == levels_of(asks@)
                },
                PolymarketWsEvent::PriceChange { market, price_changes, timestamp } => r@
                    == change_events(market, price_changes@, timestamp),
                PolymarketWsEvent::LastTradePrice { asset_id, market, price, size, side, timestamp } => {
                    match (decimal_units(price@), decimal_units(size@)) {
                        (Some(p), Some(s)) => r@ == seq![
                            OrderbookEvent::LastTrade {
                                asset_id,
                                market,
                                price: p,
                                size: s,
                                side,
                                timestamp,
                            },
                        ],
                        _ => r@.len() == 0,
                    }
                },
                PolymarketWsEvent::TickSizeChange { .. } => r@.len() == 0,
            },
    {
        match self {
            PolymarketWsEvent::Book { asset_id, market, bids, asks, timestamp } => {
                let b = levels_exec(&bids);
                let k = levels_exec(&asks);
                let mut r: Vec<OrderbookEvent> = Vec::new();
                r.push(OrderbookEvent::Snapshot { asset_id, market, bids: b, asks: k, timestamp });
                r
            },
            PolymarketWsEvent::PriceChange { market, price_changes, timestamp } => {
                let mut r: Vec<OrderbookEvent> = Vec::new();
                let mut i: usize = 0;
                while i < price_changes.len()
                    invariant
                        i <= price_changes@.len(),
                        r@ == change_events(market, price_changes@.take(i as int), timestamp),
                    decreases price_changes@.len() - i,
                {
                    proof {
                        assert(price_changes@.take(i as int + 1).drop_last() =~= price_changes@.take(
                            i as int,
                        ));
                    }
                    let pc = &price_changes[i];
                    match (
                        parse_decimal(pc.price.as_str()),
                        parse_decimal(pc.size.as_str()),
                        parse_decimal(pc.best_bid.as_str()),
                        parse_decimal(pc.best_ask.as_str()),
                    ) {
                        (Some(price), Some(size), Some(best_bid), Some(best_ask)) => {
                            r.push(
                                OrderbookEvent::PriceChange {
                                    asset_id: pc.asset_id.clone(),
                                    market: market.clone(),
                                    price,
                                    size,
                                    side: pc.side.clone(),
                                    best_bid,
                                    best_ask,
                                    timestamp: clone_text(&timestamp),
                                },
                            );
                        },
                        _ => {},
                    }
                    i = i + 1;
                }
                assert(price_changes@.take(price_changes@.len() as int) =~= price_changes@);
                r
            },
            PolymarketWsEvent::LastTradePrice { asset_id, market, price, size, side, timestamp } => {
                let p = match parse_decimal(price.as_str()) {
                    Some(p) => p,
                    None => return Vec::new(),
                };
                let s = match parse_decimal(size.as_str()) {
                    Some(s) => s,
                    None => return Vec::new(),
                };
                let mut r: Vec<OrderbookEvent> = Vec::new();
                r.push(OrderbookEvent::LastTrade { asset_id, market, price: p, size: s, side, timestamp });
                r
            },
            PolymarketWsEvent::TickSizeChange { .. } => Vec::new(),
        }
    }
}

} // verus!
