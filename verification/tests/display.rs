use retirement::types::order::{OrderId, OrderSide, OrderType};
use retirement::types::tick::TickSource;

#[test]
fn displayed_names() {
    assert_eq!(OrderId(17).to_string(), "OID-17");
    assert_eq!(OrderSide::Buy.to_string(), "BUY");
    assert_eq!(OrderSide::Sell.to_string(), "SELL");
    assert_eq!(OrderType::Market.to_string(), "MARKET");
    assert_eq!(OrderType::Limit.to_string(), "LIMIT");
    assert_eq!(TickSource::Binance.to_string(), "Binance");
    assert_eq!(TickSource::Polymarket.to_string(), "Polymarket");
}

use retirement::text::push_fixed;
use retirement::types::market::{AssetInfo, CryptoPair, Outcome};
use retirement::types::order::{Fill, Order, OrderRequest, OrderStatus};
use retirement::types::orderbook::{OrderbookEvent, OrderbookSnapshot, PriceLevel};
use retirement::types::tick::PriceTick;

fn fixed(v: u64, places: u32) -> String {
    let mut s = String::new();
    push_fixed(&mut s, v, places);
    s
}

#[test]
fn fixed_point_rendering() {
    assert_eq!(fixed(55_000_000, 4), "0.5500");
    assert_eq!(fixed(6_743_215_000_000, 6), "67432.150000");
    assert_eq!(fixed(0, 2), "0.00");
    assert_eq!(fixed(1_000_000_000, 0), "10");
    assert_eq!(fixed(12_345_678, 8), "0.12345678");
    // 0.12345 to four places: a tie, rounded to even.
    assert_eq!(fixed(12_345_000, 4), "0.1234");
    assert_eq!(fixed(12_355_000, 4), "0.1236");
    assert_eq!(fixed(12_345_001, 4), "0.1235");
    // 0.995 to two places carries into the integer part.
    assert_eq!(fixed(99_600_000, 2), "1.00");
    assert_eq!(fixed(u64::MAX, 2), "184467440737.10");
}

fn request(price: Option<u64>) -> OrderRequest {
    OrderRequest {
        asset_id: "12345".to_string(),
        side: OrderSide::Buy,
        order_type: OrderType::Limit,
        price,
        size: 1_000_000_000,
    }
}

#[test]
fn orders_and_fills_render() {
    assert_eq!(request(Some(45_000_000)).to_string(), "BUY LIMIT 12345 @ 0.4500 sz=10.0000");
    let mut market = request(None);
    market.order_type = OrderType::Market;
    assert_eq!(market.to_string(), "BUY MARKET 12345 @ MKT sz=10.0000");
    let order = Order { id: OrderId(3), request: request(Some(45_000_000)), status: OrderStatus::Pending, created_at: 0 };
    assert_eq!(order.to_string(), "[OID-3] BUY LIMIT 12345 @ 0.4500 sz=10.0000");
    let fill = Fill {
        order_id: OrderId(3),
        asset_id: "12345".to_string(),
        side: OrderSide::Sell,
        price: 45_000_000,
        size: 250_000_000,
        filled_at: 9,
    };
    assert_eq!(fill.to_string(), "Fill OID-3 SELL 12345 @ 0.4500 sz=2.5000");
}

#[test]
fn ticks_render() {
    let tick = PriceTick {
        source: TickSource::Binance,
        symbol: "BTCUSDT".to_string(),
        price: 6_743_215_000_000,
        quantity: 1_200_000,
        timestamp_ms: 1_700_000_000_123,
        is_buyer_maker: true,
    };
    assert_eq!(
        tick.to_string(),
        "[Binance] BTCUSDT price=67432.150000 qty=0.012000 ts=1700000000123 maker=true"
    );
}

#[test]
fn orderbook_events_render() {
    let snap = OrderbookEvent::Snapshot {
        asset_id: "a1".to_string(),
        market: "m".to_string(),
        bids: vec![PriceLevel { price: 40_000_000, size: 1 }],
        asks: vec![],
        timestamp: None,
    };
    assert_eq!(snap.to_string(), "[Snapshot] a1 bids=1 asks=0");
    let change = OrderbookEvent::PriceChange {
        asset_id: "a1".to_string(),
        market: "m".to_string(),
        price: 41_000_000,
        size: 500_000_000,
        side: "BUY".to_string(),
        best_bid: 41_000_000,
        best_ask: 43_000_000,
        timestamp: None,
    };
    assert_eq!(change.to_string(), "[PriceChange] a1 price=0.4100 bid=0.4100 ask=0.4300 side=BUY");
    let trade = OrderbookEvent::LastTrade {
        asset_id: "a1".to_string(),
        market: "m".to_string(),
        price: 42_000_000,
        size: 100_000_000,
        side: "SELL".to_string(),
        timestamp: None,
    };
    assert_eq!(trade.to_string(), "[LastTrade] a1 price=0.4200 size=1.0000 side=SELL");
}

#[test]
fn asset_info_renders() {
    assert_eq!(AssetInfo { crypto: CryptoPair::Eth, outcome: Outcome::Down }.to_string(), "ETH Down");
}

#[test]
fn order_book_renders_as_depth_table() {
    let info = AssetInfo { crypto: CryptoPair::Btc, outcome: Outcome::Up };
    let mut book = OrderbookSnapshot::new("1234567890".to_string(), info);
    let bids: Vec<PriceLevel> = (0..7u64)
        .map(|i| PriceLevel { price: 40_000_000 - i * 1_000_000, size: 1_000_000_000 + i })
        .collect();
    let asks = vec![PriceLevel { price: 45_000_000, size: 250_000_000 }];
    book.replace(bids, asks);
    let expected = [
        "  Orderbook 12345678 (BTC Up) | best_bid=0.40 best_ask=0.45\n",
        "        BID_SZ       BID_PX |       ASK_PX       ASK_SZ\n",
        "         10.00         0.40 |         0.45         2.50\n",
        "         10.00         0.39 |                          \n",
        "         10.00         0.38 |                          \n",
        "         10.00         0.37 |                          \n",
        "         10.00         0.36 |                          \n",
        "  ... +2 bids, +0 asks\n",
    ]
    .concat();
    assert_eq!(book.to_string(), expected);

    let empty = OrderbookSnapshot::new("ab".to_string(), info);
    assert_eq!(
        empty.to_string(),
        "  Orderbook ab (BTC Up) | best_bid=- best_ask=-\n        BID_SZ       BID_PX |       ASK_PX       ASK_SZ\n"
    );
}

#[test]
fn short_ids_cut_after_eight_bytes() {
    let info = AssetInfo { crypto: CryptoPair::Sol, outcome: Outcome::Down };
    // "é" takes two bytes: four of them end exactly at byte 8.
    let book = OrderbookSnapshot::new("ééééz".to_string(), info);
    assert!(book.to_string().starts_with("  Orderbook éééé (SOL Down)"));
}
