use retirement::sources::binance::types::BinanceTradeEvent;
use retirement::sources::binance::BinanceWsClient;
use retirement::sources::polymarket::rest::{crypto_price_url, market_by_slug_url};
use retirement::sources::polymarket::types::{
    parse_outcome_prices, GammaMarketResponse, PolymarketLevel, PolymarketPriceChange, PolymarketWsEvent,
};
use retirement::sources::polymarket::PolymarketWsClient;
use retirement::types::market::{AssetInfo, CryptoPair, Outcome};
use retirement::types::orderbook::{OrderbookEvent, PriceLevel};
use retirement::types::tick::TickSource;

fn trade(price: &str, qty: &str) -> BinanceTradeEvent {
    BinanceTradeEvent {
        event_type: "trade".to_string(),
        event_time: 1,
        symbol: "BTCUSDT".to_string(),
        trade_id: 2,
        price: price.to_string(),
        quantity: qty.to_string(),
        trade_time: 3,
        is_buyer_maker: true,
    }
}

#[test]
fn binance_trades_become_ticks() {
    let t = trade("67432.15000000", "0.00123000").into_tick().unwrap();
    assert_eq!(t.source, TickSource::Binance);
    assert_eq!(t.symbol, "btcusdt");
    assert_eq!(t.price, 6_743_215_000_000);
    assert_eq!(t.quantity, 123_000);
    assert_eq!(t.timestamp_ms, 3);
    assert!(t.is_buyer_maker);
    assert!(trade("x", "1").into_tick().is_none());
    assert!(trade("1", "").into_tick().is_none());
}

#[test]
fn binance_stream_url() {
    let c = BinanceWsClient::new(vec!["BTCUSDT".to_string(), "ethusdt".to_string()]);
    assert_eq!(c.build_url(), "wss://stream.binance.com:9443/stream?streams=btcusdt@trade/ethusdt@trade");
    let c = BinanceWsClient::new(vec![]);
    assert_eq!(c.build_url(), "wss://stream.binance.com:9443/stream?streams=");
}

fn level(p: &str, s: &str) -> PolymarketLevel {
    PolymarketLevel { price: p.to_string(), size: s.to_string() }
}

#[test]
fn book_messages_become_snapshots() {
    let ev = PolymarketWsEvent::Book {
        asset_id: "a".to_string(),
        market: "m".to_string(),
        bids: vec![level("0.48", "100"), level("bad", "1"), level("0.47", "20.5")],
        asks: vec![level("0.52", "10")],
        timestamp: Some("123".to_string()),
    };
    let out = ev.into_orderbook_events();
    assert_eq!(out.len(), 1);
    match &out[0] {
        OrderbookEvent::Snapshot { asset_id, market, bids, asks, timestamp } => {
            assert_eq!(asset_id, "a");
            assert_eq!(market, "m");
            assert_eq!(
                bids,
                &vec![
                    PriceLevel { price: 48_000_000, size: 10_000_000_000 },
                    PriceLevel { price: 47_000_000, size: 2_050_000_000 }
                ]
            );
            assert_eq!(asks, &vec![PriceLevel { price: 52_000_000, size: 1_000_000_000 }]);
            assert_eq!(timestamp.as_deref(), Some("123"));
        }
        other => panic!("unexpected {:?}", other),
    }
}

fn change(asset: &str, price: &str) -> PolymarketPriceChange {
    PolymarketPriceChange {
        asset_id: asset.to_string(),
        price: price.to_string(),
        size: "5".to_string(),
        side: "BUY".to_string(),
        best_bid: "0.5".to_string(),
        best_ask: "0.6".to_string(),
    }
}

#[test]
fn price_change_messages_become_one_event_per_change() {
    let ev = PolymarketWsEvent::PriceChange {
        market: "m".to_string(),
        price_changes: vec![change("a", "0.5"), change("b", "nope"), change("c", "0.55")],
        timestamp: None,
    };
    let out = ev.into_orderbook_events();
    assert_eq!(out.len(), 2);
    match &out[1] {
        OrderbookEvent::PriceChange { asset_id, market, price, size, side, best_bid, best_ask, .. } => {
            assert_eq!(asset_id, "c");
            assert_eq!(market, "m");
            assert_eq!(*price, 55_000_000);
            assert_eq!(*size, 500_000_000);
            assert_eq!(side, "BUY");
            assert_eq!((*best_bid, *best_ask), (50_000_000, 60_000_000));
        }
        other => panic!("unexpected {:?}", other),
    }
}

#[test]
fn trade_and_tick_size_messages() {
    let ev = PolymarketWsEvent::LastTradePrice {
        asset_id: "a".to_string(),
        market: "m".to_string(),
        price: "0.51".to_string(),
        size: "3".to_string(),
        side: "SELL".to_string(),
        timestamp: None,
    };
    let out = ev.into_orderbook_events();
    assert!(matches!(&out[..], [OrderbookEvent::LastTrade { price: 51_000_000, size: 300_000_000, .. }]));
    let bad = PolymarketWsEvent::LastTradePrice {
        asset_id: "a".to_string(),
        market: "m".to_string(),
        price: "?".to_string(),
        size: "3".to_string(),
        side: "SELL".to_string(),
        timestamp: None,
    };
    assert!(bad.into_orderbook_events().is_empty());
    let tick = PolymarketWsEvent::TickSizeChange {
        asset_id: "a".to_string(),
        market: "m".to_string(),
        old_tick_size: "0.01".to_string(),
        new_tick_size: "0.001".to_string(),
        timestamp: None,
    };
    assert!(tick.into_orderbook_events().is_empty());
}

#[test]
fn gamma_responses_become_markets() {
    let r = GammaMarketResponse {
        id: Some("42".to_string()),
        slug: Some("btc-updown-5m-1700000100".to_string()),
        question: None,
        condition_id: Some("0xabc".to_string()),
        outcomes: Some("[\"Up\",\"Down\"]".to_string()),
        outcome_prices: Some("[\"0.55\",\"x\",\"0.45\"]".to_string()),
        clob_token_ids: Some("[\"111\",\"222\"]".to_string()),
        active: Some(true),
        closed: None,
    };
    let m = r.into_market();
    assert_eq!(m.id, "42");
    assert_eq!(m.question, "");
    assert_eq!(m.outcomes, vec!["Up".to_string(), "Down".to_string()]);
    assert_eq!(m.outcome_prices, vec![55_000_000, 45_000_000]);
    assert_eq!(m.clob_token_ids, vec!["111".to_string(), "222".to_string()]);
    assert!(m.active);
    assert!(!m.closed);
    let assets = m.extract_assets(CryptoPair::Btc);
    assert_eq!(
        assets,
        vec![
            ("111".to_string(), AssetInfo { crypto: CryptoPair::Btc, outcome: Outcome::Up }),
            ("222".to_string(), AssetInfo { crypto: CryptoPair::Btc, outcome: Outcome::Down }),
        ]
    );
}

#[test]
fn gamma_lists_that_are_not_json_become_empty() {
    let r = GammaMarketResponse {
        id: None,
        slug: None,
        question: None,
        condition_id: None,
        outcomes: Some("not json".to_string()),
        outcome_prices: None,
        clob_token_ids: Some("[1,2]".to_string()),
        active: None,
        closed: Some(false),
    };
    let m = r.into_market();
    assert!(m.outcomes.is_empty());
    assert!(m.outcome_prices.is_empty());
    assert!(m.clob_token_ids.is_empty());
    assert_eq!(m.id, "");
    assert!(!m.active);
}

#[test]
fn request_addresses_and_messages() {
    assert_eq!(market_by_slug_url("btc-updown-5m-1"), "https://gamma-api.polymarket.com/markets/slug/btc-updown-5m-1");
    assert_eq!(
        crypto_price_url("BTC", "2024-01-01T00:00:00Z", "2024-01-01T00:05:00Z", "fiveminute"),
        "https://polymarket.com/api/crypto/crypto-price?symbol=BTC&eventStartTime=2024-01-01T00:00:00Z&endDate=2024-01-01T00:05:00Z&variant=fiveminute"
    );
    assert_eq!(
        PolymarketWsClient::subscription_message("123"),
        "{\"assets_ids\":[\"123\"],\"type\":\"market\"}"
    );
    assert_eq!(
        PolymarketWsClient::subscription_message("a\"b"),
        "{\"assets_ids\":[\"a\\\"b\"],\"type\":\"market\"}"
    );
    assert_eq!(
        PolymarketWsClient::subscription_message("t\\\n\u{1}é"),
        "{\"assets_ids\":[\"t\\\\\\n\\u0001é\"],\"type\":\"market\"}"
    );
    assert_eq!(PolymarketWsClient::url(), "wss://ws-subscriptions-clob.polymarket.com/ws/market");
    assert_eq!(PolymarketWsClient::new(vec!["x".to_string()]).asset_ids, vec!["x".to_string()]);
}

#[test]
fn outcome_prices_skip_non_numbers() {
    let texts = vec!["0.55".to_string(), "n/a".to_string(), "1e2".to_string(), "0.45".to_string()];
    assert_eq!(parse_outcome_prices(&texts), vec![55_000_000, 45_000_000]);
    assert_eq!(parse_outcome_prices(&vec![]), Vec::<u64>::new());
}
