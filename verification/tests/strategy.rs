use retirement::portfolio::in_memory::InMemoryPortfolio;
use retirement::portfolio::PortfolioManager;
use retirement::strategy::arb_logger::{ArbLoggerStrategy, ArbSide};
use retirement::strategy::registry::{build_default_strategies, StrategyRegistry};
use retirement::strategy::spread_logger::{SpreadLoggerStrategy, COOLDOWN_NANOS, ORDER_SIZE};
use retirement::strategy::{Strategy, StrategyContext};
use retirement::types::market::{AssetInfo, CryptoPair, Outcome};
use retirement::types::order::{Order, OrderId, OrderRequest, OrderSide, OrderStatus, OrderType};
use retirement::types::orderbook::{OrderbookEvent, OrderbookManager, PriceLevel};

fn book(m: &mut OrderbookManager, asset: &str, bid: Option<u64>, ask: Option<u64>) {
    let bids = bid.map(|p| vec![PriceLevel { price: p, size: 100 }]).unwrap_or_default();
    let asks = ask.map(|p| vec![PriceLevel { price: p, size: 100 }]).unwrap_or_default();
    m.apply(&OrderbookEvent::Snapshot {
        asset_id: asset.to_string(),
        market: "m".to_string(),
        bids,
        asks,
        timestamp: None,
    });
}

fn ctx<'a>(books: &'a OrderbookManager, pf: &'a InMemoryPortfolio, now: u64) -> StrategyContext<'a> {
    StrategyContext { tick: None, orderbooks: books, portfolio: pf, now }
}

#[test]
fn spread_logger_buys_wide_cheap_books() {
    let mut m = OrderbookManager::new();
    book(&mut m, "wide", Some(30_000_000), Some(40_000_000)); // spread 0.10, ask 0.40
    book(&mut m, "narrow", Some(38_000_000), Some(40_000_000)); // spread 0.02
    book(&mut m, "dear", Some(40_000_000), Some(50_000_000)); // ask 0.50 > 0.45
    book(&mut m, "edge", Some(40_000_000), Some(45_000_000)); // spread exactly 0.05, ask exactly 0.45
    book(&mut m, "onesided", None, Some(10_000_000));
    let pf = InMemoryPortfolio::new(0);
    let mut s = SpreadLoggerStrategy::new();
    let orders = s.on_tick(&ctx(&m, &pf, 1_000));
    let assets: Vec<&str> = orders.iter().map(|o| o.asset_id.as_str()).collect();
    assert_eq!(assets, vec!["wide", "edge"]);
    assert_eq!(orders[0].side, OrderSide::Buy);
    assert_eq!(orders[0].order_type, OrderType::Limit);
    assert_eq!(orders[0].price, Some(40_000_000));
    assert_eq!(orders[0].size, ORDER_SIZE);
    assert_eq!(orders[1].price, Some(45_000_000));
}

#[test]
fn spread_logger_respects_cooldown_and_pending_orders() {
    let mut m = OrderbookManager::new();
    book(&mut m, "wide", Some(30_000_000), Some(40_000_000));
    let mut pf = InMemoryPortfolio::new(0);
    let mut s = SpreadLoggerStrategy::new();
    assert!(s.cooldown_elapsed("wide", 5));
    assert_eq!(s.on_tick(&ctx(&m, &pf, 10)).len(), 1);
    assert!(!s.cooldown_elapsed("wide", 10 + COOLDOWN_NANOS - 1));
    assert_eq!(s.on_tick(&ctx(&m, &pf, 10 + COOLDOWN_NANOS - 1)).len(), 0);
    assert!(s.cooldown_elapsed("wide", 10 + COOLDOWN_NANOS));
    // a pending order for the asset blocks a new one
    pf.record_pending_order(&Order {
        id: OrderId(1),
        request: OrderRequest {
            asset_id: "wide".to_string(),
            side: OrderSide::Buy,
            order_type: OrderType::Limit,
            price: Some(1),
            size: 1,
        },
        status: OrderStatus::Pending,
        created_at: 0,
    });
    assert_eq!(s.on_tick(&ctx(&m, &pf, 10 + COOLDOWN_NANOS)).len(), 0);
    pf.cancel_order(OrderId(1));
    assert_eq!(s.on_tick(&ctx(&m, &pf, 10 + COOLDOWN_NANOS)).len(), 1);
}

#[test]
fn arb_logger_reports_mispricings() {
    let mut m = OrderbookManager::new();
    let up = AssetInfo { crypto: CryptoPair::Btc, outcome: Outcome::Up };
    let down = AssetInfo { crypto: CryptoPair::Btc, outcome: Outcome::Down };
    m.register_asset("cheap", "u1", up);
    m.register_asset("cheap", "d1", down);
    m.register_asset("rich", "u2", up);
    m.register_asset("rich", "d2", down);
    m.register_asset("fair", "u3", up);
    m.register_asset("fair", "d3", down);
    m.register_asset("half", "u4", up);
    book(&mut m, "u1", Some(40_000_000), Some(45_000_000));
    book(&mut m, "d1", Some(40_000_000), Some(50_000_000)); // asks 0.95 < 1
    book(&mut m, "u2", Some(55_000_000), Some(60_000_000));
    book(&mut m, "d2", Some(50_000_000), Some(60_000_000)); // bids 1.05 > 1
    book(&mut m, "u3", Some(50_000_000), Some(50_000_000));
    book(&mut m, "d3", Some(50_000_000), Some(50_000_000)); // exactly 1: nothing
    book(&mut m, "u4", Some(10_000_000), Some(10_000_000)); // no down book
    let a = ArbLoggerStrategy::new();
    let sig = a.signals(&m);
    assert_eq!(sig.len(), 2);
    assert_eq!(sig[0].market_id, "cheap");
    assert_eq!(sig[0].side, ArbSide::Buy);
    assert_eq!((sig[0].up_price, sig[0].down_price), (45_000_000, 50_000_000));
    assert_eq!(sig[1].market_id, "rich");
    assert_eq!(sig[1].side, ArbSide::Sell);
    assert_eq!((sig[1].up_price, sig[1].down_price), (55_000_000, 50_000_000));
    let pf = InMemoryPortfolio::new(0);
    let mut a = ArbLoggerStrategy::default();
    assert!(a.last_signals().is_empty());
    assert!(a.on_orderbook_update(&ctx(&m, &pf, 0)).is_empty());
    let kept: Vec<(String, ArbSide)> = a.last_signals().iter().map(|s| (s.market_id.clone(), s.side)).collect();
    assert_eq!(kept, vec![("cheap".to_string(), ArbSide::Buy), ("rich".to_string(), ArbSide::Sell)]);
    assert!(a.on_tick(&ctx(&m, &pf, 0)).is_empty());
    assert_eq!(a.last_signals().len(), 2);
    assert_eq!(a.name(), "ArbLogger");
}

#[test]
fn registry_joins_orders_in_registration_order() {
    let mut m = OrderbookManager::new();
    book(&mut m, "wide", Some(30_000_000), Some(40_000_000));
    let pf = InMemoryPortfolio::new(0);
    let mut r = StrategyRegistry::new();
    r.register(Box::new(SpreadLoggerStrategy::new()));
    r.register(Box::new(ArbLoggerStrategy::new()));
    r.register(Box::new(SpreadLoggerStrategy::new()));
    let orders = r.on_tick(&ctx(&m, &pf, 0));
    assert_eq!(orders.len(), 2);
    assert!(r.on_orderbook_update(&ctx(&m, &pf, 0)).is_empty());
    let mut d = build_default_strategies();
    assert_eq!(d.on_tick(&ctx(&m, &pf, 0)).len(), 1);
    assert_eq!(SpreadLoggerStrategy::new().name(), "SpreadLogger");
}
