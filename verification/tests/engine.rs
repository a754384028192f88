use retirement::engine::runner::{
    epoch_slug_at, strategy_window_active_at, EngineCore, INITIAL_BALANCE, MARKET_INTERVAL_SECS,
    STRATEGY_BUFFER_SECS,
};
use retirement::engine::Engine;
use retirement::config::settings::{AppConfig, OperationMode};
use retirement::execution::simulated::{round_price_to_cent, SimulatedExecutor};
use retirement::portfolio::PortfolioReader;
use retirement::strategy::registry::build_default_strategies;
use retirement::types::market::CryptoPair;
use retirement::types::order::{OrderSide, OrderStatus};
use retirement::types::orderbook::{OrderbookEvent, PriceLevel};
use retirement::types::tick::{PriceTick, TickSource};

#[test]
fn strategy_window_skips_epoch_edges() {
    let i = MARKET_INTERVAL_SECS;
    let b = STRATEGY_BUFFER_SECS;
    assert!(!strategy_window_active_at(1_700_000_100, i, b)); // epoch start
    assert!(!strategy_window_active_at(1_699_999_800 + 7, i, b));
    assert!(strategy_window_active_at(1_699_999_800 + 8, i, b));
    assert!(strategy_window_active_at(1_699_999_800 + 291, i, b));
    assert!(!strategy_window_active_at(1_699_999_800 + 292, i, b));
    assert!(!strategy_window_active_at(1_699_999_800 + 293, i, b));
}

#[test]
fn epoch_slugs() {
    assert_eq!(epoch_slug_at(CryptoPair::Btc, 300, 1_700_000_123), "btc-updown-5m-1700000100");
    assert_eq!(epoch_slug_at(CryptoPair::Doge, 900, 1_700_000_123), "doge-updown-15m-1700000100");
    assert_eq!(epoch_slug_at(CryptoPair::Eth, 60, 125), "eth-updown-5m-120");
    assert_eq!(epoch_slug_at(CryptoPair::Sol, 900, 1_700_000_999), "sol-updown-15m-1700000100");
}

fn tick() -> PriceTick {
    PriceTick {
        source: TickSource::Binance,
        symbol: "btcusdt".to_string(),
        price: 1,
        quantity: 1,
        timestamp_ms: 0,
        is_buyer_maker: false,
    }
}

#[test]
fn engine_core_places_numbered_orders_and_applies_fills() {
    let mut core = EngineCore::new(build_default_strategies(), INITIAL_BALANCE);
    assert_eq!(core.update_window(true), Some(true));
    assert_eq!(core.update_window(true), None);
    let ev = OrderbookEvent::Snapshot {
        asset_id: "up".to_string(),
        market: "m".to_string(),
        bids: vec![PriceLevel { price: 30_000_000, size: 5 }],
        asks: vec![PriceLevel { price: 40_000_000, size: 5 }],
        timestamp: None,
    };
    // the default strategies act on ticks only
    assert!(core.on_orderbook_event(&ev, true, 0).is_empty());
    assert!(core.orderbooks().snapshot("up").is_some());
    // inactive: no orders
    assert!(core.on_tick(&tick(), false, 0).is_empty());
    let orders = core.on_tick(&tick(), true, 0);
    assert_eq!(orders.len(), 1);
    assert_eq!(orders[0].id.0, 1);
    assert_eq!(orders[0].status, OrderStatus::Pending);
    assert_eq!(core.portfolio().pending_order_count("up"), 1);
    let exec = SimulatedExecutor::new();
    assert_eq!(exec.latency_ms(), 40);
    let fill = exec.fill_for(&orders[0], 7);
    assert_eq!(fill.price, 40_000_000);
    assert_eq!(fill.side, OrderSide::Buy);
    assert_eq!(fill.filled_at, 7);
    assert!(core.on_fill(&fill));
    assert_eq!(core.portfolio().pending_order_count("up"), 0);
    assert_eq!(core.portfolio().position("up"), 1_000_000_000);
    // cooldown still running: no new order; later a new id follows
    assert!(core.on_tick(&tick(), true, 1).is_empty());
    let later = core.on_tick(&tick(), true, 6_000_000_000);
    assert_eq!(later[0].id.0, 2);
    assert_eq!(core.update_window(false), Some(false));
}

#[test]
fn engine_core_rolls_epochs() {
    let mut core = EngineCore::new(build_default_strategies(), INITIAL_BALANCE);
    assert!(core.roll_epoch(1_700_000_100, 300));
    core.register_asset("m", "up", retirement::types::market::AssetInfo {
        crypto: CryptoPair::Btc,
        outcome: retirement::types::market::Outcome::Up,
    });
    assert!(!core.roll_epoch(1_700_000_399, 300));
    assert!(core.orderbooks().asset_info("up").is_some());
    assert!(core.roll_epoch(1_700_000_400, 300));
    assert!(core.orderbooks().asset_info("up").is_none());
    assert!(core.orderbooks().assets_for_market("m").is_empty());
}

#[test]
fn simulated_fills_round_to_cents() {
    assert_eq!(round_price_to_cent(40_000_000), 40_000_000);
    assert_eq!(round_price_to_cent(41_234_567), 41_000_000);
    assert_eq!(round_price_to_cent(41_500_000), 42_000_000);
    assert_eq!(round_price_to_cent(41_499_999), 41_000_000);
    assert_eq!(round_price_to_cent(0), 0);
    assert_eq!(round_price_to_cent(18_446_744_073_709_499_999), 18_446_744_073_709_000_000);
}

#[test]
fn engine_keeps_its_config() {
    let config = AppConfig { mode: OperationMode::Live, log_level: "info".to_string(), pairs: vec![] };
    let e = Engine::new(config);
    assert_eq!(e.app_config().mode, OperationMode::Live);
}
