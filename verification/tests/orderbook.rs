use retirement::types::market::{AssetInfo, CryptoPair, Outcome};
use retirement::types::orderbook::{OrderbookEvent, OrderbookManager, OrderbookSnapshot, PriceLevel};

fn lvl(price: u64, size: u64) -> PriceLevel {
    PriceLevel { price, size }
}

fn info(outcome: Outcome) -> AssetInfo {
    AssetInfo { crypto: CryptoPair::Eth, outcome }
}

#[test]
fn replace_sorts_both_sides_stably() {
    let mut s = OrderbookSnapshot::new("a".to_string(), info(Outcome::Up));
    s.replace(
        vec![lvl(40, 1), lvl(45, 2), lvl(40, 3), lvl(10, 4)],
        vec![lvl(60, 1), lvl(55, 2), lvl(60, 3)],
    );
    assert_eq!(s.bids, vec![lvl(45, 2), lvl(40, 1), lvl(40, 3), lvl(10, 4)]);
    assert_eq!(s.asks, vec![lvl(55, 2), lvl(60, 1), lvl(60, 3)]);
    assert_eq!(s.best_bid(), Some(&lvl(45, 2)));
    assert_eq!(s.best_ask(), Some(&lvl(55, 2)));
}

#[test]
fn apply_level_updates_removes_and_inserts() {
    let mut s = OrderbookSnapshot::new("a".to_string(), info(Outcome::Up));
    s.replace(vec![lvl(50, 1), lvl(40, 1)], vec![lvl(60, 1)]);
    // update an existing bid
    s.apply_level(40, 7, "BUY");
    assert_eq!(s.bids, vec![lvl(50, 1), lvl(40, 7)]);
    // insert a new bid in its place
    s.apply_level(45, 2, "BUY");
    assert_eq!(s.bids, vec![lvl(50, 1), lvl(45, 2), lvl(40, 7)]);
    // size 0 removes
    s.apply_level(50, 0, "BUY");
    assert_eq!(s.bids, vec![lvl(45, 2), lvl(40, 7)]);
    // removing a missing level changes nothing
    s.apply_level(99, 0, "BUY");
    assert_eq!(s.bids, vec![lvl(45, 2), lvl(40, 7)]);
    // anything but "BUY" is the ask side; asks ascend
    s.apply_level(58, 3, "SELL");
    assert_eq!(s.asks, vec![lvl(58, 3), lvl(60, 1)]);
    s.apply_level(70, 1, "sell");
    assert_eq!(s.asks, vec![lvl(58, 3), lvl(60, 1), lvl(70, 1)]);
    assert_eq!(s.bids, vec![lvl(45, 2), lvl(40, 7)]);
}

#[test]
fn empty_book_has_no_best_levels() {
    let s = OrderbookSnapshot::new("a".to_string(), info(Outcome::Down));
    assert_eq!(s.best_bid(), None);
    assert_eq!(s.best_ask(), None);
}

fn snapshot_event(asset: &str, bids: Vec<PriceLevel>, asks: Vec<PriceLevel>) -> OrderbookEvent {
    OrderbookEvent::Snapshot {
        asset_id: asset.to_string(),
        market: "m".to_string(),
        bids,
        asks,
        timestamp: None,
    }
}

#[test]
fn manager_registers_assets_per_market() {
    let mut m = OrderbookManager::new();
    m.register_asset("m1", "up1", info(Outcome::Up));
    m.register_asset("m1", "down1", info(Outcome::Down));
    m.register_asset("m2", "up2", AssetInfo { crypto: CryptoPair::Btc, outcome: Outcome::Up });
    assert_eq!(m.assets_for_market("m1"), &["up1".to_string(), "down1".to_string()]);
    assert_eq!(m.assets_for_market("m2"), &["up2".to_string()]);
    assert!(m.assets_for_market("nope").is_empty());
    assert_eq!(m.asset_info("down1"), Some(&info(Outcome::Down)));
    assert_eq!(m.asset_info("zzz"), None);
    let ids: Vec<String> = m.market_ids().into_iter().cloned().collect();
    assert_eq!(ids, vec!["m1".to_string(), "m2".to_string()]);
}

#[test]
fn manager_applies_snapshots_and_changes() {
    let mut m = OrderbookManager::new();
    m.register_asset("m1", "up1", info(Outcome::Up));
    let snap = m.apply(&snapshot_event("up1", vec![lvl(30, 1), lvl(35, 1)], vec![lvl(40, 1)])).unwrap();
    assert_eq!(snap.bids, vec![lvl(35, 1), lvl(30, 1)]);
    assert_eq!(snap.info, info(Outcome::Up));
    let ev = OrderbookEvent::PriceChange {
        asset_id: "up1".to_string(),
        market: "m1".to_string(),
        price: 38,
        size: 5,
        side: "SELL".to_string(),
        best_bid: 35,
        best_ask: 38,
        timestamp: Some("1".to_string()),
    };
    let snap = m.apply(&ev).unwrap();
    assert_eq!(snap.asks, vec![lvl(38, 5), lvl(40, 1)]);
    // an unknown asset gets a new book with the default info
    let snap = m.apply(&snapshot_event("other", vec![], vec![lvl(1, 1)])).unwrap();
    assert_eq!(snap.info, AssetInfo { crypto: CryptoPair::Btc, outcome: Outcome::Up });
    assert_eq!(snap.asset_id, "other");
    let trade = OrderbookEvent::LastTrade {
        asset_id: "up1".to_string(),
        market: "m1".to_string(),
        price: 38,
        size: 1,
        side: "BUY".to_string(),
        timestamp: None,
    };
    assert!(m.apply(&trade).is_none());
    let all: Vec<String> = m.all_snapshots().into_iter().map(|(k, _)| k.clone()).collect();
    assert_eq!(all, vec!["up1".to_string(), "other".to_string()]);
    assert_eq!(m.snapshot("up1").unwrap().asks, vec![lvl(38, 5), lvl(40, 1)]);
}

#[test]
fn manager_clear_forgets_everything() {
    let mut m = OrderbookManager::new();
    m.register_asset("m1", "up1", info(Outcome::Up));
    m.apply(&snapshot_event("up1", vec![lvl(1, 1)], vec![]));
    m.clear();
    assert!(m.snapshot("up1").is_none());
    assert!(m.asset_info("up1").is_none());
    assert!(m.assets_for_market("m1").is_empty());
    assert!(m.all_snapshots().is_empty());
    assert!(m.market_ids().is_empty());
}

#[test]
fn price_changes_reconcile_with_the_reported_best_prices() {
    let mut m = OrderbookManager::new();
    m.apply(&snapshot_event("a", vec![lvl(50_000_000, 1), lvl(20_000_000, 1)], vec![lvl(55_000_000, 1), lvl(60_000_000, 1)]));
    let ev = OrderbookEvent::PriceChange {
        asset_id: "a".to_string(),
        market: "m".to_string(),
        price: 30_000_000,
        size: 2,
        side: "BUY".to_string(),
        best_bid: 40_000_000,
        best_ask: 58_000_000,
        timestamp: None,
    };
    let snap = m.apply(&ev).unwrap();
    // the bid at 0.50 lies above the reported best bid 0.40 and goes
    assert_eq!(snap.bids, vec![lvl(30_000_000, 2), lvl(20_000_000, 1)]);
    // the ask at 0.55 lies below the reported best ask 0.58 and goes
    assert_eq!(snap.asks, vec![lvl(60_000_000, 1)]);
}

#[test]
fn reconcile_takes_off_levels_beyond_the_best_prices() {
    let mut s = OrderbookSnapshot::new("x".to_string(), info(Outcome::Down));
    s.replace(vec![lvl(3, 1), lvl(5, 1), lvl(4, 1)], vec![lvl(6, 1), lvl(7, 1)]);
    s.reconcile(4, 7);
    assert_eq!(s.bids, vec![lvl(4, 1), lvl(3, 1)]);
    assert_eq!(s.asks, vec![lvl(7, 1)]);
    s.reconcile(10, 0);
    assert_eq!(s.bids, vec![lvl(4, 1), lvl(3, 1)]);
    assert_eq!(s.asks, vec![lvl(7, 1)]);
}
