use retirement::portfolio::in_memory::InMemoryPortfolio;
use retirement::portfolio::{PortfolioManager, PortfolioReader};
use retirement::types::order::{Fill, Order, OrderId, OrderRequest, OrderSide, OrderStatus, OrderType};

fn order(id: u64, asset: &str) -> Order {
    Order {
        id: OrderId(id),
        request: OrderRequest {
            asset_id: asset.to_string(),
            side: OrderSide::Buy,
            order_type: OrderType::Limit,
            price: Some(40_000_000),
            size: 1_000_000_000,
        },
        status: OrderStatus::Pending,
        created_at: 0,
    }
}

fn fill(id: u64, asset: &str, side: OrderSide, price: u64, size: u64) -> Fill {
    Fill { order_id: OrderId(id), asset_id: asset.to_string(), side, price, size, filled_at: 0 }
}

#[test]
fn pending_orders_are_counted_per_asset() {
    let mut p = InMemoryPortfolio::new(0);
    assert!(!p.has_pending_orders());
    p.record_pending_order(&order(1, "a"));
    p.record_pending_order(&order(2, "a"));
    p.record_pending_order(&order(3, "b"));
    assert!(p.has_pending_orders());
    assert_eq!(p.pending_order_count("a"), 2);
    assert_eq!(p.pending_order_count("b"), 1);
    assert_eq!(p.pending_order_count("c"), 0);
    // the same id replaces the order
    p.record_pending_order(&order(2, "b"));
    assert_eq!(p.pending_order_count("a"), 1);
    assert_eq!(p.pending_order_count("b"), 2);
    p.cancel_order(OrderId(1));
    assert_eq!(p.pending_order_count("a"), 0);
    p.cancel_order(OrderId(99));
    assert_eq!(p.pending_order_count("b"), 2);
}

#[test]
fn fills_move_position_and_cash() {
    let mut p = InMemoryPortfolio::new(1_000_000_000_000);
    p.record_pending_order(&order(7, "a"));
    let f = fill(7, "a", OrderSide::Buy, 50_000_000, 1_000_000_000);
    assert!(p.can_apply_fill(&f));
    p.apply_fill(&f);
    assert_eq!(p.position("a"), 1_000_000_000);
    // value 10 * 0.5 = 5, fee 5 * 0.015625 = 0.078125
    assert_eq!(p.balance(), 1_000_000_000_000 - 500_000_000 - 7_812_500);
    assert_eq!(p.pending_order_count("a"), 0);
    p.apply_fill(&fill(8, "a", OrderSide::Sell, 50_000_000, 400_000_000));
    assert_eq!(p.position("a"), 600_000_000);
    assert_eq!(p.position("zzz"), 0);
}

#[test]
fn round_trip_costs_twice_the_fee() {
    let mut p = InMemoryPortfolio::new(0);
    p.apply_fill(&fill(1, "a", OrderSide::Buy, 85_000_000, 200_000_000));
    p.apply_fill(&fill(2, "a", OrderSide::Sell, 85_000_000, 200_000_000));
    assert_eq!(p.position("a"), 0);
    // value 1.7, fee rate 0.00406406 -> fee floor(170000000 * 406406 / 1e8) = 690890
    assert_eq!(p.balance(), -2 * 690_890);
}

#[test]
fn fills_are_accepted_while_their_amounts_fit() {
    let mut p = InMemoryPortfolio::new(0);
    // At 2.0 the fee rate is 0.25 * (2 * (1 - 2))^2 = 1: the fee equals the value.
    let f = fill(1, "a", OrderSide::Buy, 200_000_000, 100_000_000);
    assert!(p.can_apply_fill(&f));
    p.apply_fill(&f);
    assert_eq!(p.balance(), -400_000_000);
    let s = fill(2, "a", OrderSide::Sell, 200_000_000, 100_000_000);
    p.apply_fill(&s);
    assert_eq!(p.balance(), -400_000_000);
    assert!(p.can_apply_fill(&fill(3, "a", OrderSide::Buy, 100_000_000, 1)));
    // Far above 1 the fee rate no longer fits a u64.
    assert!(!p.can_apply_fill(&fill(4, "a", OrderSide::Buy, u64::MAX, 1)));
    // A balance at the bottom of its range cannot pay more.
    let low = InMemoryPortfolio::new(i128::MIN);
    assert!(!low.can_apply_fill(&fill(5, "a", OrderSide::Buy, 50_000_000, 100_000_000)));
    assert!(low.can_apply_fill(&fill(6, "a", OrderSide::Sell, 50_000_000, 100_000_000)));
}

#[test]
fn default_portfolio_is_empty() {
    let p = InMemoryPortfolio::default();
    assert_eq!(p.balance(), 0);
    assert!(!p.has_pending_orders());
}
