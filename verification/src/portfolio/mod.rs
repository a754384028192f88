//! Positions, cash balance and pending orders.
pub mod fees;
pub mod in_memory;

use vstd::prelude::*;

use crate::types::order::{Fill, Order, OrderId};

verus! {

/// Read-only portfolio view; strategies use it to check positions and
/// pending orders. Quantities are in fixed-point units.
pub trait PortfolioReader {
    /// Net position held in an asset.
    spec fn position_of(&self, asset_id: Seq<char>) -> int;

    /// Number of pending orders for an asset.
    spec fn pending_count_of(&self, asset_id: Seq<char>) -> nat;

    /// Whether any order is pending.
    spec fn has_pending(&self) -> bool;

    /// Cash balance.
    spec fn balance_of(&self) -> int;

    fn position(&self, asset_id: &str) -> (r: i128)
        ensures
            r == self.position_of(asset_id@),
    ;

    fn pending_order_count(&self, asset_id: &str) -> (r: usize)
        ensures
            r == self.pending_count_of(asset_id@),
    ;

    fn has_pending_orders(&self) -> (r: bool)
        ensures
            r == self.has_pending(),
    ;

    fn balance(&self) -> (r: i128)
        ensures
            r == self.balance_of(),
    ;
}

/// Mutable portfolio; the engine records orders and applies fills.
pub trait PortfolioManager: PortfolioReader {
    fn record_pending_order(&mut self, order: &Order);

    /// Whether the portfolio can take a fill.
    spec fn accepts_fill(&self, fill: Fill) -> bool;

    fn apply_fill(&mut self, fill: &Fill)
        requires
            old(self).accepts_fill(*fill),
    ;

    fn cancel_order(&mut self, order_id: OrderId);
}

} // verus!
