//! Trading strategies and what they are given to decide.
pub mod arb_logger;
pub mod registry;
pub mod spread_logger;

use vstd::prelude::*;

use crate::portfolio::PortfolioReader;
use crate::types::order::{requests_view, OrderRequest, OrderRequestView};
use crate::types::orderbook::OrderbookManager;
use crate::types::PriceTick;

verus! {

/// What a strategy sees when it is asked for orders: the tick that arrived
/// (if any), all order books, the portfolio, and the engine's monotonic
/// clock reading in nanoseconds.
pub struct StrategyContext<'a> {
    pub tick: Option<&'a PriceTick>,
    pub orderbooks: &'a OrderbookManager,
    pub portfolio: &'a dyn PortfolioReader,
    pub now: u64,
}

/// A trading strategy. Each hook returns the orders to place; what a hook
/// returns is its spec function applied to the strategy's state before the
/// call and to what it sees. A strategy that does not act on an event places
/// no orders for it, which is what the spec functions say unless a strategy
/// says otherwise.
pub trait Strategy {
    fn name(&self) -> (r: &'static str);

    /// The orders the strategy places on a trade tick.
    open spec fn tick_orders(&self, ctx: StrategyContext) -> Seq<OrderRequestView> {
        Seq::empty()
    }

    /// The orders the strategy places after an order-book update.
    open spec fn update_orders(&self, ctx: StrategyContext) -> Seq<OrderRequestView> {
        Seq::empty()
    }

    /// The orders it places on a tick seen in `ctx` once it has handled a
    /// tick seen in `seen`; by default handling a tick changes nothing.
    open spec fn tick_orders_after_tick(&self, seen: StrategyContext, ctx: StrategyContext) -> Seq<
        OrderRequestView,
    > {
        self.tick_orders(ctx)
    }

    /// The orders it places on an update seen in `ctx` once it has handled a
    /// tick seen in `seen`; by default handling a tick changes nothing.
    open spec fn update_orders_after_tick(&self, seen: StrategyContext, ctx: StrategyContext) -> Seq<
        OrderRequestView,
    > {
        self.update_orders(ctx)
    }

    /// The orders it places on a tick seen in `ctx` once it has handled an
    /// update seen in `seen`; by default handling an update changes nothing.
    open spec fn tick_orders_after_update(&self, seen: StrategyContext, ctx: StrategyContext) -> Seq<
        OrderRequestView,
    > {
        self.tick_orders(ctx)
    }

    /// The orders it places on an update seen in `ctx` once it has handled an
    /// update seen in `seen`; by default handling an update changes nothing.
    open spec fn update_orders_after_update(&self, seen: StrategyContext, ctx: StrategyContext) -> Seq<
        OrderRequestView,
    > {
        self.update_orders(ctx)
    }

    /// Places the orders of `tick_orders`, and afterwards answers as the
    /// `*_after_tick` functions say.
    fn on_tick(&mut self, ctx: &StrategyContext) -> (r: Vec<OrderRequest>)
        ensures
            requests_view(r@) == old(self).tick_orders(*ctx),
            forall|c: StrategyContext| #[trigger] final(self).tick_orders(c) == old(self).tick_orders_after_tick(*ctx, c),
            forall|c: StrategyContext| #[trigger] final(self).update_orders(c) == old(self).update_orders_after_tick(*ctx, c),
    ;

    /// Places the orders of `update_orders`, and afterwards answers as the
    /// `*_after_update` functions say.
    fn on_orderbook_update(&mut self, ctx: &StrategyContext) -> (r: Vec<OrderRequest>)
        ensures
            requests_view(r@) == old(self).update_orders(*ctx),
            forall|c: StrategyContext| #[trigger] final(self).tick_orders(c) == old(self).tick_orders_after_update(*ctx, c),
            forall|c: StrategyContext| #[trigger] final(self).update_orders(c) == old(self).update_orders_after_update(*ctx, c),
    ;
}

} // verus!
