//! The strategies the engine runs, asked in registration order.
use vstd::prelude::*;

use super::spread_logger::SpreadLoggerStrategy;
use super::{Strategy, StrategyContext};
use crate::types::order::{requests_view, OrderRequest, OrderRequestView};

verus! {

/// The orders the strategies place on a tick, each asked in turn in the
/// state it is in, joined in order.
pub open spec fn all_tick_orders(s: Seq<Box<dyn Strategy>>, ctx: StrategyContext) -> Seq<
    OrderRequestView,
>
    decreases s.len(),
{
    if s.len() == 0 {
        Seq::empty()
    } else {
        all_tick_orders(s.drop_last(), ctx) + s.last().tick_orders(ctx)
    }
}

/// The orders the strategies place after an order-book update, joined in
/// order.
pub open spec fn all_update_orders(s: Seq<Box<dyn Strategy>>, ctx: StrategyContext) -> Seq<
    OrderRequestView,
>
    decreases s.len(),
{
    if s.len() == 0 {
        Seq::empty()
    } else {
        all_update_orders(s.drop_last(), ctx) + s.last().update_orders(ctx)
    }
}

/// The orders the strategies place on a tick seen in `ctx`, once they have handled a tick seen in `seen`, joined in order.
pub open spec fn all_tick_after_tick(s: Seq<Box<dyn Strategy>>, seen: StrategyContext, ctx: StrategyContext) -> Seq<
    OrderRequestView,
>
    decreases s.len(),
{
    if s.len() == 0 {
        Seq::empty()
    } else {
        all_tick_after_tick(s.drop_last(), seen, ctx) + s.last().tick_orders_after_tick(seen, ctx)
    }
}

/// Strategies that each answer as their counterparts do after handling
/// what was seen answer together as `all_tick_after_tick` says.
proof fn lemma_all_tick_after_tick(a: Seq<Box<dyn Strategy>>, s: Seq<Box<dyn Strategy>>, seen: StrategyContext, ctx: StrategyContext)
    requires
        a.len() == s.len(),
        forall|j: int| 0 <= j < a.len() ==> #[trigger] a[j].tick_orders(ctx) == s[j].tick_orders_after_tick(seen, ctx),
    ensures
        all_tick_orders(a, ctx) == all_tick_after_tick(s, seen, ctx),
    decreases a.len(),
{
    if a.len() > 0 {
        let a2 = a.drop_last();
        let s2 = s.drop_last();
        assert forall|j: int| 0 <= j < a2.len() implies #[trigger] a2[j].tick_orders(ctx) == s2[j].tick_orders_after_tick(seen, ctx) by {
            assert(a2[j] == a[j] && s2[j] == s[j]);
        }
        lemma_all_tick_after_tick(a2, s2, seen, ctx);
        assert(a.last() == a[a.len() - 1]);
        assert(s.last() == s[s.len() - 1]);
    }
}

/// The orders the strategies place after an update seen in `ctx`, once they have handled a tick seen in `seen`, joined in order.
pub open spec fn all_update_after_tick(s: Seq<Box<dyn Strategy>>, seen: StrategyContext, ctx: StrategyContext) -> Seq<
    OrderRequestView,
>
    decreases s.len(),
{
    if s.len() == 0 {
        Seq::empty()
    } else {
        all_update_after_tick(s.drop_last(), seen, ctx) + s.last().update_orders_after_tick(seen, ctx)
    }
}

/// Strategies that each answer as their counterparts do after handling
/// what was seen answer together as `all_update_after_tick` says.
proof fn lemma_all_update_after_tick(a: Seq<Box<dyn Strategy>>, s: Seq<Box<dyn Strategy>>, seen: StrategyContext, ctx: StrategyContext)
    requires
        a.len() == s.len(),
        forall|j: int| 0 <= j < a.len() ==> #[trigger] a[j].update_orders(ctx) == s[j].update_orders_after_tick(seen, ctx),
    ensures
        all_update_orders(a, ctx) == all_update_after_tick(s, seen, ctx),
    decreases a.len(),
{
    if a.len() > 0 {
        let a2 = a.drop_last();
        let s2 = s.drop_last();
        assert forall|j: int| 0 <= j < a2.len() implies #[trigger] a2[j].update_orders(ctx) == s2[j].update_orders_after_tick(seen, ctx) by {
            assert(a2[j] == a[j] && s2[j] == s[j]);
        }
        lemma_all_update_after_tick(a2, s2, seen, ctx);
        assert(a.last() == a[a.len() - 1]);
        assert(s.last() == s[s.len() - 1]);
    }
}

/// The orders the strategies place on a tick seen in `ctx`, once they have handled an update seen in `seen`, joined in order.
pub open spec fn all_tick_after_update(s: Seq<Box<dyn Strategy>>, seen: StrategyContext, ctx: StrategyContext) -> Seq<
    OrderRequestView,
>
    decreases s.len(),
{
    if s.len() == 0 {
        Seq::empty()
    } else {
        all_tick_after_update(s.drop_last(), seen, ctx) + s.last().tick_orders_after_update(seen, ctx)
    }
}

/// Strategies that each answer as their counterparts do after handling
/// what was seen answer together as `all_tick_after_update` says.
proof fn lemma_all_tick_after_update(a: Seq<Box<dyn Strategy>>, s: Seq<Box<dyn Strategy>>, seen: StrategyContext, ctx: StrategyContext)
    requires
        a.len() == s.len(),
        forall|j: int| 0 <= j < a.len() ==> #[trigger] a[j].tick_orders(ctx) == s[j].tick_orders_after_update(seen, ctx),
    ensures
        all_tick_orders(a, ctx) == all_tick_after_update(s, seen, ctx),
    decreases a.len(),
{
    if a.len() > 0 {
        let a2 = a.drop_last();
        let s2 = s.drop_last();
        assert forall|j: int| 0 <= j < a2.len() implies #[trigger] a2[j].tick_orders(ctx) == s2[j].tick_orders_after_update(seen, ctx) by {
            assert(a2[j] == a[j] && s2[j] == s[j]);
        }
        lemma_all_tick_after_update(a2, s2, seen, ctx);
        assert(a.last() == a[a.len() - 1]);
        assert(s.last() == s[s.len() - 1]);
    }
}

/// The orders the strategies place after an update seen in `ctx`, once they have handled an update seen in `seen`, joined in order.
pub open spec fn all_update_after_update(s: Seq<Box<dyn Strategy>>, seen: StrategyContext, ctx: StrategyContext) -> Seq<
    OrderRequestView,
>
    decreases s.len(),
{
    if s.len() == 0 {
        Seq::empty()
    } else {
        all_update_after_update(s.drop_last(), seen, ctx) + s.last().update_orders_after_update(seen, ctx)
    }
}

/// Strategies that each answer as their counterparts do after handling
/// what was seen answer together as `all_update_after_update` says.
proof fn lemma_all_update_after_update(a: Seq<Box<dyn Strategy>>, s: Seq<Box<dyn Strategy>>, seen: StrategyContext, ctx: StrategyContext)
    requires
        a.len() == s.len(),
        forall|j: int| 0 <= j < a.len() ==> #[trigger] a[j].update_orders(ctx) == s[j].update_orders_after_update(seen, ctx),
    ensures
        all_update_orders(a, ctx) == all_update_after_update(s, seen, ctx),
    decreases a.len(),
{
    if a.len() > 0 {
        let a2 = a.drop_last();
        let s2 = s.drop_last();
        assert forall|j: int| 0 <= j < a2.len() implies #[trigger] a2[j].update_orders(ctx) == s2[j].update_orders_after_update(seen, ctx) by {
            assert(a2[j] == a[j] && s2[j] == s[j]);
        }
        lemma_all_update_after_update(a2, s2, seen, ctx);
        assert(a.last() == a[a.len() - 1]);
        assert(s.last() == s[s.len() - 1]);
    }
}

/// The strategies' orders are joined in registration order: the orders of
/// the first `i + 1` strategies are those of the first `i` followed by those
/// of strategy `i`; none are registered, none are placed.
pub proof fn lemma_orders_in_registration_order(s: Seq<Box<dyn Strategy>>, ctx: StrategyContext, i: int)
    requires
        0 <= i < s.len(),
    ensures
        all_tick_orders(s.take(0), ctx) == Seq::<OrderRequestView>::empty(),
        all_update_orders(s.take(0), ctx) == Seq::<OrderRequestView>::empty(),
        all_tick_orders(s.take(i + 1), ctx) == all_tick_orders(s.take(i), ctx) + s[i].tick_orders(ctx),
        all_update_orders(s.take(i + 1), ctx) == all_update_orders(s.take(i), ctx) + s[i].update_orders(ctx),
        all_tick_orders(s.take(s.len() as int), ctx) == all_tick_orders(s, ctx),
        all_update_orders(s.take(s.len() as int), ctx) == all_update_orders(s, ctx),
{
    assert(s.take(i + 1).drop_last() =~= s.take(i));
    assert(s.take(i + 1).last() == s[i]);
    assert(s.take(s.len() as int) =~= s);
}

/// A pushed sequence is one longer, and dropping its last element gives
/// back the sequence. (Stated generically: for a sequence of trait objects
/// these facts are not found on their own.)
proof fn lemma_push_parts<A>(s: Seq<A>, a: A)
    ensures
        s.push(a).len() == s.len() + 1,
        s.push(a).drop_last() == s,
{
    assert(s.push(a).drop_last() =~= s);
}

pub struct StrategyRegistry {
    strategies: Vec<Box<dyn Strategy>>,
}

impl StrategyRegistry {
    /// The registered strategies, in registration order.
    pub closed spec fn strategies(&self) -> Seq<Box<dyn Strategy>> {
        self.strategies@
    }

    /// How many strategies are registered.
    pub open spec fn count(&self) -> nat {
        self.strategies().len()
    }

    /// The orders the registered strategies place on a tick.
    pub open spec fn tick_orders(&self, ctx: StrategyContext) -> Seq<OrderRequestView> {
        all_tick_orders(self.strategies(), ctx)
    }

    /// The orders the registered strategies place after an order-book
    /// update.
    pub open spec fn update_orders(&self, ctx: StrategyContext) -> Seq<OrderRequestView> {
        all_update_orders(self.strategies(), ctx)
    }

    pub fn new() -> (r: Self)
        ensures
            r.strategies() == Seq::<Box<dyn Strategy>>::empty(),
            r.count() == 0,
            forall|ctx: StrategyContext| #[trigger] r.tick_orders(ctx) == Seq::<OrderRequestView>::empty(),
            forall|ctx: StrategyContext| #[trigger] r.update_orders(ctx) == Seq::<OrderRequestView>::empty(),
    {
        StrategyRegistry { strategies: Vec::new() }
    }

    /// Adds a strategy after the ones already registered.
    pub fn register(&mut self, strategy: Box<dyn Strategy>)
        ensures
            final(self).strategies() == old(self).strategies().push(strategy),
            final(self).count() == old(self).count() + 1,
    {
        let ghost before = self.strategies@;
        self.strategies.push(strategy);
        proof {
            lemma_push_parts(before, strategy);
        }
    }

    /// Asks every strategy, in registration order, for its orders on a
    /// tick, and returns all of them in that order.
    pub fn on_tick(&mut self, ctx: &StrategyContext) -> (r: Vec<OrderRequest>)
        ensures
            final(self).count() == old(self).count(),
            requests_view(r@) == old(self).tick_orders(*ctx),
            forall|c: StrategyContext| #[trigger] final(self).tick_orders(c) == all_tick_after_tick(old(self).strategies(), *ctx, c),
            forall|c: StrategyContext| #[trigger] final(self).update_orders(c) == all_update_after_tick(old(self).strategies(), *ctx, c),
    {
        let ghost start = self.strategies@;
        let ghost n = start.len();
        let mut all: Vec<OrderRequest> = Vec::new();
        let mut i: usize = 0;
        assert(requests_view(all@) =~= all_tick_orders(start.take(0), *ctx));
        while i < self.strategies.len()
            invariant
                self.strategies@.len() == n,
                n == start.len(),
                i <= n,
                forall|j: int| i <= j < n ==> #[trigger] self.strategies@[j] == start[j],
                forall|j: int, c: StrategyContext| 0 <= j < i ==> #[trigger] self.strategies@[j].tick_orders(c) == start[j].tick_orders_after_tick(*ctx, c),
                forall|j: int, c: StrategyContext| 0 <= j < i ==> #[trigger] self.strategies@[j].update_orders(c) == start[j].update_orders_after_tick(*ctx, c),
                requests_view(all@) == all_tick_orders(start.take(i as int), *ctx),
            decreases n - i,
        {
            let mut orders = self.strategies[i].on_tick(ctx);
            let ghost before = all@;
            all.append(&mut orders);
            proof {
                assert(start.take(i as int + 1).drop_last() =~= start.take(i as int));
                assert(start.take(i as int + 1).last() == start[i as int]);
                assert(requests_view(all@) =~= requests_view(before) + start[i as int].tick_orders(*ctx));
            }
            i = i + 1;
        }
        assert(start.take(n as int) =~= start);
        proof {
            assert forall|c: StrategyContext| #[trigger] all_tick_orders(self.strategies@, c) == all_tick_after_tick(start, *ctx, c) by {
                lemma_all_tick_after_tick(self.strategies@, start, *ctx, c);
            }
            assert forall|c: StrategyContext| #[trigger] all_update_orders(self.strategies@, c) == all_update_after_tick(start, *ctx, c) by {
                lemma_all_update_after_tick(self.strategies@, start, *ctx, c);
            }
        }
        all
    }

    /// Asks every strategy, in registration order, for its orders after an
    /// order-book update, and returns all of them in that order.
    pub fn on_orderbook_update(&mut self, ctx: &StrategyContext) -> (r: Vec<OrderRequest>)
        ensures
            final(self).count() == old(self).count(),
            requests_view(r@) == old(self).update_orders(*ctx),
            forall|c: StrategyContext| #[trigger] final(self).tick_orders(c) == all_tick_after_update(old(self).strategies(), *ctx, c),
            forall|c: StrategyContext| #[trigger] final(self).update_orders(c) == all_update_after_update(old(self).strategies(), *ctx, c),
    {
        let ghost start = self.strategies@;
        let ghost n = start.len();
        let mut all: Vec<OrderRequest> = Vec::new();
        let mut i: usize = 0;
        assert(requests_view(all@) =~= all_update_orders(start.take(0), *ctx));
        while i < self.strategies.len()
            invariant
                self.strategies@.len() == n,
                n == start.len(),
                i <= n,
                forall|j: int| i <= j < n ==> #[trigger] self.strategies@[j] == start[j],
                forall|j: int, c: StrategyContext| 0 <= j < i ==> #[trigger] self.strategies@[j].tick_orders(c) == start[j].tick_orders_after_update(*ctx, c),
                forall|j: int, c: StrategyContext| 0 <= j < i ==> #[trigger] self.strategies@[j].update_orders(c) == start[j].update_orders_after_update(*ctx, c),
                requests_view(all@) == all_update_orders(start.take(i as int), *ctx),
            decreases n - i,
        {
            let mut orders = self.strategies[i].on_orderbook_update(ctx);
            let ghost before = all@;
            all.append(&mut orders);
            proof {
                assert(start.take(i as int + 1).drop_last() =~= start.take(i as int));
                assert(start.take(i as int + 1).last() == start[i as int]);
                assert(requests_view(all@) =~= requests_view(before) + start[i as int].update_orders(*ctx));
            }
            i = i + 1;
        }
        assert(start.take(n as int) =~= start);
        proof {
            assert forall|c: StrategyContext| #[trigger] all_tick_orders(self.strategies@, c) == all_tick_after_update(start, *ctx, c) by {
                lemma_all_tick_after_update(self.strategies@, start, *ctx, c);
            }
            assert forall|c: StrategyContext| #[trigger] all_update_orders(self.strategies@, c) == all_update_after_update(start, *ctx, c) by {
                lemma_all_update_after_update(self.strategies@, start, *ctx, c);
            }
        }
        all
    }
}

impl Default for StrategyRegistry {
    fn default() -> (r: Self)
        ensures
            r.count() == 0,
    {
        Self::new()
    }
}

/// The strategies the engine runs by default: the spread strategy.
pub fn build_default_strategies() -> (r: StrategyRegistry)
    ensures
        r.count() == 1,
{
    let mut r = StrategyRegistry::new();
    r.register(Box::new(SpreadLoggerStrategy::new()));
    r
}

} // verus!
