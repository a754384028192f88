//! The engine's decisions: which markets to look up, when strategies may
//! trade, and what each feed event does to the books, the portfolio and the
//! orders to submit. Waiting for events and talking to the feeds and the
//! executor is left to the caller, which hands each event in and performs
//! the orders handed back.
use vstd::prelude::*;
use vstd::string::*;

use crate::clock::now_unix_secs;
use crate::config::settings::AppConfig;
use crate::portfolio::in_memory::{orders_with, InMemoryPortfolio};
use crate::portfolio::{PortfolioManager, PortfolioReader};
use crate::strategy::registry::{
    all_tick_after_tick, all_tick_after_update, all_update_after_tick, all_update_after_update,
    StrategyRegistry,
};
use crate::strategy::StrategyContext;
use crate::text::{decimal_string, push_decimal};
use crate::types::market::{pair_slug_prefix, CryptoPair};
use crate::types::order::{Fill, Order, OrderId, OrderRequest, OrderRequestView, OrderStatus};
use crate::types::{OrderbookEvent, OrderbookManager, PriceTick};

verus! {

/// Length of a market epoch, in seconds.
pub const MARKET_INTERVAL_SECS: u64 = 300;

/// Strategies pause this many seconds at each end of an epoch.
pub const STRATEGY_BUFFER_SECS: u64 = 8;

/// Starting cash of the simulated portfolio: 10 000, in fixed-point units.
pub const INITIAL_BALANCE: i128 = 1_000_000_000_000;

pub struct Engine {
    config: AppConfig,
}

impl Engine {
    pub fn new(config: AppConfig) -> (e: Self)
        ensures
            e.config() == config,
    {
        Engine { config }
    }

    pub closed spec fn config(&self) -> AppConfig {
        self.config
    }

    /// The configuration the engine runs with.
    pub fn app_config(&self) -> (c: &AppConfig)
        ensures
            *c == self.config(),
    {
        &self.config
    }
}

/// Start (unix seconds) of the `interval_secs` epoch containing `now`.
pub open spec fn epoch_start(now: u64, interval_secs: u64) -> u64 {
    ((now / interval_secs) * interval_secs) as u64
}

/// Two times of one epoch have the same epoch start, and a time at or past
/// the end of an epoch has a later one: markets roll exactly once per epoch
/// (see `EngineCore::roll_epoch`), and every time of an epoch names the same
/// market slug (see `epoch_slug`).
pub proof fn lemma_epoch_start_changes_only_at_boundary(now: u64, later: u64, interval_secs: u64)
    requires
        interval_secs > 0,
        now <= later,
    ensures
        epoch_start(now, interval_secs) <= now,
        later < epoch_start(now, interval_secs) + interval_secs ==> epoch_start(later, interval_secs)
            == epoch_start(now, interval_secs),
        later >= epoch_start(now, interval_secs) + interval_secs ==> epoch_start(later, interval_secs)
            > epoch_start(now, interval_secs),
{
    let i = interval_secs as int;
    let a = now as int / i;
    let b = later as int / i;
    assert(a * i <= now && now < a * i + i) by (nonlinear_arith)
        requires
            a == now as int / i,
            i > 0,
            now >= 0,
    ;
    assert(b * i <= later && later < b * i + i) by (nonlinear_arith)
        requires
            b == later as int / i,
            i > 0,
            later >= 0,
    ;
    if later < a * i + i {
        assert(b == a) by (nonlinear_arith)
            requires
                b * i <= later,
                later < b * i + i,
                a * i <= later,
                later < a * i + i,
                i > 0,
        ;
    } else {
        assert(b > a) by (nonlinear_arith)
            requires
                b * i <= later,
                later < b * i + i,
                later >= a * i + i,
                i > 0,
        ;
        assert(b * i > a * i) by (nonlinear_arith)
            requires
                b > a,
                i > 0,
        ;
    }
}

/// Strategies are active at unix time `now` unless it lies in the first or
/// last `buffer_secs` seconds of its `interval_secs` epoch: the seconds
/// `buffer_secs` up to, not including, `interval_secs - buffer_secs`.
pub open spec fn window_active(now: u64, interval_secs: u64, buffer_secs: u64) -> bool {
    let elapsed = now % interval_secs;
    buffer_secs <= elapsed && elapsed < interval_secs - buffer_secs
}

/// Strategies are active exactly from `buffer_secs` after the start of the
/// epoch containing `now` up to, not including, `buffer_secs` before its end.
pub proof fn lemma_window_within_epoch(now: u64, interval_secs: u64, buffer_secs: u64)
    requires
        interval_secs > 0,
        buffer_secs <= interval_secs,
    ensures
        window_active(now, interval_secs, buffer_secs) <==> epoch_start(now, interval_secs) + buffer_secs
            <= now && now + buffer_secs < epoch_start(now, interval_secs) + interval_secs,
{
    let i = interval_secs as int;
    let q = now as int / i;
    assert(q * i + now as int % i == now && q * i <= now) by (nonlinear_arith)
        requires
            q == now as int / i,
            i > 0,
            now >= 0,
    ;
}

/// Whether strategies may trade at unix time `now` (seconds).
pub fn strategy_window_active_at(now: u64, interval_secs: u64, buffer_secs: u64) -> (r: bool)
    requires
        interval_secs > 0,
        buffer_secs <= interval_secs,
    ensures
        r == window_active(now, interval_secs, buffer_secs),
{
    assert((now / interval_secs) * interval_secs <= now) by (nonlinear_arith)
        requires
            interval_secs > 0,
    ;
    let epoch_start = (now / interval_secs) * interval_secs;
    let elapsed = now - epoch_start;
    assert(elapsed == now % interval_secs) by (nonlinear_arith)
        requires
            elapsed == now - (now / interval_secs) * interval_secs,
            interval_secs > 0,
    ;
    elapsed >= buffer_secs && elapsed < interval_secs - buffer_secs
}

/// Whether strategies may trade now (see `strategy_window_active_at`).
pub fn is_strategy_window_active(interval_secs: u64, buffer_secs: u64) -> (r: bool)
    requires
        interval_secs > 0,
        buffer_secs <= interval_secs,
    ensures
        exists|now: u64| r == window_active(now, interval_secs, buffer_secs),
{
    let now = now_unix_secs();
    strategy_window_active_at(now, interval_secs, buffer_secs)
}

/// Label of an epoch length in market slugs.
pub open spec fn interval_label(interval_secs: u64) -> Seq<char> {
    if interval_secs == 900 {
        "15m"@
    } else {
        "5m"@
    }
}

/// Slug of the market of `crypto` whose epoch contains unix time `now`:
/// `<prefix>-<label>-<epoch start>`.
pub open spec fn epoch_slug(crypto: CryptoPair, interval_secs: u64, now: u64) -> Seq<char> {
    pair_slug_prefix(crypto) + "-"@ + interval_label(interval_secs) + "-"@ + decimal_string(
        epoch_start(now, interval_secs) as nat,
    )
}

/// The slug of a pair's market for the epoch containing unix time `now`.
pub fn epoch_slug_at(crypto: CryptoPair, interval_secs: u64, now: u64) -> (r: String)
    requires
        interval_secs > 0,
    ensures
        r@ == epoch_slug(crypto, interval_secs, now),
{
    assert((now / interval_secs) * interval_secs <= now) by (nonlinear_arith)
        requires
            interval_secs > 0,
    ;
    let epoch = (now / interval_secs) * interval_secs;
    let label = if interval_secs == 900 {
        "15m"
    } else {
        "5m"
    };
    let mut slug = String::from_str(crypto.slug_prefix());
    slug.append("-");
    slug.append(label);
    slug.append("-");
    push_decimal(&mut slug, epoch);
    slug
}

/// The slug of a pair's market for the current epoch.
pub fn build_epoch_slug(crypto: CryptoPair, interval_secs: u64) -> (r: String)
    requires
        interval_secs > 0,
    ensures
        exists|now: u64| r@ == epoch_slug(crypto, interval_secs, now),
{
    let now = now_unix_secs();
    epoch_slug_at(crypto, interval_secs, now)
}

/// The orders made from requests: consecutive ids from `first_id`, pending,
/// stamped with `now`.
pub open spec fn orders_from(reqs: Seq<OrderRequest>, first_id: u64, now: u64) -> Seq<Order>
    decreases reqs.len(),
{
    if reqs.len() == 0 {
        Seq::empty()
    } else {
        orders_from(reqs.drop_last(), first_id, now).push(
            Order {
                id: OrderId((first_id + reqs.len() - 1) as u64),
                request: reqs.last(),
                status: OrderStatus::Pending,
                created_at: now,
            },
        )
    }
}

/// Pending orders after recording each order in turn.
pub open spec fn record_all(pending: Seq<Order>, orders: Seq<Order>) -> Seq<Order>
    decreases orders.len(),
{
    if orders.len() == 0 {
        pending
    } else {
        orders_with(record_all(pending, orders.drop_last()), orders.last())
    }
}

/// The orders of successive calls, joined in call order.
pub open spec fn joined_orders(batches: Seq<Seq<Order>>) -> Seq<Order>
    decreases batches.len(),
{
    if batches.len() == 0 {
        Seq::empty()
    } else {
        joined_orders(batches.drop_last()) + batches.last()
    }
}

/// Over a run, orders are numbered 1, 2, 3, … with no gap or repeat. Call
/// `j` that places orders numbers its orders from `firsts[j]`, the next id
/// before the call, and moves the next id past them (`on_tick`,
/// `on_orderbook_event`); the engine starts at 1 (`new`) and no other call
/// moves the next id.
pub proof fn lemma_ids_over_run(batches: Seq<Seq<Order>>, firsts: Seq<u64>)
    requires
        batches.len() == firsts.len(),
        firsts.len() > 0 ==> firsts[0] == 1,
        forall|j: int| 0 <= j < firsts.len() - 1 ==> #[trigger] firsts[j + 1] == firsts[j] + batches[j].len(),
        forall|j: int, i: int|
            0 <= j < batches.len() && 0 <= i < batches[j].len() ==> (#[trigger] batches[j][i]).id.0
                == firsts[j] + i,
    ensures
        forall|x: int| 0 <= x < joined_orders(batches).len() ==> (#[trigger] joined_orders(batches)[x]).id.0 == x + 1,
        batches.len() > 0 ==> joined_orders(batches).len() + 1 == firsts.last() + batches.last().len(),
    decreases batches.len(),
{
    if batches.len() > 0 {
        let n = batches.len();
        let bs = batches.drop_last();
        let fs = firsts.drop_last();
        assert forall|j: int| 0 <= j < fs.len() - 1 implies #[trigger] fs[j + 1] == fs[j] + bs[j].len() by {
            assert(fs[j + 1] == firsts[j + 1] && fs[j] == firsts[j] && bs[j] == batches[j]);
        }
        assert forall|j: int, i: int| 0 <= j < bs.len() && 0 <= i < bs[j].len() implies (#[trigger] bs[j][i]).id.0
            == fs[j] + i by {
            assert(bs[j] == batches[j] && fs[j] == firsts[j]);
        }
        lemma_ids_over_run(bs, fs);
        let prev = joined_orders(bs);
        let last = batches[n - 1];
        assert(firsts[n - 1] == prev.len() + 1) by {
            if n > 1 {
                assert(firsts[(n - 2) + 1] == firsts[n - 2] + batches[n - 2].len());
            }
        }
        assert forall|x: int| 0 <= x < joined_orders(batches).len() implies (#[trigger] joined_orders(
            batches,
        )[x]).id.0 == x + 1 by {
            if x < prev.len() {
                assert(joined_orders(batches)[x] == prev[x]);
            } else {
                assert(joined_orders(batches)[x] == last[x - prev.len()]);
            }
        }
    }
}

/// What the strategies see: the event's tick (if any), the books, the
/// portfolio and the clock reading.
pub open spec fn strategy_context<'a>(
    tick: Option<&'a PriceTick>,
    books: &'a OrderbookManager,
    portfolio: &'a InMemoryPortfolio,
    now: u64,
) -> StrategyContext<'a> {
    StrategyContext { tick, orderbooks: books, portfolio, now }
}

/// The orders placed for requests: as many as the ids allow, each with its
/// request, in order.
pub open spec fn places_requests(r: Seq<Order>, reqs: Seq<OrderRequestView>, next_id_after: u64) -> bool {
    &&& r.len() <= reqs.len()
    &&& (r.len() == reqs.len() || next_id_after == u64::MAX)
    &&& forall|i: int| 0 <= i < r.len() ==> (#[trigger] r[i]).request@ == reqs[i]
}

/// The engine's state between events: the order books, the portfolio, the
/// strategies, the next order id and whether strategies were last active.
pub struct EngineCore {
    orderbooks: OrderbookManager,
    portfolio: InMemoryPortfolio,
    strategies: StrategyRegistry,
    next_order_id: u64,
    was_active: bool,
    epoch: Option<u64>,
}

impl EngineCore {
    /// The order books.
    pub closed spec fn book_state(&self) -> OrderbookManager {
        self.orderbooks
    }

    /// The strategies.
    pub closed spec fn strategy_state(&self) -> StrategyRegistry {
        self.strategies
    }

    /// The portfolio.
    pub closed spec fn portfolio_state(&self) -> InMemoryPortfolio {
        self.portfolio
    }

    pub fn orderbooks(&self) -> (r: &OrderbookManager)
        ensures
            *r == self.book_state(),
    {
        &self.orderbooks
    }

    pub fn portfolio(&self) -> (r: &InMemoryPortfolio)
        ensures
            *r == self.portfolio_state(),
    {
        &self.portfolio
    }

    pub closed spec fn next_id(&self) -> u64 {
        self.next_order_id
    }

    pub closed spec fn last_active(&self) -> bool {
        self.was_active
    }

    /// Start of the market epoch the books belong to, once one was entered.
    pub closed spec fn current_epoch(&self) -> Option<u64> {
        self.epoch
    }

    /// A fresh engine state: empty books, a portfolio holding
    /// `initial_balance`, order ids from 1, strategies inactive.
    pub fn new(strategies: StrategyRegistry, initial_balance: i128) -> (e: Self)
        ensures
            e.book_state().books() == Map::<Seq<char>, crate::types::orderbook::SnapshotView>::empty(),
            e.book_state().assets() == Map::<Seq<char>, crate::types::market::AssetInfo>::empty(),
            e.portfolio_state().pending() == Seq::<Order>::empty(),
            e.portfolio_state().positions() == Map::<Seq<char>, i128>::empty(),
            e.portfolio_state().cash() == initial_balance,
            e.next_id() == 1,
            !e.last_active(),
            e.current_epoch() is None,
            e.strategy_state() == strategies,
    {
        EngineCore {
            orderbooks: OrderbookManager::new(),
            portfolio: InMemoryPortfolio::new(initial_balance),
            strategies,
            next_order_id: 1,
            was_active: false,
            epoch: None,
        }
    }

    /// Registers an asset discovered in a market with the order books.
    pub fn register_asset(&mut self, market_id: &str, asset_id: &str, info: crate::types::market::AssetInfo)
        ensures
            final(self).strategy_state() == old(self).strategy_state(),
            final(self).book_state().assets() == old(self).book_state().assets().insert(asset_id@, info),
            final(self).book_state().market_assets() == old(self).book_state().market_assets().insert(
                market_id@,
                (if old(self).book_state().market_assets().contains_key(market_id@) {
                    old(self).book_state().market_assets()[market_id@]
                } else {
                    Seq::empty()
                }).push(asset_id@),
            ),
            final(self).book_state().books() == old(self).book_state().books(),
            final(self).portfolio_state() == old(self).portfolio_state(),
            final(self).next_id() == old(self).next_id(),
            final(self).last_active() == old(self).last_active(),
    {
        self.orderbooks.register_asset(market_id, asset_id, info);
    }

    /// Checks the epoch at unix time `now`: when it differs from the current
    /// one (or none was entered yet), enters it, clears all order-book state
    /// so the markets of the new epoch can be discovered, and returns true;
    /// otherwise changes nothing and returns false.
    pub fn roll_epoch(&mut self, now: u64, interval_secs: u64) -> (rolled: bool)
        requires
            interval_secs > 0,
        ensures
            final(self).strategy_state() == old(self).strategy_state(),
            rolled == (old(self).current_epoch() != Some(epoch_start(now, interval_secs))),
            final(self).current_epoch() == Some(epoch_start(now, interval_secs)),
            rolled ==> final(self).book_state().books() == Map::<
                Seq<char>,
                crate::types::orderbook::SnapshotView,
            >::empty() && final(self).book_state().assets() == Map::<
                Seq<char>,
                crate::types::market::AssetInfo,
            >::empty() && final(self).book_state().market_assets() == Map::<
                Seq<char>,
                Seq<Seq<char>>,
            >::empty(),
            !rolled ==> final(self).book_state() == old(self).book_state(),
            final(self).portfolio_state() == old(self).portfolio_state(),
            final(self).next_id() == old(self).next_id(),
            final(self).last_active() == old(self).last_active(),
    {
        assert((now / interval_secs) * interval_secs <= now) by (nonlinear_arith)
            requires
                interval_secs > 0,
        ;
        let start = (now / interval_secs) * interval_secs;
        let same = match self.epoch {
            Some(e) => e == start,
            None => false,
        };
        if same {
            false
        } else {
            self.epoch = Some(start);
            self.orderbooks.clear();
            true
        }
    }

    /// Records whether strategies are active; returns the new state when it
    /// changed (the window opened or closed).
    pub fn update_window(&mut self, active: bool) -> (r: Option<bool>)
        ensures
            final(self).strategy_state() == old(self).strategy_state(),
            final(self).last_active() == active,
            r == (if active != old(self).last_active() {
                Some(active)
            } else {
                None::<bool>
            }),
            final(self).next_id() == old(self).next_id(),
            final(self).book_state() == old(self).book_state(),
            final(self).portfolio_state() == old(self).portfolio_state(),
    {
        if active != self.was_active {
            self.was_active = active;
            Some(active)
        } else {
            None
        }
    }

    /// Turns strategy requests into orders: each gets the next order id, is
    /// pending, and is recorded in the portfolio. Requests left when the
    /// ids run out are dropped.
    fn place_orders(&mut self, reqs: Vec<OrderRequest>, now: u64) -> (r: Vec<Order>)
        ensures
            final(self).strategy_state() == old(self).strategy_state(),
            r@ == orders_from(reqs@.take(r@.len() as int), old(self).next_id(), now),
            r@.len() <= reqs@.len(),
            r@.len() == reqs@.len() || final(self).next_id() == u64::MAX,
            final(self).next_id() == old(self).next_id() + r@.len(),
            final(self).portfolio_state().pending() == record_all(old(self).portfolio_state().pending(), r@),
            final(self).portfolio_state().positions() == old(self).portfolio_state().positions(),
            final(self).portfolio_state().cash() == old(self).portfolio_state().cash(),
            final(self).book_state() == old(self).book_state(),
    {
        let mut out: Vec<Order> = Vec::new();
        let mut i: usize = 0;
        let ghost first = self.next_order_id;
        while i < reqs.len() && self.next_order_id < u64::MAX
            invariant
                i <= reqs@.len(),
                out@.len() == i,
                self.next_order_id == first + i,
                out@ == orders_from(reqs@.take(i as int), first, now),
                self.portfolio.pending() == record_all(old(self).portfolio_state().pending(), out@),
                self.portfolio.positions() == old(self).portfolio_state().positions(),
                self.portfolio.cash() == old(self).portfolio_state().cash(),
                self.strategies == old(self).strategy_state(),
                self.orderbooks == old(self).book_state(),
                first == old(self).next_id(),
            decreases reqs@.len() - i,
        {
            let order = Order {
                id: OrderId(self.next_order_id),
                request: reqs[i].duplicate(),
                status: OrderStatus::Pending,
                created_at: now,
            };
            self.next_order_id = self.next_order_id + 1;
            self.portfolio.record_pending_order(&order);
            let ghost before = out@;
            out.push(order);
            proof {
                assert(reqs@.take(i as int + 1).drop_last() =~= reqs@.take(i as int));
                assert(out@.drop_last() =~= before);
            }
            i = i + 1;
        }
        out
    }

    /// A trade tick: when strategies are active, asks them for orders and
    /// places those; otherwise does nothing.
    pub fn on_tick(&mut self, tick: &PriceTick, active: bool, now: u64) -> (r: Vec<Order>)
        ensures
            active ==> forall|c: StrategyContext| #[trigger] final(self).strategy_state().tick_orders(c)
                == all_tick_after_tick(
                old(self).strategy_state().strategies(),
                strategy_context(Some(tick), &old(self).book_state(), &old(self).portfolio_state(), now),
                c,
            ),
            active ==> forall|c: StrategyContext| #[trigger] final(self).strategy_state().update_orders(c)
                == all_update_after_tick(
                old(self).strategy_state().strategies(),
                strategy_context(Some(tick), &old(self).book_state(), &old(self).portfolio_state(), now),
                c,
            ),
            !active ==> final(self).strategy_state() == old(self).strategy_state(),
            final(self).strategy_state().count() == old(self).strategy_state().count(),
            active ==> places_requests(
                r@,
                old(self).strategy_state().tick_orders(
                    strategy_context(Some(tick), &old(self).book_state(), &old(self).portfolio_state(), now),
                ),
                final(self).next_id(),
            ),
            !active ==> r@.len() == 0 && final(self).next_id() == old(self).next_id()
                && final(self).portfolio_state() == old(self).portfolio_state(),
            final(self).book_state() == old(self).book_state(),
            final(self).portfolio_state().positions() == old(self).portfolio_state().positions(),
            final(self).portfolio_state().cash() == old(self).portfolio_state().cash(),
            final(self).next_id() == old(self).next_id() + r@.len(),
            forall|i: int| 0 <= i < r@.len() ==> (#[trigger] r@[i]).id.0 == old(self).next_id() + i
                && r@[i].status == OrderStatus::Pending && r@[i].created_at == now,
            final(self).portfolio_state().pending() == record_all(old(self).portfolio_state().pending(), r@),
    {
        if !active {
            return Vec::new();
        }
        let reqs = {
            let ctx = StrategyContext {
                tick: Some(tick),
                orderbooks: &self.orderbooks,
                portfolio: &self.portfolio,
                now,
            };
            self.strategies.on_tick(&ctx)
        };
        let r = self.place_orders(reqs, now);
        proof {
            lemma_orders_from_ids(reqs@.take(r@.len() as int), old(self).next_id(), now);
        }
        r
    }

    /// An order-book event: applies it to the books, then, when strategies
    /// are active, asks them for orders and places those.
    pub fn on_orderbook_event(&mut self, event: &OrderbookEvent, active: bool, now: u64) -> (r: Vec<
        Order,
    >)
        ensures
            active ==> forall|c: StrategyContext| #[trigger] final(self).strategy_state().tick_orders(c)
                == all_tick_after_update(
                old(self).strategy_state().strategies(),
                strategy_context(None, &final(self).book_state(), &old(self).portfolio_state(), now),
                c,
            ),
            active ==> forall|c: StrategyContext| #[trigger] final(self).strategy_state().update_orders(c)
                == all_update_after_update(
                old(self).strategy_state().strategies(),
                strategy_context(None, &final(self).book_state(), &old(self).portfolio_state(), now),
                c,
            ),
            !active ==> final(self).strategy_state() == old(self).strategy_state(),
            final(self).strategy_state().count() == old(self).strategy_state().count(),
            active ==> places_requests(
                r@,
                old(self).strategy_state().update_orders(
                    strategy_context(None, &final(self).book_state(), &old(self).portfolio_state(), now),
                ),
                final(self).next_id(),
            ),
            !active ==> r@.len() == 0 && final(self).next_id() == old(self).next_id()
                && final(self).portfolio_state() == old(self).portfolio_state(),
            final(self).book_state().books() == ({
                match *event {
                    OrderbookEvent::Snapshot { asset_id, bids, asks, .. } => old(self).book_state().books().insert(
                        asset_id@,
                        crate::types::orderbook::SnapshotView {
                            bids: crate::types::levels::sort_levels(bids@, true),
                            asks: crate::types::levels::sort_levels(asks@, false),
                            ..crate::types::orderbook::base_book(
                                old(self).book_state().books(),
                                old(self).book_state().assets(),
                                asset_id@,
                            )
                        },
                    ),
                    OrderbookEvent::PriceChange { asset_id, price, size, side, best_bid, best_ask, .. } => old(self).book_state().books().insert(
                        asset_id@,
                        crate::types::orderbook::reconciled(
                            crate::types::orderbook::book_with_level(
                                crate::types::orderbook::base_book(
                                    old(self).book_state().books(),
                                    old(self).book_state().assets(),
                                    asset_id@,
                                ),
                                price,
                                size,
                                side@,
                            ),
                            best_bid,
                            best_ask,
                        ),
                    ),
                    OrderbookEvent::LastTrade { .. } => old(self).book_state().books(),
                }
            }),
            final(self).book_state().assets() == old(self).book_state().assets(),
            final(self).portfolio_state().positions() == old(self).portfolio_state().positions(),
            final(self).portfolio_state().cash() == old(self).portfolio_state().cash(),
            final(self).next_id() == old(self).next_id() + r@.len(),
            forall|i: int| 0 <= i < r@.len() ==> (#[trigger] r@[i]).id.0 == old(self).next_id() + i
                && r@[i].status == OrderStatus::Pending && r@[i].created_at == now,
            final(self).portfolio_state().pending() == record_all(old(self).portfolio_state().pending(), r@),
    {
        self.orderbooks.apply(event);
        if !active {
            return Vec::new();
        }
        let reqs = {
            let ctx = StrategyContext {
                tick: None,
                orderbooks: &self.orderbooks,
                portfolio: &self.portfolio,
                now,
            };
            self.strategies.on_orderbook_update(&ctx)
        };
        let r = self.place_orders(reqs, now);
        proof {
            lemma_orders_from_ids(reqs@.take(r@.len() as int), old(self).next_id(), now);
        }
        r
    }

    /// A fill: applies it to the portfolio when the portfolio can take it
    /// (see `InMemoryPortfolio::accepts_fill`) and returns whether it did;
    /// otherwise nothing changes.
    pub fn on_fill(&mut self, fill: &Fill) -> (applied: bool)
        ensures
            final(self).strategy_state() == old(self).strategy_state(),
            applied == old(self).portfolio_state().accepts_fill(*fill),
            applied ==> final(self).portfolio_state().pending() == crate::portfolio::in_memory::orders_without(
                old(self).portfolio_state().pending(),
                fill.order_id.0,
            ) && final(self).portfolio_state().cash() == old(self).portfolio_state().cash()
                + crate::portfolio::in_memory::fill_cash_delta(fill.side, fill.price, fill.size)
                && final(self).portfolio_state().positions() == old(self).portfolio_state().positions().insert(
                fill.asset_id@,
                (old(self).portfolio_state().position_of(fill.asset_id@)
                    + crate::portfolio::in_memory::fill_position_delta(fill.side, fill.size)) as i128,
            ),
            !applied ==> final(self).portfolio_state() == old(self).portfolio_state(),
            final(self).book_state() == old(self).book_state(),
            final(self).next_id() == old(self).next_id(),
    {
        if self.portfolio.can_apply_fill(fill) {
            self.portfolio.apply_fill(fill);
            true
        } else {
            false
        }
    }
}

proof fn lemma_orders_from_ids(reqs: Seq<OrderRequest>, first: u64, now: u64)
    requires
        first + reqs.len() <= u64::MAX,
    ensures
        orders_from(reqs, first, now).len() == reqs.len(),
        forall|i: int| 0 <= i < reqs.len() ==> (#[trigger] orders_from(reqs, first, now)[i]).id.0
            == first + i && orders_from(reqs, first, now)[i].status == OrderStatus::Pending
            && orders_from(reqs, first, now)[i].created_at == now && orders_from(reqs, first, now)[i].request
            == reqs[i],
    decreases reqs.len(),
{
    if reqs.len() > 0 {
        lemma_orders_from_ids(reqs.drop_last(), first, now);
        let o = orders_from(reqs, first, now);
        assert forall|i: int| 0 <= i < reqs.len() implies (#[trigger] o[i]).id.0 == first + i
            && o[i].status == OrderStatus::Pending && o[i].created_at == now && o[i].request
            == reqs[i] by {
            if i < reqs.len() - 1 {
                assert(o[i] == orders_from(reqs.drop_last(), first, now)[i]);
                assert(reqs.drop_last()[i] == reqs[i]);
            }
        }
    }
}

} // verus!
