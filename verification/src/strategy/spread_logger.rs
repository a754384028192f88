//! Buys an outcome when its book shows a wide spread with a cheap ask.
use vstd::prelude::*;
use vstd::string::*;

use super::{Strategy, StrategyContext};
use crate::portfolio::PortfolioReader;
use crate::strmap::StrMap;
use crate::types::order::{requests_view, OrderRequest, OrderRequestView, OrderSide, OrderType};
use crate::types::levels::ranks_before;
use crate::types::orderbook::{distinct_keys, snapshot_ordered, SnapshotView};

verus! {

/// Smallest spread (best ask minus best bid) that signals: 0.05.
pub const MIN_SPREAD: u64 = 5_000_000;

/// Largest best ask that signals: 0.45.
pub const MAX_ASK: u64 = 45_000_000;

/// Time after an order during which the asset gets no new order: 5 s.
pub const COOLDOWN_NANOS: u64 = 5_000_000_000;

/// Size of each order: 10.
pub const ORDER_SIZE: u64 = 1_000_000_000;

/// The best ask of a book when it signals: both sides present, spread at
/// least `MIN_SPREAD` and best ask at most `MAX_ASK`.
pub open spec fn spread_signal(b: SnapshotView) -> Option<u64> {
    if b.bids.len() > 0 && b.asks.len() > 0 {
        let bid = b.bids[0].price;
        let ask = b.asks[0].price;
        if ask >= bid + MIN_SPREAD && ask <= MAX_ASK {
            Some(ask)
        } else {
            None
        }
    } else {
        None
    }
}

/// The cooldown of an asset is over at `now`: it never got an order, or at
/// least `COOLDOWN_NANOS` passed since the last one.
pub open spec fn cooldown_over(last: Map<Seq<char>, u64>, asset_id: Seq<char>, now: u64) -> bool {
    !last.contains_key(asset_id) || (now >= last[asset_id] && now - last[asset_id]
        >= COOLDOWN_NANOS)
}

/// Whether the asset gets an order on this tick.
pub open spec fn places_order(
    asset_id: Seq<char>,
    books: Map<Seq<char>, SnapshotView>,
    last: Map<Seq<char>, u64>,
    pending: spec_fn(Seq<char>) -> nat,
    now: u64,
) -> bool {
    &&& books.contains_key(asset_id)
    &&& spread_signal(books[asset_id]) is Some
    &&& cooldown_over(last, asset_id, now)
    &&& pending(asset_id) == 0
}

/// The order placed for a signalling asset: a limit buy of `ORDER_SIZE` at
/// the best ask.
pub open spec fn spread_order(asset_id: Seq<char>, ask: u64) -> OrderRequestView {
    OrderRequestView {
        asset_id,
        side: OrderSide::Buy,
        order_type: OrderType::Limit,
        price: Some(ask),
        size: ORDER_SIZE,
    }
}

/// Orders placed on a tick, visiting the assets in `keys` order.
pub open spec fn spread_orders(
    keys: Seq<Seq<char>>,
    books: Map<Seq<char>, SnapshotView>,
    last: Map<Seq<char>, u64>,
    pending: spec_fn(Seq<char>) -> nat,
    now: u64,
) -> Seq<OrderRequestView>
    decreases keys.len(),
{
    if keys.len() == 0 {
        Seq::empty()
    } else {
        let before = spread_orders(keys.drop_last(), books, last, pending, now);
        let k = keys.last();
        if places_order(k, books, last, pending, now) {
            before.push(spread_order(k, spread_signal(books[k])->0))
        } else {
            before
        }
    }
}

/// Last-order times after a tick: every asset that got an order is stamped
/// with `now`.
pub open spec fn spread_stamps(
    keys: Seq<Seq<char>>,
    books: Map<Seq<char>, SnapshotView>,
    last: Map<Seq<char>, u64>,
    pending: spec_fn(Seq<char>) -> nat,
    now: u64,
) -> Map<Seq<char>, u64>
    decreases keys.len(),
{
    if keys.len() == 0 {
        last
    } else {
        let before = spread_stamps(keys.drop_last(), books, last, pending, now);
        let k = keys.last();
        if places_order(k, books, last, pending, now) {
            before.insert(k, now)
        } else {
            before
        }
    }
}

/// A book signals exactly when it has a bid and an ask, its best ask (the
/// first ask, the lowest on a book in book order) is at least `MIN_SPREAD`
/// above its best bid (the first bid, the highest) and at most `MAX_ASK`;
/// the signal carries that best ask, which on a book in book order is no
/// higher than any of its asks.
pub proof fn lemma_spread_signal_best_ask(b: SnapshotView)
    ensures
        spread_signal(b) is Some <==> {
            &&& b.bids.len() > 0
            &&& b.asks.len() > 0
            &&& b.asks[0].price >= b.bids[0].price + MIN_SPREAD
            &&& b.asks[0].price <= MAX_ASK
        },
        spread_signal(b) matches Some(p) ==> p == b.asks[0].price,
        spread_signal(b) is Some && snapshot_ordered(b) ==> forall|m: int|
            0 <= m < b.asks.len() ==> spread_signal(b)->0 <= #[trigger] b.asks[m].price,
        spread_signal(b) is Some && snapshot_ordered(b) ==> forall|m: int|
            0 <= m < b.bids.len() ==> #[trigger] b.bids[m].price + MIN_SPREAD <= spread_signal(b)->0,
{
    if snapshot_ordered(b) && spread_signal(b) is Some {
        assert forall|m: int| 0 <= m < b.asks.len() implies spread_signal(b)->0 <= #[trigger] b.asks[m].price by {
            if m > 0 {
                assert(ranks_before(b.asks[0], b.asks[m], false));
            }
        }
        assert forall|m: int| 0 <= m < b.bids.len() implies #[trigger] b.bids[m].price + MIN_SPREAD
            <= spread_signal(b)->0 by {
            if m > 0 {
                assert(ranks_before(b.bids[0], b.bids[m], true));
            }
        }
    }
}

/// Every order placed on a tick is a limit buy of `ORDER_SIZE` for an asset
/// with a signalling book, at that book's best ask.
pub proof fn lemma_spread_orders_at_best_ask(
    keys: Seq<Seq<char>>,
    books: Map<Seq<char>, SnapshotView>,
    last: Map<Seq<char>, u64>,
    pending: spec_fn(Seq<char>) -> nat,
    now: u64,
    x: int,
)
    requires
        0 <= x < spread_orders(keys, books, last, pending, now).len(),
    ensures
        ({
            let o = spread_orders(keys, books, last, pending, now)[x];
            &&& books.contains_key(o.asset_id)
            &&& books[o.asset_id].asks.len() > 0
            &&& o.price == Some(books[o.asset_id].asks[0].price)
            &&& o.side == OrderSide::Buy
            &&& o.order_type == OrderType::Limit
            &&& o.size == ORDER_SIZE
            &&& cooldown_over(last, o.asset_id, now)
            &&& pending(o.asset_id) == 0
        }),
    decreases keys.len(),
{
    let before = spread_orders(keys.drop_last(), books, last, pending, now);
    if x < before.len() {
        lemma_spread_orders_at_best_ask(keys.drop_last(), books, last, pending, now, x);
    } else {
        lemma_spread_signal_best_ask(books[keys.last()]);
    }
}

/// Stamping leaves assets outside `keys` alone.
proof fn lemma_spread_stamps_other(
    keys: Seq<Seq<char>>,
    books: Map<Seq<char>, SnapshotView>,
    last: Map<Seq<char>, u64>,
    pending: spec_fn(Seq<char>) -> nat,
    now: u64,
    k: Seq<char>,
)
    requires
        !keys.contains(k),
    ensures
        spread_stamps(keys, books, last, pending, now).contains_key(k) == last.contains_key(k),
        last.contains_key(k) ==> spread_stamps(keys, books, last, pending, now)[k] == last[k],
    decreases keys.len(),
{
    if keys.len() > 0 {
        assert(keys.drop_last().contains(k) ==> keys.contains(k)) by {
            if keys.drop_last().contains(k) {
                let i = choose|i: int| 0 <= i < keys.drop_last().len() && keys.drop_last()[i] == k;
                assert(keys[i] == k);
            }
        }
        assert(keys[keys.len() - 1] != k);
        lemma_spread_stamps_other(keys.drop_last(), books, last, pending, now, k);
    }
}

/// A tick stamps with its clock reading exactly the assets that get an order
/// on it; every other asset keeps its stamp, or stays without one.
pub proof fn lemma_spread_stamps_exact(
    keys: Seq<Seq<char>>,
    books: Map<Seq<char>, SnapshotView>,
    last: Map<Seq<char>, u64>,
    pending: spec_fn(Seq<char>) -> nat,
    now: u64,
    k: Seq<char>,
)
    ensures
        keys.contains(k) && places_order(k, books, last, pending, now) ==> spread_stamps(keys, books, last, pending, now).contains_key(k)
            && spread_stamps(keys, books, last, pending, now)[k] == now,
        !(keys.contains(k) && places_order(k, books, last, pending, now)) ==> {
            &&& spread_stamps(keys, books, last, pending, now).contains_key(k) == last.contains_key(k)
            &&& last.contains_key(k) ==> spread_stamps(keys, books, last, pending, now)[k] == last[k]
        },
    decreases keys.len(),
{
    if keys.len() > 0 {
        let t = keys.drop_last();
        lemma_spread_stamps_exact(t, books, last, pending, now, k);
        assert(keys.contains(k) <==> (t.contains(k) || keys.last() == k)) by {
            if keys.contains(k) {
                let i = choose|i: int| 0 <= i < keys.len() && keys[i] == k;
                if i < keys.len() - 1 {
                    assert(t[i] == k);
                }
            }
            if t.contains(k) {
                let i = choose|i: int| 0 <= i < t.len() && t[i] == k;
                assert(keys[i] == k);
            }
            if keys.last() == k {
                assert(keys[keys.len() - 1] == k);
            }
        }
    }
}

/// An asset that gets an order on a tick is stamped with the tick's clock
/// reading, so it gets no order again until `COOLDOWN_NANOS` have passed.
pub proof fn lemma_order_starts_cooldown(
    keys: Seq<Seq<char>>,
    books: Map<Seq<char>, SnapshotView>,
    last: Map<Seq<char>, u64>,
    pending: spec_fn(Seq<char>) -> nat,
    now: u64,
    i: int,
)
    requires
        distinct_keys(keys),
        0 <= i < keys.len(),
        places_order(keys[i], books, last, pending, now),
    ensures
        spread_stamps(keys, books, last, pending, now).contains_key(keys[i]),
        spread_stamps(keys, books, last, pending, now)[keys[i]] == now,
        forall|later: u64|
            now <= later < now + COOLDOWN_NANOS ==> !cooldown_over(
                #[trigger] spread_stamps(keys, books, last, pending, now),
                keys[i],
                later,
            ),
    decreases keys.len(),
{
    if i < keys.len() - 1 {
        let t = keys.drop_last();
        assert forall|a: int, b: int| 0 <= a < t.len() && 0 <= b < t.len() && a != b implies #[trigger] t[a]
            != #[trigger] t[b] by {
            assert(t[a] == keys[a] && t[b] == keys[b]);
        }
        assert(t[i] == keys[i]);
        assert(keys[keys.len() - 1] != keys[i]);
        lemma_order_starts_cooldown(t, books, last, pending, now, i);
    }
}

/// Every order placed on a tick is for an asset of `keys` that places an
/// order on that tick.
proof fn lemma_spread_order_source(
    keys: Seq<Seq<char>>,
    books: Map<Seq<char>, SnapshotView>,
    last: Map<Seq<char>, u64>,
    pending: spec_fn(Seq<char>) -> nat,
    now: u64,
    x: int,
)
    requires
        0 <= x < spread_orders(keys, books, last, pending, now).len(),
    ensures
        exists|i: int|
            0 <= i < keys.len() && keys[i] == spread_orders(keys, books, last, pending, now)[x].asset_id
                && places_order(keys[i], books, last, pending, now),
    decreases keys.len(),
{
    let before = spread_orders(keys.drop_last(), books, last, pending, now);
    if x < before.len() {
        lemma_spread_order_source(keys.drop_last(), books, last, pending, now, x);
        let i = choose|i: int|
            0 <= i < keys.drop_last().len() && keys.drop_last()[i] == before[x].asset_id
                && places_order(keys.drop_last()[i], books, last, pending, now);
        assert(keys[i] == keys.drop_last()[i]);
    } else {
        assert(keys[keys.len() - 1] == keys.last());
    }
}

/// While an asset's cooldown runs, a tick places no order for it and keeps
/// its stamp.
pub proof fn lemma_no_order_during_cooldown(
    keys: Seq<Seq<char>>,
    books: Map<Seq<char>, SnapshotView>,
    last: Map<Seq<char>, u64>,
    pending: spec_fn(Seq<char>) -> nat,
    now: u64,
    k: Seq<char>,
)
    requires
        last.contains_key(k),
        last[k] <= now < last[k] + COOLDOWN_NANOS,
    ensures
        forall|x: int|
            0 <= x < spread_orders(keys, books, last, pending, now).len() ==> (#[trigger] spread_orders(
                keys,
                books,
                last,
                pending,
                now,
            )[x]).asset_id != k,
        spread_stamps(keys, books, last, pending, now).contains_key(k),
        spread_stamps(keys, books, last, pending, now)[k] == last[k],
    decreases keys.len(),
{
    assert(!cooldown_over(last, k, now));
    if keys.len() > 0 {
        lemma_no_order_during_cooldown(keys.drop_last(), books, last, pending, now, k);
    }
    assert forall|x: int|
        0 <= x < spread_orders(keys, books, last, pending, now).len() implies (#[trigger] spread_orders(
        keys,
        books,
        last,
        pending,
        now,
    )[x]).asset_id != k by {
        lemma_spread_order_source(keys, books, last, pending, now, x);
    }
}

/// Over a run of ticks on one strategy, with clock readings that never go
/// back, two orders for the same asset are at least `COOLDOWN_NANOS` apart:
/// `lasts[j]` is the strategy's stamps before tick `j`, and tick `j` sees
/// the assets `keys[j]`, the books `books[j]`, the pending counts
/// `pendings[j]` and the clock reading `nows[j]`.
pub proof fn lemma_cooldown_over_run(
    keys: Seq<Seq<Seq<char>>>,
    books: Seq<Map<Seq<char>, SnapshotView>>,
    pendings: Seq<spec_fn(Seq<char>) -> nat>,
    nows: Seq<u64>,
    lasts: Seq<Map<Seq<char>, u64>>,
    a: int,
    ia: int,
    b: int,
    ib: int,
)
    requires
        keys.len() == books.len() == pendings.len() == nows.len(),
        lasts.len() == keys.len() + 1,
        forall|j: int| 0 <= j < keys.len() ==> distinct_keys(#[trigger] keys[j]),
        forall|j: int|
            0 <= j < keys.len() ==> #[trigger] lasts[j + 1] == spread_stamps(
                keys[j],
                books[j],
                lasts[j],
                pendings[j],
                nows[j],
            ),
        forall|j1: int, j2: int| 0 <= j1 <= j2 < nows.len() ==> #[trigger] nows[j1] <= #[trigger] nows[j2],
        0 <= a < b < keys.len(),
        0 <= ia < spread_orders(keys[a], books[a], lasts[a], pendings[a], nows[a]).len(),
        0 <= ib < spread_orders(keys[b], books[b], lasts[b], pendings[b], nows[b]).len(),
        spread_orders(keys[a], books[a], lasts[a], pendings[a], nows[a])[ia].asset_id == spread_orders(
            keys[b],
            books[b],
            lasts[b],
            pendings[b],
            nows[b],
        )[ib].asset_id,
    ensures
        nows[b] >= nows[a] + COOLDOWN_NANOS,
{
    let k = spread_orders(keys[a], books[a], lasts[a], pendings[a], nows[a])[ia].asset_id;
    lemma_spread_order_source(keys[a], books[a], lasts[a], pendings[a], nows[a], ia);
    let i = choose|i: int|
        0 <= i < keys[a].len() && keys[a][i] == k && places_order(
            keys[a][i],
            books[a],
            lasts[a],
            pendings[a],
            nows[a],
        );
    lemma_order_starts_cooldown(keys[a], books[a], lasts[a], pendings[a], nows[a], i);
    if nows[b] < nows[a] + COOLDOWN_NANOS {
        lemma_stamp_held(keys, books, pendings, nows, lasts, a, k, b);
        lemma_no_order_during_cooldown(keys[b], books[b], lasts[b], pendings[b], nows[b], k);
        assert(false);
    }
}

/// The stamp an order put on an asset stays while the cooldown runs.
proof fn lemma_stamp_held(
    keys: Seq<Seq<Seq<char>>>,
    books: Seq<Map<Seq<char>, SnapshotView>>,
    pendings: Seq<spec_fn(Seq<char>) -> nat>,
    nows: Seq<u64>,
    lasts: Seq<Map<Seq<char>, u64>>,
    a: int,
    k: Seq<char>,
    j: int,
)
    requires
        keys.len() == books.len() == pendings.len() == nows.len(),
        lasts.len() == keys.len() + 1,
        forall|j: int|
            0 <= j < keys.len() ==> #[trigger] lasts[j + 1] == spread_stamps(
                keys[j],
                books[j],
                lasts[j],
                pendings[j],
                nows[j],
            ),
        forall|j1: int, j2: int| 0 <= j1 <= j2 < nows.len() ==> #[trigger] nows[j1] <= #[trigger] nows[j2],
        0 <= a < j < keys.len(),
        lasts[a + 1].contains_key(k),
        lasts[a + 1][k] == nows[a],
        nows[j] < nows[a] + COOLDOWN_NANOS,
    ensures
        lasts[j].contains_key(k),
        lasts[j][k] == nows[a],
    decreases j - a,
{
    if j > a + 1 {
        assert(nows[j - 1] <= nows[j]);
        lemma_stamp_held(keys, books, pendings, nows, lasts, a, k, j - 1);
        assert(nows[a] <= nows[j - 1]);
        lemma_no_order_during_cooldown(keys[j - 1], books[j - 1], lasts[j - 1], pendings[j - 1], nows[j - 1], k);
        assert(lasts[(j - 1) + 1] == spread_stamps(
            keys[j - 1],
            books[j - 1],
            lasts[j - 1],
            pendings[j - 1],
            nows[j - 1],
        ));
    }
}

pub struct SpreadLoggerStrategy {
    last_order_time: StrMap<u64>,
}

impl SpreadLoggerStrategy {
    /// Clock reading of the last order placed for each asset.
    pub closed spec fn last_orders(&self) -> Map<Seq<char>, u64> {
        self.last_order_time.map()
    }

    pub fn new() -> (s: Self)
        ensures
            s.last_orders() == Map::<Seq<char>, u64>::empty(),
    {
        SpreadLoggerStrategy { last_order_time: StrMap::new() }
    }

    /// Whether the cooldown of an asset is over at clock reading `now`.
    pub fn cooldown_elapsed(&self, asset_id: &str, now: u64) -> (r: bool)
        ensures
            r == cooldown_over(self.last_orders(), asset_id@, now),
    {
        match self.last_order_time.get(asset_id) {
            Some(t) => now >= *t && now - *t >= COOLDOWN_NANOS,
            None => true,
        }
    }

    /// Visits every book; for each that signals, whose cooldown is over
    /// and that has no pending order, places a limit buy at the best ask
    /// and starts the asset's cooldown.
    pub fn orders_for_tick(&mut self, ctx: &StrategyContext) -> (r: Vec<OrderRequest>)
        ensures
            requests_view(r@) == spread_orders(
                ctx.orderbooks.book_keys(),
                ctx.orderbooks.books(),
                old(self).last_orders(),
                |k: Seq<char>| ctx.portfolio.pending_count_of(k),
                ctx.now,
            ),
            final(self).last_orders() == spread_stamps(
                ctx.orderbooks.book_keys(),
                ctx.orderbooks.books(),
                old(self).last_orders(),
                |k: Seq<char>| ctx.portfolio.pending_count_of(k),
                ctx.now,
            ),
    {
        let ghost keys = ctx.orderbooks.book_keys();
        let ghost books = ctx.orderbooks.books();
        let ghost last0 = self.last_orders();
        let ghost pending = |k: Seq<char>| ctx.portfolio.pending_count_of(k);
        let snaps = ctx.orderbooks.all_snapshots();
        let mut orders: Vec<OrderRequest> = Vec::new();
        let mut i: usize = 0;
        assert forall|j: int| 0 <= j < snaps@.len() implies {
            &&& (#[trigger] snaps@[j]).0@ == keys[j]
            &&& books.contains_key(keys[j])
            &&& snaps@[j].1@ == books[keys[j]]
        } by {
            let e = snaps@[j];
        }
        assert(requests_view(orders@) =~= Seq::<OrderRequestView>::empty());
        while i < snaps.len()
            invariant
                i <= snaps@.len(),
                snaps@.len() == keys.len(),
                keys == ctx.orderbooks.book_keys(),
                books == ctx.orderbooks.books(),
                pending == (|k: Seq<char>| ctx.portfolio.pending_count_of(k)),
                distinct_keys(keys),
                forall|j: int| 0 <= j < snaps@.len() ==> {
                    &&& (#[trigger] snaps@[j]).0@ == keys[j]
                    &&& books.contains_key(keys[j])
                    &&& snaps@[j].1@ == books[keys[j]]
                },
                requests_view(orders@) == spread_orders(keys.take(i as int), books, last0, pending, ctx.now),
                self.last_orders() == spread_stamps(keys.take(i as int), books, last0, pending, ctx.now),
            decreases snaps@.len() - i,
        {
            let (asset_id, snap) = snaps[i];
            let ghost k = keys[i as int];
            proof {
                assert(keys.take(i as int + 1).drop_last() =~= keys.take(i as int));
                assert(keys.take(i as int + 1).last() == k);
                assert(!keys.take(i as int).contains(k)) by {
                    if keys.take(i as int).contains(k) {
                        let m = choose|m: int| 0 <= m < keys.take(i as int).len() && keys.take(i as int)[m] == k;
                        assert(keys[m] == k);
                    }
                }
                lemma_spread_stamps_other(keys.take(i as int), books, last0, pending, ctx.now, k);
            }
            match (snap.best_bid(), snap.best_ask()) {
                (Some(b), Some(a)) => {
                    let best_bid = b.price;
                    let best_ask = a.price;
                    if best_ask >= MIN_SPREAD && best_ask - MIN_SPREAD >= best_bid && best_ask <= MAX_ASK {
                        if self.cooldown_elapsed(asset_id.as_str(), ctx.now)
                            && ctx.portfolio.pending_order_count(asset_id.as_str()) == 0 {
                            let ghost before = orders@;
                            orders.push(
                                OrderRequest {
                                    asset_id: asset_id.clone(),
                                    side: OrderSide::Buy,
                                    order_type: OrderType::Limit,
                                    price: Some(best_ask),
                                    size: ORDER_SIZE,
                                },
                            );
                            proof {
                                assert(requests_view(orders@) =~= requests_view(before).push(
                                    spread_order(k, best_ask),
                                ));
                            }
                            self.last_order_time.insert(asset_id.clone(), ctx.now);
                        }
                    }
                },
                _ => {},
            }
            i = i + 1;
        }
        proof {
            assert(keys.take(keys.len() as int) =~= keys);
        }
        orders
    }
}

impl Default for SpreadLoggerStrategy {
    fn default() -> (s: Self)
        ensures
            s.last_orders() == Map::<Seq<char>, u64>::empty(),
    {
        Self::new()
    }
}

impl Strategy for SpreadLoggerStrategy {
    fn name(&self) -> (r: &'static str)
        ensures
            r@ == "SpreadLogger"@,
    {
        "SpreadLogger"
    }

    /// The spread orders of the books the context shows (see
    /// `spread_orders`).
    open spec fn tick_orders(&self, ctx: StrategyContext) -> Seq<OrderRequestView> {
        spread_orders(
            ctx.orderbooks.book_keys(),
            ctx.orderbooks.books(),
            self.last_orders(),
            |k: Seq<char>| ctx.portfolio.pending_count_of(k),
            ctx.now,
        )
    }

    /// After a tick the cooldowns it started count (see `spread_stamps`).
    open spec fn tick_orders_after_tick(&self, seen: StrategyContext, ctx: StrategyContext) -> Seq<
        OrderRequestView,
    > {
        spread_orders(
            ctx.orderbooks.book_keys(),
            ctx.orderbooks.books(),
            spread_stamps(
                seen.orderbooks.book_keys(),
                seen.orderbooks.books(),
                self.last_orders(),
                |k: Seq<char>| seen.portfolio.pending_count_of(k),
                seen.now,
            ),
            |k: Seq<char>| ctx.portfolio.pending_count_of(k),
            ctx.now,
        )
    }

    fn on_tick(&mut self, ctx: &StrategyContext) -> (r: Vec<OrderRequest>)
        ensures
            final(self).last_orders() == spread_stamps(
                ctx.orderbooks.book_keys(),
                ctx.orderbooks.books(),
                old(self).last_orders(),
                |k: Seq<char>| ctx.portfolio.pending_count_of(k),
                ctx.now,
            ),
    {
        self.orders_for_tick(ctx)
    }

    /// Order-book updates place no orders and leave the cooldowns alone.
    fn on_orderbook_update(&mut self, ctx: &StrategyContext) -> (r: Vec<OrderRequest>)
        ensures
            final(self).last_orders() == old(self).last_orders(),
    {
        let r: Vec<OrderRequest> = Vec::new();
        assert(requests_view(r@) =~= Seq::<OrderRequestView>::empty());
        r
    }
}

} // verus!
