//! Detects up/down mispricing: both outcomes of a market together should
//! cost one whole unit.
use vstd::prelude::*;
use vstd::string::*;

use super::{Strategy, StrategyContext};
use crate::decimal::UNITS_PER_ONE;
use crate::types::market::{strings_view, Outcome};
use crate::types::order::{requests_view, OrderRequest, OrderRequestView};
use crate::types::levels::ranks_before;
use crate::types::orderbook::{snapshot_ordered, OrderbookManager, OrderbookSnapshot, SnapshotView};

verus! {

/// Which arbitrage a signal reports.
#[derive(Debug, Clone, Copy, PartialEq, Eq, Structural)]
pub enum ArbSide {
    /// Buying both outcomes at the best asks costs less than one unit.
    Buy,
    /// Selling both outcomes at the best bids brings more than one unit.
    Sell,
}

/// A mispricing found in one market, with the two prices involved.
#[derive(Debug, Clone)]
pub struct ArbSignal {
    pub market_id: String,
    pub side: ArbSide,
    pub up_price: u64,
    pub down_price: u64,
}

pub struct ArbSignalView {
    pub market_id: Seq<char>,
    pub side: ArbSide,
    pub up_price: u64,
    pub down_price: u64,
}

impl View for ArbSignal {
    type V = ArbSignalView;

    open spec fn view(&self) -> ArbSignalView {
        ArbSignalView {
            market_id: self.market_id@,
            side: self.side,
            up_price: self.up_price,
            down_price: self.down_price,
        }
    }
}

pub open spec fn signals_view(v: Seq<ArbSignal>) -> Seq<ArbSignalView> {
    v.map_values(|s: ArbSignal| s@)
}

/// The book of the last asset in `assets` that has a book for `outcome`.
pub open spec fn last_book_with(
    assets: Seq<Seq<char>>,
    books: Map<Seq<char>, SnapshotView>,
    outcome: Outcome,
) -> Option<SnapshotView>
    decreases assets.len(),
{
    if assets.len() == 0 {
        None
    } else {
        let a = assets.last();
        if books.contains_key(a) && books[a].info.outcome == outcome {
            Some(books[a])
        } else {
            last_book_with(assets.drop_last(), books, outcome)
        }
    }
}

/// An asset of the market has a book for the outcome.
pub open spec fn has_book_for(assets: Seq<Seq<char>>, books: Map<Seq<char>, SnapshotView>, outcome: Outcome, i: int) -> bool {
    &&& 0 <= i < assets.len()
    &&& books.contains_key(assets[i])
    &&& books[assets[i]].info.outcome == outcome
}

/// The book picked for an outcome is that of the last asset of the market
/// with a book for it, and there is one exactly when some asset has one.
pub proof fn lemma_last_book_with(assets: Seq<Seq<char>>, books: Map<Seq<char>, SnapshotView>, outcome: Outcome, i: int)
    ensures
        last_book_with(assets, books, outcome) is Some <==> exists|k: int| #[trigger] has_book_for(assets, books, outcome, k),
        has_book_for(assets, books, outcome, i) && (forall|j: int| i < j < assets.len() ==> !#[trigger] has_book_for(assets, books, outcome, j))
            ==> last_book_with(assets, books, outcome) == Some(books[assets[i]]),
    decreases assets.len(),
{
    if assets.len() > 0 {
        let t = assets.drop_last();
        let n = assets.len() - 1;
        assert forall|k: int| #[trigger] has_book_for(t, books, outcome, k) <==> (has_book_for(assets, books, outcome, k) && k < n) by {
            if 0 <= k < t.len() {
                assert(t[k] == assets[k]);
            }
        }
        lemma_last_book_with(t, books, outcome, i);
        if !has_book_for(assets, books, outcome, n) {
            if exists|k: int| #[trigger] has_book_for(assets, books, outcome, k) {
                let k = choose|k: int| #[trigger] has_book_for(assets, books, outcome, k);
                assert(has_book_for(t, books, outcome, k));
            }
        } else {
            assert(assets.last() == assets[n]);
            if has_book_for(assets, books, outcome, i) && (forall|j: int| i < j < assets.len() ==> !#[trigger] has_book_for(assets, books, outcome, j)) {
                assert(i == n) by {
                    if i < n {
                        assert(!has_book_for(assets, books, outcome, n));
                    }
                }
            }
        }
    }
}

/// Signals of one market from its up and down books: a buy signal when the
/// best asks add up to less than one, then a sell signal when the best bids
/// add up to more than one.
pub open spec fn market_signals(m: Seq<char>, up: SnapshotView, down: SnapshotView) -> Seq<
    ArbSignalView,
> {
    let buy = if up.asks.len() > 0 && down.asks.len() > 0 && up.asks[0].price + down.asks[0].price
        < UNITS_PER_ONE {
        seq![
            ArbSignalView {
                market_id: m,
                side: ArbSide::Buy,
                up_price: up.asks[0].price,
                down_price: down.asks[0].price,
            },
        ]
    } else {
        Seq::empty()
    };
    let sell = if up.bids.len() > 0 && down.bids.len() > 0 && up.bids[0].price + down.bids[0].price
        > UNITS_PER_ONE {
        seq![
            ArbSignalView {
                market_id: m,
                side: ArbSide::Sell,
                up_price: up.bids[0].price,
                down_price: down.bids[0].price,
            },
        ]
    } else {
        Seq::empty()
    };
    buy + sell
}

/// A market gives at most one buy and one sell signal. A buy signal comes
/// exactly when both books have asks and their best (first) asks add up to
/// less than one whole unit, and carries those two asks for the market; a
/// sell signal comes exactly when both books have bids and their best
/// (first) bids add up to more than one, and carries those two bids. On
/// books in book order these are the lowest asks and the highest bids.
pub proof fn lemma_market_signals(m: Seq<char>, up: SnapshotView, down: SnapshotView)
    ensures
        market_signals(m, up, down).len() <= 2,
        (exists|k: int| 0 <= k < market_signals(m, up, down).len() && #[trigger] market_signals(m, up, down)[k].side
            == ArbSide::Buy) <==> (up.asks.len() > 0 && down.asks.len() > 0 && up.asks[0].price
            + down.asks[0].price < UNITS_PER_ONE),
        (exists|k: int| 0 <= k < market_signals(m, up, down).len() && #[trigger] market_signals(m, up, down)[k].side
            == ArbSide::Sell) <==> (up.bids.len() > 0 && down.bids.len() > 0 && up.bids[0].price
            + down.bids[0].price > UNITS_PER_ONE),
        forall|k: int|
            0 <= k < market_signals(m, up, down).len() ==> {
                let sig = #[trigger] market_signals(m, up, down)[k];
                &&& sig.market_id == m
                &&& sig.side == ArbSide::Buy ==> sig.up_price == up.asks[0].price && sig.down_price
                    == down.asks[0].price
                &&& sig.side == ArbSide::Sell ==> sig.up_price == up.bids[0].price && sig.down_price
                    == down.bids[0].price
                &&& snapshot_ordered(up) && sig.side == ArbSide::Buy ==> forall|j: int|
                    0 <= j < up.asks.len() ==> sig.up_price <= #[trigger] up.asks[j].price
                &&& snapshot_ordered(down) && sig.side == ArbSide::Buy ==> forall|j: int|
                    0 <= j < down.asks.len() ==> sig.down_price <= #[trigger] down.asks[j].price
                &&& snapshot_ordered(up) && sig.side == ArbSide::Sell ==> forall|j: int|
                    0 <= j < up.bids.len() ==> sig.up_price >= #[trigger] up.bids[j].price
                &&& snapshot_ordered(down) && sig.side == ArbSide::Sell ==> forall|j: int|
                    0 <= j < down.bids.len() ==> sig.down_price >= #[trigger] down.bids[j].price
            },
{
    let ms = market_signals(m, up, down);
    if up.asks.len() > 0 && down.asks.len() > 0 && up.asks[0].price + down.asks[0].price < UNITS_PER_ONE {
        assert(ms[0].side == ArbSide::Buy);
    }
    if up.bids.len() > 0 && down.bids.len() > 0 && up.bids[0].price + down.bids[0].price > UNITS_PER_ONE {
        assert(ms[ms.len() - 1].side == ArbSide::Sell);
    }
    assert forall|k: int| 0 <= k < ms.len() implies {
        let sig = #[trigger] ms[k];
        &&& sig.market_id == m
        &&& sig.side == ArbSide::Buy ==> sig.up_price == up.asks[0].price && sig.down_price
            == down.asks[0].price
        &&& sig.side == ArbSide::Sell ==> sig.up_price == up.bids[0].price && sig.down_price
            == down.bids[0].price
        &&& snapshot_ordered(up) && sig.side == ArbSide::Buy ==> forall|j: int|
            0 <= j < up.asks.len() ==> sig.up_price <= #[trigger] up.asks[j].price
        &&& snapshot_ordered(down) && sig.side == ArbSide::Buy ==> forall|j: int|
            0 <= j < down.asks.len() ==> sig.down_price <= #[trigger] down.asks[j].price
        &&& snapshot_ordered(up) && sig.side == ArbSide::Sell ==> forall|j: int|
            0 <= j < up.bids.len() ==> sig.up_price >= #[trigger] up.bids[j].price
        &&& snapshot_ordered(down) && sig.side == ArbSide::Sell ==> forall|j: int|
            0 <= j < down.bids.len() ==> sig.down_price >= #[trigger] down.bids[j].price
    } by {
        let sig = ms[k];
        if snapshot_ordered(up) {
            assert forall|j: int| 0 < j < up.asks.len() implies up.asks[0].price <= #[trigger] up.asks[j].price by {
                assert(ranks_before(up.asks[0], up.asks[j], false));
            }
            assert forall|j: int| 0 < j < up.bids.len() implies up.bids[0].price >= #[trigger] up.bids[j].price by {
                assert(ranks_before(up.bids[0], up.bids[j], true));
            }
        }
        if snapshot_ordered(down) {
            assert forall|j: int| 0 < j < down.asks.len() implies down.asks[0].price <= #[trigger] down.asks[j].price by {
                assert(ranks_before(down.asks[0], down.asks[j], false));
            }
            assert forall|j: int| 0 < j < down.bids.len() implies down.bids[0].price >= #[trigger] down.bids[j].price by {
                assert(ranks_before(down.bids[0], down.bids[j], true));
            }
        }
    }
}

/// Signals of all markets, visited in `markets` order; a market without
/// both an up and a down book gives none.
pub open spec fn arb_signals(
    markets: Seq<Seq<char>>,
    market_assets: Map<Seq<char>, Seq<Seq<char>>>,
    books: Map<Seq<char>, SnapshotView>,
) -> Seq<ArbSignalView>
    decreases markets.len(),
{
    if markets.len() == 0 {
        Seq::empty()
    } else {
        let m = markets.last();
        let assets = if market_assets.contains_key(m) {
            market_assets[m]
        } else {
            Seq::empty()
        };
        let before = arb_signals(markets.drop_last(), market_assets, books);
        match (last_book_with(assets, books, Outcome::Up), last_book_with(assets, books, Outcome::Down)) {
            (Some(u), Some(d)) => before + market_signals(m, u, d),
            _ => before,
        }
    }
}

/// Reports up/down mispricings; places no orders. The signals found on the
/// last order-book update are kept for the caller to report.
pub struct ArbLoggerStrategy {
    last_signals: Vec<ArbSignal>,
}

impl ArbLoggerStrategy {
    /// The signals found on the last order-book update.
    pub closed spec fn reported(&self) -> Seq<ArbSignalView> {
        signals_view(self.last_signals@)
    }

    pub fn new() -> (s: Self)
        ensures
            s.reported() == Seq::<ArbSignalView>::empty(),
    {
        let s = ArbLoggerStrategy { last_signals: Vec::new() };
        assert(s.reported() =~= Seq::<ArbSignalView>::empty());
        s
    }

    /// The signals found on the last order-book update.
    pub fn last_signals(&self) -> (r: &Vec<ArbSignal>)
        ensures
            signals_view(r@) == self.reported(),
    {
        &self.last_signals
    }

    /// The mispricings visible in the order books.
    pub fn signals(&self, books: &OrderbookManager) -> (r: Vec<ArbSignal>)
        ensures
            signals_view(r@) == arb_signals(books.market_keys(), books.market_assets(), books.books()),
    {
        let ghost keys = books.market_keys();
        let markets = books.market_ids();
        let mut out: Vec<ArbSignal> = Vec::new();
        let mut i: usize = 0;
        while i < markets.len()
            invariant
                i <= markets@.len(),
                markets@.len() == keys.len(),
                keys == books.market_keys(),
                forall|j: int| 0 <= j < markets@.len() ==> (#[trigger] markets@[j])@ == keys[j],
                signals_view(out@) == arb_signals(keys.take(i as int), books.market_assets(), books.books()),
            decreases markets@.len() - i,
        {
            let market_id = markets[i];
            let assets = books.assets_for_market(market_id.as_str());
            let ghost asset_keys = strings_view(assets@);
            let mut up_snap: Option<&OrderbookSnapshot> = None;
            let mut down_snap: Option<&OrderbookSnapshot> = None;
            let mut j: usize = 0;
            while j < assets.len()
                invariant
                    j <= assets@.len(),
                    asset_keys == strings_view(assets@),
                    match up_snap {
                        Some(s) => last_book_with(asset_keys.take(j as int), books.books(), Outcome::Up)
                            == Some(s@),
                        None => last_book_with(asset_keys.take(j as int), books.books(), Outcome::Up)
                            is None,
                    },
                    match down_snap {
                        Some(s) => last_book_with(asset_keys.take(j as int), books.books(), Outcome::Down)
                            == Some(s@),
                        None => last_book_with(asset_keys.take(j as int), books.books(), Outcome::Down)
                            is None,
                    },
                decreases assets@.len() - j,
            {
                proof {
                    assert(asset_keys.take(j as int + 1).drop_last() =~= asset_keys.take(j as int));
                    assert(asset_keys.take(j as int + 1).last() == assets@[j as int]@);
                }
                match books.snapshot(assets[j].as_str()) {
                    Some(snap) => {
                        match snap.info.outcome {
                            Outcome::Up => up_snap = Some(snap),
                            Outcome::Down => down_snap = Some(snap),
                        }
                    },
                    None => {},
                }
                j = j + 1;
            }
            proof {
                assert(asset_keys.take(assets@.len() as int) =~= asset_keys);
                assert(keys.take(i as int + 1).drop_last() =~= keys.take(i as int));
                assert(keys.take(i as int + 1).last() == market_id@);
            }
            match (up_snap, down_snap) {
                (Some(up), Some(down)) => {
                    let ghost before = out@;
                    if let (Some(up_ask), Some(down_ask)) = (up.best_ask(), down.best_ask()) {
                        if (up_ask.price as u128) + (down_ask.price as u128) < UNITS_PER_ONE as u128 {
                            out.push(
                                ArbSignal {
                                    market_id: market_id.clone(),
                                    side: ArbSide::Buy,
                                    up_price: up_ask.price,
                                    down_price: down_ask.price,
                                },
                            );
                        }
                    }
                    if let (Some(up_bid), Some(down_bid)) = (up.best_bid(), down.best_bid()) {
                        if (up_bid.price as u128) + (down_bid.price as u128) > UNITS_PER_ONE as u128 {
                            out.push(
                                ArbSignal {
                                    market_id: market_id.clone(),
                                    side: ArbSide::Sell,
                                    up_price: up_bid.price,
                                    down_price: down_bid.price,
                                },
                            );
                        }
                    }
                    proof {
                        assert(signals_view(out@) =~= signals_view(before) + market_signals(
                            market_id@,
                            up@,
                            down@,
                        ));
                    }
                },
                _ => {},
            }
            i = i + 1;
        }
        proof {
            assert(keys.take(keys.len() as int) =~= keys);
        }
        out
    }
}

impl Default for ArbLoggerStrategy {
    fn default() -> (s: Self)
        ensures
            s.reported() == Seq::<ArbSignalView>::empty(),
    {
        Self::new()
    }
}

impl Strategy for ArbLoggerStrategy {
    fn name(&self) -> (r: &'static str)
        ensures
            r@ == "ArbLogger"@,
    {
        "ArbLogger"
    }

    /// Ticks place no orders and find no signals.
    fn on_tick(&mut self, ctx: &StrategyContext) -> (r: Vec<OrderRequest>)
        ensures
            final(self).reported() == old(self).reported(),
    {
        let r: Vec<OrderRequest> = Vec::new();
        assert(requests_view(r@) =~= Seq::<OrderRequestView>::empty());
        r
    }

    /// Looks for mispricings in the books (see `signals`) and keeps them for
    /// reporting; places no orders.
    fn on_orderbook_update(&mut self, ctx: &StrategyContext) -> (r: Vec<OrderRequest>)
        ensures
            final(self).reported() == arb_signals(
                ctx.orderbooks.market_keys(),
                ctx.orderbooks.market_assets(),
                ctx.orderbooks.books(),
            ),
    {
        self.last_signals = self.signals(ctx.orderbooks);
        let r: Vec<OrderRequest> = Vec::new();
        assert(requests_view(r@) =~= Seq::<OrderRequestView>::empty());
        r
    }
}

} // verus!
