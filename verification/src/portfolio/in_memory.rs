//! A portfolio kept in memory: positions per asset, cash balance, and the
//! orders still waiting for a fill.
use vstd::prelude::*;
use vstd::string::*;

use super::fees::{fee_pct_checked, fee_pct_units};
use super::{PortfolioManager, PortfolioReader};
use crate::decimal::UNITS_PER_ONE;
use crate::strmap::StrMap;
use crate::types::order::{Fill, Order, OrderId, OrderSide};

verus! {

/// Index of the first order with the given id, or `s.len()`.
pub open spec fn order_position(s: Seq<Order>, id: u64) -> nat
    decreases s.len(),
{
    if s.len() == 0 {
        0
    } else if s[0].id.0 == id {
        0
    } else {
        1 + order_position(s.drop_first(), id)
    }
}

/// The pending orders after recording `o`: an order with the same id is
/// replaced in place, otherwise `o` is added.
pub open spec fn orders_with(s: Seq<Order>, o: Order) -> Seq<Order> {
    let i = order_position(s, o.id.0);
    if i < s.len() {
        s.update(i as int, o)
    } else {
        s.push(o)
    }
}

/// The pending orders after taking out the order with id `id`, if any.
pub open spec fn orders_without(s: Seq<Order>, id: u64) -> Seq<Order> {
    let i = order_position(s, id);
    if i < s.len() {
        s.remove(i as int)
    } else {
        s
    }
}

/// Number of orders for an asset.
pub open spec fn orders_for_asset(s: Seq<Order>, asset_id: Seq<char>) -> nat
    decreases s.len(),
{
    if s.len() == 0 {
        0
    } else {
        orders_for_asset(s.drop_last(), asset_id) + if s.last().request.asset_id@ == asset_id {
            1nat
        } else {
            0nat
        }
    }
}

/// Traded value of a fill, in fixed-point units, rounded down.
pub open spec fn fill_notional(price: u64, size: u64) -> int {
    ((price as nat * size as nat) / (UNITS_PER_ONE as nat)) as int
}

/// Fee charged on a fill: the traded value times the fee rate at the fill
/// price, rounded down.
pub open spec fn fill_fee(price: u64, size: u64) -> int {
    (fill_notional(price, size) * fee_pct_units(price as nat)) / (UNITS_PER_ONE as int)
}

/// Change of the cash balance by a fill: a buy pays value plus fee, a sell
/// receives value minus fee.
pub open spec fn fill_cash_delta(side: OrderSide, price: u64, size: u64) -> int {
    match side {
        OrderSide::Buy => -(fill_notional(price, size) + fill_fee(price, size)),
        OrderSide::Sell => fill_notional(price, size) - fill_fee(price, size),
    }
}

/// Change of the position by a fill.
pub open spec fn fill_position_delta(side: OrderSide, size: u64) -> int {
    match side {
        OrderSide::Buy => size as int,
        OrderSide::Sell => -(size as int),
    }
}

proof fn lemma_order_position_bounds(s: Seq<Order>, id: u64)
    ensures
        order_position(s, id) <= s.len(),
        order_position(s, id) < s.len() ==> s[order_position(s, id) as int].id.0 == id,
        forall|m: int| 0 <= m < order_position(s, id) ==> #[trigger] s[m].id.0 != id,
    decreases s.len(),
{
    if s.len() > 0 && s[0].id.0 != id {
        lemma_order_position_bounds(s.drop_first(), id);
        assert forall|m: int| 0 <= m < order_position(s, id) implies #[trigger] s[m].id.0 != id by {
            if m > 0 {
                assert(s[m] == s.drop_first()[m - 1]);
            }
        }
    }
}

/// Cancelling an order that was just recorded under a new id leaves the
/// pending orders as they were.
pub proof fn lemma_cancel_undoes_record(pending: Seq<Order>, o: Order)
    requires
        order_position(pending, o.id.0) == pending.len(),
    ensures
        orders_without(orders_with(pending, o), o.id.0) == pending,
{
    lemma_order_position_bounds(pending, o.id.0);
    let t = pending.push(o);
    assert forall|m: int| 0 <= m < pending.len() implies #[trigger] t[m].id.0 != o.id.0 by {
        assert(t[m] == pending[m]);
    }
    lemma_order_position_is(t, o.id.0, pending.len() as int);
    assert(t.remove(pending.len() as int) =~= pending);
}

/// Recording an order under a new id adds one pending order for its asset.
pub proof fn lemma_record_counts(pending: Seq<Order>, o: Order, asset_id: Seq<char>)
    requires
        order_position(pending, o.id.0) == pending.len(),
    ensures
        orders_for_asset(orders_with(pending, o), asset_id) == orders_for_asset(pending, asset_id) + (
        if o.request.asset_id@ == asset_id {
            1nat
        } else {
            0nat
        }),
{
    assert(pending.push(o).drop_last() =~= pending);
}

/// Taking out the order at position `i` removes one pending order for its
/// asset and none for any other.
pub proof fn lemma_remove_counts(s: Seq<Order>, i: int, asset_id: Seq<char>)
    requires
        0 <= i < s.len(),
    ensures
        orders_for_asset(s.remove(i), asset_id) + (if s[i].request.asset_id@ == asset_id {
            1nat
        } else {
            0nat
        }) == orders_for_asset(s, asset_id),
    decreases s.len(),
{
    if i == s.len() - 1 {
        assert(s.remove(i) =~= s.drop_last());
    } else {
        lemma_remove_counts(s.drop_last(), i, asset_id);
        assert(s.remove(i) =~= s.drop_last().remove(i).push(s.last()));
        assert(s.remove(i).drop_last() =~= s.drop_last().remove(i));
        assert(s.drop_last()[i] == s[i]);
    }
}

/// A fill of a pending order leaves one pending order fewer for its asset.
pub proof fn lemma_fill_counts(pending: Seq<Order>, id: u64, asset_id: Seq<char>)
    requires
        order_position(pending, id) < pending.len(),
    ensures
        orders_for_asset(orders_without(pending, id), asset_id) + (if pending[order_position(
            pending,
            id,
        ) as int].request.asset_id@ == asset_id {
            1nat
        } else {
            0nat
        }) == orders_for_asset(pending, asset_id),
{
    lemma_remove_counts(pending, order_position(pending, id) as int, asset_id);
}

/// A buy and a sell of the same size leave the position where it was and
/// cost twice the fee.
pub proof fn lemma_round_trip(price: u64, size: u64)
    ensures
        fill_position_delta(OrderSide::Buy, size) + fill_position_delta(OrderSide::Sell, size) == 0,
        fill_cash_delta(OrderSide::Buy, price, size) + fill_cash_delta(OrderSide::Sell, price, size)
            == -2 * fill_fee(price, size),
{
}

/// No two orders share an id.
pub open spec fn unique_order_ids(s: Seq<Order>) -> bool {
    forall|a: int, b: int| 0 <= a < b < s.len() ==> #[trigger] s[a].id.0 != #[trigger] s[b].id.0
}

/// Taking out the order with id `id`: where the first order with that id
/// stands at `i`, exactly that order goes and all others stay in order; with
/// no order of that id nothing changes; on a list without repeated ids no
/// order with that id is left and ids stay unique.
pub proof fn lemma_orders_without_exact(s: Seq<Order>, id: u64, i: int)
    ensures
        (forall|m: int| 0 <= m < s.len() ==> #[trigger] s[m].id.0 != id) ==> orders_without(s, id) == s,
        (0 <= i < s.len() && s[i].id.0 == id && forall|m: int| 0 <= m < i ==> #[trigger] s[m].id.0 != id)
            ==> {
            &&& orders_without(s, id).len() == s.len() - 1
            &&& forall|j: int| 0 <= j < i ==> #[trigger] orders_without(s, id)[j] == s[j]
            &&& forall|j: int| i <= j < s.len() - 1 ==> #[trigger] orders_without(s, id)[j] == s[j + 1]
        },
        unique_order_ids(s) ==> forall|j: int|
            0 <= j < orders_without(s, id).len() ==> #[trigger] orders_without(s, id)[j].id.0 != id,
        unique_order_ids(s) ==> unique_order_ids(orders_without(s, id)),
{
    lemma_order_position_bounds(s, id);
    if forall|m: int| 0 <= m < s.len() ==> #[trigger] s[m].id.0 != id {
        lemma_order_position_is(s, id, s.len() as int);
    }
    if 0 <= i < s.len() && s[i].id.0 == id && forall|m: int| 0 <= m < i ==> #[trigger] s[m].id.0 != id {
        lemma_order_position_is(s, id, i);
    }
    let k = order_position(s, id) as int;
    let r = orders_without(s, id);
    if unique_order_ids(s) {
        if k < s.len() {
            assert forall|j: int| 0 <= j < r.len() implies #[trigger] r[j].id.0 != id by {
                if j < k {
                    assert(r[j] == s[j]);
                } else {
                    assert(r[j] == s[j + 1]);
                    assert(s[k].id.0 != s[j + 1].id.0);
                }
            }
            assert forall|a: int, b: int| 0 <= a < b < r.len() implies #[trigger] r[a].id.0 != #[trigger] r[b].id.0 by {
                let a2 = if a < k { a } else { a + 1 };
                let b2 = if b < k { b } else { b + 1 };
                assert(r[a] == s[a2] && r[b] == s[b2]);
            }
        }
    }
}

/// Recording an order: where an order with its id stands first at `i`, that
/// entry alone is replaced by it and the list keeps its length and order;
/// otherwise it is added at the end. Ids stay unique.
pub proof fn lemma_orders_with_exact(s: Seq<Order>, o: Order, i: int)
    ensures
        (forall|m: int| 0 <= m < s.len() ==> #[trigger] s[m].id.0 != o.id.0) ==> orders_with(s, o) == s.push(o),
        (0 <= i < s.len() && s[i].id.0 == o.id.0 && forall|m: int| 0 <= m < i ==> #[trigger] s[m].id.0 != o.id.0)
            ==> orders_with(s, o) == s.update(i, o),
        unique_order_ids(s) ==> unique_order_ids(orders_with(s, o)),
{
    lemma_order_position_bounds(s, o.id.0);
    if forall|m: int| 0 <= m < s.len() ==> #[trigger] s[m].id.0 != o.id.0 {
        lemma_order_position_is(s, o.id.0, s.len() as int);
    }
    if 0 <= i < s.len() && s[i].id.0 == o.id.0 && forall|m: int| 0 <= m < i ==> #[trigger] s[m].id.0 != o.id.0 {
        lemma_order_position_is(s, o.id.0, i);
    }
    let k = order_position(s, o.id.0) as int;
    let r = orders_with(s, o);
    if unique_order_ids(s) {
        assert forall|a: int, b: int| 0 <= a < b < r.len() implies #[trigger] r[a].id.0 != #[trigger] r[b].id.0 by {
            if k < s.len() {
                if a == k {
                    assert(s[k].id.0 != s[b].id.0);
                } else if b == k {
                    assert(s[a].id.0 != s[k].id.0);
                }
            } else {
                if b == s.len() {
                    assert(r[a] == s[a]);
                }
            }
        }
    }
}

pub struct InMemoryPortfolio {
    positions: StrMap<i128>,
    pending_orders: Vec<Order>,
    balance: i128,
}

impl InMemoryPortfolio {
    /// Position per asset that has ever been filled.
    pub closed spec fn positions(&self) -> Map<Seq<char>, i128> {
        self.positions.map()
    }

    /// Orders waiting for a fill, in the order they were recorded.
    pub closed spec fn pending(&self) -> Seq<Order> {
        self.pending_orders@
    }

    pub closed spec fn cash(&self) -> int {
        self.balance as int
    }

    /// An empty portfolio holding `initial_balance` in cash.
    pub fn new(initial_balance: i128) -> (p: Self)
        ensures
            p.positions() == Map::<Seq<char>, i128>::empty(),
            p.pending() == Seq::<Order>::empty(),
            p.cash() == initial_balance,
    {
        InMemoryPortfolio { positions: StrMap::new(), pending_orders: Vec::new(), balance: initial_balance }
    }

}

impl Default for InMemoryPortfolio {
    fn default() -> (p: Self)
        ensures
            p.positions() == Map::<Seq<char>, i128>::empty(),
            p.pending() == Seq::<Order>::empty(),
            p.cash() == 0,
    {
        Self::new(0)
    }
}

fn position_index(s: &Vec<Order>, id: u64) -> (i: usize)
    ensures
        i == order_position(s@, id),
{
    let mut i: usize = 0;
    while i < s.len() && s[i].id.0 != id
        invariant
            i <= s@.len(),
            forall|m: int| 0 <= m < i ==> #[trigger] s@[m].id.0 != id,
        decreases s@.len() - i,
    {
        i = i + 1;
    }
    proof {
        lemma_order_position_is(s@, id, i as int);
    }
    i
}

proof fn lemma_order_position_is(s: Seq<Order>, id: u64, k: int)
    requires
        0 <= k <= s.len(),
        forall|m: int| 0 <= m < k ==> #[trigger] s[m].id.0 != id,
        k == s.len() || s[k].id.0 == id,
    ensures
        order_position(s, id) == k,
    decreases s.len(),
{
    if s.len() > 0 && s[0].id.0 != id {
        assert forall|m: int| 0 <= m < k - 1 implies #[trigger] s.drop_first()[m].id.0 != id by {
            assert(s.drop_first()[m] == s[m + 1]);
        }
        lemma_order_position_is(s.drop_first(), id, k - 1);
    }
}

/// Traded value and fee of a fill, or `None` when the fee rate at its price
/// does not fit a `u64` or the fee does not fit an `i128`, like the balance.
fn fill_amounts(fill_price: u64, fill_size: u64) -> (r: Option<(u128, u128)>)
    ensures
        r is Some <==> fee_pct_units(fill_price as nat) <= u64::MAX && fill_fee(fill_price, fill_size)
            <= i128::MAX,
        r matches Some(v) ==> v.0 == fill_notional(fill_price, fill_size) && v.1 == fill_fee(
            fill_price,
            fill_size,
        ),
        r matches Some(v) ==> v.0 <= 3_402_823_669_209_384_634_633_746_074_318,
{
    let price = fill_price as u128;
    let size = fill_size as u128;
    assert(price * size <= 0xffff_ffff_ffff_ffff * 0xffff_ffff_ffff_ffffu128) by (nonlinear_arith)
        requires
            price <= 0xffff_ffff_ffff_ffff,
            size <= 0xffff_ffff_ffff_ffff,
    ;
    let notional: u128 = (price * size) / 100_000_000;
    assert(notional <= 3_402_823_669_209_384_634_633_746_074_318) by (nonlinear_arith)
        requires
            notional == (price * size) / 100_000_000,
            price * size <= 0xffff_ffff_ffff_ffff * 0xffff_ffff_ffff_ffffu128,
    ;
    let pct = match fee_pct_checked(fill_price) {
        Some(p) => p as u128,
        None => return None,
    };
    // notional × pct / 10^8 computed as hi × pct + lo × pct / 10^8, where
    // notional = hi × 10^8 + lo.
    let hi = notional / 100_000_000;
    let lo = notional % 100_000_000;
    assert(lo * pct <= 100_000_000u128 * 0xffff_ffff_ffff_ffff) by (nonlinear_arith)
        requires
            lo < 100_000_000,
            pct <= 0xffff_ffff_ffff_ffff,
    ;
    let small = (lo * pct) / 100_000_000;
    proof {
        let n = notional as int;
        let h = hi as int;
        let l = lo as int;
        let c = pct as int;
        assert(n == h * 100_000_000 + l) by (nonlinear_arith)
            requires
                h == n / 100_000_000,
                l == n % 100_000_000,
        ;
        assert(n * c == (l * c) + (h * c) * 100_000_000) by (nonlinear_arith)
            requires
                n == h * 100_000_000 + l,
        ;
        vstd::arithmetic::div_mod::lemma_hoist_over_denominator(l * c, h * c, 100_000_000);
        assert(small as int + h * c == (n * c) / 100_000_000);
        assert(fill_fee(fill_price, fill_size) == (n * c) / 100_000_000);
    }
    let big = match hi.checked_mul(pct) {
        Some(m) => m,
        None => return None,
    };
    let fee = match big.checked_add(small) {
        Some(f) => f,
        None => return None,
    };
    if fee > 0x7fff_ffff_ffff_ffff_ffff_ffff_ffff_ffff {
        return None;
    }
    Some((notional, fee))
}

impl InMemoryPortfolio {
    /// Whether `apply_fill` can take this fill (see `accepts_fill`).
    pub fn can_apply_fill(&self, fill: &Fill) -> (r: bool)
        ensures
            r == self.accepts_fill(*fill),
    {
        let current = self.position(fill.asset_id.as_str());
        let moved = match fill.side {
            OrderSide::Buy => current.checked_add(fill.size as i128),
            OrderSide::Sell => current.checked_sub(fill.size as i128),
        };
        if moved.is_none() {
            return false;
        }
        let (notional, fee) = match fill_amounts(fill.price, fill.size) {
            Some(v) => v,
            None => return false,
        };
        let n = notional as i128;
        let f = fee as i128;
        let cash = match fill.side {
            OrderSide::Buy => match self.balance.checked_sub(n) {
                Some(c) => c.checked_sub(f),
                None => None,
            },
            OrderSide::Sell => if n >= f {
                self.balance.checked_add(n - f)
            } else {
                self.balance.checked_sub(f - n)
            },
        };
        cash.is_some()
    }
}

impl PortfolioReader for InMemoryPortfolio {
    open spec fn position_of(&self, asset_id: Seq<char>) -> int {
        if self.positions().contains_key(asset_id) {
            self.positions()[asset_id] as int
        } else {
            0
        }
    }

    open spec fn pending_count_of(&self, asset_id: Seq<char>) -> nat {
        orders_for_asset(self.pending(), asset_id)
    }

    open spec fn has_pending(&self) -> bool {
        self.pending().len() > 0
    }

    open spec fn balance_of(&self) -> int {
        self.cash()
    }

    fn position(&self, asset_id: &str) -> (r: i128) {
        match self.positions.get(asset_id) {
            Some(p) => *p,
            None => 0,
        }
    }

    fn pending_order_count(&self, asset_id: &str) -> (r: usize) {
        let mut count: usize = 0;
        let mut i: usize = 0;
        while i < self.pending_orders.len()
            invariant
                i <= self.pending_orders@.len(),
                count == orders_for_asset(self.pending_orders@.take(i as int), asset_id@),
                count <= i,
            decreases self.pending_orders@.len() - i,
        {
            proof {
                assert(self.pending_orders@.take(i as int + 1).drop_last() =~= self.pending_orders@.take(
                    i as int,
                ));
            }
            if crate::text::str_eq(self.pending_orders[i].request.asset_id.as_str(), asset_id) {
                count = count + 1;
            }
            i = i + 1;
        }
        assert(self.pending_orders@.take(self.pending_orders@.len() as int) =~= self.pending_orders@);
        count
    }

    fn has_pending_orders(&self) -> (r: bool) {
        self.pending_orders.len() > 0
    }

    fn balance(&self) -> (r: i128) {
        self.balance
    }
}

impl PortfolioManager for InMemoryPortfolio {
    /// A fill is accepted when its amounts fit the portfolio's fixed-width
    /// numbers: the fee rate at its price a `u64`, its fee and the resulting
    /// position and balance an `i128`.
    open spec fn accepts_fill(&self, fill: Fill) -> bool {
        &&& fee_pct_units(fill.price as nat) <= u64::MAX
        &&& fill_fee(fill.price, fill.size) <= i128::MAX
        &&& i128::MIN <= self.position_of(fill.asset_id@) + fill_position_delta(fill.side, fill.size)
            <= i128::MAX
        &&& i128::MIN <= self.cash() + fill_cash_delta(fill.side, fill.price, fill.size) <= i128::MAX
    }

    /// Records an order as pending; an order with the same id is replaced.
    fn record_pending_order(&mut self, order: &Order)
        ensures
            final(self).pending() == orders_with(old(self).pending(), *order),
            final(self).positions() == old(self).positions(),
            final(self).cash() == old(self).cash(),
    {
        let i = position_index(&self.pending_orders, order.id.0);
        let o = order.duplicate();
        if i < self.pending_orders.len() {
            self.pending_orders.set(i, o);
        } else {
            self.pending_orders.push(o);
        }
    }

    /// Applies a fill: moves the position of the asset by the filled size
    /// (up for a buy, down for a sell), pays or receives the traded value
    /// net of the fee, and takes the filled order off the pending list.
    fn apply_fill(&mut self, fill: &Fill)
        ensures
            final(self).positions() == old(self).positions().insert(
                fill.asset_id@,
                (old(self).position_of(fill.asset_id@) + fill_position_delta(
                    fill.side,
                    fill.size,
                )) as i128,
            ),
            final(self).cash() == old(self).cash() + fill_cash_delta(fill.side, fill.price, fill.size),
            final(self).pending() == orders_without(old(self).pending(), fill.order_id.0),
    {
        let delta: i128 = match fill.side {
            OrderSide::Buy => fill.size as i128,
            OrderSide::Sell => -(fill.size as i128),
        };
        let current: i128 = match self.positions.get(fill.asset_id.as_str()) {
            Some(p) => *p,
            None => 0,
        };
        self.positions.insert(fill.asset_id.clone(), current + delta);
        let (notional, fee) = match fill_amounts(fill.price, fill.size) {
            Some(v) => v,
            None => (0, 0),
        };
        let n = notional as i128;
        let f = fee as i128;
        self.balance = match fill.side {
            OrderSide::Buy => self.balance - n - f,
            OrderSide::Sell => if n >= f {
                self.balance + (n - f)
            } else {
                self.balance - (f - n)
            },
        };
        let i = position_index(&self.pending_orders, fill.order_id.0);
        if i < self.pending_orders.len() {
            self.pending_orders.remove(i);
        }
    }

    /// Takes an order off the pending list; an unknown id changes nothing.
    fn cancel_order(&mut self, order_id: OrderId)
        ensures
            final(self).pending() == orders_without(old(self).pending(), order_id.0),
            final(self).positions() == old(self).positions(),
            final(self).cash() == old(self).cash(),
    {
        let i = position_index(&self.pending_orders, order_id.0);
        if i < self.pending_orders.len() {
            self.pending_orders.remove(i);
        }
    }
}

} // verus!
