//! Simulated execution: every order fills in full at its limit price after
//! a fixed latency.
use vstd::prelude::*;

use crate::types::order::{Fill, Order};

verus! {

/// Latency of a simulated fill, in milliseconds.
pub const SIMULATED_LATENCY_MS: u64 = 40;

/// A price rounded to the nearest hundredth (0.01 is 1_000_000 units),
/// halves rounding up.
pub open spec fn round_to_cent(p: u64) -> nat {
    ((p + 500_000) / 1_000_000 * 1_000_000) as nat
}

/// The rounded price is a whole number of hundredths and the one nearest
/// the price, a half rounding up: it lies in `(p - 0.005, p + 0.005]`.
pub proof fn lemma_round_to_cent(p: u64)
    ensures
        round_to_cent(p) % 1_000_000 == 0,
        p < round_to_cent(p) + 500_000,
        round_to_cent(p) <= p + 500_000,
{
    let q = (p + 500_000) / 1_000_000;
    assert(q * 1_000_000 <= p + 500_000 < q * 1_000_000 + 1_000_000) by (nonlinear_arith)
        requires
            q == (p + 500_000) / 1_000_000,
    ;
    assert((q * 1_000_000) % 1_000_000 == 0) by (nonlinear_arith)
        requires
            q >= 0,
    ;
}

/// Rounds a price to the nearest hundredth, halves up. The rounded price
/// must fit a `u64`, which it does for every price up to
/// 18_446_744_073_709_499_999.
pub fn round_price_to_cent(p: u64) -> (r: u64)
    requires
        round_to_cent(p) <= u64::MAX,
    ensures
        r == round_to_cent(p),
        r <= p + 500_000,
        p < r + 500_000,
{
    let q = p / 1_000_000;
    let rem = p % 1_000_000;
    assert(p == q * 1_000_000 + rem && rem < 1_000_000) by (nonlinear_arith)
        requires
            q == p / 1_000_000,
            rem == p % 1_000_000,
    ;
    let up: u64 = if rem >= 500_000 {
        1
    } else {
        0
    };
    assert((p + 500_000) / 1_000_000 == q + up) by (nonlinear_arith)
        requires
            p == q * 1_000_000 + rem,
            rem < 1_000_000,
            up == (if rem >= 500_000 {
                1int
            } else {
                0int
            }),
    ;
    assert((q + up) * 1_000_000 <= u64::MAX);
    (q + up) * 1_000_000
}

#[derive(Clone, Copy, Debug)]
pub struct SimulatedExecutor {
    latency_ms: u64,
}

impl SimulatedExecutor {
    pub fn new() -> (e: Self)
        ensures
            e.latency() == SIMULATED_LATENCY_MS,
    {
        SimulatedExecutor { latency_ms: SIMULATED_LATENCY_MS }
    }

    pub closed spec fn latency(&self) -> u64 {
        self.latency_ms
    }

    /// Milliseconds between submission and fill.
    pub fn latency_ms(&self) -> (r: u64)
        ensures
            r == self.latency(),
    {
        self.latency_ms
    }

    /// The fill of a submitted order: its whole size at its limit price
    /// rounded to two decimals (0 for a market order), stamped with the
    /// clock reading `filled_at`.
    pub fn fill_for(&self, order: &Order, filled_at: u64) -> (f: Fill)
        requires
            order.request.price matches Some(p) ==> round_to_cent(p) <= u64::MAX,
        ensures
            f.order_id == order.id,
            f.asset_id == order.request.asset_id,
            f.side == order.request.side,
            f.price == match order.request.price {
                Some(p) => round_to_cent(p),
                None => 0,
            },
            f.size == order.request.size,
            f.filled_at == filled_at,
    {
        let price = match order.request.price {
            Some(p) => round_price_to_cent(p),
            None => 0,
        };
        Fill {
            order_id: order.id,
            asset_id: order.request.asset_id.clone(),
            side: order.request.side,
            price,
            size: order.request.size,
            filled_at,
        }
    }
}

impl Default for SimulatedExecutor {
    fn default() -> (e: Self)
        ensures
            e.latency() == SIMULATED_LATENCY_MS,
    {
        Self::new()
    }
}

} // verus!
