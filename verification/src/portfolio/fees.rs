//! The market's fee model.
use vstd::prelude::*;

use crate::decimal::UNITS_PER_ONE;

verus! {

/// `p × |1 − p|` for a price `p`, all in fixed-point units (scaled by
/// `UNITS_PER_ONE²`).
pub open spec fn price_spread_product(price: nat) -> nat {
    let one = UNITS_PER_ONE as nat;
    if price <= one {
        price * (one - price) as nat
    } else {
        price * (price - one) as nat
    }
}

/// Fee rate as a fraction of the traded value, in fixed-point units, for a
/// price `p` in fixed-point units: `0.25 × (p × (1 − p))²`, rounded down to
/// the unit.
pub open spec fn fee_pct_units(price: nat) -> nat {
    let one = UNITS_PER_ONE as nat;
    let q = price_spread_product(price);
    (q * q) / (4 * one * one * one)
}

/// Market fee rate as a function of price: `feeRate × (p × (1 − p))^exponent`
/// with `feeRate` 0.25 and exponent 2. The price and the result are in
/// fixed-point units, so 0.015625 (1.5625%) is returned as 1_562_500. For
/// prices between 0 and 1 the rate is at most that; far above 1 it no longer
/// fits a `u64`.
pub fn polymarket_fee_pct(price: u64) -> (r: u64)
    requires
        fee_pct_units(price as nat) <= u64::MAX,
    ensures
        r == fee_pct_units(price as nat),
{
    match fee_pct_checked(price) {
        Some(r) => r,
        None => 0,
    }
}

/// The fee rate at a price (see `polymarket_fee_pct`), or `None` when it
/// does not fit a `u64`.
pub fn fee_pct_checked(price: u64) -> (r: Option<u64>)
    ensures
        r matches Some(f) ==> f == fee_pct_units(price as nat),
        r is None <==> fee_pct_units(price as nat) > u64::MAX,
{
    let one: u128 = 100_000_000;
    let p = price as u128;
    let gap: u128 = if p <= one {
        one - p
    } else {
        p - one
    };
    assert(p * gap <= 0xffff_ffff_ffff_ffff * 0xffff_ffff_ffff_ffffu128) by (nonlinear_arith)
        requires
            p <= 0xffff_ffff_ffff_ffff,
            gap <= 0xffff_ffff_ffff_ffff,
    ;
    let q = p * gap;
    assert(q == price_spread_product(price as nat));
    // q² / s² computed as a² + (2abs + b²) / s², where q = as + b and
    // s² = 4 × one³; every term fits a u128 once a² fits a u64.
    let s: u128 = 2_000_000_000_000;
    let a = q / s;
    let b = q % s;
    proof {
        let qi = q as int;
        let si = s as int;
        let ai = a as int;
        let bi = b as int;
        assert(qi == ai * si + bi && 0 <= bi < si) by (nonlinear_arith)
            requires
                ai == qi / si,
                bi == qi % si,
                si > 0,
        ;
        assert(qi * qi == ai * ai * (si * si) + (2 * ai * bi * si + bi * bi)) by (nonlinear_arith)
            requires
                qi == ai * si + bi,
        ;
        assert(ai * ai <= (qi * qi) / (si * si)) by (nonlinear_arith)
            requires
                qi == ai * si + bi,
                0 <= bi,
                0 <= ai,
                si > 0,
        ;
        assert(si * si == 4 * 100_000_000int * 100_000_000int * 100_000_000int);
    }
    if a > 0xffff_ffff {
        assert(a * a > 0xffff_ffff_ffff_ffffu128) by (nonlinear_arith)
            requires
                a > 0xffff_ffff,
        ;
        return None;
    }
    assert(2 * a * b * s <= 2 * 0xffff_ffffu128 * 2_000_000_000_000 * 2_000_000_000_000) by (nonlinear_arith)
        requires
            a <= 0xffff_ffff,
            b < 2_000_000_000_000,
            s == 2_000_000_000_000,
    ;
    assert(b * b <= 2_000_000_000_000u128 * 2_000_000_000_000) by (nonlinear_arith)
        requires
            b < 2_000_000_000_000,
    ;
    assert(a * a <= 0xffff_ffffu128 * 0xffff_ffff) by (nonlinear_arith)
        requires
            a <= 0xffff_ffff,
    ;
    let rest = (2 * a * b * s + b * b) / (s * s);
    assert(rest <= 2 * 0xffff_ffffu128 + 1) by (nonlinear_arith)
        requires
            rest == (2 * a * b * s + b * b) / (s * s),
            a <= 0xffff_ffff,
            b < s,
            s == 2_000_000_000_000,
    ;
    proof {
        let x = (2 * a * b * s + b * b) as int;
        let d = (s * s) as int;
        vstd::arithmetic::div_mod::lemma_hoist_over_denominator(x, (a * a) as int, d as nat);
        assert((a * a) as int * d + x == (q as int) * (q as int)) by (nonlinear_arith)
            requires
                (q as int) * (q as int) == (a as int) * (a as int) * ((s as int) * (s as int)) + (2
                    * (a as int) * (b as int) * (s as int) + (b as int) * (b as int)),
                x == 2 * (a as int) * (b as int) * (s as int) + (b as int) * (b as int),
                d == (s as int) * (s as int),
        ;
        assert(x + (a * a) as int * d == (q as int) * (q as int));
    }
    let total = a * a + rest;
    if total > 0xffff_ffff_ffff_ffff {
        None
    } else {
        Some(total as u64)
    }
}

/// The fee rate is the same at a price and at its complement: buying one
/// outcome costs the same rate as buying the other.
pub proof fn lemma_fee_symmetric(price: nat)
    requires
        price <= UNITS_PER_ONE,
    ensures
        fee_pct_units(price) == fee_pct_units((UNITS_PER_ONE - price) as nat),
{
    let one = UNITS_PER_ONE as nat;
    assert(price * (one - price) as nat == ((one - price) as nat) * (one - ((one - price) as nat)) as nat)
        by (nonlinear_arith)
        requires
            price <= one,
    ;
}

/// The fee rate is highest at even odds, where it is 1.5625%.
pub proof fn lemma_fee_peak(price: nat)
    requires
        price <= UNITS_PER_ONE,
    ensures
        fee_pct_units(price) <= fee_pct_units(50_000_000),
        fee_pct_units(50_000_000) == 1_562_500,
{
    let one = UNITS_PER_ONE as nat;
    let q = price * (one - price) as nat;
    assert(q <= 2_500_000_000_000_000) by (nonlinear_arith)
        requires
            q == price * (one - price) as nat,
            price <= one,
            one == 100_000_000,
    ;
    assert(q * q <= 2_500_000_000_000_000 * 2_500_000_000_000_000) by (nonlinear_arith)
        requires
            q <= 2_500_000_000_000_000,
    ;
    let d = 4 * one * one * one;
    assert(d == 4_000_000_000_000_000_000_000_000);
    assert((q * q) / d <= (2_500_000_000_000_000nat * 2_500_000_000_000_000nat) / d) by (nonlinear_arith)
        requires
            q * q <= 2_500_000_000_000_000 * 2_500_000_000_000_000,
            d > 0,
    ;
}

} // verus!
