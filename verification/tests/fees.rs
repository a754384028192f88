use retirement::decimal::UNITS_PER_ONE;
use retirement::portfolio::fees::polymarket_fee_pct;

/// A price written as a decimal fraction, in fixed-point units.
fn units(p: f64) -> u64 {
    (p * UNITS_PER_ONE as f64).round() as u64
}

/// Round a fee (fixed-point units of a fraction) to a percentage with 2
/// decimal places.
fn to_pct_rounded(fee: u64) -> f64 {
    let fraction = fee as f64 / UNITS_PER_ONE as f64;
    (fraction * 10000.0).round() / 100.0
}

#[test]
fn fee_at_050_is_1_56_pct() {
    let fee = polymarket_fee_pct(units(0.50));
    assert_eq!(to_pct_rounded(fee), 1.56);
}

#[test]
fn fee_at_085_is_0_41_pct() {
    let fee = polymarket_fee_pct(units(0.85));
    assert_eq!(to_pct_rounded(fee), 0.41);
}

#[test]
fn fee_at_015_is_0_41_pct() {
    let fee = polymarket_fee_pct(units(0.15));
    assert_eq!(to_pct_rounded(fee), 0.41);
}

#[test]
fn fee_exact_values() {
    assert_eq!(polymarket_fee_pct(50_000_000), 1_562_500);
    // 0.25 * (0.85 * 0.15)^2 = 0.0040640625
    assert_eq!(polymarket_fee_pct(85_000_000), 406_406);
    assert_eq!(polymarket_fee_pct(0), 0);
    assert_eq!(polymarket_fee_pct(UNITS_PER_ONE), 0);
}

#[test]
fn fee_formula_above_one() {
    // 0.25 * (2 * (1 - 2))^2 = 1
    assert_eq!(polymarket_fee_pct(200_000_000), UNITS_PER_ONE);
    // 0.25 * (10 * (1 - 10))^2 = 2025
    assert_eq!(polymarket_fee_pct(1_000_000_000), 2025 * UNITS_PER_ONE);
    // 0.25 * (1.5 * 0.5)^2 = 0.140625
    assert_eq!(polymarket_fee_pct(150_000_000), 14_062_500);
}

#[test]
fn fee_is_symmetric_in_price() {
    for p in [1u64, 12_345_678, 30_000_000, 49_999_999, 77_000_000] {
        assert_eq!(polymarket_fee_pct(p), polymarket_fee_pct(UNITS_PER_ONE - p));
    }
}

#[test]
fn fee_peaks_at_even_odds() {
    for p in [0u64, 10_000_000, 49_000_000, 51_000_000, 99_999_999] {
        assert!(polymarket_fee_pct(p) <= polymarket_fee_pct(50_000_000));
    }
}
