use zodial_core::errors::ZodialError;
use zodial_core::math::{
    amount_to_usd_q60, div_u64_by_u68_to_q60, mul_q60_by_u68_to_u64, mul_u64_u68_to_u64,
    pow10_u128, q60_mul, q60_mul_sat, sat_add_u128, sat_mul_u128, Q60,
};

#[test]
fn q60_one_is_two_to_sixty() {
    assert_eq!(Q60, 1u128 << 60);
}

#[test]
fn pow10_small_values() {
    assert_eq!(pow10_u128(0), 1);
    assert_eq!(pow10_u128(6), 1_000_000);
    assert_eq!(pow10_u128(18), 1_000_000_000_000_000_000);
}

#[test]
fn q60_mul_exact_product() {
    // 3.0 * 5.0 == 15.0 in Q60.
    assert_eq!(q60_mul(3 * Q60, 5 * Q60), Some(15 * Q60));
    // 1.5 * 2.0 == 3.0.
    assert_eq!(q60_mul(3 * (Q60 / 2), 2 * Q60), Some(3 * Q60));
}

#[test]
fn q60_mul_overflow_is_none() {
    assert_eq!(q60_mul(u128::MAX, u128::MAX), None);
    assert_eq!(q60_mul_sat(u128::MAX, u128::MAX), u128::MAX);
}

#[test]
fn q60_mul_truncates_toward_zero() {
    // (1/2^60) * (1/2^60) truncates to zero.
    assert_eq!(q60_mul(1, 1), Some(0));
}

#[test]
fn saturating_helpers() {
    assert_eq!(sat_add_u128(u128::MAX, 1), u128::MAX);
    assert_eq!(sat_add_u128(40, 2), 42);
    assert_eq!(sat_mul_u128(u128::MAX, 2), u128::MAX);
    assert_eq!(sat_mul_u128(6, 7), 42);
}

#[test]
fn shares_times_index_to_amount() {
    // 5 shares at index 2.0 redeem 10 tokens.
    assert_eq!(mul_q60_by_u68_to_u64(5 * Q60, 2 * Q60), Ok(10));
    // Result beyond u64 is an overflow error.
    assert_eq!(
        mul_q60_by_u68_to_u64(u128::MAX, u128::MAX),
        Err(ZodialError::MathOverflow)
    );
}

#[test]
fn amount_times_index() {
    // 100 tokens at index 1.5 give 150.
    assert_eq!(mul_u64_u68_to_u64(100, 3 * (Q60 / 2)), Ok(150));
    assert_eq!(
        mul_u64_u68_to_u64(u64::MAX, u64::MAX as u128 * Q60),
        Err(ZodialError::MathOverflow)
    );
}

#[test]
fn amount_to_shares_at_index() {
    // 10 tokens at index 2.0 mint 5.0 shares.
    assert_eq!(div_u64_by_u68_to_q60(10, 2 * Q60), Ok(5 * Q60));
    // A zero index fails.
    assert_eq!(div_u64_by_u68_to_q60(10, 0), Err(ZodialError::MathOverflow));
    // A tiny index overflows the share range.
    assert_eq!(div_u64_by_u68_to_q60(u64::MAX, 1), Err(ZodialError::MathOverflow));
}

#[test]
fn share_round_trip_loses_at_most_one_unit() {
    // Index 3.0 does not divide 7 * 2^60 evenly: the round trip comes
    // back one unit short, within the round-trip law's bound.
    let idx = 3 * Q60;
    let shares = div_u64_by_u68_to_q60(7, idx).unwrap();
    let back = mul_q60_by_u68_to_u64(shares, idx).unwrap();
    assert_eq!(back, 6);

    // A power-of-two index is exact.
    let idx2 = 4 * Q60;
    let shares2 = div_u64_by_u68_to_q60(7, idx2).unwrap();
    let back2 = mul_q60_by_u68_to_u64(shares2, idx2).unwrap();
    assert_eq!(back2, 7);
}

#[test]
fn usd_value_scales_by_decimals_and_price() {
    // 100 atomic units of a 2-decimal asset at price 3.0: one whole
    // token is 100 atomic units, so the value is 3.0.
    assert_eq!(amount_to_usd_q60(100, 2, 3 * Q60), 3 * Q60);
    // 25 tokens of a 6-decimal asset at price 2.0 are worth 50.
    assert_eq!(amount_to_usd_q60(25_000_000, 6, 2 * Q60), 50 * Q60);
    // A zero price values everything at zero.
    assert_eq!(amount_to_usd_q60(1_000_000, 6, 0), 0);
}
