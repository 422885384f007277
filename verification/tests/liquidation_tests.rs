use zodial_core::errors::ZodialError;
use zodial_core::liquidation::{
    check_liquidation, liquidate_obligation, LiquidateObligationArgs,
};
use zodial_core::market::{init_market, InitMarketArgs, Market, PriceMode};
use zodial_core::math::Q60;
use zodial_core::obligation::{Obligation, Position};
use zodial_core::pool::Pool;
use zodial_core::prices::{update_prices, PriceCache, PriceUpdate};
use zodial_core::rate_model::RateModel;
use zodial_core::registry::{register_asset, AssetRegistry, RegisterAssetArgs};
use zodial_core::risk::{set_risk_pair, RiskRegistry, SetRiskPairArgs};
use zodial_core::swap::{calculate_swap_output, faucet_swap_output};

const BORROW_MINT: u64 = 11;
const COLLATERAL_MINT: u64 = 22;
const NOW: i64 = 100;

fn flat_rate() -> RateModel {
    RateModel {
        kink_util_bps: 8000,
        base_borrow_apy_bps: 0,
        slope1_bps: 0,
        slope2_bps: 0,
        reserve_factor_bps: 0,
        max_borrow_apy_bps: 10000,
    }
}

/// Borrow asset at $1 and collateral at $2, both 6 decimals; pair with
/// liquidation threshold 7000 and bonus 500; pools at index 1.0.
fn setup() -> (Market, AssetRegistry, RiskRegistry, PriceCache, Vec<Pool>) {
    let args = InitMarketArgs {
        max_assets: 8,
        max_positions: 4,
        default_ltv_bps: 5000,
        default_liq_threshold_bps: 6000,
        default_liq_bonus_bps: 300,
        price_mode: PriceMode::Cache,
        pyth_max_age_secs: 60,
    };
    let (m, mut ar, mut rr, mut pc) = init_market(7, 42, args).unwrap();
    for mint in [BORROW_MINT, COLLATERAL_MINT] {
        register_asset(
            &m,
            &mut ar,
            &mut rr,
            RegisterAssetArgs {
                mint,
                decimals: 6,
                pyth_price: 0,
                pyth_feed_id: None,
                enabled_as_collateral: true,
            },
        )
        .unwrap();
    }
    set_risk_pair(
        &m,
        &ar,
        &mut rr,
        SetRiskPairArgs {
            a_mint: COLLATERAL_MINT,
            b_mint: BORROW_MINT,
            ltv_bps: 6500,
            liq_threshold_bps: 7000,
            liq_bonus_bps: 500,
        },
    )
    .unwrap();
    let updates = vec![
        PriceUpdate { mint: BORROW_MINT, price_q60: Q60 },
        PriceUpdate { mint: COLLATERAL_MINT, price_q60: 2 * Q60 },
    ];
    update_prices(&m, &ar, &mut pc, &updates, 1).unwrap();
    let pools = vec![
        Pool::new(42, BORROW_MINT, flat_rate(), NOW),
        Pool::new(42, COLLATERAL_MINT, flat_rate(), NOW),
    ];
    (m, ar, rr, pc, pools)
}

/// Target with $100 of debt in the borrow asset against 60 collateral
/// tokens ($120): weighted collateral $84 at threshold 7000, health 840.
fn unhealthy_target() -> Obligation {
    let mut ob = Obligation::new(42, 9);
    ob.positions.push(Position {
        mint: COLLATERAL_MINT,
        deposit_shares_q60: 60_000_000u128 << 60,
        borrow_shares_q60: 0,
    });
    ob.positions.push(Position {
        mint: BORROW_MINT,
        deposit_shares_q60: 0,
        borrow_shares_q60: 100_000_000u128 << 60,
    });
    ob
}

/// Liquidator funded with 50 borrow-asset tokens of deposits and a
/// collateral position to receive seizures.
fn funded_liquidator() -> Obligation {
    let mut ob = Obligation::new(42, 8);
    ob.positions.push(Position {
        mint: BORROW_MINT,
        deposit_shares_q60: 50_000_000u128 << 60,
        borrow_shares_q60: 0,
    });
    ob.positions.push(Position {
        mint: COLLATERAL_MINT,
        deposit_shares_q60: 1u128 << 60,
        borrow_shares_q60: 0,
    });
    ob
}

#[test]
fn check_liquidation_flags_only_unhealthy_targets() {
    let (m, ar, rr, pc, pools) = setup();
    let target = unhealthy_target();
    assert_eq!(check_liquidation(&m, &ar, &rr, Some(&pc), &pools, &target, NOW), Ok(()));
    // A target with little debt is healthy and cannot be liquidated.
    let mut healthy = Obligation::new(42, 9);
    healthy.positions.push(Position {
        mint: COLLATERAL_MINT,
        deposit_shares_q60: 60_000_000u128 << 60,
        borrow_shares_q60: 0,
    });
    healthy.positions.push(Position {
        mint: BORROW_MINT,
        deposit_shares_q60: 0,
        borrow_shares_q60: 10_000_000u128 << 60,
    });
    assert_eq!(
        check_liquidation(&m, &ar, &rr, Some(&pc), &pools, &healthy, NOW),
        Err(ZodialError::PositionHealthy)
    );
}

#[test]
fn liquidation_repays_and_seizes_with_bonus() {
    // Repaying $40 at a 500 bps bonus seizes $42 of collateral: at
    // $2/unit and 6 decimals that is exactly 21,000,000 atomic units.
    let (m, ar, rr, pc, pools) = setup();
    let mut target = unhealthy_target();
    let mut liquidator = funded_liquidator();
    let args = LiquidateObligationArgs {
        repay_amount: 40_000_000,
        collateral_mint: COLLATERAL_MINT,
        borrow_mint: BORROW_MINT,
    };
    let outcome =
        liquidate_obligation(&m, &ar, &rr, Some(&pc), &pools, &mut target, &mut liquidator, args, NOW)
            .unwrap();
    assert_eq!(outcome.seize_amount, 21_000_000);
    assert_eq!(outcome.repay_shares_q60, 40_000_000u128 << 60);
    assert_eq!(outcome.seize_shares_q60, 21_000_000u128 << 60);
    assert_eq!(outcome.liquidator_spent_shares_q60, 40_000_000u128 << 60);
    // Target: debt down to $60, collateral down to 39 tokens.
    assert_eq!(target.positions[1].borrow_shares_q60, 60_000_000u128 << 60);
    assert_eq!(target.positions[0].deposit_shares_q60, 39_000_000u128 << 60);
    // Liquidator: paid 40 from deposits, received 21 collateral tokens.
    assert_eq!(liquidator.positions[0].deposit_shares_q60, 10_000_000u128 << 60);
    assert_eq!(liquidator.positions[1].deposit_shares_q60, (21_000_000u128 + 1) << 60);
}

#[test]
fn liquidating_a_healthy_target_fails_unchanged() {
    let (m, ar, rr, pc, pools) = setup();
    let mut target = Obligation::new(42, 9);
    target.positions.push(Position {
        mint: COLLATERAL_MINT,
        deposit_shares_q60: 60_000_000u128 << 60,
        borrow_shares_q60: 0,
    });
    target.positions.push(Position {
        mint: BORROW_MINT,
        deposit_shares_q60: 0,
        borrow_shares_q60: 10_000_000u128 << 60,
    });
    let before = target.positions.clone();
    let mut liquidator = funded_liquidator();
    let args = LiquidateObligationArgs {
        repay_amount: 1_000_000,
        collateral_mint: COLLATERAL_MINT,
        borrow_mint: BORROW_MINT,
    };
    assert_eq!(
        liquidate_obligation(&m, &ar, &rr, Some(&pc), &pools, &mut target, &mut liquidator, args, NOW),
        Err(ZodialError::PositionHealthy)
    );
    assert_eq!(target.positions, before);
}

#[test]
fn liquidation_bounds_are_enforced() {
    let (m, ar, rr, pc, pools) = setup();

    // Repaying more than the target's debt is rejected.
    let mut target = unhealthy_target();
    let mut liquidator = funded_liquidator();
    // Make the target deep underwater so even a large repay passes the
    // health gate but exceeds the debt.
    target.positions[1].borrow_shares_q60 = 100_000_000u128 << 60;
    let too_much = LiquidateObligationArgs {
        repay_amount: 200_000_000,
        collateral_mint: COLLATERAL_MINT,
        borrow_mint: BORROW_MINT,
    };
    assert_eq!(
        liquidate_obligation(
            &m,
            &ar,
            &rr,
            Some(&pc),
            &pools,
            &mut target,
            &mut liquidator,
            too_much,
            NOW,
        ),
        Err(ZodialError::PositionNotFound)
    );

    // Seizing more than the target's collateral is rejected.
    let mut poor_target = unhealthy_target();
    poor_target.positions[0].deposit_shares_q60 = 1_000_000u128 << 60;
    let mut liquidator2 = funded_liquidator();
    let args = LiquidateObligationArgs {
        repay_amount: 40_000_000,
        collateral_mint: COLLATERAL_MINT,
        borrow_mint: BORROW_MINT,
    };
    assert_eq!(
        liquidate_obligation(
            &m,
            &ar,
            &rr,
            Some(&pc),
            &pools,
            &mut poor_target,
            &mut liquidator2,
            args,
            NOW,
        ),
        Err(ZodialError::InsufficientCollateral)
    );

    // A liquidator without enough funding deposits is rejected.
    let mut target3 = unhealthy_target();
    let mut broke = funded_liquidator();
    broke.positions[0].deposit_shares_q60 = 1_000_000u128 << 60;
    let before = broke.positions.clone();
    assert_eq!(
        liquidate_obligation(&m, &ar, &rr, Some(&pc), &pools, &mut target3, &mut broke, args, NOW),
        Err(ZodialError::InsufficientCollateral)
    );
    assert_eq!(broke.positions, before);

    // A liquidator without a collateral position cannot receive seizures.
    let mut target4 = unhealthy_target();
    let mut no_slot = Obligation::new(42, 8);
    no_slot.positions.push(Position {
        mint: BORROW_MINT,
        deposit_shares_q60: 50_000_000u128 << 60,
        borrow_shares_q60: 0,
    });
    assert_eq!(
        liquidate_obligation(&m, &ar, &rr, Some(&pc), &pools, &mut target4, &mut no_slot, args, NOW),
        Err(ZodialError::PositionNotFound)
    );
}

#[test]
fn swap_output_converts_between_assets() {
    let (m, ar, _, pc, _) = setup();
    // 10 borrow tokens ($10) buy 5 collateral tokens at $2.
    assert_eq!(
        calculate_swap_output(&m, Some(&pc), &ar, BORROW_MINT, COLLATERAL_MINT, 10_000_000),
        Ok(5_000_000)
    );
    // And back.
    assert_eq!(
        calculate_swap_output(&m, Some(&pc), &ar, COLLATERAL_MINT, BORROW_MINT, 5_000_000),
        Ok(10_000_000)
    );
    assert_eq!(
        calculate_swap_output(&m, Some(&pc), &ar, 999, BORROW_MINT, 1),
        Err(ZodialError::AssetNotRegistered)
    );
}

#[test]
fn faucet_swap_output_handles_decimal_shifts() {
    // $1 tokens into $2 tokens at equal decimals: half the amount.
    assert_eq!(faucet_swap_output(2_000_000, Q60, 2 * Q60, 6, 6), Ok(1_000_000));
    // Same prices, 6 to 9 decimals: a thousandfold in atomic units.
    assert_eq!(faucet_swap_output(2_000_000, Q60, Q60, 6, 9), Ok(2_000_000_000));
    // 9 to 6 decimals shrinks it back.
    assert_eq!(faucet_swap_output(2_000_000_000, Q60, Q60, 9, 6), Ok(2_000_000));
    // A zero destination price cannot be priced.
    assert_eq!(faucet_swap_output(1, Q60, 0, 6, 6), Err(ZodialError::MathOverflow));
    // A result beyond 64 bits fails rather than wrapping: the largest
    // amount doubled by a half-price destination cannot be represented.
    assert_eq!(
        faucet_swap_output(u64::MAX, Q60, Q60 / 2, 6, 6),
        Err(ZodialError::MathOverflow)
    );
}
