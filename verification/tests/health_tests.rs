use zodial_core::errors::ZodialError;
use zodial_core::health::{
    assert_healthy_at_least_1, compute_health_score_q3, compute_liquidation_health_score_q3,
    liq_threshold_for_pair_bps, ltv_for_pair_bps,
};
use zodial_core::market::{init_market, InitMarketArgs, Market, PriceMode};
use zodial_core::math::Q60;
use zodial_core::obligation::{Obligation, Position};
use zodial_core::pool::Pool;
use zodial_core::prices::{update_prices, PriceCache, PriceUpdate};
use zodial_core::rate_model::RateModel;
use zodial_core::registry::{register_asset, AssetRegistry, RegisterAssetArgs};
use zodial_core::risk::{set_risk_pair, RiskRegistry, SetRiskPairArgs};

const MINT_A: u64 = 101;
const MINT_B: u64 = 202;

fn flat_rate() -> RateModel {
    RateModel {
        kink_util_bps: 8000,
        base_borrow_apy_bps: 0,
        slope1_bps: 0,
        slope2_bps: 0,
        reserve_factor_bps: 0,
        max_borrow_apy_bps: 10000,
    }
}

/// A market with asset A ($1, 18 decimals) and asset B ($2, 6 decimals),
/// risk pair (A,B) with LTV 8000, threshold 7000, bonus 500, and one
/// pool per asset at index 1.0.
fn two_asset_market() -> (Market, AssetRegistry, RiskRegistry, PriceCache, Vec<Pool>) {
    let args = InitMarketArgs {
        max_assets: 8,
        max_positions: 4,
        default_ltv_bps: 5000,
        default_liq_threshold_bps: 6000,
        default_liq_bonus_bps: 300,
        price_mode: PriceMode::Cache,
        pyth_max_age_secs: 60,
    };
    let (m, mut ar, mut rr, mut pc) = init_market(7, 42, args).unwrap();
    register_asset(
        &m,
        &mut ar,
        &mut rr,
        RegisterAssetArgs {
            mint: MINT_A,
            decimals: 18,
            pyth_price: 0,
            pyth_feed_id: None,
            enabled_as_collateral: true,
        },
    )
    .unwrap();
    register_asset(
        &m,
        &mut ar,
        &mut rr,
        RegisterAssetArgs {
            mint: MINT_B,
            decimals: 6,
            pyth_price: 0,
            pyth_feed_id: None,
            enabled_as_collateral: true,
        },
    )
    .unwrap();
    set_risk_pair(
        &m,
        &ar,
        &mut rr,
        SetRiskPairArgs {
            a_mint: MINT_A,
            b_mint: MINT_B,
            ltv_bps: 8000,
            liq_threshold_bps: 7000,
            liq_bonus_bps: 500,
        },
    )
    .unwrap();
    let updates = vec![
        PriceUpdate { mint: MINT_A, price_q60: Q60 },
        PriceUpdate { mint: MINT_B, price_q60: 2 * Q60 },
    ];
    update_prices(&m, &ar, &mut pc, &updates, 1).unwrap();
    let pools = vec![Pool::new(42, MINT_A, flat_rate(), 100), Pool::new(42, MINT_B, flat_rate(), 100)];
    (m, ar, rr, pc, pools)
}

fn obligation_with(positions: Vec<Position>) -> Obligation {
    let mut ob = Obligation::new(42, 9);
    for p in positions {
        ob.positions.push(p);
    }
    ob
}

/// 100 whole tokens of A (18 decimals, worth $100) as deposit shares at
/// index 1.0: 10^20 atomic units, beyond the 64-bit range, valued at Q60
/// width.
fn deposit_a_100() -> Position {
    Position {
        mint: MINT_A,
        deposit_shares_q60: 100_000_000_000_000_000_000u128 << 60,
        borrow_shares_q60: 0,
    }
}

/// Borrow shares in B worth $50: 25 tokens at $2, 6 decimals.
fn borrow_b_50_usd() -> Position {
    Position { mint: MINT_B, deposit_shares_q60: 0, borrow_shares_q60: 25_000_000u128 << 60 }
}

#[test]
fn weighted_health_of_a_two_asset_position() {
    // Deposit $100 of A, borrow $50 of B at LTV 8000: weighted
    // collateral $80, health 80/50*1000 = 1600.
    let (m, ar, rr, pc, pools) = two_asset_market();
    let ob = obligation_with(vec![deposit_a_100(), borrow_b_50_usd()]);
    let h = compute_health_score_q3(&ob, &m, &ar, &rr, Some(&pc), &pools).unwrap();
    assert_eq!(h, 1600);
}

#[test]
fn liquidation_mode_uses_threshold() {
    // The same position under the liquidation threshold 7000: 1400.
    let (m, ar, rr, pc, pools) = two_asset_market();
    let ob = obligation_with(vec![deposit_a_100(), borrow_b_50_usd()]);
    let h = compute_liquidation_health_score_q3(&ob, &m, &ar, &rr, Some(&pc), &pools).unwrap();
    assert_eq!(h, 1400);
}

#[test]
fn no_borrows_scores_maximum() {
    let (m, ar, rr, pc, pools) = two_asset_market();
    let ob = obligation_with(vec![deposit_a_100()]);
    assert_eq!(
        compute_health_score_q3(&ob, &m, &ar, &rr, Some(&pc), &pools),
        Ok(u128::MAX)
    );
    assert_eq!(
        compute_liquidation_health_score_q3(&ob, &m, &ar, &rr, Some(&pc), &pools),
        Ok(u128::MAX)
    );
    // An empty obligation carries no risk either.
    let empty = obligation_with(vec![]);
    assert_eq!(
        compute_health_score_q3(&empty, &m, &ar, &rr, Some(&pc), &pools),
        Ok(u128::MAX)
    );
}

#[test]
fn unsecured_debt_scores_zero() {
    let (m, ar, rr, pc, pools) = two_asset_market();
    let ob = obligation_with(vec![borrow_b_50_usd()]);
    assert_eq!(compute_health_score_q3(&ob, &m, &ar, &rr, Some(&pc), &pools), Ok(0));
}

#[test]
fn health_is_independent_of_position_order() {
    let (m, ar, rr, pc, pools) = two_asset_market();
    let fwd = obligation_with(vec![deposit_a_100(), borrow_b_50_usd()]);
    let rev = obligation_with(vec![borrow_b_50_usd(), deposit_a_100()]);
    let h1 = compute_health_score_q3(&fwd, &m, &ar, &rr, Some(&pc), &pools);
    let h2 = compute_health_score_q3(&rev, &m, &ar, &rr, Some(&pc), &pools);
    assert_eq!(h1, h2);
    // And of the supplied pool order.
    let mut pools_rev = pools.clone();
    pools_rev.reverse();
    let h3 = compute_health_score_q3(&fwd, &m, &ar, &rr, Some(&pc), &pools_rev);
    assert_eq!(h1, h3);
}

#[test]
fn health_resolution_errors() {
    let (m, ar, rr, pc, pools) = two_asset_market();
    // A position in an unregistered asset.
    let unknown = obligation_with(vec![Position {
        mint: 999,
        deposit_shares_q60: Q60,
        borrow_shares_q60: 0,
    }]);
    assert_eq!(
        compute_health_score_q3(&unknown, &m, &ar, &rr, Some(&pc), &pools),
        Err(ZodialError::AssetNotRegistered)
    );
    // A position whose pool was not supplied.
    let ob = obligation_with(vec![deposit_a_100()]);
    let only_b = vec![Pool::new(42, MINT_B, flat_rate(), 100)];
    assert_eq!(
        compute_health_score_q3(&ob, &m, &ar, &rr, Some(&pc), &only_b),
        Err(ZodialError::PoolNotFound)
    );
    // Cache mode without the cache is stale.
    assert_eq!(
        compute_health_score_q3(&ob, &m, &ar, &rr, None, &pools),
        Err(ZodialError::PriceStale)
    );
}

#[test]
fn healthy_gate_passes_and_rejects() {
    let (m, ar, rr, pc, pools) = two_asset_market();
    let healthy = obligation_with(vec![deposit_a_100(), borrow_b_50_usd()]);
    assert_eq!(
        assert_healthy_at_least_1(&healthy, &m, &ar, &rr, Some(&pc), &pools),
        Ok(1600)
    );
    // Borrow $90 instead: weighted $80 against $90 debt is 888 < 1000.
    let unhealthy = obligation_with(vec![
        deposit_a_100(),
        Position { mint: MINT_B, deposit_shares_q60: 0, borrow_shares_q60: 45_000_000u128 << 60 },
    ]);
    assert_eq!(
        assert_healthy_at_least_1(&unhealthy, &m, &ar, &rr, Some(&pc), &pools),
        Err(ZodialError::HealthCheckFailed)
    );
}

#[test]
fn pair_parameter_fallbacks() {
    let (m, ar, rr, _, _) = two_asset_market();
    // Stored pair wins.
    assert_eq!(ltv_for_pair_bps(&m, &rr, 0, 1), 8000);
    assert_eq!(liq_threshold_for_pair_bps(&m, &rr, 1, 0), 7000);
    // Out-of-range indices fall back to the market defaults.
    assert_eq!(ltv_for_pair_bps(&m, &rr, 0, 9), 5000);
    assert_eq!(liq_threshold_for_pair_bps(&m, &rr, 9, 9), 6000);
    // An empty matrix falls back everywhere.
    let empty_rr = RiskRegistry::new(42);
    assert_eq!(ltv_for_pair_bps(&m, &empty_rr, 0, 0), 5000);
    // A stored zero means "unset" and falls back; the self-pair (A,A)
    // was default-filled with 5000, and (B,B) too.
    assert_eq!(ltv_for_pair_bps(&m, &rr, 0, 0), 5000);
    let _ = ar;
}
