use zodial_core::errors::ZodialError;
use zodial_core::market::{init_market, InitMarketArgs, Market, PriceMode};
use zodial_core::math::Q60;
use zodial_core::obligation::{Obligation, Position};
use zodial_core::operations::{borrow, deposit, leverage_existing_deposit, repay, withdraw};
use zodial_core::pool::Pool;
use zodial_core::prices::{update_prices, PriceCache, PriceUpdate};
use zodial_core::rate_model::RateModel;
use zodial_core::registry::{register_asset, AssetRegistry, RegisterAssetArgs};
use zodial_core::risk::{set_risk_pair, RiskRegistry, SetRiskPairArgs};

const MINT_A: u64 = 101;
const MINT_B: u64 = 202;
const NOW: i64 = 100;

fn flat_rate() -> RateModel {
    RateModel {
        kink_util_bps: 8000,
        base_borrow_apy_bps: 0,
        slope1_bps: 0,
        slope2_bps: 0,
        reserve_factor_bps: 0,
        max_borrow_apy_bps: 10000,
    }
}

/// Asset A at $1 with 6 decimals, asset B at $2 with 6 decimals, risk
/// pair LTV 8000 / threshold 7000 / bonus 500, pools at index 1.0.
fn setup() -> (Market, AssetRegistry, RiskRegistry, PriceCache, Pool, Pool) {
    let args = InitMarketArgs {
        max_assets: 8,
        max_positions: 4,
        default_ltv_bps: 5000,
        default_liq_threshold_bps: 6000,
        default_liq_bonus_bps: 300,
        price_mode: PriceMode::Cache,
        pyth_max_age_secs: 60,
    };
    let (m, mut ar, mut rr, mut pc) = init_market(7, 42, args).unwrap();
    for (mint, decimals) in [(MINT_A, 6u8), (MINT_B, 6u8)] {
        register_asset(
            &m,
            &mut ar,
            &mut rr,
            RegisterAssetArgs {
                mint,
                decimals,
                pyth_price: 0,
                pyth_feed_id: None,
                enabled_as_collateral: true,
            },
        )
        .unwrap();
    }
    set_risk_pair(
        &m,
        &ar,
        &mut rr,
        SetRiskPairArgs {
            a_mint: MINT_A,
            b_mint: MINT_B,
            ltv_bps: 8000,
            liq_threshold_bps: 7000,
            liq_bonus_bps: 500,
        },
    )
    .unwrap();
    let updates = vec![
        PriceUpdate { mint: MINT_A, price_q60: Q60 },
        PriceUpdate { mint: MINT_B, price_q60: 2 * Q60 },
    ];
    update_prices(&m, &ar, &mut pc, &updates, 1).unwrap();
    let pool_a = Pool::new(42, MINT_A, flat_rate(), NOW);
    let pool_b = Pool::new(42, MINT_B, flat_rate(), NOW);
    (m, ar, rr, pc, pool_a, pool_b)
}

#[test]
fn deposit_mints_shares_and_updates_totals() {
    let (m, _, _, _, mut pool_a, _) = setup();
    let mut ob = Obligation::new(42, 9);
    let shares = deposit(&m, &mut pool_a, &mut ob, 1_000_000, NOW).unwrap();
    assert_eq!(shares, 1_000_000u128 << 60);
    assert_eq!(pool_a.total_deposit_shares_q60, shares);
    assert_eq!(ob.positions.len(), 1);
    assert_eq!(ob.positions[0].mint, MINT_A);
    assert_eq!(ob.positions[0].deposit_shares_q60, shares);
    // A second deposit accumulates in the same position.
    let more = deposit(&m, &mut pool_a, &mut ob, 500_000, NOW).unwrap();
    assert_eq!(ob.positions.len(), 1);
    assert_eq!(ob.positions[0].deposit_shares_q60, shares + more);
    assert_eq!(pool_a.total_deposit_shares_q60, shares + more);
}

#[test]
fn deposit_respects_position_cap() {
    let args = InitMarketArgs {
        max_assets: 8,
        max_positions: 1,
        default_ltv_bps: 5000,
        default_liq_threshold_bps: 6000,
        default_liq_bonus_bps: 300,
        price_mode: PriceMode::Cache,
        pyth_max_age_secs: 60,
    };
    let (m, _, _, _) = init_market(7, 42, args).unwrap();
    let mut pool_a = Pool::new(42, MINT_A, flat_rate(), NOW);
    let mut pool_b = Pool::new(42, MINT_B, flat_rate(), NOW);
    let mut ob = Obligation::new(42, 9);
    deposit(&m, &mut pool_a, &mut ob, 100, NOW).unwrap();
    let before = ob.positions.clone();
    assert_eq!(
        deposit(&m, &mut pool_b, &mut ob, 100, NOW),
        Err(ZodialError::ExceedsMaxPositions)
    );
    assert_eq!(ob.positions, before);
    assert_eq!(pool_b.total_deposit_shares_q60, 0);
}

#[test]
fn paused_market_rejects_operations() {
    let (mut m, ar, rr, pc, mut pool_a, _) = setup();
    m.paused = true;
    let mut ob = Obligation::new(42, 9);
    assert_eq!(deposit(&m, &mut pool_a, &mut ob, 100, NOW), Err(ZodialError::MarketPaused));
    assert_eq!(
        repay(&m, &mut pool_a, &mut ob, 100, NOW),
        Err(ZodialError::MarketPaused)
    );
    let others: Vec<Pool> = vec![];
    assert_eq!(
        borrow(&m, &ar, &rr, Some(&pc), &mut pool_a, &others, &mut ob, 100, 100, NOW),
        Err(ZodialError::MarketPaused)
    );
    assert_eq!(
        withdraw(&m, &ar, &rr, Some(&pc), &mut pool_a, &others, &mut ob, 100, 100, NOW),
        Err(ZodialError::MarketPaused)
    );
}

#[test]
fn borrow_within_ltv_commits() {
    let (m, ar, rr, pc, mut pool_a, mut pool_b) = setup();
    let mut ob = Obligation::new(42, 9);
    // Deposit $100 of A as collateral.
    deposit(&m, &mut pool_a, &mut ob, 100_000_000, NOW).unwrap();
    // Borrow 25 B ($50): simulated health 1600.
    let others = vec![pool_a];
    let shares = borrow(
        &m,
        &ar,
        &rr,
        Some(&pc),
        &mut pool_b,
        &others,
        &mut ob,
        25_000_000,
        1_000_000_000,
        NOW,
    )
    .unwrap();
    assert_eq!(shares, 25_000_000u128 << 60);
    assert_eq!(pool_b.total_borrow_shares_q60, shares);
    assert_eq!(ob.positions.len(), 2);
    assert_eq!(ob.positions[1].borrow_shares_q60, shares);
}

#[test]
fn rejected_borrow_leaves_state_byte_for_byte_unchanged() {
    let (m, ar, rr, pc, mut pool_a, mut pool_b) = setup();
    let mut ob = Obligation::new(42, 9);
    deposit(&m, &mut pool_a, &mut ob, 100_000_000, NOW).unwrap();
    let ob_before = ob.positions.clone();
    let pool_before = pool_b;
    // Borrow 45 B ($90): weighted collateral $80 gives health 888.
    let others = vec![pool_a];
    assert_eq!(
        borrow(
            &m,
            &ar,
            &rr,
            Some(&pc),
            &mut pool_b,
            &others,
            &mut ob,
            45_000_000,
            1_000_000_000,
            NOW,
        ),
        Err(ZodialError::HealthCheckFailed)
    );
    assert_eq!(ob.positions, ob_before);
    assert_eq!(pool_b, pool_before);
}

#[test]
fn borrow_needs_vault_liquidity() {
    let (m, ar, rr, pc, mut pool_a, mut pool_b) = setup();
    let mut ob = Obligation::new(42, 9);
    deposit(&m, &mut pool_a, &mut ob, 100_000_000, NOW).unwrap();
    let others = vec![pool_a];
    assert_eq!(
        borrow(&m, &ar, &rr, Some(&pc), &mut pool_b, &others, &mut ob, 25_000_000, 10, NOW),
        Err(ZodialError::InsufficientLiquidity)
    );
}

#[test]
fn repay_caps_to_debt_and_drops_empty_position() {
    let (m, ar, rr, pc, mut pool_a, mut pool_b) = setup();
    let mut ob = Obligation::new(42, 9);
    deposit(&m, &mut pool_a, &mut ob, 100_000_000, NOW).unwrap();
    let others = vec![pool_a];
    borrow(&m, &ar, &rr, Some(&pc), &mut pool_b, &others, &mut ob, 25_000_000, u64::MAX, NOW)
        .unwrap();
    // Offer more than the debt: only the debt is repaid and the emptied
    // borrow position is dropped.
    let (repaid, burned) = repay(&m, &mut pool_b, &mut ob, 99_000_000, NOW).unwrap();
    assert_eq!(repaid, 25_000_000);
    assert_eq!(burned, 25_000_000u128 << 60);
    assert_eq!(pool_b.total_borrow_shares_q60, 0);
    assert_eq!(ob.positions.len(), 1);
    assert_eq!(ob.positions[0].mint, MINT_A);
}

#[test]
fn repay_without_debt_fails() {
    let (m, _, _, _, mut pool_a, _) = setup();
    let mut ob = Obligation::new(42, 9);
    // No position in the pool's mint at all.
    assert_eq!(
        repay(&m, &mut pool_a, &mut ob, 100, NOW),
        Err(ZodialError::PoolNotFound)
    );
    // A deposit-only position has no borrow shares to repay.
    deposit(&m, &mut pool_a, &mut ob, 100, NOW).unwrap();
    assert_eq!(
        repay(&m, &mut pool_a, &mut ob, 100, NOW),
        Err(ZodialError::MathOverflow)
    );
}

#[test]
fn withdraw_caps_by_value_and_vault() {
    let (m, ar, rr, pc, mut pool_a, _) = setup();
    let mut ob = Obligation::new(42, 9);
    deposit(&m, &mut pool_a, &mut ob, 1_000_000, NOW).unwrap();
    let others: Vec<Pool> = vec![];
    // Ask for more than deposited: capped to the position's value.
    let (transfer, burned) = withdraw(
        &m,
        &ar,
        &rr,
        Some(&pc),
        &mut pool_a,
        &others,
        &mut ob,
        5_000_000,
        u64::MAX,
        NOW,
    )
    .unwrap();
    assert_eq!(transfer, 1_000_000);
    assert_eq!(burned, 1_000_000u128 << 60);
    // The emptied position is dropped and the totals return to zero.
    assert_eq!(ob.positions.len(), 0);
    assert_eq!(pool_a.total_deposit_shares_q60, 0);
}

#[test]
fn withdraw_capped_by_vault_liquidity() {
    let (m, ar, rr, pc, mut pool_a, _) = setup();
    let mut ob = Obligation::new(42, 9);
    deposit(&m, &mut pool_a, &mut ob, 1_000_000, NOW).unwrap();
    let others: Vec<Pool> = vec![];
    let (transfer, _) = withdraw(
        &m,
        &ar,
        &rr,
        Some(&pc),
        &mut pool_a,
        &others,
        &mut ob,
        1_000_000,
        300_000,
        NOW,
    )
    .unwrap();
    assert_eq!(transfer, 300_000);
    assert_eq!(ob.positions[0].deposit_shares_q60, 700_000u128 << 60);
}

#[test]
fn withdraw_that_breaks_health_is_rejected_unchanged() {
    let (m, ar, rr, pc, mut pool_a, mut pool_b) = setup();
    let mut ob = Obligation::new(42, 9);
    deposit(&m, &mut pool_a, &mut ob, 100_000_000, NOW).unwrap();
    let others_b = vec![pool_a];
    borrow(&m, &ar, &rr, Some(&pc), &mut pool_b, &others_b, &mut ob, 25_000_000, u64::MAX, NOW)
        .unwrap();
    let ob_before = ob.positions.clone();
    let pool_before = pool_a;
    // Withdrawing 50 A leaves $50 weighted collateral $40 against $50
    // debt: health 800, rejected.
    let others_a = vec![pool_b];
    assert_eq!(
        withdraw(
            &m,
            &ar,
            &rr,
            Some(&pc),
            &mut pool_a,
            &others_a,
            &mut ob,
            50_000_000,
            u64::MAX,
            NOW,
        ),
        Err(ZodialError::HealthCheckFailed)
    );
    assert_eq!(ob.positions, ob_before);
    assert_eq!(pool_a, pool_before);
}

#[test]
fn missing_position_cannot_withdraw() {
    let (m, ar, rr, pc, mut pool_a, _) = setup();
    let mut ob = Obligation::new(42, 9);
    let others: Vec<Pool> = vec![];
    assert_eq!(
        withdraw(&m, &ar, &rr, Some(&pc), &mut pool_a, &others, &mut ob, 100, 100, NOW),
        Err(ZodialError::PositionNotFound)
    );
}

#[test]
fn leverage_borrows_and_deposits_the_converted_value() {
    let (m, ar, rr, pc, mut pool_a, mut pool_b) = setup();
    let mut ob = Obligation::new(42, 9);
    // $100 of A backs a leveraged borrow of 10 B ($20) converted into A.
    deposit(&m, &mut pool_a, &mut ob, 100_000_000, NOW).unwrap();
    let others: Vec<Pool> = vec![];
    let (bsh, swap_out, dsh) = leverage_existing_deposit(
        &m,
        &ar,
        &rr,
        Some(&pc),
        &mut pool_b,
        &mut pool_a,
        &others,
        &mut ob,
        10_000_000,
        NOW,
    )
    .unwrap();
    assert_eq!(bsh, 10_000_000u128 << 60);
    // 10 B at $2 buy 20 A at $1.
    assert_eq!(swap_out, 20_000_000);
    assert_eq!(dsh, 20_000_000u128 << 60);
    assert_eq!(pool_b.total_borrow_shares_q60, bsh);
    assert_eq!(pool_a.total_deposit_shares_q60, (100_000_000u128 + 20_000_000) << 60);
    assert_eq!(ob.positions[0].deposit_shares_q60, (120_000_000u128) << 60);
    assert_eq!(ob.positions[1].borrow_shares_q60, bsh);
}

#[test]
fn zero_deposit_creates_no_position()  {
    let (m, _, _, _, mut pool_a, _) = setup();
    let mut ob = Obligation::new(42, 9);
    assert_eq!(deposit(&m, &mut pool_a, &mut ob, 0, NOW), Ok(0));
    assert_eq!(ob.positions.len(), 0);
    assert_eq!(pool_a.total_deposit_shares_q60, 0);
}

#[test]
fn borrow_respects_position_cap() {
    let args = InitMarketArgs {
        max_assets: 8,
        max_positions: 1,
        default_ltv_bps: 10000,
        default_liq_threshold_bps: 10000,
        default_liq_bonus_bps: 300,
        price_mode: PriceMode::Mock,
        pyth_max_age_secs: 60,
    };
    let (m, _, _, _) = init_market(7, 42, args).unwrap();
    let (_, ar, rr, pc, _, _) = setup();
    let mut pool_a = Pool::new(42, MINT_A, flat_rate(), NOW);
    let mut pool_b = Pool::new(42, MINT_B, flat_rate(), NOW);
    let mut ob = Obligation::new(42, 9);
    deposit(&m, &mut pool_a, &mut ob, 100_000_000, NOW).unwrap();
    let before = ob.positions.clone();
    // A borrow against a second asset would need a second position.
    let others = vec![pool_a];
    assert_eq!(
        borrow(&m, &ar, &rr, Some(&pc), &mut pool_b, &others, &mut ob, 1_000_000, u64::MAX, NOW),
        Err(ZodialError::ExceedsMaxPositions)
    );
    assert_eq!(ob.positions, before);
    assert_eq!(pool_b.total_borrow_shares_q60, 0);
}
