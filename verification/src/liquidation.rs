//! Liquidation of under-collateralized obligations.
//!
//! A target below 1000 liquidation-threshold health can be liquidated: a
//! liquidator repays part of its debt out of their own deposits and
//! seizes collateral worth the repayment plus the pair's bonus. The
//! liquidator's own health is deliberately not checked afterwards, so
//! liquidation stays unconditionally executable against unhealthy
//! targets. Any failure aborts the whole liquidation with no partial
//! effect.

use vstd::prelude::*;

use crate::accrual::{accrue_pool, spec_accrue_pool};
use crate::errors::ZodialError;
use crate::health::{
    compute_liquidation_health_score_q3, find_pool, pool_mint_pred, spec_health_result,
};
use crate::lookup::spec_find;
use crate::market::Market;
use crate::math::{
    amount_to_shares_spec, amount_to_usd_q60, div_u64_by_u68_to_q60, pow10, pow10_u128, q60_mul_sat,
    q60_mul_spec, q60_shl_div, q60_shl_div_spec, sat_u128, usd_value_spec, Q60,
};
use crate::obligation::{find_position_in, spec_position_index, Obligation, Position};
use crate::pool::Pool;
use crate::prices::{spec_cache_prices, spec_price_for_index, price_for_index_q60, PriceCache, PriceEntry};
use crate::registry::{asset_mint_pred, AssetMeta, AssetRegistry};
use crate::risk::{spec_tri_index, RiskRegistry};

verus! {

/// Every pool accrued to `now`, in order.
pub open spec fn spec_accrue_pools(pools: Seq<Pool>, now: i64) -> Seq<Pool> {
    Seq::new(pools.len(), |i: int| spec_accrue_pool(pools[i], now))
}

/// Accrues a private copy of each supplied pool to `now`.
fn accrue_all(pools: &Vec<Pool>, now: i64) -> (r: Vec<Pool>)
    ensures
        r@ == spec_accrue_pools(pools@, now),
{
    let mut out: Vec<Pool> = Vec::new();
    let mut i: usize = 0;
    while i < pools.len()
        invariant
            i <= pools@.len(),
            out@.len() == i,
            forall|k: int| 0 <= k < i ==> out@[k] == spec_accrue_pool(#[trigger] pools@[k], now),
        decreases pools@.len() - i,
    {
        let mut p = pools[i];
        accrue_pool(&mut p, now);
        out.push(p);
        i = i + 1;
    }
    proof {
        assert(out@ =~= spec_accrue_pools(pools@, now));
    }
    out
}

/// Whether an obligation is currently liquidatable: accrue the supplied
/// pools, score the obligation with liquidation thresholds, and demand
/// the score below 1000; a healthy position is `PositionHealthy`.
pub open spec fn spec_check_liquidation(
    m: Market,
    assets: Seq<AssetMeta>,
    rr: RiskRegistry,
    cache: Option<Seq<PriceEntry>>,
    pools: Seq<Pool>,
    positions: Seq<Position>,
    now: i64,
) -> Result<(), ZodialError> {
    if m.paused {
        Err(ZodialError::MarketPaused)
    } else {
        match spec_health_result(positions, assets, m, rr, cache, spec_accrue_pools(pools, now), true) {
            Err(e) => Err(e),
            Ok(h) => if h < 1000 {
                Ok(())
            } else {
                Err(ZodialError::PositionHealthy)
            },
        }
    }
}

/// Checks that the target obligation is liquidatable (see
/// `spec_check_liquidation`). Reads only; the accruals are transient.
pub fn check_liquidation(
    market: &Market,
    assets: &AssetRegistry,
    risk: &RiskRegistry,
    price_cache: Option<&PriceCache>,
    pools: &Vec<Pool>,
    target: &Obligation,
    now: i64,
) -> (r: Result<(), ZodialError>)
    requires
        assets.wf(),
    ensures
        r == spec_check_liquidation(
            *market,
            assets.assets@,
            *risk,
            spec_cache_prices(price_cache),
            pools@,
            target.positions@,
            now,
        ),
{
    if market.paused {
        return Err(ZodialError::MarketPaused);
    }
    let accrued = accrue_all(pools, now);
    let health = match compute_liquidation_health_score_q3(
        target,
        market,
        assets,
        risk,
        price_cache,
        &accrued,
    ) {
        Ok(h) => h,
        Err(e) => {
            return Err(e);
        },
    };
    if health < 1000 {
        Ok(())
    } else {
        Err(ZodialError::PositionHealthy)
    }
}

/// Arguments to `liquidate_obligation`.
#[derive(Clone, Copy, Debug)]
pub struct LiquidateObligationArgs {
    /// Token amount of the borrow asset the liquidator repays.
    pub repay_amount: u64,
    /// Mint of the collateral to seize.
    pub collateral_mint: u64,
    /// Mint of the debt being repaid.
    pub borrow_mint: u64,
}

/// What a liquidation moved.
#[derive(Clone, Copy, Debug, PartialEq, Eq, Structural)]
pub struct LiquidationOutcome {
    /// Borrow shares burned from the target.
    pub repay_shares_q60: u128,
    /// Deposit shares moved from the target to the liquidator.
    pub seize_shares_q60: u128,
    /// Token amount of collateral those shares represent.
    pub seize_amount: u64,
    /// Deposit shares the liquidator spent to fund the repayment.
    pub liquidator_spent_shares_q60: u128,
}

/// What a liquidation computes, step by step: accrue
/// all pools; demand the target's liquidation-threshold health below
/// 1000; locate the target's borrow and collateral positions; convert
/// the repayment to borrow shares, bounded by the target's debt; value
/// the repayment, scale it by the pair's liquidation bonus, and convert
/// that seize value to collateral shares, bounded by the target's
/// collateral; fund the repayment from the liquidator's deposits in the
/// borrow asset, bounded by their balance, and credit them the seized
/// shares. Yields the two new position lists and the amounts moved; any
/// failure aborts with no effect.
pub open spec fn spec_liquidate(
    m: Market,
    assets: Seq<AssetMeta>,
    rr: RiskRegistry,
    cache: Option<Seq<PriceEntry>>,
    pools: Seq<Pool>,
    target: Seq<Position>,
    liquidator: Seq<Position>,
    args: LiquidateObligationArgs,
    now: i64,
) -> Result<(Seq<Position>, Seq<Position>, LiquidationOutcome), ZodialError> {
    if m.paused {
        Err(ZodialError::MarketPaused)
    } else {
        let ap = spec_accrue_pools(pools, now);
        match spec_health_result(target, assets, m, rr, cache, ap, true) {
            Err(e) => Err(e),
            Ok(h) => if h >= 1000 {
                Err(ZodialError::PositionHealthy)
            } else {
                let bi = spec_position_index(target, args.borrow_mint);
                let ci = spec_position_index(target, args.collateral_mint);
                if bi == -1 || ci == -1 {
                    Err(ZodialError::PositionNotFound)
                } else {
                    match spec_find(ap, pool_mint_pred(args.borrow_mint)) {
                        None => Err(ZodialError::PoolNotFound),
                        Some(bpool) => {
                            if bpool.borrow_fac_q60 == 0 || amount_to_shares_spec(
                                args.repay_amount,
                                bpool.borrow_fac_q60,
                            ) > u128::MAX {
                                Err(ZodialError::MathOverflow)
                            } else {
                                let repay_shares = amount_to_shares_spec(
                                    args.repay_amount,
                                    bpool.borrow_fac_q60,
                                ) as u128;
                                if repay_shares > target[bi].borrow_shares_q60 {
                                    Err(ZodialError::PositionNotFound)
                                } else {
                                    spec_liquidate_priced(
                                        m,
                                        assets,
                                        rr,
                                        cache,
                                        ap,
                                        target,
                                        liquidator,
                                        args,
                                        bi,
                                        ci,
                                        bpool,
                                        repay_shares,
                                    )
                                }
                            }
                        },
                    }
                }
            },
        }
    }
}

/// The pricing and transfer legs of `spec_liquidate`, once the target is
/// known unhealthy and the repayment converts to shares within its debt.
pub open spec fn spec_liquidate_priced(
    m: Market,
    assets: Seq<AssetMeta>,
    rr: RiskRegistry,
    cache: Option<Seq<PriceEntry>>,
    ap: Seq<Pool>,
    target: Seq<Position>,
    liquidator: Seq<Position>,
    args: LiquidateObligationArgs,
    bi: int,
    ci: int,
    bpool: Pool,
    repay_shares: u128,
) -> Result<(Seq<Position>, Seq<Position>, LiquidationOutcome), ZodialError> {
    match spec_find(assets, asset_mint_pred(args.borrow_mint)) {
        None => Err(ZodialError::AssetNotRegistered),
        Some(ba) => match spec_find(assets, asset_mint_pred(args.collateral_mint)) {
            None => Err(ZodialError::AssetNotRegistered),
            Some(ca) => match spec_price_for_index(m, cache, ba.index) {
                Err(e) => Err(e),
                Ok(bprice) => match spec_price_for_index(m, cache, ca.index) {
                    Err(e) => Err(e),
                    Ok(cprice) => {
                        let repay_value = usd_value_spec(
                            args.repay_amount,
                            ba.decimals,
                            bprice,
                        ) as u128;
                        let k = spec_tri_index(ca.index as int, ba.index as int, rr.dim as int);
                        if ca.index >= rr.dim || ba.index >= rr.dim || k >= rr.pairs@.len() {
                            Err(ZodialError::InvalidRiskPair)
                        } else {
                            let bonus = rr.pairs@[k].liq_bonus_bps;
                            let seize_value = sat_u128(
                                (repay_value * (10_000 + bonus)) / 10_000,
                            ) as u128;
                            if cprice == 0 {
                                Err(ZodialError::MathOverflow)
                            } else {
                                let seize_units = sat_u128(
                                    q60_shl_div_spec(seize_value, cprice),
                                ) as u128;
                                let scale = (pow10(ca.decimals as nat) * Q60) as u128;
                                let seize_raw = sat_u128(q60_mul_spec(seize_units, scale)) as u128;
                                let seize_amount = seize_raw as int / (Q60 as int);
                                if seize_amount > u64::MAX {
                                    Err(ZodialError::MathOverflow)
                                } else {
                                    match spec_find(ap, pool_mint_pred(args.collateral_mint)) {
                                        None => Err(ZodialError::PoolNotFound),
                                        Some(cpool) => {
                                            if cpool.deposit_fac_q60 == 0 || amount_to_shares_spec(
                                                seize_amount as u64,
                                                cpool.deposit_fac_q60,
                                            ) > u128::MAX {
                                                Err(ZodialError::MathOverflow)
                                            } else {
                                                let seize_shares = amount_to_shares_spec(
                                                    seize_amount as u64,
                                                    cpool.deposit_fac_q60,
                                                ) as u128;
                                                spec_liquidate_commit(
                                                    target,
                                                    liquidator,
                                                    args,
                                                    bi,
                                                    ci,
                                                    bpool,
                                                    repay_shares,
                                                    seize_amount as u64,
                                                    seize_shares,
                                                )
                                            }
                                        },
                                    }
                                }
                            }
                        }
                    },
                },
            },
        },
    }
}

/// The transfer legs of a liquidation: bounds checks against the target's
/// collateral and the liquidator's funding deposits, then the four share
/// movements in order.
pub open spec fn spec_liquidate_commit(
    target: Seq<Position>,
    liquidator: Seq<Position>,
    args: LiquidateObligationArgs,
    bi: int,
    ci: int,
    bpool: Pool,
    repay_shares: u128,
    seize_amount: u64,
    seize_shares: u128,
) -> Result<(Seq<Position>, Seq<Position>, LiquidationOutcome), ZodialError> {
    if seize_shares > target[ci].deposit_shares_q60 {
        Err(ZodialError::InsufficientCollateral)
    } else {
        let di = spec_position_index(liquidator, args.borrow_mint);
        if di == -1 {
            Err(ZodialError::PositionNotFound)
        } else {
            if bpool.deposit_fac_q60 == 0 || amount_to_shares_spec(
                args.repay_amount,
                bpool.deposit_fac_q60,
            ) > u128::MAX {
                Err(ZodialError::MathOverflow)
            } else {
                let spent = amount_to_shares_spec(args.repay_amount, bpool.deposit_fac_q60) as u128;
                if spent > liquidator[di].deposit_shares_q60 {
                    Err(ZodialError::InsufficientCollateral)
                } else {
                    let li = spec_position_index(liquidator, args.collateral_mint);
                    if li == -1 {
                        Err(ZodialError::PositionNotFound)
                    } else {
                        let tor1 = liquidator.update(
                            di,
                            Position {
                                deposit_shares_q60: (liquidator[di].deposit_shares_q60
                                    - spent) as u128,
                                ..liquidator[di]
                            },
                        );
                        if tor1[li].deposit_shares_q60 + seize_shares > u128::MAX {
                            Err(ZodialError::MathOverflow)
                        } else {
                            let tee1 = target.update(
                                bi,
                                Position {
                                    borrow_shares_q60: (target[bi].borrow_shares_q60
                                        - repay_shares) as u128,
                                    ..target[bi]
                                },
                            );
                            let tee2 = tee1.update(
                                ci,
                                Position {
                                    deposit_shares_q60: (tee1[ci].deposit_shares_q60
                                        - seize_shares) as u128,
                                    ..tee1[ci]
                                },
                            );
                            let tor2 = tor1.update(
                                li,
                                Position {
                                    deposit_shares_q60: (tor1[li].deposit_shares_q60
                                        + seize_shares) as u128,
                                    ..tor1[li]
                                },
                            );
                            Ok(
                                (
                                    tee2,
                                    tor2,
                                    LiquidationOutcome {
                                        repay_shares_q60: repay_shares,
                                        seize_shares_q60: seize_shares,
                                        seize_amount,
                                        liquidator_spent_shares_q60: spent,
                                    },
                                ),
                            )
                        }
                    }
                }
            }
        }
    }
}

/// A value scaled up by a bonus in bps: `v * (10000 + bonus_bps) / 10000`,
/// rounded toward zero, saturating at the largest Q60 value.
fn apply_bonus_bps(v: u128, bonus_bps: u16) -> (r: u128)
    ensures
        r == sat_u128((v * (10_000 + bonus_bps)) / 10_000),
{
    let k: u128 = 10_000 + bonus_bps as u128;
    let q = v / 10_000;
    let rem = v % 10_000;
    proof {
        vstd::arithmetic::div_mod::lemma_fundamental_div_mod(v as int, 10_000);
        assert(v as int * k == (q * k) * 10_000 + rem * k) by (nonlinear_arith)
            requires
                v == 10_000 * q + rem,
        ;
        vstd::arithmetic::div_mod::lemma_hoist_over_denominator(rem * k, (q * k) as int, 10_000);
        assert(rem * k < 10_000 * 75_536) by (nonlinear_arith)
            requires
                rem < 10_000,
                k <= 75_535,
        ;
    }
    let high = match q.checked_mul(k) {
        Some(h) => h,
        None => {
            proof {
                assert((v * k) / 10_000 >= q * k) by {
                    assert(v * k >= (q * k) * 10_000) by (nonlinear_arith)
                        requires
                            v as int * k == (q * k) * 10_000 + rem * k,
                            rem >= 0,
                            k >= 0,
                    ;
                    vstd::arithmetic::div_mod::lemma_div_is_ordered(
                        (q * k) * 10_000,
                        v as int * k,
                        10_000,
                    );
                    vstd::arithmetic::div_mod::lemma_div_by_multiple(q as int * k, 10_000);
                }
            }
            return u128::MAX;
        },
    };
    let low = rem * k / 10_000;
    match high.checked_add(low) {
        Some(r) => r,
        None => u128::MAX,
    }
}

/// Executes a liquidation (see `spec_liquidate`). On success the target
/// loses `repay_shares_q60` of debt and `seize_shares_q60` of collateral,
/// and the liquidator's deposits fund the repayment and receive the
/// seized shares; the caller still owes the repaid tokens to the pool's
/// vault. On any failure both obligations are unchanged.
pub fn liquidate_obligation(
    market: &Market,
    assets: &AssetRegistry,
    risk: &RiskRegistry,
    price_cache: Option<&PriceCache>,
    pools: &Vec<Pool>,
    target: &mut Obligation,
    liquidator: &mut Obligation,
    args: LiquidateObligationArgs,
    now: i64,
) -> (r: Result<LiquidationOutcome, ZodialError>)
    requires
        assets.wf(),
        risk.dim == assets.count,
    ensures
        match spec_liquidate(
            *market,
            assets.assets@,
            *risk,
            spec_cache_prices(price_cache),
            pools@,
            old(target).positions@,
            old(liquidator).positions@,
            args,
            now,
        ) {
            Ok((tee2, tor2, outcome)) => r == Ok::<LiquidationOutcome, ZodialError>(outcome)
                && final(target).positions@ == tee2 && final(liquidator).positions@ == tor2,
            Err(e) => r == Err::<LiquidationOutcome, ZodialError>(e) && final(target).positions@
                == old(target).positions@ && final(liquidator).positions@ == old(
                liquidator,
            ).positions@,
        },
        final(target).market == old(target).market,
        final(target).owner == old(target).owner,
        final(liquidator).market == old(liquidator).market,
        final(liquidator).owner == old(liquidator).owner,
{
    if market.paused {
        return Err(ZodialError::MarketPaused);
    }
    let accrued = accrue_all(pools, now);
    let health = match compute_liquidation_health_score_q3(
        target,
        market,
        assets,
        risk,
        price_cache,
        &accrued,
    ) {
        Ok(h) => h,
        Err(e) => {
            return Err(e);
        },
    };
    if health >= 1000 {
        return Err(ZodialError::PositionHealthy);
    }
    let bi = match find_position_in(&target.positions, args.borrow_mint) {
        Some(i) => i,
        None => {
            return Err(ZodialError::PositionNotFound);
        },
    };
    let ci = match find_position_in(&target.positions, args.collateral_mint) {
        Some(i) => i,
        None => {
            return Err(ZodialError::PositionNotFound);
        },
    };
    let bpool = match find_pool(&accrued, args.borrow_mint) {
        Some(i) => accrued[i],
        None => {
            return Err(ZodialError::PoolNotFound);
        },
    };
    let repay_shares = match div_u64_by_u68_to_q60(args.repay_amount, bpool.borrow_fac_q60) {
        Ok(v) => v,
        Err(e) => {
            return Err(e);
        },
    };
    if repay_shares > target.positions[bi].borrow_shares_q60 {
        return Err(ZodialError::PositionNotFound);
    }
    let (b_index, b_decimals): (u16, u8) = match assets.find_asset(args.borrow_mint) {
        Some(i) => (assets.assets[i].index, assets.assets[i].decimals),
        None => {
            return Err(ZodialError::AssetNotRegistered);
        },
    };
    let (c_index, c_decimals): (u16, u8) = match assets.find_asset(args.collateral_mint) {
        Some(i) => (assets.assets[i].index, assets.assets[i].decimals),
        None => {
            return Err(ZodialError::AssetNotRegistered);
        },
    };
    let bprice = match price_for_index_q60(market, price_cache, b_index) {
        Ok(p) => p,
        Err(e) => {
            return Err(e);
        },
    };
    let cprice = match price_for_index_q60(market, price_cache, c_index) {
        Ok(p) => p,
        Err(e) => {
            return Err(e);
        },
    };
    let repay_value = amount_to_usd_q60(args.repay_amount, b_decimals, bprice);
    let bonus: u16;
    if c_index >= risk.dim || b_index >= risk.dim {
        return Err(ZodialError::InvalidRiskPair);
    }
    match risk.get_pair(c_index, b_index) {
        Ok(p) => {
            bonus = p.liq_bonus_bps;
        },
        Err(e) => {
            return Err(e);
        },
    }
    let seize_value = apply_bonus_bps(repay_value, bonus);
    if cprice == 0 {
        return Err(ZodialError::MathOverflow);
    }
    let seize_units = match q60_shl_div(seize_value, cprice) {
        Some(v) => v,
        None => u128::MAX,
    };
    proof {
        crate::math::lemma_pow10_pos(c_decimals as nat);
        crate::math::lemma_pow10_le_20_bound(c_decimals);
        vstd::arithmetic::mul::lemma_mul_upper_bound(
            pow10(c_decimals as nat) as int,
            0xF_FFFF_FFFF_FFFF_FFFF,
            Q60 as int,
            Q60 as int,
        );
        assert(0xF_FFFF_FFFF_FFFF_FFFFint * 0x1000_0000_0000_0000int <= u128::MAX) by (
        nonlinear_arith);
    }
    let scale = pow10_u128(c_decimals) * Q60;
    let seize_raw = q60_mul_sat(seize_units, scale);
    let seize_whole = seize_raw / Q60;
    if seize_whole > u64::MAX as u128 {
        return Err(ZodialError::MathOverflow);
    }
    let seize_amount = seize_whole as u64;
    let cpool = match find_pool(&accrued, args.collateral_mint) {
        Some(i) => accrued[i],
        None => {
            return Err(ZodialError::PoolNotFound);
        },
    };
    let seize_shares = match div_u64_by_u68_to_q60(seize_amount, cpool.deposit_fac_q60) {
        Ok(v) => v,
        Err(e) => {
            return Err(e);
        },
    };
    if seize_shares > target.positions[ci].deposit_shares_q60 {
        return Err(ZodialError::InsufficientCollateral);
    }
    let di = match find_position_in(&liquidator.positions, args.borrow_mint) {
        Some(i) => i,
        None => {
            return Err(ZodialError::PositionNotFound);
        },
    };
    let spent = match div_u64_by_u68_to_q60(args.repay_amount, bpool.deposit_fac_q60) {
        Ok(v) => v,
        Err(e) => {
            return Err(e);
        },
    };
    if spent > liquidator.positions[di].deposit_shares_q60 {
        return Err(ZodialError::InsufficientCollateral);
    }
    let li = match find_position_in(&liquidator.positions, args.collateral_mint) {
        Some(i) => i,
        None => {
            return Err(ZodialError::PositionNotFound);
        },
    };
    let tor_di = liquidator.positions[di];
    let tor_di_new = Position { deposit_shares_q60: tor_di.deposit_shares_q60 - spent, ..tor_di };
    let cur_li = if li == di {
        tor_di_new.deposit_shares_q60
    } else {
        liquidator.positions[li].deposit_shares_q60
    };
    if cur_li > u128::MAX - seize_shares {
        return Err(ZodialError::MathOverflow);
    }
    let tee_bi = target.positions[bi];
    target.positions[bi] = Position {
        borrow_shares_q60: tee_bi.borrow_shares_q60 - repay_shares,
        ..tee_bi
    };
    let tee_ci = target.positions[ci];
    target.positions[ci] = Position {
        deposit_shares_q60: tee_ci.deposit_shares_q60 - seize_shares,
        ..tee_ci
    };
    liquidator.positions[di] = tor_di_new;
    let tor_li = liquidator.positions[li];
    liquidator.positions[li] = Position {
        deposit_shares_q60: tor_li.deposit_shares_q60 + seize_shares,
        ..tor_li
    };
    Ok(
        LiquidationOutcome {
            repay_shares_q60: repay_shares,
            seize_shares_q60: seize_shares,
            seize_amount,
            liquidator_spent_shares_q60: spent,
        },
    )
}

} // verus!
