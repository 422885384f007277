//! Balance-changing operations: deposit, borrow, repay, withdraw and
//! leveraged borrowing.
//!
//! Every operation accrues interest first, computes on private copies,
//! and commits only after all checks pass: a failure leaves the durable
//! pool and obligation byte-for-byte unchanged. Borrow and withdraw
//! simulate the post-operation obligation and reject it when the
//! simulated health would fall below 1000.

use vstd::prelude::*;

use crate::accrual::{accrue_pool, spec_accrue_pool};
use crate::errors::ZodialError;
use crate::health::{assert_healthy_at_least_1, spec_health_result};

use crate::market::Market;
use crate::math::{
    amount_to_shares_spec, div_u64_by_u68_to_q60, mul_q60_by_u68_to_u64, shares_to_amount_spec,
};
use crate::obligation::{find_position_in, spec_position_index, Obligation, Position};
use crate::pool::Pool;
use crate::prices::{spec_cache_prices, PriceCache};
use crate::registry::AssetRegistry;
use crate::risk::RiskRegistry;

verus! {

/// An element-wise copy of a position list, for simulation.
fn copy_positions(positions: &Vec<Position>) -> (r: Vec<Position>)
    ensures
        r@ == positions@,
{
    let mut out: Vec<Position> = Vec::new();
    let mut i: usize = 0;
    while i < positions.len()
        invariant
            i <= positions@.len(),
            out@ == positions@.subrange(0, i as int),
        decreases positions@.len() - i,
    {
        out.push(positions[i]);
        proof {
            assert(out@ =~= positions@.subrange(0, i + 1));
        }
        i = i + 1;
    }
    proof {
        assert(positions@.subrange(0, positions@.len() as int) =~= positions@);
    }
    out
}

/// The position list after crediting `shares` deposit shares in `mint`:
/// the existing position grows, or a new one is appended while the
/// obligation has room. Zero shares credit nothing: a position with both
/// balances zero never enters the list.
pub open spec fn spec_add_deposit_shares(
    positions: Seq<Position>,
    mint: u64,
    shares: u128,
    max_positions: u16,
) -> Result<Seq<Position>, ZodialError> {
    let i = spec_position_index(positions, mint);
    if i == -1 {
        if shares == 0 {
            Ok(positions)
        } else if positions.len() >= max_positions {
            Err(ZodialError::ExceedsMaxPositions)
        } else {
            Ok(
                positions.push(
                    Position { mint, deposit_shares_q60: shares, borrow_shares_q60: 0 },
                ),
            )
        }
    } else {
        if positions[i].deposit_shares_q60 + shares > u128::MAX {
            Err(ZodialError::MathOverflow)
        } else {
            Ok(
                positions.update(
                    i,
                    Position {
                        deposit_shares_q60: (positions[i].deposit_shares_q60 + shares) as u128,
                        ..positions[i]
                    },
                ),
            )
        }
    }
}

/// The position list after adding `shares` borrow shares in `mint`: the
/// existing position grows, or a new one is appended while the
/// obligation has room. Zero shares add nothing: a position with both
/// balances zero never enters the list.
pub open spec fn spec_add_borrow_shares(
    positions: Seq<Position>,
    mint: u64,
    shares: u128,
    max_positions: u16,
) -> Result<Seq<Position>, ZodialError> {
    let i = spec_position_index(positions, mint);
    if i == -1 {
        if shares == 0 {
            Ok(positions)
        } else if positions.len() >= max_positions {
            Err(ZodialError::ExceedsMaxPositions)
        } else {
            Ok(
                positions.push(
                    Position { mint, deposit_shares_q60: 0, borrow_shares_q60: shares },
                ),
            )
        }
    } else {
        if positions[i].borrow_shares_q60 + shares > u128::MAX {
            Err(ZodialError::MathOverflow)
        } else {
            Ok(
                positions.update(
                    i,
                    Position {
                        borrow_shares_q60: (positions[i].borrow_shares_q60 + shares) as u128,
                        ..positions[i]
                    },
                ),
            )
        }
    }
}

/// A position list with entry `i` replaced, and removed — by swap with
/// the last entry — when both its balances reached zero.
pub open spec fn spec_set_or_drop(positions: Seq<Position>, i: int, p: Position) -> Seq<Position>
    recommends
        0 <= i < positions.len(),
{
    if p.deposit_shares_q60 == 0 && p.borrow_shares_q60 == 0 {
        positions.update(i, p).update(i, positions.update(i, p).last()).drop_last()
    } else {
        positions.update(i, p)
    }
}

/// What a deposit computes: accrue, convert the amount to deposit shares
/// at the accrued index, credit them to the obligation and to the pool's
/// total. Yields the new pool, the new position list and the minted
/// shares, or the first failure.
pub open spec fn spec_deposit(
    m: Market,
    pool: Pool,
    positions: Seq<Position>,
    amount: u64,
    now: i64,
) -> Result<(Pool, Seq<Position>, u128), ZodialError> {
    if m.paused {
        Err(ZodialError::MarketPaused)
    } else {
        let ap = spec_accrue_pool(pool, now);
        if ap.deposit_fac_q60 == 0 || amount_to_shares_spec(amount, ap.deposit_fac_q60)
            > u128::MAX {
            Err(ZodialError::MathOverflow)
        } else {
            let shares = amount_to_shares_spec(amount, ap.deposit_fac_q60) as u128;
            match spec_add_deposit_shares(positions, ap.mint, shares, m.max_positions) {
                Err(e) => Err(e),
                Ok(ps2) => {
                    if ap.total_deposit_shares_q60 + shares > u128::MAX {
                        Err(ZodialError::MathOverflow)
                    } else {
                        Ok(
                            (
                                Pool {
                                    total_deposit_shares_q60: (ap.total_deposit_shares_q60
                                        + shares) as u128,
                                    ..ap
                                },
                                ps2,
                                shares,
                            ),
                        )
                    }
                },
            }
        }
    }
}

/// Deposits `amount` into the pool for the obligation's benefit (see
/// `spec_deposit`). No health check: deposits only improve health. On
/// any failure the pool and the obligation are unchanged.
pub fn deposit(
    market: &Market,
    pool: &mut Pool,
    obligation: &mut Obligation,
    amount: u64,
    now: i64,
) -> (r: Result<u128, ZodialError>)
    ensures
        match spec_deposit(*market, *old(pool), old(obligation).positions@, amount, now) {
            Ok((p2, ps2, sh)) => r == Ok::<u128, ZodialError>(sh) && *final(pool) == p2
                && final(obligation).positions@ == ps2,
            Err(e) => r == Err::<u128, ZodialError>(e) && *final(pool) == *old(pool)
                && final(obligation).positions@ == old(obligation).positions@,
        },
        final(obligation).market == old(obligation).market,
        final(obligation).owner == old(obligation).owner,
{
    if market.paused {
        return Err(ZodialError::MarketPaused);
    }
    let mut p = *pool;
    accrue_pool(&mut p, now);
    let shares = match div_u64_by_u68_to_q60(amount, p.deposit_fac_q60) {
        Ok(s) => s,
        Err(e) => {
            return Err(e);
        },
    };
    match find_position_in(&obligation.positions, p.mint) {
        Some(i) => {
            let cur = obligation.positions[i];
            let ns = match cur.deposit_shares_q60.checked_add(shares) {
                Some(v) => v,
                None => {
                    return Err(ZodialError::MathOverflow);
                },
            };
            let nt = match p.total_deposit_shares_q60.checked_add(shares) {
                Some(v) => v,
                None => {
                    return Err(ZodialError::MathOverflow);
                },
            };
            obligation.positions[i] = Position { deposit_shares_q60: ns, ..cur };
            p.total_deposit_shares_q60 = nt;
            *pool = p;
            Ok(shares)
        },
        None => {
            if shares > 0 {
                if obligation.positions.len() >= market.max_positions as usize {
                    return Err(ZodialError::ExceedsMaxPositions);
                }
                let nt = match p.total_deposit_shares_q60.checked_add(shares) {
                    Some(v) => v,
                    None => {
                        return Err(ZodialError::MathOverflow);
                    },
                };
                obligation.positions.push(
                    Position { mint: p.mint, deposit_shares_q60: shares, borrow_shares_q60: 0 },
                );
                p.total_deposit_shares_q60 = nt;
            }
            *pool = p;
            Ok(shares)
        },
    }
}

/// What a repayment computes: accrue, cap the amount to the current
/// debt, burn the matching borrow shares from the position and the
/// pool's total, and drop the position once both balances are zero.
/// Yields the new pool, the new position list, the amount actually
/// repaid and the shares burned. A zero current debt value repays
/// nothing and only the accrual persists.
pub open spec fn spec_repay(
    m: Market,
    pool: Pool,
    positions: Seq<Position>,
    amount: u64,
    now: i64,
) -> Result<(Pool, Seq<Position>, u64, u128), ZodialError> {
    if m.paused {
        Err(ZodialError::MarketPaused)
    } else {
        let ap = spec_accrue_pool(pool, now);
        let i = spec_position_index(positions, ap.mint);
        if i == -1 {
            Err(ZodialError::PoolNotFound)
        } else {
            let pos = positions[i];
            if pos.borrow_shares_q60 == 0 {
                Err(ZodialError::MathOverflow)
            } else {
                let debt = shares_to_amount_spec(pos.borrow_shares_q60, ap.borrow_fac_q60);
                if debt > u64::MAX {
                    Err(ZodialError::MathOverflow)
                } else if debt == 0 {
                    Ok((ap, positions, 0, 0))
                } else {
                    let repay_amount: u64 = if amount as int <= debt {
                        amount
                    } else {
                        debt as u64
                    };
                    if repay_amount == 0 {
                        Ok((ap, positions, 0, 0))
                    } else if ap.borrow_fac_q60 == 0 || amount_to_shares_spec(
                        repay_amount,
                        ap.borrow_fac_q60,
                    ) > u128::MAX {
                        Err(ZodialError::MathOverflow)
                    } else {
                        let sh = amount_to_shares_spec(repay_amount, ap.borrow_fac_q60) as u128;
                        let burn: u128 = if sh <= pos.borrow_shares_q60 {
                            sh
                        } else {
                            pos.borrow_shares_q60
                        };
                        if burn > ap.total_borrow_shares_q60 {
                            Err(ZodialError::MathOverflow)
                        } else {
                            let new_pos = Position {
                                borrow_shares_q60: (pos.borrow_shares_q60 - burn) as u128,
                                ..pos
                            };
                            Ok(
                                (
                                    Pool {
                                        total_borrow_shares_q60: (ap.total_borrow_shares_q60
                                            - burn) as u128,
                                        ..ap
                                    },
                                    spec_set_or_drop(positions, i, new_pos),
                                    repay_amount,
                                    burn,
                                ),
                            )
                        }
                    }
                }
            }
        }
    }
}

/// Repays up to `amount` of the obligation's debt in this pool (see
/// `spec_repay`). Returns the amount actually repaid — what the caller
/// must collect — and the shares burned. On failure the pool and the
/// obligation are unchanged.
pub fn repay(
    market: &Market,
    pool: &mut Pool,
    obligation: &mut Obligation,
    amount: u64,
    now: i64,
) -> (r: Result<(u64, u128), ZodialError>)
    ensures
        match spec_repay(*market, *old(pool), old(obligation).positions@, amount, now) {
            Ok((p2, ps2, repaid, burned)) => r == Ok::<(u64, u128), ZodialError>((repaid, burned))
                && *final(pool) == p2 && final(obligation).positions@ == ps2,
            Err(e) => r == Err::<(u64, u128), ZodialError>(e) && *final(pool) == *old(pool)
                && final(obligation).positions@ == old(obligation).positions@,
        },
        final(obligation).market == old(obligation).market,
        final(obligation).owner == old(obligation).owner,
{
    if market.paused {
        return Err(ZodialError::MarketPaused);
    }
    let mut p = *pool;
    accrue_pool(&mut p, now);
    let i = match find_position_in(&obligation.positions, p.mint) {
        Some(i) => i,
        None => {
            return Err(ZodialError::PoolNotFound);
        },
    };
    let pos = obligation.positions[i];
    if pos.borrow_shares_q60 == 0 {
        return Err(ZodialError::MathOverflow);
    }
    let debt = match mul_q60_by_u68_to_u64(pos.borrow_shares_q60, p.borrow_fac_q60) {
        Ok(v) => v,
        Err(e) => {
            return Err(e);
        },
    };
    if debt == 0 {
        *pool = p;
        return Ok((0, 0));
    }
    let repay_amount = if amount <= debt {
        amount
    } else {
        debt
    };
    if repay_amount == 0 {
        *pool = p;
        return Ok((0, 0));
    }
    let sh = match div_u64_by_u68_to_q60(repay_amount, p.borrow_fac_q60) {
        Ok(v) => v,
        Err(e) => {
            return Err(e);
        },
    };
    let burn = if sh <= pos.borrow_shares_q60 {
        sh
    } else {
        pos.borrow_shares_q60
    };
    if burn > p.total_borrow_shares_q60 {
        return Err(ZodialError::MathOverflow);
    }
    let new_pos = Position { borrow_shares_q60: pos.borrow_shares_q60 - burn, ..pos };
    if new_pos.deposit_shares_q60 == 0 && new_pos.borrow_shares_q60 == 0 {
        obligation.positions[i] = new_pos;
        obligation.positions.swap_remove(i);
    } else {
        obligation.positions[i] = new_pos;
    }
    p.total_borrow_shares_q60 = p.total_borrow_shares_q60 - burn;
    *pool = p;
    Ok((repay_amount, burn))
}

/// What a borrow computes: accrue, convert the amount to borrow shares
/// at the accrued index, simulate the obligation with those shares
/// added (a new position only while the obligation has room), and demand
/// the simulated health — against the touched pool and every other
/// supplied pool — at least 1000 and the vault liquid enough. Yields the
/// new pool, the new position list and the minted shares.
pub open spec fn spec_borrow(
    m: Market,
    assets: Seq<crate::registry::AssetMeta>,
    rr: RiskRegistry,
    cache: Option<Seq<crate::prices::PriceEntry>>,
    pool: Pool,
    other_pools: Seq<Pool>,
    positions: Seq<Position>,
    amount: u64,
    vault_amount: u64,
    now: i64,
) -> Result<(Pool, Seq<Position>, u128), ZodialError> {
    if m.paused {
        Err(ZodialError::MarketPaused)
    } else {
        let ap = spec_accrue_pool(pool, now);
        if ap.borrow_fac_q60 == 0 || amount_to_shares_spec(amount, ap.borrow_fac_q60)
            > u128::MAX {
            Err(ZodialError::MathOverflow)
        } else {
            let shares = amount_to_shares_spec(amount, ap.borrow_fac_q60) as u128;
            match spec_add_borrow_shares(positions, ap.mint, shares, m.max_positions) {
                Err(e) => Err(e),
                Ok(sim) => {
                    if ap.total_borrow_shares_q60 + shares > u128::MAX {
                        Err(ZodialError::MathOverflow)
                    } else {
                        let touched = Pool {
                            total_borrow_shares_q60: (ap.total_borrow_shares_q60 + shares) as u128,
                            ..ap
                        };
                        match spec_health_result(
                            sim,
                            assets,
                            m,
                            rr,
                            cache,
                            seq![touched] + other_pools,
                            false,
                        ) {
                            Err(e) => Err(e),
                            Ok(h) => if h < 1000 {
                                Err(ZodialError::HealthCheckFailed)
                            } else if vault_amount < amount {
                                Err(ZodialError::InsufficientLiquidity)
                            } else {
                                Ok((touched, sim, shares))
                            },
                        }
                    }
                },
            }
        }
    }
}

/// Borrows `amount` from the pool against the obligation's collateral
/// (see `spec_borrow`). A borrow that would drop the simulated health
/// below 1000 is rejected; any rejection leaves the durable obligation's
/// shares and the pool's totals byte-for-byte unchanged.
#[verifier::loop_isolation(false)]
pub fn borrow(
    market: &Market,
    assets: &AssetRegistry,
    risk: &RiskRegistry,
    price_cache: Option<&PriceCache>,
    pool: &mut Pool,
    other_pools: &Vec<Pool>,
    obligation: &mut Obligation,
    amount: u64,
    vault_amount: u64,
    now: i64,
) -> (r: Result<u128, ZodialError>)
    requires
        assets.wf(),
    ensures
        match spec_borrow(
            *market,
            assets.assets@,
            *risk,
            spec_cache_prices(price_cache),
            *old(pool),
            other_pools@,
            old(obligation).positions@,
            amount,
            vault_amount,
            now,
        ) {
            Ok((p2, ps2, sh)) => r == Ok::<u128, ZodialError>(sh) && *final(pool) == p2
                && final(obligation).positions@ == ps2,
            Err(e) => r == Err::<u128, ZodialError>(e) && *final(pool) == *old(pool)
                && final(obligation).positions@ == old(obligation).positions@,
        },
        final(obligation).market == old(obligation).market,
        final(obligation).owner == old(obligation).owner,
{
    if market.paused {
        return Err(ZodialError::MarketPaused);
    }
    let mut p = *pool;
    accrue_pool(&mut p, now);
    let shares = match div_u64_by_u68_to_q60(amount, p.borrow_fac_q60) {
        Ok(s) => s,
        Err(e) => {
            return Err(e);
        },
    };
    let mut sim = copy_positions(&obligation.positions);
    match find_position_in(&sim, p.mint) {
        Some(i) => {
            let cur = sim[i];
            let ns = match cur.borrow_shares_q60.checked_add(shares) {
                Some(v) => v,
                None => {
                    return Err(ZodialError::MathOverflow);
                },
            };
            sim[i] = Position { borrow_shares_q60: ns, ..cur };
        },
        None => {
            if shares > 0 {
                if sim.len() >= market.max_positions as usize {
                    return Err(ZodialError::ExceedsMaxPositions);
                }
                sim.push(
                    Position { mint: p.mint, deposit_shares_q60: 0, borrow_shares_q60: shares },
                );
            }
        },
    }
    let new_total = match p.total_borrow_shares_q60.checked_add(shares) {
        Some(v) => v,
        None => {
            return Err(ZodialError::MathOverflow);
        },
    };
    let mut touched = p;
    touched.total_borrow_shares_q60 = new_total;
    let mut hp: Vec<Pool> = Vec::new();
    hp.push(touched);
    let mut i: usize = 0;
    while i < other_pools.len()
        invariant
            i <= other_pools@.len(),
            hp@ == seq![touched] + other_pools@.subrange(0, i as int),
        decreases other_pools@.len() - i,
    {
        hp.push(other_pools[i]);
        i = i + 1;
        proof {
            assert(hp@ =~= seq![touched] + other_pools@.subrange(0, i as int));
        }
    }
    proof {
        assert(hp@ =~= seq![touched] + other_pools@);
    }
    let sim_ob = Obligation { market: obligation.market, owner: obligation.owner, positions: sim };
    match assert_healthy_at_least_1(&sim_ob, market, assets, risk, price_cache, &hp) {
        Ok(_) => {},
        Err(e) => {
            return Err(e);
        },
    }
    if vault_amount < amount {
        return Err(ZodialError::InsufficientLiquidity);
    }
    obligation.positions = sim_ob.positions;
    *pool = touched;
    Ok(shares)
}

/// What a withdrawal computes: accrue, cap the amount by the position's
/// redeemable value and the vault's liquidity, burn the matching deposit
/// shares, and demand the simulated health of the reduced obligation at
/// least 1000. Yields the new pool, the new position list, the amount to
/// transfer out and the shares burned. A position with no redeemable
/// value, or a zero capped amount, withdraws nothing and only the
/// accrual persists.
pub open spec fn spec_withdraw(
    m: Market,
    assets: Seq<crate::registry::AssetMeta>,
    rr: RiskRegistry,
    cache: Option<Seq<crate::prices::PriceEntry>>,
    pool: Pool,
    other_pools: Seq<Pool>,
    positions: Seq<Position>,
    amount: u64,
    vault_amount: u64,
    now: i64,
) -> Result<(Pool, Seq<Position>, u64, u128), ZodialError> {
    if m.paused {
        Err(ZodialError::MarketPaused)
    } else {
        let ap = spec_accrue_pool(pool, now);
        let i = spec_position_index(positions, ap.mint);
        if i == -1 {
            Err(ZodialError::PositionNotFound)
        } else {
            let pos = positions[i];
            let avail = shares_to_amount_spec(pos.deposit_shares_q60, ap.deposit_fac_q60);
            if avail > u64::MAX {
                Err(ZodialError::MathOverflow)
            } else if avail == 0 {
                Ok((ap, positions, 0, 0))
            } else {
                let capped = if amount as int <= avail {
                    amount as int
                } else {
                    avail
                };
                let tw = if capped <= vault_amount as int {
                    capped
                } else {
                    vault_amount as int
                };
                if tw == 0 {
                    Ok((ap, positions, 0, 0))
                } else if ap.deposit_fac_q60 == 0 || amount_to_shares_spec(
                    tw as u64,
                    ap.deposit_fac_q60,
                ) > u128::MAX {
                    Err(ZodialError::MathOverflow)
                } else {
                    let sh = amount_to_shares_spec(tw as u64, ap.deposit_fac_q60) as u128;
                    let burn: u128 = if sh <= pos.deposit_shares_q60 {
                        sh
                    } else {
                        pos.deposit_shares_q60
                    };
                    let transfer = shares_to_amount_spec(burn, ap.deposit_fac_q60);
                    if transfer > u64::MAX {
                        Err(ZodialError::MathOverflow)
                    } else {
                        let new_pos = Position {
                            deposit_shares_q60: (pos.deposit_shares_q60 - burn) as u128,
                            ..pos
                        };
                        let sim = positions.update(i, new_pos);
                        if burn > ap.total_deposit_shares_q60 {
                            Err(ZodialError::MathOverflow)
                        } else {
                            let touched = Pool {
                                total_deposit_shares_q60: (ap.total_deposit_shares_q60
                                    - burn) as u128,
                                ..ap
                            };
                            match spec_health_result(
                                sim,
                                assets,
                                m,
                                rr,
                                cache,
                                seq![touched] + other_pools,
                                false,
                            ) {
                                Err(e) => Err(e),
                                Ok(h) => if h < 1000 {
                                    Err(ZodialError::HealthCheckFailed)
                                } else {
                                    Ok(
                                        (
                                            touched,
                                            spec_set_or_drop(positions, i, new_pos),
                                            transfer as u64,
                                            burn,
                                        ),
                                    )
                                },
                            }
                        }
                    }
                }
            }
        }
    }
}

/// Withdraws up to `amount` of the obligation's deposit in this pool
/// (see `spec_withdraw`). Returns the amount to transfer out and the
/// shares burned. A withdrawal that would drop the simulated health
/// below 1000 is rejected; any rejection leaves the pool and the
/// obligation unchanged.
#[verifier::loop_isolation(false)]
pub fn withdraw(
    market: &Market,
    assets: &AssetRegistry,
    risk: &RiskRegistry,
    price_cache: Option<&PriceCache>,
    pool: &mut Pool,
    other_pools: &Vec<Pool>,
    obligation: &mut Obligation,
    amount: u64,
    vault_amount: u64,
    now: i64,
) -> (r: Result<(u64, u128), ZodialError>)
    requires
        assets.wf(),
    ensures
        match spec_withdraw(
            *market,
            assets.assets@,
            *risk,
            spec_cache_prices(price_cache),
            *old(pool),
            other_pools@,
            old(obligation).positions@,
            amount,
            vault_amount,
            now,
        ) {
            Ok((p2, ps2, transfer, burned)) => r == Ok::<(u64, u128), ZodialError>(
                (transfer, burned),
            ) && *final(pool) == p2 && final(obligation).positions@ == ps2,
            Err(e) => r == Err::<(u64, u128), ZodialError>(e) && *final(pool) == *old(pool)
                && final(obligation).positions@ == old(obligation).positions@,
        },
        final(obligation).market == old(obligation).market,
        final(obligation).owner == old(obligation).owner,
{
    if market.paused {
        return Err(ZodialError::MarketPaused);
    }
    let mut p = *pool;
    accrue_pool(&mut p, now);
    let i = match find_position_in(&obligation.positions, p.mint) {
        Some(i) => i,
        None => {
            return Err(ZodialError::PositionNotFound);
        },
    };
    let pos = obligation.positions[i];
    let avail = match mul_q60_by_u68_to_u64(pos.deposit_shares_q60, p.deposit_fac_q60) {
        Ok(v) => v,
        Err(e) => {
            return Err(e);
        },
    };
    if avail == 0 {
        *pool = p;
        return Ok((0, 0));
    }
    let capped = if amount <= avail {
        amount
    } else {
        avail
    };
    let tw = if capped <= vault_amount {
        capped
    } else {
        vault_amount
    };
    if tw == 0 {
        *pool = p;
        return Ok((0, 0));
    }
    let sh = match div_u64_by_u68_to_q60(tw, p.deposit_fac_q60) {
        Ok(v) => v,
        Err(e) => {
            return Err(e);
        },
    };
    let burn = if sh <= pos.deposit_shares_q60 {
        sh
    } else {
        pos.deposit_shares_q60
    };
    let transfer = match mul_q60_by_u68_to_u64(burn, p.deposit_fac_q60) {
        Ok(v) => v,
        Err(e) => {
            return Err(e);
        },
    };
    let new_pos = Position { deposit_shares_q60: pos.deposit_shares_q60 - burn, ..pos };
    let mut sim = copy_positions(&obligation.positions);
    sim[i] = new_pos;
    if burn > p.total_deposit_shares_q60 {
        return Err(ZodialError::MathOverflow);
    }
    let mut touched = p;
    touched.total_deposit_shares_q60 = p.total_deposit_shares_q60 - burn;
    let mut hp: Vec<Pool> = Vec::new();
    hp.push(touched);
    let mut j: usize = 0;
    while j < other_pools.len()
        invariant
            j <= other_pools@.len(),
            hp@ == seq![touched] + other_pools@.subrange(0, j as int),
        decreases other_pools@.len() - j,
    {
        hp.push(other_pools[j]);
        j = j + 1;
        proof {
            assert(hp@ =~= seq![touched] + other_pools@.subrange(0, j as int));
        }
    }
    proof {
        assert(hp@ =~= seq![touched] + other_pools@);
    }
    let sim_ob = Obligation { market: obligation.market, owner: obligation.owner, positions: sim };
    match assert_healthy_at_least_1(&sim_ob, market, assets, risk, price_cache, &hp) {
        Ok(_) => {},
        Err(e) => {
            return Err(e);
        },
    }
    if new_pos.deposit_shares_q60 == 0 && new_pos.borrow_shares_q60 == 0 {
        obligation.positions[i] = new_pos;
        obligation.positions.swap_remove(i);
    } else {
        obligation.positions[i] = new_pos;
    }
    *pool = touched;
    Ok((transfer, burn))
}

/// The supplied pools without those of the two touched mints, in order.
pub open spec fn spec_filtered_pools(pools: Seq<Pool>, borrow_mint: u64, deposit_mint: u64) -> Seq<
    Pool,
>
    decreases pools.len(),
{
    if pools.len() == 0 {
        Seq::empty()
    } else {
        let rest = spec_filtered_pools(pools.drop_last(), borrow_mint, deposit_mint);
        if pools.last().mint != borrow_mint && pools.last().mint != deposit_mint {
            rest.push(pools.last())
        } else {
            rest
        }
    }
}

/// What a leveraged borrow computes: accrue both pools, borrow
/// `borrow_amount` from one, convert its value into the deposit asset at
/// market prices, credit the converted amount as a deposit, and demand
/// the simulated health of the combined change at least 1000. Yields the
/// two new pools, the new position list, the borrow shares minted, the
/// converted amount and the deposit shares minted.
pub open spec fn spec_leverage(
    m: Market,
    assets: Seq<crate::registry::AssetMeta>,
    rr: RiskRegistry,
    cache: Option<Seq<crate::prices::PriceEntry>>,
    borrow_pool: Pool,
    deposit_pool: Pool,
    other_pools: Seq<Pool>,
    positions: Seq<Position>,
    borrow_amount: u64,
    now: i64,
) -> Result<(Pool, Pool, Seq<Position>, u128, u64, u128), ZodialError> {
    if m.paused {
        Err(ZodialError::MarketPaused)
    } else {
        let ab = spec_accrue_pool(borrow_pool, now);
        let ad = spec_accrue_pool(deposit_pool, now);
        if ab.borrow_fac_q60 == 0 || amount_to_shares_spec(borrow_amount, ab.borrow_fac_q60)
            > u128::MAX {
            Err(ZodialError::MathOverflow)
        } else {
            let bsh = amount_to_shares_spec(borrow_amount, ab.borrow_fac_q60) as u128;
            match crate::swap::spec_swap_output(m, cache, assets, ab.mint, ad.mint, borrow_amount) {
                Err(e) => Err(e),
                Ok(swap_out) => {
                    if ad.deposit_fac_q60 == 0 || amount_to_shares_spec(
                        swap_out,
                        ad.deposit_fac_q60,
                    ) > u128::MAX {
                        Err(ZodialError::MathOverflow)
                    } else {
                        let dsh = amount_to_shares_spec(swap_out, ad.deposit_fac_q60) as u128;
                        if ab.total_borrow_shares_q60 + bsh > u128::MAX {
                            Err(ZodialError::MathOverflow)
                        } else {
                            let tb = Pool {
                                total_borrow_shares_q60: (ab.total_borrow_shares_q60
                                    + bsh) as u128,
                                ..ab
                            };
                            if ab.mint != ad.mint && ad.total_deposit_shares_q60 + dsh
                                > u128::MAX {
                                Err(ZodialError::MathOverflow)
                            } else {
                                match spec_add_borrow_shares(
                                    positions,
                                    ab.mint,
                                    bsh,
                                    m.max_positions,
                                ) {
                                    Err(e) => Err(e),
                                    Ok(s1) => match spec_add_deposit_shares(
                                        s1,
                                        ad.mint,
                                        dsh,
                                        m.max_positions,
                                    ) {
                                        Err(e) => Err(e),
                                        Ok(sim) => {
                                            let base = if ab.mint != ad.mint {
                                                seq![
                                                    tb,
                                                    Pool {
                                                        total_deposit_shares_q60: (
                                                        ad.total_deposit_shares_q60 + dsh) as u128,
                                                        ..ad
                                                    },
                                                ]
                                            } else {
                                                seq![tb]
                                            };
                                            let hp = base + spec_filtered_pools(
                                                other_pools,
                                                ab.mint,
                                                ad.mint,
                                            );
                                            match spec_health_result(
                                                sim,
                                                assets,
                                                m,
                                                rr,
                                                cache,
                                                hp,
                                                false,
                                            ) {
                                                Err(e) => Err(e),
                                                Ok(h) => if h < 1000 {
                                                    Err(ZodialError::HealthCheckFailed)
                                                } else if ad.total_deposit_shares_q60 + dsh
                                                    > u128::MAX {
                                                    Err(ZodialError::MathOverflow)
                                                } else {
                                                    Ok(
                                                        (
                                                            tb,
                                                            Pool {
                                                                total_deposit_shares_q60: (
                                                                ad.total_deposit_shares_q60
                                                                    + dsh) as u128,
                                                                ..ad
                                                            },
                                                            sim,
                                                            bsh,
                                                            swap_out,
                                                            dsh,
                                                        ),
                                                    )
                                                },
                                            }
                                        },
                                    },
                                }
                            }
                        }
                    }
                },
            }
        }
    }
}

/// Borrows one asset and deposits its converted value as another in a
/// single operation (see `spec_leverage`). Returns the borrow shares
/// minted, the converted amount and the deposit shares minted; any
/// failure leaves both pools and the obligation unchanged.
#[verifier::loop_isolation(false)]
pub fn leverage_existing_deposit(
    market: &Market,
    assets: &AssetRegistry,
    risk: &RiskRegistry,
    price_cache: Option<&PriceCache>,
    borrow_pool: &mut Pool,
    deposit_pool: &mut Pool,
    other_pools: &Vec<Pool>,
    obligation: &mut Obligation,
    borrow_amount: u64,
    now: i64,
) -> (r: Result<(u128, u64, u128), ZodialError>)
    requires
        assets.wf(),
    ensures
        match spec_leverage(
            *market,
            assets.assets@,
            *risk,
            spec_cache_prices(price_cache),
            *old(borrow_pool),
            *old(deposit_pool),
            other_pools@,
            old(obligation).positions@,
            borrow_amount,
            now,
        ) {
            Ok((bp2, dp2, ps2, bsh, so, dsh)) => r == Ok::<(u128, u64, u128), ZodialError>(
                (bsh, so, dsh),
            ) && *final(borrow_pool) == bp2 && *final(deposit_pool) == dp2
                && final(obligation).positions@ == ps2,
            Err(e) => r == Err::<(u128, u64, u128), ZodialError>(e) && *final(borrow_pool)
                == *old(borrow_pool) && *final(deposit_pool) == *old(deposit_pool)
                && final(obligation).positions@ == old(obligation).positions@,
        },
        final(obligation).market == old(obligation).market,
        final(obligation).owner == old(obligation).owner,
{
    if market.paused {
        return Err(ZodialError::MarketPaused);
    }
    let mut bp = *borrow_pool;
    accrue_pool(&mut bp, now);
    let mut dp = *deposit_pool;
    accrue_pool(&mut dp, now);
    let bsh = match div_u64_by_u68_to_q60(borrow_amount, bp.borrow_fac_q60) {
        Ok(s) => s,
        Err(e) => {
            return Err(e);
        },
    };
    let swap_out = match crate::swap::calculate_swap_output(
        market,
        price_cache,
        assets,
        bp.mint,
        dp.mint,
        borrow_amount,
    ) {
        Ok(v) => v,
        Err(e) => {
            return Err(e);
        },
    };
    let dsh = match div_u64_by_u68_to_q60(swap_out, dp.deposit_fac_q60) {
        Ok(s) => s,
        Err(e) => {
            return Err(e);
        },
    };
    let new_borrow_total = match bp.total_borrow_shares_q60.checked_add(bsh) {
        Some(v) => v,
        None => {
            return Err(ZodialError::MathOverflow);
        },
    };
    let mut tb = bp;
    tb.total_borrow_shares_q60 = new_borrow_total;
    let mut hp: Vec<Pool> = Vec::new();
    hp.push(tb);
    let ghost base: Seq<Pool>;
    if bp.mint != dp.mint {
        let new_deposit_total = match dp.total_deposit_shares_q60.checked_add(dsh) {
            Some(v) => v,
            None => {
                return Err(ZodialError::MathOverflow);
            },
        };
        let mut td = dp;
        td.total_deposit_shares_q60 = new_deposit_total;
        hp.push(td);
        proof {
            base = hp@;
            assert(base =~= seq![tb, td]);
        }
    } else {
        proof {
            base = hp@;
            assert(base =~= seq![tb]);
        }
    }
    let mut sim = copy_positions(&obligation.positions);
    match find_position_in(&sim, bp.mint) {
        Some(i) => {
            let cur = sim[i];
            let ns = match cur.borrow_shares_q60.checked_add(bsh) {
                Some(v) => v,
                None => {
                    return Err(ZodialError::MathOverflow);
                },
            };
            sim[i] = Position { borrow_shares_q60: ns, ..cur };
        },
        None => {
            if bsh > 0 {
                if sim.len() >= market.max_positions as usize {
                    return Err(ZodialError::ExceedsMaxPositions);
                }
                sim.push(
                    Position { mint: bp.mint, deposit_shares_q60: 0, borrow_shares_q60: bsh },
                );
            }
        },
    }
    let ghost s1 = sim@;
    proof {
        assert(spec_add_borrow_shares(old(obligation).positions@, bp.mint, bsh, market.max_positions)
            == Ok::<Seq<Position>, ZodialError>(s1));
    }
    match find_position_in(&sim, dp.mint) {
        Some(i) => {
            let cur = sim[i];
            let ns = match cur.deposit_shares_q60.checked_add(dsh) {
                Some(v) => v,
                None => {
                    return Err(ZodialError::MathOverflow);
                },
            };
            sim[i] = Position { deposit_shares_q60: ns, ..cur };
        },
        None => {
            if dsh > 0 {
                if sim.len() >= market.max_positions as usize {
                    return Err(ZodialError::ExceedsMaxPositions);
                }
                sim.push(
                    Position { mint: dp.mint, deposit_shares_q60: dsh, borrow_shares_q60: 0 },
                );
            }
        },
    }
    proof {
        assert(spec_add_deposit_shares(s1, dp.mint, dsh, market.max_positions) == Ok::<
            Seq<Position>,
            ZodialError,
        >(sim@));
        assert(base + spec_filtered_pools(other_pools@.subrange(0, 0), bp.mint, dp.mint) =~= base);
    }
    let mut i: usize = 0;
    while i < other_pools.len()
        invariant
            i <= other_pools@.len(),
            hp@ == base + spec_filtered_pools(other_pools@.subrange(0, i as int), bp.mint, dp.mint),
        decreases other_pools@.len() - i,
    {
        let q = other_pools[i];
        if q.mint != bp.mint && q.mint != dp.mint {
            hp.push(q);
        }
        i = i + 1;
        proof {
            assert(other_pools@.subrange(0, i as int).drop_last() =~= other_pools@.subrange(
                0,
                i - 1,
            ));
            assert(hp@ =~= base + spec_filtered_pools(
                other_pools@.subrange(0, i as int),
                bp.mint,
                dp.mint,
            ));
        }
    }
    proof {
        assert(other_pools@.subrange(0, other_pools@.len() as int) =~= other_pools@);
    }
    let sim_ob = Obligation { market: obligation.market, owner: obligation.owner, positions: sim };
    let health = match crate::health::compute_health_score_q3(
        &sim_ob,
        market,
        assets,
        risk,
        price_cache,
        &hp,
    ) {
        Ok(h) => h,
        Err(e) => {
            return Err(e);
        },
    };
    if health < 1000 {
        return Err(ZodialError::HealthCheckFailed);
    }
    let new_deposit_total = match dp.total_deposit_shares_q60.checked_add(dsh) {
        Some(v) => v,
        None => {
            return Err(ZodialError::MathOverflow);
        },
    };
    obligation.positions = sim_ob.positions;
    *borrow_pool = tb;
    let mut td = dp;
    td.total_deposit_shares_q60 = new_deposit_total;
    *deposit_pool = td;
    Ok((bsh, swap_out, dsh))
}

} // verus!
