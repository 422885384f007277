//! Per-asset pool state: share-price indices and share totals.
//!
//! A pool never stores per-user balances; it stores total deposit and
//! borrow shares plus two Q60 indices that convert shares to current
//! token amounts. Interest accrues by advancing the indices, so every
//! holder's redeemable value scales without iteration.

use vstd::prelude::*;
use vstd::arithmetic::mul::lemma_mul_upper_bound;

use crate::constants::BPS_DENOM;
use crate::errors::ZodialError;
use crate::lookup::spec_find;
use crate::math::{mul_q60_by_u68_to_u64, shares_to_amount_spec, Q60};
use crate::rate_model::RateModel;
use crate::registry::{asset_mint_pred, AssetRegistry};

verus! {

/// One lending pool. `mint` and `market` are opaque account identifiers;
/// custody of the underlying tokens is the environment's concern.
#[derive(Clone, Copy, Debug, PartialEq, Eq, Structural)]
pub struct Pool {
    /// Market this pool belongs to.
    pub market: u64,
    /// Asset (token mint) the pool holds.
    pub mint: u64,
    /// Q60 borrow share-price index; starts at one, never decreases.
    pub borrow_fac_q60: u128,
    /// Q60 deposit share-price index; starts at one, never decreases.
    pub deposit_fac_q60: u128,
    /// Total outstanding borrow shares, Q60.
    pub total_borrow_shares_q60: u128,
    /// Total outstanding deposit shares, Q60.
    pub total_deposit_shares_q60: u128,
    /// Time of the last accrual, seconds.
    pub last_timestamp: i64,
    /// Interest-rate curve of this pool.
    pub rate: RateModel,
}

/// Pool utilization in bps: total borrow value over total deposit value,
/// both derived by applying the pool's indices to its share totals,
/// clamped to 10000. Zero when either share total is zero, when the
/// derived deposit value is zero, or when a derived value overflows the
/// 64-bit amount range.
pub open spec fn spec_utilization_bps(p: Pool) -> int {
    if p.total_borrow_shares_q60 == 0 || p.total_deposit_shares_q60 == 0 {
        0
    } else {
        let bv = shares_to_amount_spec(p.total_borrow_shares_q60, p.borrow_fac_q60);
        let dv = shares_to_amount_spec(p.total_deposit_shares_q60, p.deposit_fac_q60);
        let borrows = if bv > u64::MAX {
            0
        } else {
            bv
        };
        let deposits = if dv > u64::MAX {
            0
        } else {
            dv
        };
        if deposits == 0 {
            0
        } else {
            let util = borrows * (BPS_DENOM as int) / deposits;
            if util > BPS_DENOM as int {
                BPS_DENOM as int
            } else {
                util
            }
        }
    }
}

/// Creates the pool for `mint` in `market` (see `Pool::new`): the asset
/// must already be registered, and an unregistered mint is rejected.
pub fn init_pool(
    assets: &AssetRegistry,
    market: u64,
    mint: u64,
    rate: RateModel,
    now: i64,
) -> (r: Result<Pool, ZodialError>)
    ensures
        match r {
            Ok(p) => {
                &&& spec_find(assets.assets@, asset_mint_pred(mint)) is Some
                &&& p.market == market && p.mint == mint && p.rate == rate
                &&& p.borrow_fac_q60 == Q60 && p.deposit_fac_q60 == Q60
                &&& p.total_borrow_shares_q60 == 0 && p.total_deposit_shares_q60 == 0
                &&& p.last_timestamp == now
            },
            Err(e) => e == ZodialError::AssetNotRegistered && spec_find(
                assets.assets@,
                asset_mint_pred(mint),
            ) is None,
        },
{
    match assets.find_asset(mint) {
        Some(_) => Ok(Pool::new(market, mint, rate, now)),
        None => Err(ZodialError::AssetNotRegistered),
    }
}

impl Pool {
    /// A fresh pool for `mint` in `market`: both indices at one, no
    /// shares, accrual clock set to `now`.
    pub fn new(market: u64, mint: u64, rate: RateModel, now: i64) -> (r: Pool)
        ensures
            r.market == market,
            r.mint == mint,
            r.borrow_fac_q60 == Q60,
            r.deposit_fac_q60 == Q60,
            r.total_borrow_shares_q60 == 0,
            r.total_deposit_shares_q60 == 0,
            r.last_timestamp == now,
            r.rate == rate,
    {
        Pool {
            market,
            mint,
            borrow_fac_q60: Q60,
            deposit_fac_q60: Q60,
            total_borrow_shares_q60: 0,
            total_deposit_shares_q60: 0,
            last_timestamp: now,
            rate,
        }
    }

    /// Current Q60 borrow share-price index.
    pub fn borrow_index(&self) -> (r: u128)
        ensures
            r == self.borrow_fac_q60,
    {
        self.borrow_fac_q60
    }

    /// Current Q60 deposit share-price index.
    pub fn deposit_index(&self) -> (r: u128)
        ensures
            r == self.deposit_fac_q60,
    {
        self.deposit_fac_q60
    }

    /// Utilization in bps (see `spec_utilization_bps`); always in
    /// `[0, 10000]`, whatever the magnitudes of the share totals.
    pub fn utilization_bps(&self) -> (r: u16)
        ensures
            r == spec_utilization_bps(*self),
            r <= BPS_DENOM,
    {
        if self.total_borrow_shares_q60 == 0 || self.total_deposit_shares_q60 == 0 {
            return 0;
        }
        let borrows: u64 = match mul_q60_by_u68_to_u64(
            self.total_borrow_shares_q60,
            self.borrow_fac_q60,
        ) {
            Ok(v) => v,
            Err(_) => 0,
        };
        let deposits: u64 = match mul_q60_by_u68_to_u64(
            self.total_deposit_shares_q60,
            self.deposit_fac_q60,
        ) {
            Ok(v) => v,
            Err(_) => 0,
        };
        if deposits == 0 {
            0
        } else {
            proof {
                lemma_mul_upper_bound(
                    borrows as int,
                    u64::MAX as int,
                    BPS_DENOM as int,
                    BPS_DENOM as int,
                );
                assert(u64::MAX as int * BPS_DENOM as int <= u128::MAX) by (nonlinear_arith)
                    requires
                        BPS_DENOM == 10_000,
                ;
            }
            let util = (borrows as u128) * (BPS_DENOM as u128) / (deposits as u128);
            if util > BPS_DENOM as u128 {
                BPS_DENOM as u16
            } else {
                util as u16
            }
        }
    }
}

} // verus!
