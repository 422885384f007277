//! Time-based interest accrual.
//!
//! Advancing a pool's two share-price indices is the only way interest
//! enters the system; it must run before any share-affecting operation
//! and before a pool's balances feed a health computation.

use vstd::prelude::*;

use crate::pool::{spec_utilization_bps, Pool};
use crate::rate_model::{lemma_advance_factor_bounds, spec_advance_factor};

verus! {

/// The pool after one accrual at time `now`: a no-op unless time has
/// advanced past the pool's last accrual; otherwise both indices advance
/// by simple interest at the current utilization and the clock moves to
/// `now`. An elapsed time beyond the i64 range is clamped.
pub open spec fn spec_accrue_pool(p: Pool, now: i64) -> Pool {
    let e = now as int - p.last_timestamp as int;
    if e <= 0 {
        p
    } else {
        let elapsed: u64 = if e > i64::MAX as int {
            i64::MAX as u64
        } else {
            e as u64
        };
        let util = spec_utilization_bps(p) as u16;
        Pool {
            borrow_fac_q60: spec_advance_factor(
                p.rate,
                p.borrow_fac_q60,
                util,
                elapsed,
                true,
            ) as u128,
            deposit_fac_q60: spec_advance_factor(
                p.rate,
                p.deposit_fac_q60,
                util,
                elapsed,
                false,
            ) as u128,
            last_timestamp: now,
            ..p
        }
    }
}

/// Accrues interest on `pool` up to time `now` (see `spec_accrue_pool`).
/// Neither index ever decreases; share totals, mint, market and rate
/// parameters are untouched.
pub fn accrue_pool(pool: &mut Pool, now: i64)
    ensures
        *final(pool) == spec_accrue_pool(*old(pool), now),
        final(pool).borrow_fac_q60 >= old(pool).borrow_fac_q60,
        final(pool).deposit_fac_q60 >= old(pool).deposit_fac_q60,
        final(pool).total_borrow_shares_q60 == old(pool).total_borrow_shares_q60,
        final(pool).total_deposit_shares_q60 == old(pool).total_deposit_shares_q60,
{
    if now <= pool.last_timestamp {
        return ;
    }
    let e128: i128 = now as i128 - pool.last_timestamp as i128;
    let elapsed: u64 = if e128 > i64::MAX as i128 {
        i64::MAX as u64
    } else {
        e128 as u64
    };
    let util = pool.utilization_bps();
    proof {
        lemma_advance_factor_bounds(pool.rate, pool.borrow_fac_q60, util, elapsed, true);
        lemma_advance_factor_bounds(pool.rate, pool.deposit_fac_q60, util, elapsed, false);
    }
    let new_b = pool.rate.advance_factor_simple(pool.borrow_fac_q60, util, elapsed, true);
    let new_d = pool.rate.advance_factor_simple(pool.deposit_fac_q60, util, elapsed, false);
    pool.borrow_fac_q60 = new_b;
    pool.deposit_fac_q60 = new_d;
    pool.last_timestamp = now;
}

/// The pool after a whole sequence of accruals, in order.
pub open spec fn spec_accrue_seq(p: Pool, times: Seq<i64>) -> Pool
    decreases times.len(),
{
    if times.len() == 0 {
        p
    } else {
        spec_accrue_seq(spec_accrue_pool(p, times[0]), times.drop_first())
    }
}

/// One accrual never lowers either share-price index.
pub proof fn lemma_accrue_pool_monotonic(p: Pool, now: i64)
    ensures
        spec_accrue_pool(p, now).borrow_fac_q60 >= p.borrow_fac_q60,
        spec_accrue_pool(p, now).deposit_fac_q60 >= p.deposit_fac_q60,
{
    let e = now as int - p.last_timestamp as int;
    if e > 0 {
        let elapsed: u64 = if e > i64::MAX as int {
            i64::MAX as u64
        } else {
            e as u64
        };
        let util = spec_utilization_bps(p) as u16;
        lemma_advance_factor_bounds(p.rate, p.borrow_fac_q60, util, elapsed, true);
        lemma_advance_factor_bounds(p.rate, p.deposit_fac_q60, util, elapsed, false);
    }
}

/// Law: across any sequence of accrual calls, however the timestamps run,
/// a pool's borrow and deposit indices never decrease. Interest never
/// reduces a share's redeemable value.
pub proof fn lemma_accrual_sequence_monotonic(p: Pool, times: Seq<i64>)
    ensures
        spec_accrue_seq(p, times).borrow_fac_q60 >= p.borrow_fac_q60,
        spec_accrue_seq(p, times).deposit_fac_q60 >= p.deposit_fac_q60,
    decreases times.len(),
{
    if times.len() > 0 {
        lemma_accrue_pool_monotonic(p, times[0]);
        lemma_accrual_sequence_monotonic(spec_accrue_pool(p, times[0]), times.drop_first());
    }
}

} // verus!
