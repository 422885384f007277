//! Kinked interest-rate model.
//!
//! Maps pool utilization to a borrow APY along a piecewise-linear curve
//! with one kink, derives the deposit APY from it, and advances a Q60
//! share-price factor by simple interest over elapsed time.

use vstd::prelude::*;
use vstd::arithmetic::div_mod::{lemma_div_is_ordered, lemma_div_pos_is_pos};
use vstd::arithmetic::mul::lemma_mul_upper_bound;

use crate::constants::{BPS_DENOM, MAX_BORROW_APY_BPS_HARD, SECS_YEAR};
use crate::math::{sat_add_u128, sat_mul_u128, sat_u128};

verus! {

/// Interest-rate curve parameters of one pool, immutable after pool
/// creation.
#[derive(Clone, Copy, Debug, PartialEq, Eq, Structural)]
pub struct RateModel {
    /// Utilization at which the curve steepens, in bps.
    pub kink_util_bps: u16,
    /// Borrow APY at zero utilization, in bps.
    pub base_borrow_apy_bps: u16,
    /// Curve slope below the kink, in bps per full utilization.
    pub slope1_bps: u16,
    /// Curve slope at and above the kink, in bps per full utilization.
    pub slope2_bps: u16,
    /// Fraction of borrow interest kept by the protocol, in bps.
    pub reserve_factor_bps: u16,
    /// Pool-configured soft cap on the borrow APY, in bps.
    pub max_borrow_apy_bps: u16,
}

/// Borrow APY in bps at utilization `util_bps`: `base + util*slope1/10^4`
/// below the kink, continuing with `slope2` above it, clamped to the
/// pool's soft cap and the protocol-wide hard cap.
pub open spec fn spec_borrow_apy_bps(m: RateModel, util_bps: u16) -> int {
    let util = util_bps as int;
    let kink = m.kink_util_bps as int;
    let raw = if util <= kink {
        m.base_borrow_apy_bps + util * m.slope1_bps / (BPS_DENOM as int)
    } else {
        m.base_borrow_apy_bps + kink * m.slope1_bps / (BPS_DENOM as int) + (util - kink)
            * m.slope2_bps / (BPS_DENOM as int)
    };
    let soft = if raw > m.max_borrow_apy_bps {
        m.max_borrow_apy_bps as int
    } else {
        raw
    };
    if soft > MAX_BORROW_APY_BPS_HARD as int {
        MAX_BORROW_APY_BPS_HARD as int
    } else {
        soft
    }
}

/// Deposit APY in bps at utilization `util_bps`: the borrow APY scaled by
/// utilization and by the complement of the reserve factor,
/// `borrow * util * (10^4 - reserve) / 10^8` (a reserve factor above 10^4
/// counts as a full take).
pub open spec fn spec_deposit_apy_bps(m: RateModel, util_bps: u16) -> int {
    let keep = if m.reserve_factor_bps as int > BPS_DENOM as int {
        0
    } else {
        BPS_DENOM as int - m.reserve_factor_bps as int
    };
    spec_borrow_apy_bps(m, util_bps) * (util_bps as int) * keep / (BPS_DENOM as int
        * BPS_DENOM as int)
}

/// New value of a Q60 factor after `elapsed_secs` of simple interest at
/// the APY the model gives for `util_bps`:
/// `factor + factor*apy*elapsed/(10^4*secs_per_year)`, products
/// saturating; unchanged when the APY or the elapsed time is zero.
pub open spec fn spec_advance_factor(
    m: RateModel,
    factor_q60: u128,
    util_bps: u16,
    elapsed_secs: u64,
    is_borrow: bool,
) -> int {
    let apy = if is_borrow {
        spec_borrow_apy_bps(m, util_bps)
    } else {
        spec_deposit_apy_bps(m, util_bps)
    };
    if apy == 0 || elapsed_secs == 0 {
        factor_q60 as int
    } else {
        let num = sat_u128(sat_u128(factor_q60 * apy) * elapsed_secs);
        sat_u128(factor_q60 + num / (BPS_DENOM as int * SECS_YEAR as int))
    }
}

/// An advanced factor stays within the u128 range and never falls below
/// the factor it started from: simple interest only adds.
pub proof fn lemma_advance_factor_bounds(
    m: RateModel,
    factor_q60: u128,
    util_bps: u16,
    elapsed_secs: u64,
    is_borrow: bool,
)
    ensures
        factor_q60 <= spec_advance_factor(m, factor_q60, util_bps, elapsed_secs, is_borrow)
            <= u128::MAX,
{
    let apy = if is_borrow {
        spec_borrow_apy_bps(m, util_bps)
    } else {
        spec_deposit_apy_bps(m, util_bps)
    };
    if apy != 0 && elapsed_secs != 0 {
        assert(apy >= 0) by {
            if !is_borrow {
                let keep = if m.reserve_factor_bps as int > BPS_DENOM as int {
                    0
                } else {
                    BPS_DENOM as int - m.reserve_factor_bps as int
                };
                assert(spec_borrow_apy_bps(m, util_bps) * (util_bps as int) * keep >= 0) by (
                nonlinear_arith)
                    requires
                        spec_borrow_apy_bps(m, util_bps) >= 0,
                        keep >= 0,
                ;
                lemma_div_pos_is_pos(
                    spec_borrow_apy_bps(m, util_bps) * (util_bps as int) * keep,
                    BPS_DENOM as int * BPS_DENOM as int,
                );
                assert(BPS_DENOM as int * BPS_DENOM as int > 0) by (nonlinear_arith)
                    requires
                        BPS_DENOM == 10_000,
                ;
            }
        }
        assert(factor_q60 * apy >= 0) by (nonlinear_arith)
            requires
                apy >= 0,
        ;
        let num = sat_u128(sat_u128(factor_q60 * apy) * elapsed_secs);
        assert(sat_u128(factor_q60 * apy) * elapsed_secs >= 0) by (nonlinear_arith)
            requires
                sat_u128(factor_q60 * apy) >= 0,
        ;
        assert(BPS_DENOM as int * SECS_YEAR as int == 315_360_000_000) by (nonlinear_arith)
            requires
                BPS_DENOM == 10_000,
                SECS_YEAR == 31_536_000,
        ;
        lemma_div_pos_is_pos(num, BPS_DENOM as int * SECS_YEAR as int);
    }
}

impl RateModel {
    /// Borrow APY in bps at the given utilization (see
    /// `spec_borrow_apy_bps`); never exceeds the protocol hard cap.
    pub fn borrow_apy_bps(&self, util_bps: u16) -> (r: u16)
        ensures
            r == spec_borrow_apy_bps(*self, util_bps),
            r <= MAX_BORROW_APY_BPS_HARD,
    {
        let util = util_bps as u64;
        let kink = self.kink_util_bps as u64;
        let mut apy = self.base_borrow_apy_bps as u64;

        proof {
            lemma_mul_upper_bound(util as int, 0xFFFF, self.slope1_bps as int, 0xFFFF);
            lemma_mul_upper_bound(kink as int, 0xFFFF, self.slope1_bps as int, 0xFFFF);
            lemma_mul_upper_bound(util as int, 0xFFFF, self.slope2_bps as int, 0xFFFF);
        }
        if util <= kink {
            apy = apy + util * (self.slope1_bps as u64) / BPS_DENOM;
        } else {
            apy = apy + kink * (self.slope1_bps as u64) / BPS_DENOM;
            let extra = util - kink;
            proof {
                lemma_mul_upper_bound(extra as int, 0xFFFF, self.slope2_bps as int, 0xFFFF);
            }
            apy = apy + extra * (self.slope2_bps as u64) / BPS_DENOM;
        }

        let soft = self.max_borrow_apy_bps as u64;
        if apy > soft {
            apy = soft;
        }
        if apy > MAX_BORROW_APY_BPS_HARD as u64 {
            apy = MAX_BORROW_APY_BPS_HARD as u64;
        }
        apy as u16
    }

    /// Deposit APY in bps at the given utilization (see
    /// `spec_deposit_apy_bps`).
    pub fn deposit_apy_bps(&self, util_bps: u16) -> (r: u16)
        ensures
            r == spec_deposit_apy_bps(*self, util_bps),
    {
        let borrow = self.borrow_apy_bps(util_bps) as u64;
        let util = util_bps as u64;
        let take = self.reserve_factor_bps as u64;
        let keep = if take > BPS_DENOM {
            0u64
        } else {
            BPS_DENOM - take
        };

        proof {
            lemma_mul_upper_bound(borrow as int, 10_000, util as int, 0xFFFF);
            lemma_mul_upper_bound(borrow as int * util as int, 655_350_000, keep as int, 10_000);
            lemma_div_is_ordered(
                borrow as int * util as int * keep as int,
                6_553_500_000_000,
                100_000_000,
            );
        }
        let net = borrow * util * keep / (BPS_DENOM * BPS_DENOM);
        net as u16
    }

    /// Advances a Q60 factor by simple interest for `elapsed_secs` at the
    /// APY for `util_bps` (see `spec_advance_factor`). The new factor is
    /// never below the old one: indices never decrease.
    pub fn advance_factor_simple(
        &self,
        factor_q60: u128,
        util_bps: u16,
        elapsed_secs: u64,
        is_borrow: bool,
    ) -> (r: u128)
        ensures
            r == spec_advance_factor(*self, factor_q60, util_bps, elapsed_secs, is_borrow),
            r >= factor_q60,
    {
        let apy_bps = if is_borrow {
            self.borrow_apy_bps(util_bps) as u128
        } else {
            self.deposit_apy_bps(util_bps) as u128
        };

        if apy_bps == 0 || elapsed_secs == 0 {
            return factor_q60;
        }

        let num = sat_mul_u128(sat_mul_u128(factor_q60, apy_bps), elapsed_secs as u128);
        proof {
            assert(BPS_DENOM as int * SECS_YEAR as int == 315_360_000_000) by (
            nonlinear_arith)
                requires
                    BPS_DENOM == 10_000,
                    SECS_YEAR == 31_536_000,
            ;
        }
        let denom = (BPS_DENOM as u128) * (SECS_YEAR as u128);
        sat_add_u128(factor_q60, num / denom)
    }
}

} // verus!
