//! Protocol-wide limits and scales.

use vstd::prelude::*;

verus! {

/// Hard cap on the number of registered assets per market.
pub const MAX_ASSETS: usize = 33;

/// Hard cap on the number of positions per obligation.
pub const MAX_POSITIONS: usize = 16;

/// Size of the triangular risk-pair matrix at full asset capacity.
pub const MAX_RISK_PAIRS: usize = (MAX_ASSETS * (MAX_ASSETS + 1)) / 2;

/// Seconds per (non-leap) year, the accrual time base.
pub const SECS_YEAR: u64 = 365 * 24 * 60 * 60;

/// Basis-point denominator: 10000 bps = 100%.
pub const BPS_DENOM: u64 = 10_000;

/// Protocol-wide borrow-rate ceiling (100% APY), independent of any
/// pool's configured soft cap.
pub const MAX_BORROW_APY_BPS_HARD: u16 = 10_000;

} // verus!
