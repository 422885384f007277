//! Typed failures of the lending core.
//!
//! Every operation detects these before any durable mutation and aborts
//! with no partial state change.

use vstd::prelude::*;

verus! {

/// Failure taxonomy of the core: configuration/lookup errors, arithmetic
/// errors, policy violations and authorization errors.
#[derive(Clone, Copy, Debug, PartialEq, Eq, Structural)]
pub enum ZodialError {
    Unauthorized,
    MarketPaused,
    ExceedsMaxAssets,
    ExceedsMaxPositions,
    AssetNotRegistered,
    PoolNotFound,
    InvalidMint,
    MathOverflow,
    MathUnderflow,
    PriceStale,
    InsufficientLiquidity,
    HealthCheckFailed,
    PositionNotFound,
    UnsupportedMode,
    PositionHealthy,
    InsufficientCollateral,
    InvalidOwner,
    TooManyPositions,
    InvalidRiskPair,
    InvalidPythFeedId,
    PythFeedNotSet,
    NegativePythPrice,
    PriceNotFound,
    PoolNotEmpty,
}

} // verus!
