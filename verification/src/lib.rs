//! Accounting and risk core of a multi-asset lending market.
//!
//! Pools track deposits and borrows per asset through Q60 share-price
//! indices, interest accrues by advancing those indices, positions are
//! priced against a triangular per-asset-pair risk matrix, and
//! under-collateralized obligations are adjudicated for liquidation.

pub mod accrual;
pub mod constants;
pub mod errors;
pub mod health;
pub mod liquidation;
pub mod lookup;
pub mod market;
pub mod math;
pub mod obligation;
pub mod operations;
pub mod pool;
pub mod prices;
pub mod rate_model;
pub mod registry;
pub mod risk;
pub mod swap;

pub use errors::ZodialError;
