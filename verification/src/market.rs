//! Market configuration and creation.

use vstd::prelude::*;

use crate::constants::{MAX_ASSETS, MAX_POSITIONS};
use crate::errors::ZodialError;
use crate::prices::PriceCache;
use crate::registry::AssetRegistry;
use crate::risk::RiskRegistry;

verus! {

/// How asset prices are resolved for this market.
#[derive(Clone, Copy, Debug, PartialEq, Eq, Structural)]
pub enum PriceMode {
    /// Every asset is worth exactly one; for testing.
    Mock,
    /// Prices come from the market's price cache.
    Cache,
}

/// Per-market configuration. `authority` is an opaque account identifier;
/// who may administer the market is the environment's concern.
#[derive(Clone, Copy, Debug, PartialEq, Eq, Structural)]
pub struct Market {
    /// Administrator of this market.
    pub authority: u64,
    /// Cap on registered assets, at most `MAX_ASSETS`.
    pub max_assets: u16,
    /// Cap on positions per obligation.
    pub max_positions: u16,
    /// LTV in bps used where a risk pair leaves it unset.
    pub default_ltv_bps: u16,
    /// Liquidation threshold in bps used where a risk pair leaves it unset.
    pub default_liq_threshold_bps: u16,
    /// Liquidation bonus in bps used when growing the risk matrix.
    pub default_liq_bonus_bps: u16,
    /// Price resolution mode.
    pub price_mode: PriceMode,
    /// Layout version.
    pub version: u8,
    /// Whether balance-changing operations are suspended.
    pub paused: bool,
    /// Maximum accepted age of an oracle price, seconds.
    pub pyth_max_age_secs: u64,
}

/// Arguments to `init_market`.
#[derive(Clone, Copy, Debug)]
pub struct InitMarketArgs {
    pub max_assets: u16,
    pub max_positions: u16,
    pub default_ltv_bps: u16,
    pub default_liq_threshold_bps: u16,
    pub default_liq_bonus_bps: u16,
    pub price_mode: PriceMode,
    pub pyth_max_age_secs: u64,
}

/// Creates a market with its three empty registries. Fails when the
/// requested caps exceed the protocol limits, and only then.
pub fn init_market(authority: u64, market_id: u64, args: InitMarketArgs) -> (r: Result<
    (Market, AssetRegistry, RiskRegistry, PriceCache),
    ZodialError,
>)
    ensures
        match r {
            Ok((m, ar, rr, pc)) => {
                &&& args.max_assets as int <= MAX_ASSETS as int
                &&& args.max_positions as int <= MAX_POSITIONS as int
                &&& m == (Market {
                    authority,
                    max_assets: args.max_assets,
                    max_positions: args.max_positions,
                    default_ltv_bps: args.default_ltv_bps,
                    default_liq_threshold_bps: args.default_liq_threshold_bps,
                    default_liq_bonus_bps: args.default_liq_bonus_bps,
                    price_mode: args.price_mode,
                    version: 1u8,
                    paused: false,
                    pyth_max_age_secs: args.pyth_max_age_secs,
                })
                &&& ar.market == market_id && ar.count == 0 && ar.assets@.len() == 0
                &&& rr.market == market_id && rr.dim == 0 && rr.pairs@.len() == 0
                &&& pc.market == market_id && pc.last_slot == 0 && pc.prices@.len() == 0
                &&& ar.wf()
            },
            Err(e) => {
                ||| (e == ZodialError::ExceedsMaxAssets && args.max_assets as int
                    > MAX_ASSETS as int)
                ||| (e == ZodialError::ExceedsMaxPositions && args.max_assets as int
                    <= MAX_ASSETS as int && args.max_positions as int > MAX_POSITIONS as int)
            },
        },
{
    if args.max_assets as usize > MAX_ASSETS {
        return Err(ZodialError::ExceedsMaxAssets);
    }
    if args.max_positions as usize > MAX_POSITIONS {
        return Err(ZodialError::ExceedsMaxPositions);
    }
    let market = Market {
        authority,
        max_assets: args.max_assets,
        max_positions: args.max_positions,
        default_ltv_bps: args.default_ltv_bps,
        default_liq_threshold_bps: args.default_liq_threshold_bps,
        default_liq_bonus_bps: args.default_liq_bonus_bps,
        price_mode: args.price_mode,
        version: 1,
        paused: false,
        pyth_max_age_secs: args.pyth_max_age_secs,
    };
    Ok((market, AssetRegistry::new(market_id), RiskRegistry::new(market_id), PriceCache::new(
        market_id,
    )))
}

} // verus!
