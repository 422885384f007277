//! Asset registry: stable, dense per-asset indices.
//!
//! Assets receive sequential indices on registration and are never
//! removed, so an asset's index is also its position in the list.

use vstd::prelude::*;

use crate::errors::ZodialError;
use crate::lookup::{
    lemma_find_index_of_no_witness, lemma_find_index_of_witness, spec_find_index,
};
use crate::market::Market;
use crate::risk::RiskRegistry;

verus! {

/// Identity and configuration of one registered asset.
#[derive(Clone, Debug)]
pub struct AssetMeta {
    /// Token mint, an opaque account identifier.
    pub mint: u64,
    /// Oracle account for push-style price feeds; zero when unused.
    pub pyth_price: u64,
    /// Pull-oracle feed identifier, as configured; empty when unused.
    pub pyth_feed_id: Vec<u8>,
    /// Decimals of the token; at most 20, so one whole token fits the
    /// integer range of a Q60 value.
    pub decimals: u8,
    /// Whether the asset may serve as collateral.
    pub enabled_as_collateral: bool,
    /// Stable index of this asset, equal to its list position.
    pub index: u16,
}

/// The market's list of registered assets.
#[derive(Clone, Debug)]
pub struct AssetRegistry {
    /// Market this registry belongs to.
    pub market: u64,
    /// Number of registered assets.
    pub count: u16,
    /// The assets, densely indexed: `assets[k].index == k`.
    pub assets: Vec<AssetMeta>,
}

/// Predicate naming assets of one mint.
pub open spec fn asset_mint_pred(mint: u64) -> spec_fn(AssetMeta) -> bool {
    |a: AssetMeta| a.mint == mint
}

impl AssetRegistry {
    /// Registry well-formedness: the count matches the list, each asset
    /// sits at its own index, and decimals stay within the Q60 range.
    pub open spec fn wf(self) -> bool {
        &&& self.assets@.len() == self.count
        &&& forall|k: int|
            0 <= k < self.assets@.len() ==> (#[trigger] self.assets@[k]).index == k
        &&& forall|k: int| 0 <= k < self.assets@.len() ==> (#[trigger] self.assets@[k]).decimals
            <= 20
    }

    /// An empty registry for `market`.
    pub fn new(market: u64) -> (r: AssetRegistry)
        ensures
            r.market == market,
            r.count == 0,
            r.assets@ == Seq::<AssetMeta>::empty(),
            r.wf(),
    {
        AssetRegistry { market, count: 0, assets: Vec::new() }
    }

    /// Position of the first asset with the given mint, if any is
    /// registered.
    pub fn find_asset(&self, mint: u64) -> (r: Option<usize>)
        ensures
            match r {
                Some(i) => spec_find_index(self.assets@, asset_mint_pred(mint)) == i as int && i
                    < self.assets@.len() && self.assets@[i as int].mint == mint,
                None => spec_find_index(self.assets@, asset_mint_pred(mint)) == -1,
            },
    {
        let mut i: usize = 0;
        while i < self.assets.len()
            invariant
                i <= self.assets@.len(),
                forall|k: int| 0 <= k < i ==> (#[trigger] self.assets@[k]).mint != mint,
            decreases self.assets@.len() - i,
        {
            if self.assets[i].mint == mint {
                proof {
                    lemma_find_index_of_witness(self.assets@, asset_mint_pred(mint), i as int);
                }
                return Some(i);
            }
            i = i + 1;
        }
        proof {
            lemma_find_index_of_no_witness(self.assets@, asset_mint_pred(mint));
        }
        None
    }
}

/// Arguments to `register_asset`.
#[derive(Clone, Debug)]
pub struct RegisterAssetArgs {
    pub mint: u64,
    pub decimals: u8,
    pub pyth_price: u64,
    pub pyth_feed_id: Option<Vec<u8>>,
    pub enabled_as_collateral: bool,
}

/// Registers a new asset: it takes the next index, and the risk matrix
/// dimension follows the new count. Fails only when the market's asset
/// cap is reached, leaving both registries unchanged. Decimals beyond 20
/// cannot be valued in Q60 and are excluded up front.
pub fn register_asset(
    market: &Market,
    ar: &mut AssetRegistry,
    rr: &mut RiskRegistry,
    args: RegisterAssetArgs,
) -> (r: Result<u16, ZodialError>)
    requires
        old(ar).wf(),
        args.decimals <= 20,
    ensures
        final(ar).wf(),
        match r {
            Ok(idx) => {
                &&& old(ar).count < market.max_assets
                &&& idx == old(ar).count
                &&& final(ar).count == old(ar).count + 1
                &&& final(ar).assets@.len() == old(ar).assets@.len() + 1
                &&& final(ar).assets@.last().mint == args.mint
                &&& final(ar).assets@.last().decimals == args.decimals
                &&& final(ar).assets@.last().enabled_as_collateral == args.enabled_as_collateral
                &&& final(ar).assets@.last().index == idx
                &&& final(ar).assets@.last().pyth_price == args.pyth_price
                &&& final(ar).assets@.last().pyth_feed_id@ == (match args.pyth_feed_id {
                    Some(f) => f@,
                    None => Seq::<u8>::empty(),
                })
                &&& final(ar).assets@.subrange(0, old(ar).assets@.len() as int) == old(ar).assets@
                &&& final(ar).market == old(ar).market
                &&& *final(rr) == (RiskRegistry {
                    dim: (old(ar).count + 1) as u16,
                    ..*old(rr)
                })
            },
            Err(e) => {
                &&& e == ZodialError::ExceedsMaxAssets
                &&& old(ar).count >= market.max_assets
                &&& *final(ar) == *old(ar)
                &&& *final(rr) == *old(rr)
            },
        },
{
    if ar.count >= market.max_assets {
        return Err(ZodialError::ExceedsMaxAssets);
    }
    let index = ar.count;
    let feed_id: Vec<u8> = match args.pyth_feed_id {
        Some(f) => f,
        None => Vec::new(),
    };
    ar.assets.push(
        AssetMeta {
            mint: args.mint,
            pyth_price: args.pyth_price,
            pyth_feed_id: feed_id,
            decimals: args.decimals,
            enabled_as_collateral: args.enabled_as_collateral,
            index,
        },
    );
    ar.count = ar.count + 1;
    rr.dim = ar.count;
    proof {
        assert(ar.assets@.subrange(0, old(ar).assets@.len() as int) =~= old(ar).assets@);
    }
    Ok(index)
}

} // verus!
