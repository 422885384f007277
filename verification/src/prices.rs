//! Price cache and price resolution.
//!
//! Entries are upserted, never implicitly expired; staleness policy is
//! the caller's concern via the cache's last-write slot.

use vstd::prelude::*;

use crate::errors::ZodialError;
use crate::lookup::{
    lemma_find_index_of_no_witness, lemma_find_index_of_witness,
    spec_find, spec_find_index,
};
use crate::market::{Market, PriceMode};
use crate::math::Q60;
use crate::registry::{asset_mint_pred, AssetRegistry};

verus! {

/// Latest Q60 price of one asset.
#[derive(Clone, Copy, Debug, PartialEq, Eq, Structural)]
pub struct PriceEntry {
    /// Asset index the price belongs to.
    pub asset_index: u16,
    /// USD price of one whole token, Q60.
    pub price_q60: u128,
}

/// Per-market cache of latest prices.
#[derive(Clone, Debug)]
pub struct PriceCache {
    /// Market this cache belongs to.
    pub market: u64,
    /// Slot of the last write, the staleness marker.
    pub last_slot: u64,
    /// Cached prices, at most one entry per asset index.
    pub prices: Vec<PriceEntry>,
}

/// Predicate naming cache entries of one asset index.
pub open spec fn entry_index_pred(idx: u16) -> spec_fn(PriceEntry) -> bool {
    |e: PriceEntry| e.asset_index == idx
}

/// The cached entry for an asset index, if present.
pub open spec fn spec_price_entry_for(prices: Seq<PriceEntry>, idx: u16) -> Option<PriceEntry> {
    spec_find(prices, entry_index_pred(idx))
}

/// The cache after writing `price` for `idx`: the first entry for `idx`
/// is replaced, or a new entry is appended when none exists.
pub open spec fn spec_upsert_price(prices: Seq<PriceEntry>, idx: u16, price: u128) -> Seq<
    PriceEntry,
> {
    let i = spec_find_index(prices, entry_index_pred(idx));
    if i == -1 {
        prices.push(PriceEntry { asset_index: idx, price_q60: price })
    } else {
        prices.update(i, PriceEntry { asset_index: idx, price_q60: price })
    }
}

/// The price the market resolves for an asset index: one in mock mode;
/// in cache mode the cached entry, and `PriceStale` when the cache or
/// the entry is missing — never a silent default.
pub open spec fn spec_price_for_index(m: Market, cache: Option<Seq<PriceEntry>>, idx: u16) -> Result<
    u128,
    ZodialError,
> {
    match m.price_mode {
        PriceMode::Mock => Ok(Q60),
        PriceMode::Cache => match cache {
            None => Err(ZodialError::PriceStale),
            Some(prices) => match spec_price_entry_for(prices, idx) {
                Some(e) => Ok(e.price_q60),
                None => Err(ZodialError::PriceStale),
            },
        },
    }
}

/// The prices a cache reference holds, if one was supplied.
pub open spec fn spec_cache_prices(cache: Option<&PriceCache>) -> Option<Seq<PriceEntry>> {
    match cache {
        None => None,
        Some(pc) => Some(pc.prices@),
    }
}

impl PriceCache {
    /// An empty cache for `market`.
    pub fn new(market: u64) -> (r: PriceCache)
        ensures
            r.market == market,
            r.last_slot == 0,
            r.prices@ == Seq::<PriceEntry>::empty(),
    {
        PriceCache { market, last_slot: 0, prices: Vec::new() }
    }

    /// Position of the entry for `idx`, if one is cached.
    pub fn find_price(&self, idx: u16) -> (r: Option<usize>)
        ensures
            match r {
                Some(i) => spec_find_index(self.prices@, entry_index_pred(idx)) == i as int && i
                    < self.prices@.len() && self.prices@[i as int].asset_index == idx,
                None => spec_find_index(self.prices@, entry_index_pred(idx)) == -1,
            },
    {
        let mut i: usize = 0;
        while i < self.prices.len()
            invariant
                i <= self.prices@.len(),
                forall|k: int| 0 <= k < i ==> (#[trigger] self.prices@[k]).asset_index != idx,
            decreases self.prices@.len() - i,
        {
            if self.prices[i].asset_index == idx {
                proof {
                    lemma_find_index_of_witness(self.prices@, entry_index_pred(idx), i as int);
                }
                return Some(i);
            }
            i = i + 1;
        }
        proof {
            lemma_find_index_of_no_witness(self.prices@, entry_index_pred(idx));
        }
        None
    }

    /// Writes `price` for `idx` (see `spec_upsert_price`). The staleness
    /// marker is the caller's to advance.
    pub fn upsert_price(&mut self, idx: u16, price_q60: u128)
        ensures
            final(self).prices@ == spec_upsert_price(old(self).prices@, idx, price_q60),
            final(self).market == old(self).market,
            final(self).last_slot == old(self).last_slot,
    {
        match self.find_price(idx) {
            Some(i) => {
                self.prices[i] = PriceEntry { asset_index: idx, price_q60 };
            },
            None => {
                self.prices.push(PriceEntry { asset_index: idx, price_q60 });
            },
        }
    }
}

/// Resolves the current Q60 price of the asset at `idx` (see
/// `spec_price_for_index`): one in mock mode; the cached entry in cache
/// mode, `PriceStale` when the cache or the entry is missing.
pub fn price_for_index_q60(market: &Market, price_cache: Option<&PriceCache>, idx: u16) -> (r:
    Result<u128, ZodialError>)
    ensures
        r == spec_price_for_index(*market, spec_cache_prices(price_cache), idx),
{
    match market.price_mode {
        PriceMode::Mock => Ok(Q60),
        PriceMode::Cache => match price_cache {
            None => Err(ZodialError::PriceStale),
            Some(pc) => match pc.find_price(idx) {
                Some(i) => Ok(pc.prices[i].price_q60),
                None => Err(ZodialError::PriceStale),
            },
        },
    }
}

/// One requested price write.
#[derive(Clone, Copy, Debug)]
pub struct PriceUpdate {
    /// Mint of the asset to update.
    pub mint: u64,
    /// New Q60 price.
    pub price_q60: u128,
}

/// The cache contents after applying `updates` in order, each resolved
/// through the asset registry.
pub open spec fn spec_apply_updates(
    prices: Seq<PriceEntry>,
    assets: Seq<crate::registry::AssetMeta>,
    updates: Seq<PriceUpdate>,
) -> Seq<PriceEntry>
    decreases updates.len(),
{
    if updates.len() == 0 {
        prices
    } else {
        match spec_find(assets, asset_mint_pred(updates[0].mint)) {
            Some(a) => spec_apply_updates(
                spec_upsert_price(prices, a.index, updates[0].price_q60),
                assets,
                updates.drop_first(),
            ),
            None => spec_apply_updates(prices, assets, updates.drop_first()),
        }
    }
}

/// What a batch price update computes: `UnsupportedMode` unless the
/// market resolves prices from the cache; `AssetNotRegistered` exactly
/// when some update names an unregistered mint; otherwise the cache
/// contents after every upsert, in order.
pub open spec fn spec_update_prices(
    m: Market,
    assets: Seq<crate::registry::AssetMeta>,
    prices: Seq<PriceEntry>,
    updates: Seq<PriceUpdate>,
) -> Result<Seq<PriceEntry>, ZodialError> {
    if !(m.price_mode is Cache) {
        Err(ZodialError::UnsupportedMode)
    } else if exists|k: int|
        0 <= k < updates.len() && spec_find(
            assets,
            asset_mint_pred((#[trigger] updates[k]).mint),
        ) is None {
        Err(ZodialError::AssetNotRegistered)
    } else {
        Ok(spec_apply_updates(prices, assets, updates))
    }
}

/// Upserts a batch of prices into the cache and advances the staleness
/// marker to `now_slot` (see `spec_update_prices`): in cache mode, with
/// every mint registered, the whole batch is applied; any failure leaves
/// the cache untouched.
pub fn update_prices(
    market: &Market,
    assets: &AssetRegistry,
    cache: &mut PriceCache,
    updates: &Vec<PriceUpdate>,
    now_slot: u64,
) -> (r: Result<(), ZodialError>)
    ensures
        match spec_update_prices(*market, assets.assets@, old(cache).prices@, updates@) {
            Ok(ps) => r == Ok::<(), ZodialError>(()) && final(cache).prices@ == ps
                && final(cache).last_slot == now_slot && final(cache).market == old(cache).market,
            Err(e) => r == Err::<(), ZodialError>(e) && *final(cache) == *old(cache),
        },
{
    match market.price_mode {
        PriceMode::Cache => {},
        PriceMode::Mock => {
            return Err(ZodialError::UnsupportedMode);
        },
    }
    proof {
        assert(market.price_mode is Cache);
    }
    let mut v: usize = 0;
    while v < updates.len()
        invariant
            market.price_mode is Cache,
            v <= updates@.len(),
            forall|k: int| 0 <= k < v ==> spec_find(
                assets.assets@,
                asset_mint_pred((#[trigger] updates@[k]).mint),
            ) is Some,
        decreases updates@.len() - v,
    {
        match assets.find_asset(updates[v].mint) {
            Some(_) => {},
            None => {
                proof {
                    let ghost w = v as int;
                    assert(spec_find(assets.assets@, asset_mint_pred(updates@[w].mint)) is None);
                    assert(exists|k: int|
                        0 <= k < updates@.len() && spec_find(
                            assets.assets@,
                            asset_mint_pred((#[trigger] updates@[k]).mint),
                        ) is None);
                }
                return Err(ZodialError::AssetNotRegistered);
            },
        }
        v = v + 1;
    }
    let mut u: usize = 0;
    while u < updates.len()
        invariant
            market.price_mode is Cache,
            u <= updates@.len(),
            forall|k: int| 0 <= k < updates@.len() ==> spec_find(
                assets.assets@,
                asset_mint_pred((#[trigger] updates@[k]).mint),
            ) is Some,
            cache.prices@ == spec_apply_updates(
                old(cache).prices@,
                assets.assets@,
                updates@.subrange(0, u as int),
            ),
            cache.market == old(cache).market,
            cache.last_slot == old(cache).last_slot,
        decreases updates@.len() - u,
    {
        let ghost prefix = updates@.subrange(0, u as int);
        let ghost prices_before = cache.prices@;
        match assets.find_asset(updates[u].mint) {
            Some(i) => {
                let idx = assets.assets[i].index;
                cache.upsert_price(idx, updates[u].price_q60);
            },
            None => {
                proof {
                    assert(spec_find(assets.assets@, asset_mint_pred(updates@[u as int].mint))
                        is Some);
                }
                return Err(ZodialError::AssetNotRegistered);
            },
        }
        u = u + 1;
        proof {
            let next = updates@.subrange(0, u as int);
            lemma_apply_updates_snoc(old(cache).prices@, assets.assets@, prefix, updates@[u - 1]);
            assert(next =~= prefix.push(updates@[u - 1]));
        }
    }
    proof {
        assert(updates@.subrange(0, updates@.len() as int) =~= updates@);
        assert(!(exists|k: int|
            0 <= k < updates@.len() && spec_find(
                assets.assets@,
                asset_mint_pred((#[trigger] updates@[k]).mint),
            ) is None));
    }
    cache.last_slot = now_slot;
    Ok(())
}

/// Applying one more update continues the fold.
proof fn lemma_apply_updates_snoc(
    prices: Seq<PriceEntry>,
    assets: Seq<crate::registry::AssetMeta>,
    updates: Seq<PriceUpdate>,
    u: PriceUpdate,
)
    ensures
        spec_apply_updates(prices, assets, updates.push(u)) == (match spec_find(
            assets,
            asset_mint_pred(u.mint),
        ) {
            Some(a) => spec_upsert_price(
                spec_apply_updates(prices, assets, updates),
                a.index,
                u.price_q60,
            ),
            None => spec_apply_updates(prices, assets, updates),
        }),
    decreases updates.len(),
{
    if updates.len() == 0 {
        assert(updates.push(u).drop_first() =~= updates);
        assert(updates.push(u)[0] == u);
        match spec_find(assets, asset_mint_pred(u.mint)) {
            Some(a) => {
                assert(spec_apply_updates(prices, assets, updates) == prices);
                let up = spec_upsert_price(prices, a.index, u.price_q60);
                assert(spec_apply_updates(up, assets, updates) == up);
            },
            None => {
                assert(spec_apply_updates(prices, assets, updates) == prices);
            },
        }
    } else {
        assert(updates.push(u).drop_first() =~= updates.drop_first().push(u));
        assert(updates.push(u)[0] == updates[0]);
        match spec_find(assets, asset_mint_pred(updates[0].mint)) {
            Some(a) => {
                let up = spec_upsert_price(prices, a.index, updates[0].price_q60);
                lemma_apply_updates_snoc(up, assets, updates.drop_first(), u);
                assert(spec_apply_updates(prices, assets, updates.push(u)) == spec_apply_updates(
                    up,
                    assets,
                    updates.drop_first().push(u),
                ));
                assert(spec_apply_updates(prices, assets, updates) == spec_apply_updates(
                    up,
                    assets,
                    updates.drop_first(),
                ));
            },
            None => {
                lemma_apply_updates_snoc(prices, assets, updates.drop_first(), u);
                assert(spec_apply_updates(prices, assets, updates.push(u)) == spec_apply_updates(
                    prices,
                    assets,
                    updates.drop_first().push(u),
                ));
                assert(spec_apply_updates(prices, assets, updates) == spec_apply_updates(
                    prices,
                    assets,
                    updates.drop_first(),
                ));
            },
        }
    }
}

} // verus!
