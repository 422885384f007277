//! Triangular risk-pair matrix.
//!
//! One `RiskPair` per unordered pair of asset indices (self-pairs
//! included), stored in a flat triangular array of size `dim*(dim+1)/2`.
//! The matrix grows lazily, filled with the market's defaults, and is
//! never shrunk.

use vstd::prelude::*;
use vstd::arithmetic::div_mod::{lemma_div_by_multiple, lemma_fundamental_div_mod};
use vstd::arithmetic::mul::{lemma_mul_inequality, lemma_mul_upper_bound};

use crate::errors::ZodialError;
use crate::lookup::spec_find_index;
use crate::market::Market;
use crate::registry::AssetRegistry;

verus! {

/// Risk parameters of one unordered asset pair. A zero `ltv_bps` or
/// `liq_threshold_bps` means "unset": lookups fall back to the market's
/// default for that field.
#[derive(Clone, Copy, Debug, PartialEq, Eq, Structural)]
pub struct RiskPair {
    /// Loan-to-value in bps, used by the standard health check.
    pub ltv_bps: u16,
    /// Liquidation threshold in bps, used by the liquidation health check.
    pub liq_threshold_bps: u16,
    /// Liquidation bonus in bps, paid to the liquidator.
    pub liq_bonus_bps: u16,
}

/// The market's triangular matrix of risk pairs.
#[derive(Clone, Debug)]
pub struct RiskRegistry {
    /// Market this registry belongs to.
    pub market: u64,
    /// Number of asset indices the matrix is sized for.
    pub dim: u16,
    /// Flat triangular storage; full size is `dim*(dim+1)/2`, but the
    /// matrix may lag behind a grown `dim` until the next pair write.
    pub pairs: Vec<RiskPair>,
}

/// Flat position of unordered pair `(i, j)` in a triangular matrix of
/// dimension `dim`: with `lo = min(i,j)` and `hi = max(i,j)`, the cell
/// `lo*dim - lo*(lo+1)/2 + hi`. Symmetric in `i` and `j` by construction.
pub open spec fn spec_tri_index(i: int, j: int, dim: int) -> int {
    let lo = if i <= j {
        i
    } else {
        j
    };
    let hi = if i <= j {
        j
    } else {
        i
    };
    lo * dim - lo * (lo + 1) / 2 + hi
}

/// Number of cells of a full triangular matrix of dimension `dim`.
pub open spec fn spec_tri_len(dim: int) -> int {
    dim * (dim + 1) / 2
}

/// Law: the triangular index is symmetric — `tri_index(i, j, dim)` and
/// `tri_index(j, i, dim)` name the same cell, for every `i`, `j`, `dim`.
pub proof fn lemma_tri_index_symmetric(i: int, j: int, dim: int)
    ensures
        spec_tri_index(i, j, dim) == spec_tri_index(j, i, dim),
{
}

/// `n*(n+1)` is even, witnessed by the exact half.
proof fn lemma_consecutive_product_half(n: int) -> (h: int)
    requires
        n >= 0,
    ensures
        2 * h == n * (n + 1),
        h == n * (n + 1) / 2,
        h >= 0,
{
    lemma_fundamental_div_mod(n, 2);
    let m = n / 2;
    let h = if n % 2 == 0 {
        m * (n + 1)
    } else {
        n * (m + 1)
    };
    assert(2 * h == n * (n + 1)) by (nonlinear_arith)
        requires
            n == 2 * m + n % 2,
            n % 2 == 0 ==> h == m * (n + 1),
            n % 2 == 1 ==> h == n * (m + 1),
            0 <= n % 2 < 2,
    ;
    assert(h >= 0) by (nonlinear_arith)
        requires
            2 * h == n * (n + 1),
            n >= 0,
    ;
    lemma_div_by_multiple(h, 2);
    assert(h * 2 == 2 * h) by (nonlinear_arith);
    h
}

/// A triangular index for in-range coordinates lies within the full
/// triangular size, and is non-negative.
pub proof fn lemma_tri_index_range(i: int, j: int, dim: int)
    requires
        0 <= i < dim,
        0 <= j < dim,
    ensures
        0 <= spec_tri_index(i, j, dim) < spec_tri_len(dim),
{
    let lo = if i <= j {
        i
    } else {
        j
    };
    let hi = if i <= j {
        j
    } else {
        i
    };
    let h = lemma_consecutive_product_half(lo);
    let f = lemma_consecutive_product_half(dim);
    assert(2 * (lo * dim - h + hi) < 2 * f) by (nonlinear_arith)
        requires
            2 * h == lo * (lo + 1),
            2 * f == dim * (dim + 1),
            0 <= lo <= hi < dim,
    ;
    assert(lo * dim - h + hi >= 0) by (nonlinear_arith)
        requires
            2 * h == lo * (lo + 1),
            0 <= lo <= hi < dim,
    ;
}

/// Flat cell of unordered pair `(i, j)` in a triangular matrix of
/// dimension `dim` (see `spec_tri_index`); symmetric in `i` and `j`.
pub fn tri_index(i: u16, j: u16, dim: u16) -> (k: usize)
    requires
        i < dim,
        j < dim,
    ensures
        k == spec_tri_index(i as int, j as int, dim as int),
        k < spec_tri_len(dim as int),
{
    let (lo, hi): (usize, usize) = if i <= j {
        (i as usize, j as usize)
    } else {
        (j as usize, i as usize)
    };
    let d = dim as usize;
    proof {
        lemma_mul_upper_bound(lo as int, 0xFFFF, d as int, 0xFFFF);
        assert(0xFFFFint * 0xFFFFint < 0x1_0000_0000int) by (nonlinear_arith);
        let h = lemma_consecutive_product_half(lo as int);
        assert(lo * (lo + 1) <= lo * d) by (nonlinear_arith)
            requires
                0 <= lo < d,
        ;
        lemma_tri_index_range(i as int, j as int, dim as int);
    }
    lo * d - lo * (lo + 1) / 2 + hi
}

/// The pair a market falls back to where nothing was stored.
pub open spec fn spec_default_pair(m: Market) -> RiskPair {
    RiskPair {
        ltv_bps: m.default_ltv_bps,
        liq_threshold_bps: m.default_liq_threshold_bps,
        liq_bonus_bps: m.default_liq_bonus_bps,
    }
}

/// The matrix grown to at least `needed` cells, new cells holding `fill`;
/// never shrunk.
pub open spec fn spec_grown_pairs(pairs: Seq<RiskPair>, needed: int, fill: RiskPair) -> Seq<
    RiskPair,
> {
    if pairs.len() >= needed {
        pairs
    } else {
        pairs + Seq::new((needed - pairs.len()) as nat, |i: int| fill)
    }
}

/// Grows the pair storage to at least `needed` cells by appending `fill`.
fn grow_pairs(rr: &mut RiskRegistry, needed: usize, fill: RiskPair)
    ensures
        final(rr).pairs@ == spec_grown_pairs(old(rr).pairs@, needed as int, fill),
        final(rr).pairs@.len() >= needed,
        final(rr).dim == old(rr).dim,
        final(rr).market == old(rr).market,
{
    while rr.pairs.len() < needed
        invariant
            rr.pairs@.len() >= old(rr).pairs@.len(),
            rr.pairs@.subrange(0, old(rr).pairs@.len() as int) == old(rr).pairs@,
            forall|k: int| old(rr).pairs@.len() <= k < rr.pairs@.len() ==> rr.pairs@[k] == fill,
            old(rr).pairs@.len() < needed ==> rr.pairs@.len() <= needed,
            old(rr).pairs@.len() >= needed ==> rr.pairs@.len() == old(rr).pairs@.len(),
            rr.dim == old(rr).dim,
            rr.market == old(rr).market,
        decreases needed - rr.pairs@.len(),
    {
        let ghost before = rr.pairs@;
        rr.pairs.push(fill);
        proof {
            assert(rr.pairs@.subrange(0, old(rr).pairs@.len() as int) =~= old(rr).pairs@);
        }
    }
    proof {
        assert(rr.pairs@ =~= spec_grown_pairs(old(rr).pairs@, needed as int, fill));
    }
}

/// Arguments to `set_risk_pair`.
#[derive(Clone, Copy, Debug)]
pub struct SetRiskPairArgs {
    pub a_mint: u64,
    pub b_mint: u64,
    pub ltv_bps: u16,
    pub liq_threshold_bps: u16,
    pub liq_bonus_bps: u16,
}

/// Writes the risk pair of two assets, named by mint. The matrix
/// dimension follows the asset count and the storage grows lazily,
/// default-filled, before the cell is overwritten. Fails only when a
/// mint is unregistered, leaving the registry unchanged.
pub fn set_risk_pair(
    market: &Market,
    assets: &AssetRegistry,
    rr: &mut RiskRegistry,
    args: SetRiskPairArgs,
) -> (r: Result<(), ZodialError>)
    requires
        assets.wf(),
    ensures
        ({
            let ai = spec_find_index(assets.assets@, crate::registry::asset_mint_pred(args.a_mint));
            let bi = spec_find_index(assets.assets@, crate::registry::asset_mint_pred(args.b_mint));
            match r {
                Ok(_) => {
                    &&& ai != -1 && bi != -1
                    &&& final(rr).dim == assets.count
                    &&& final(rr).market == old(rr).market
                    &&& final(rr).pairs@ == spec_grown_pairs(
                        old(rr).pairs@,
                        spec_tri_len(assets.count as int),
                        spec_default_pair(*market),
                    ).update(
                        spec_tri_index(ai, bi, assets.count as int),
                        RiskPair {
                            ltv_bps: args.ltv_bps,
                            liq_threshold_bps: args.liq_threshold_bps,
                            liq_bonus_bps: args.liq_bonus_bps,
                        },
                    )
                },
                Err(e) => {
                    &&& e == ZodialError::AssetNotRegistered
                    &&& (ai == -1 || bi == -1)
                    &&& *final(rr) == *old(rr)
                },
            }
        }),
{
    let ai: u16 = match assets.find_asset(args.a_mint) {
        Some(i) => assets.assets[i].index,
        None => {
            return Err(ZodialError::AssetNotRegistered);
        },
    };
    let bi: u16 = match assets.find_asset(args.b_mint) {
        Some(i) => assets.assets[i].index,
        None => {
            return Err(ZodialError::AssetNotRegistered);
        },
    };
    let dim = assets.count;
    if rr.dim != dim {
        rr.dim = dim;
    }
    let needed = tri_len(dim);
    let fill = RiskPair {
        ltv_bps: market.default_ltv_bps,
        liq_threshold_bps: market.default_liq_threshold_bps,
        liq_bonus_bps: market.default_liq_bonus_bps,
    };
    grow_pairs(rr, needed, fill);
    let k = tri_index(ai, bi, dim);
    rr.pairs[k] = RiskPair {
        ltv_bps: args.ltv_bps,
        liq_threshold_bps: args.liq_threshold_bps,
        liq_bonus_bps: args.liq_bonus_bps,
    };
    Ok(())
}

/// Number of cells of a full triangular matrix of dimension `dim`.
pub fn tri_len(dim: u16) -> (r: usize)
    ensures
        r == spec_tri_len(dim as int),
{
    proof {
        lemma_mul_upper_bound(dim as int, 0xFFFF, dim as int + 1, 0x1_0000);
        assert(0xFFFFint * 0x1_0000int < 0x1_0000_0000int) by (nonlinear_arith);
    }
    (dim as usize * (dim as usize + 1)) / 2
}

/// One entry of a batch risk-pair write, named by asset indices.
#[derive(Clone, Copy, Debug)]
pub struct RiskPairEntry {
    pub a_index: u16,
    pub b_index: u16,
    pub ltv_bps: u16,
    pub liq_threshold_bps: u16,
    pub liq_bonus_bps: u16,
}

/// Arguments to `set_risk_pairs_batch`.
#[derive(Clone, Debug)]
pub struct SetRiskPairsBatchArgs {
    pub pairs: Vec<RiskPairEntry>,
}

/// The matrix after the batch's writes, in order: each entry overwrites
/// its triangular cell (entries out of the matrix leave it unchanged;
/// the batch operation admits none).
pub open spec fn spec_apply_pair_entries(
    pairs: Seq<RiskPair>,
    entries: Seq<RiskPairEntry>,
    dim: int,
) -> Seq<RiskPair>
    decreases entries.len(),
{
    if entries.len() == 0 {
        pairs
    } else {
        let e = entries[0];
        let k = spec_tri_index(e.a_index as int, e.b_index as int, dim);
        let next = if 0 <= k < pairs.len() {
            pairs.update(
                k,
                RiskPair {
                    ltv_bps: e.ltv_bps,
                    liq_threshold_bps: e.liq_threshold_bps,
                    liq_bonus_bps: e.liq_bonus_bps,
                },
            )
        } else {
            pairs
        };
        spec_apply_pair_entries(next, entries.drop_first(), dim)
    }
}

/// Appending one entry continues the batch fold.
proof fn lemma_apply_pair_entries_snoc(
    pairs: Seq<RiskPair>,
    entries: Seq<RiskPairEntry>,
    dim: int,
    e: RiskPairEntry,
)
    ensures
        spec_apply_pair_entries(pairs, entries.push(e), dim) == ({
            let base = spec_apply_pair_entries(pairs, entries, dim);
            let k = spec_tri_index(e.a_index as int, e.b_index as int, dim);
            if 0 <= k < base.len() {
                base.update(
                    k,
                    RiskPair {
                        ltv_bps: e.ltv_bps,
                        liq_threshold_bps: e.liq_threshold_bps,
                        liq_bonus_bps: e.liq_bonus_bps,
                    },
                )
            } else {
                base
            }
        }),
    decreases entries.len(),
{
    if entries.len() == 0 {
        assert(entries.push(e).drop_first() =~= entries);
        assert(entries.push(e)[0] == e);
        let k = spec_tri_index(e.a_index as int, e.b_index as int, dim);
        let next = if 0 <= k < pairs.len() {
            pairs.update(
                k,
                RiskPair {
                    ltv_bps: e.ltv_bps,
                    liq_threshold_bps: e.liq_threshold_bps,
                    liq_bonus_bps: e.liq_bonus_bps,
                },
            )
        } else {
            pairs
        };
        assert(spec_apply_pair_entries(next, entries, dim) == next);
        assert(spec_apply_pair_entries(pairs, entries, dim) == pairs);
    } else {
        assert(entries.push(e).drop_first() =~= entries.drop_first().push(e));
        assert(entries.push(e)[0] == entries[0]);
        let e0 = entries[0];
        let k0 = spec_tri_index(e0.a_index as int, e0.b_index as int, dim);
        let next = if 0 <= k0 < pairs.len() {
            pairs.update(
                k0,
                RiskPair {
                    ltv_bps: e0.ltv_bps,
                    liq_threshold_bps: e0.liq_threshold_bps,
                    liq_bonus_bps: e0.liq_bonus_bps,
                },
            )
        } else {
            pairs
        };
        lemma_apply_pair_entries_snoc(next, entries.drop_first(), dim, e);
    }
}

/// Writes a batch of risk pairs by asset indices. The dimension follows
/// the asset count and the matrix grows lazily first; the whole batch is
/// rejected, registry untouched, when any entry's index is out of range.
pub fn set_risk_pairs_batch(
    market: &Market,
    assets: &AssetRegistry,
    rr: &mut RiskRegistry,
    args: &SetRiskPairsBatchArgs,
) -> (r: Result<(), ZodialError>)
    requires
        assets.wf(),
    ensures
        match r {
            Ok(_) => {
                &&& forall|k: int| 0 <= k < args.pairs@.len() ==> (#[trigger] args.pairs@[k]).a_index
                    < assets.count && args.pairs@[k].b_index < assets.count
                &&& final(rr).dim == assets.count
                &&& final(rr).market == old(rr).market
                &&& final(rr).pairs@ == spec_apply_pair_entries(
                    spec_grown_pairs(
                        old(rr).pairs@,
                        spec_tri_len(assets.count as int),
                        spec_default_pair(*market),
                    ),
                    args.pairs@,
                    assets.count as int,
                )
            },
            Err(e) => {
                &&& e == ZodialError::AssetNotRegistered
                &&& exists|k: int|
                    0 <= k < args.pairs@.len() && ((#[trigger] args.pairs@[k]).a_index
                        >= assets.count || args.pairs@[k].b_index >= assets.count)
                &&& *final(rr) == *old(rr)
            },
        },
{
    let dim = assets.count;
    let mut v: usize = 0;
    while v < args.pairs.len()
        invariant
            dim == assets.count,
            v <= args.pairs@.len(),
            forall|k: int| 0 <= k < v ==> (#[trigger] args.pairs@[k]).a_index < dim
                && args.pairs@[k].b_index < dim,
        decreases args.pairs@.len() - v,
    {
        let e = args.pairs[v];
        if e.a_index >= dim || e.b_index >= dim {
            return Err(ZodialError::AssetNotRegistered);
        }
        v = v + 1;
    }
    if rr.dim != dim {
        rr.dim = dim;
    }
    let needed = tri_len(dim);
    let fill = RiskPair {
        ltv_bps: market.default_ltv_bps,
        liq_threshold_bps: market.default_liq_threshold_bps,
        liq_bonus_bps: market.default_liq_bonus_bps,
    };
    grow_pairs(rr, needed, fill);
    let ghost grown = rr.pairs@;
    let mut u: usize = 0;
    while u < args.pairs.len()
        invariant
            dim == assets.count,
            u <= args.pairs@.len(),
            forall|k: int| 0 <= k < args.pairs@.len() ==> (#[trigger] args.pairs@[k]).a_index < dim
                && args.pairs@[k].b_index < dim,
            rr.pairs@ == spec_apply_pair_entries(grown, args.pairs@.subrange(0, u as int), dim as int),
            rr.pairs@.len() == grown.len(),
            grown.len() >= spec_tri_len(dim as int),
            rr.dim == dim,
            rr.market == old(rr).market,
        decreases args.pairs@.len() - u,
    {
        let ghost prefix = args.pairs@.subrange(0, u as int);
        let e = args.pairs[u];
        let k = tri_index(e.a_index, e.b_index, dim);
        rr.pairs[k] = RiskPair {
            ltv_bps: e.ltv_bps,
            liq_threshold_bps: e.liq_threshold_bps,
            liq_bonus_bps: e.liq_bonus_bps,
        };
        u = u + 1;
        proof {
            lemma_apply_pair_entries_snoc(grown, prefix, dim as int, args.pairs@[u - 1]);
            assert(args.pairs@.subrange(0, u as int) =~= prefix.push(args.pairs@[u - 1]));
        }
    }
    proof {
        assert(args.pairs@.subrange(0, args.pairs@.len() as int) =~= args.pairs@);
    }
    Ok(())
}

impl RiskRegistry {
    /// An empty registry for `market`: dimension zero, no pairs.
    pub fn new(market: u64) -> (r: RiskRegistry)
        ensures
            r.market == market,
            r.dim == 0,
            r.pairs@ == Seq::<RiskPair>::empty(),
    {
        RiskRegistry { market, dim: 0, pairs: Vec::new() }
    }

    /// The stored pair for asset indices `(a_idx, b_idx)`, or
    /// `InvalidRiskPair` when the matrix has not grown to cover that cell
    /// yet.
    pub fn get_pair(&self, a_idx: u16, b_idx: u16) -> (r: Result<&RiskPair, ZodialError>)
        requires
            a_idx < self.dim,
            b_idx < self.dim,
        ensures
            ({
                let k = spec_tri_index(a_idx as int, b_idx as int, self.dim as int);
                match r {
                    Ok(p) => k < self.pairs@.len() && *p == self.pairs@[k],
                    Err(e) => e == ZodialError::InvalidRiskPair && k >= self.pairs@.len(),
                }
            }),
    {
        let k = tri_index(a_idx, b_idx, self.dim);
        if k < self.pairs.len() {
            Ok(&self.pairs[k])
        } else {
            Err(ZodialError::InvalidRiskPair)
        }
    }
}

} // verus!
