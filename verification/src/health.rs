//! Obligation health engine.
//!
//! Health is a ×1000-scaled ratio of risk-weighted collateral value to
//! total borrow value. Each deposit's weight is a borrow-value-weighted
//! average of its risk parameter against every outstanding debt: LTV for
//! the standard check, liquidation threshold for the liquidation check —
//! the only difference between the two modes. An obligation with no
//! borrow value carries no risk and scores the maximum value.

use vstd::prelude::*;

use crate::errors::ZodialError;
use crate::lookup::{
    lemma_find_index_of_no_witness, lemma_find_index_of_witness, spec_find, spec_find_index,
};
use crate::market::Market;
use crate::math::{
    amount_q60_to_usd_q60, pow10, q60_mul, q60_mul_spec, sat_add_u128, sat_mul_u128, sat_sum,
    sat_u128, usd_value_q60_spec,
};
use crate::obligation::Obligation;
use crate::pool::Pool;
use crate::prices::{spec_cache_prices, spec_price_for_index, price_for_index_q60, PriceCache, PriceEntry};
use crate::registry::{asset_mint_pred, AssetRegistry, AssetMeta};
use crate::risk::{spec_tri_index, tri_index, RiskRegistry};

verus! {

/// Predicate naming pools of one mint.
pub open spec fn pool_mint_pred(mint: u64) -> spec_fn(Pool) -> bool {
    |p: Pool| p.mint == mint
}

/// Risk parameter for an asset-index pair: the liquidation threshold or
/// the LTV, falling back to the market default when the matrix does not
/// cover the pair or stores zero ("unset") in that field.
pub open spec fn spec_pair_param_bps(
    m: Market,
    rr: RiskRegistry,
    i: int,
    j: int,
    use_liq_threshold: bool,
) -> u16 {
    let default = if use_liq_threshold {
        m.default_liq_threshold_bps
    } else {
        m.default_ltv_bps
    };
    if rr.dim == 0 || i >= rr.dim as int || j >= rr.dim as int {
        default
    } else {
        let k = spec_tri_index(i, j, rr.dim as int);
        if 0 <= k < rr.pairs@.len() {
            let stored = if use_liq_threshold {
                rr.pairs@[k].liq_threshold_bps
            } else {
                rr.pairs@[k].ltv_bps
            };
            if stored == 0 {
                default
            } else {
                stored
            }
        } else {
            default
        }
    }
}

/// Risk parameter for a pair of asset indices (see `spec_pair_param_bps`).
pub fn pair_param_bps(
    market: &Market,
    risk: &RiskRegistry,
    i: u16,
    j: u16,
    use_liq_threshold: bool,
) -> (r: u16)
    ensures
        r == spec_pair_param_bps(*market, *risk, i as int, j as int, use_liq_threshold),
{
    let default = if use_liq_threshold {
        market.default_liq_threshold_bps
    } else {
        market.default_ltv_bps
    };
    if risk.dim == 0 {
        return default;
    }
    if i >= risk.dim || j >= risk.dim {
        return default;
    }
    let k = tri_index(i, j, risk.dim);
    if k < risk.pairs.len() {
        let stored = if use_liq_threshold {
            risk.pairs[k].liq_threshold_bps
        } else {
            risk.pairs[k].ltv_bps
        };
        if stored == 0 {
            default
        } else {
            stored
        }
    } else {
        default
    }
}

/// LTV in bps for an asset-index pair, with the market-default fallback.
pub fn ltv_for_pair_bps(market: &Market, risk: &RiskRegistry, i: u16, j: u16) -> (r: u16)
    ensures
        r == spec_pair_param_bps(*market, *risk, i as int, j as int, false),
{
    pair_param_bps(market, risk, i, j, false)
}

/// Liquidation threshold in bps for an asset-index pair, with the
/// market-default fallback.
pub fn liq_threshold_for_pair_bps(market: &Market, risk: &RiskRegistry, i: u16, j: u16) -> (r:
    u16)
    ensures
        r == spec_pair_param_bps(*market, *risk, i as int, j as int, true),
{
    pair_param_bps(market, risk, i, j, true)
}

/// One position priced in USD: its asset index and its deposit and
/// borrow values, Q60.
#[derive(Clone, Copy, Debug, PartialEq, Eq, Structural)]
pub struct ResolvedPosition {
    /// Asset index of the position.
    pub asset_index: u16,
    /// USD value of the deposit shares, Q60; zero when no deposit.
    pub dep_value_q60: u128,
    /// USD value of the borrow shares, Q60; zero when no borrow.
    pub bor_value_q60: u128,
}

/// Prices one position: resolves its asset, its pool, its share
/// balances to Q60 token amounts at the pool's current indices, and its
/// USD values at the market's price — all at Q60 width, so a position's
/// value never squeezes through a narrower integer. Each lookup or
/// conversion failure is the operation's failure.
pub open spec fn spec_resolve_position(
    p: crate::obligation::Position,
    assets: Seq<AssetMeta>,
    m: Market,
    cache: Option<Seq<PriceEntry>>,
    pools: Seq<Pool>,
) -> Result<ResolvedPosition, ZodialError> {
    match spec_find(assets, asset_mint_pred(p.mint)) {
        None => Err(ZodialError::AssetNotRegistered),
        Some(a) => match spec_find(pools, pool_mint_pred(p.mint)) {
            None => Err(ZodialError::PoolNotFound),
            Some(pool) => {
                let dep_q60 = q60_mul_spec(p.deposit_shares_q60, pool.deposit_fac_q60);
                if dep_q60 > u128::MAX {
                    Err(ZodialError::MathOverflow)
                } else {
                    let bor_q60 = q60_mul_spec(p.borrow_shares_q60, pool.borrow_fac_q60);
                    if bor_q60 > u128::MAX {
                        Err(ZodialError::MathOverflow)
                    } else {
                        match spec_price_for_index(m, cache, a.index) {
                            Err(e) => Err(e),
                            Ok(price) => Ok(
                                ResolvedPosition {
                                    asset_index: a.index,
                                    dep_value_q60: usd_value_q60_spec(
                                        dep_q60 as u128,
                                        a.decimals,
                                        price,
                                    ) as u128,
                                    bor_value_q60: usd_value_q60_spec(
                                        bor_q60 as u128,
                                        a.decimals,
                                        price,
                                    ) as u128,
                                },
                            ),
                        }
                    }
                }
            },
        },
    }
}

/// Prices every position in order; the first failure is the result.
pub open spec fn spec_resolve_all(
    positions: Seq<crate::obligation::Position>,
    assets: Seq<AssetMeta>,
    m: Market,
    cache: Option<Seq<PriceEntry>>,
    pools: Seq<Pool>,
) -> Result<Seq<ResolvedPosition>, ZodialError>
    decreases positions.len(),
{
    if positions.len() == 0 {
        Ok(Seq::empty())
    } else {
        match spec_resolve_position(positions[0], assets, m, cache, pools) {
            Err(e) => Err(e),
            Ok(rp) => match spec_resolve_all(positions.drop_first(), assets, m, cache, pools) {
                Err(e) => Err(e),
                Ok(rest) => Ok(seq![rp] + rest),
            },
        }
    }
}

/// A resolved prefix with a failing next position fails the whole
/// resolution with that position's error.
proof fn lemma_resolve_all_prefix_err(
    positions: Seq<crate::obligation::Position>,
    assets: Seq<AssetMeta>,
    m: Market,
    cache: Option<Seq<PriceEntry>>,
    pools: Seq<Pool>,
    i: int,
    e: ZodialError,
)
    requires
        0 <= i < positions.len(),
        forall|k: int| 0 <= k < i ==> spec_resolve_position(
            #[trigger] positions[k],
            assets,
            m,
            cache,
            pools,
        ) is Ok,
        spec_resolve_position(positions[i], assets, m, cache, pools) == Err::<
            ResolvedPosition,
            ZodialError,
        >(e),
    ensures
        spec_resolve_all(positions, assets, m, cache, pools) == Err::<
            Seq<ResolvedPosition>,
            ZodialError,
        >(e),
    decreases i,
{
    if i == 0 {
    } else {
        let t = positions.drop_first();
        assert(t[i - 1] == positions[i]);
        assert forall|k: int| 0 <= k < i - 1 implies spec_resolve_position(
            #[trigger] t[k],
            assets,
            m,
            cache,
            pools,
        ) is Ok by {
            assert(t[k] == positions[k + 1]);
        }
        lemma_resolve_all_prefix_err(t, assets, m, cache, pools, i - 1, e);
    }
}

/// Pointwise-resolved positions resolve as a whole, to exactly those
/// values.
proof fn lemma_resolve_all_ok(
    positions: Seq<crate::obligation::Position>,
    assets: Seq<AssetMeta>,
    m: Market,
    cache: Option<Seq<PriceEntry>>,
    pools: Seq<Pool>,
    rs: Seq<ResolvedPosition>,
)
    requires
        rs.len() == positions.len(),
        forall|k: int| 0 <= k < positions.len() ==> spec_resolve_position(
            #[trigger] positions[k],
            assets,
            m,
            cache,
            pools,
        ) == Ok::<ResolvedPosition, ZodialError>(rs[k]),
    ensures
        spec_resolve_all(positions, assets, m, cache, pools) == Ok::<
            Seq<ResolvedPosition>,
            ZodialError,
        >(rs),
    decreases positions.len(),
{
    if positions.len() == 0 {
        assert(rs =~= Seq::<ResolvedPosition>::empty());
    } else {
        let t = positions.drop_first();
        let ts = rs.drop_first();
        assert forall|k: int| 0 <= k < t.len() implies spec_resolve_position(
            #[trigger] t[k],
            assets,
            m,
            cache,
            pools,
        ) == Ok::<ResolvedPosition, ZodialError>(ts[k]) by {
            assert(t[k] == positions[k + 1]);
            assert(ts[k] == rs[k + 1]);
        }
        lemma_resolve_all_ok(t, assets, m, cache, pools, ts);
        assert(rs =~= seq![rs[0]] + ts);
    }
}

/// A successful resolution is pointwise: every position resolved, to the
/// value at its own place.
pub proof fn lemma_resolve_all_index(
    positions: Seq<crate::obligation::Position>,
    assets: Seq<AssetMeta>,
    m: Market,
    cache: Option<Seq<PriceEntry>>,
    pools: Seq<Pool>,
    rs: Seq<ResolvedPosition>,
)
    requires
        spec_resolve_all(positions, assets, m, cache, pools) == Ok::<
            Seq<ResolvedPosition>,
            ZodialError,
        >(rs),
    ensures
        rs.len() == positions.len(),
        forall|k: int| 0 <= k < positions.len() ==> spec_resolve_position(
            #[trigger] positions[k],
            assets,
            m,
            cache,
            pools,
        ) == Ok::<ResolvedPosition, ZodialError>(rs[k]),
    decreases positions.len(),
{
    if positions.len() > 0 {
        let t = positions.drop_first();
        match spec_resolve_position(positions[0], assets, m, cache, pools) {
            Err(_) => {},
            Ok(rp) => {
                match spec_resolve_all(t, assets, m, cache, pools) {
                    Err(_) => {},
                    Ok(rest) => {
                        lemma_resolve_all_index(t, assets, m, cache, pools, rest);
                        assert(rs == seq![rp] + rest);
                        assert(rs[0] == rp);
                        assert forall|k: int| 0 <= k < positions.len() implies
                            spec_resolve_position(
                            #[trigger] positions[k],
                            assets,
                            m,
                            cache,
                            pools,
                        ) == Ok::<ResolvedPosition, ZodialError>(rs[k]) by {
                            if k > 0 {
                                assert(positions[k] == t[k - 1]);
                                assert(rs[k] == rest[k - 1]);
                            }
                        }
                    },
                }
            },
        }
    }
}

/// Total borrow value of resolved positions: the saturating sum, in
/// order, of their borrow values.
pub open spec fn spec_total_borrow(rs: Seq<ResolvedPosition>) -> int
    decreases rs.len(),
{
    if rs.len() == 0 {
        0
    } else {
        sat_u128(spec_total_borrow(rs.drop_last()) + rs.last().bor_value_q60)
    }
}

/// The total borrow value is a u128.
pub proof fn lemma_total_borrow_bounds(rs: Seq<ResolvedPosition>)
    ensures
        0 <= spec_total_borrow(rs) <= u128::MAX,
    decreases rs.len(),
{
    if rs.len() > 0 {
        lemma_total_borrow_bounds(rs.drop_last());
    }
}

/// Share of one borrow in the total, in bps, rounded toward zero.
pub open spec fn spec_share_bps(bor_value_q60: u128, total_borrow_q60: u128) -> int
    recommends
        total_borrow_q60 > 0,
{
    sat_u128(bor_value_q60 * 10_000) / (total_borrow_q60 as int)
}

/// One borrow's contribution to a deposit's risk weight, in bps: the
/// pair's parameter scaled by the borrow's share of the total.
pub open spec fn spec_borrow_weight_bps(
    m: Market,
    rr: RiskRegistry,
    dep_index: u16,
    bor: ResolvedPosition,
    total_borrow_q60: u128,
    use_liq_threshold: bool,
) -> int {
    let param = spec_pair_param_bps(
        m,
        rr,
        dep_index as int,
        bor.asset_index as int,
        use_liq_threshold,
    );
    sat_u128(param * spec_share_bps(bor.bor_value_q60, total_borrow_q60)) / 10_000
}

/// A deposit's total risk weight in bps: the saturating sum of every
/// borrow's contribution.
pub open spec fn spec_risk_sum_bps(
    m: Market,
    rr: RiskRegistry,
    dep_index: u16,
    rs: Seq<ResolvedPosition>,
    total_borrow_q60: u128,
    use_liq_threshold: bool,
) -> int
    decreases rs.len(),
{
    if rs.len() == 0 {
        0
    } else {
        sat_u128(
            spec_risk_sum_bps(m, rr, dep_index, rs.drop_last(), total_borrow_q60, use_liq_threshold)
                + spec_borrow_weight_bps(m, rr, dep_index, rs.last(), total_borrow_q60, use_liq_threshold),
        )
    }
}

/// A deposit's risk weight is a non-negative u128.
pub proof fn lemma_risk_sum_bounds(
    m: Market,
    rr: RiskRegistry,
    dep_index: u16,
    rs: Seq<ResolvedPosition>,
    total_borrow_q60: u128,
    use_liq_threshold: bool,
)
    requires
        total_borrow_q60 > 0,
    ensures
        0 <= spec_risk_sum_bps(m, rr, dep_index, rs, total_borrow_q60, use_liq_threshold)
            <= u128::MAX,
    decreases rs.len(),
{
    if rs.len() > 0 {
        lemma_risk_sum_bounds(m, rr, dep_index, rs.drop_last(), total_borrow_q60, use_liq_threshold);
        let c = spec_borrow_weight_bps(m, rr, dep_index, rs.last(), total_borrow_q60, use_liq_threshold);
        assert(c >= 0) by {
            vstd::arithmetic::div_mod::lemma_div_pos_is_pos(
                sat_u128(
                    spec_pair_param_bps(
                        m,
                        rr,
                        dep_index as int,
                        rs.last().asset_index as int,
                        use_liq_threshold,
                    ) * spec_share_bps(rs.last().bor_value_q60, total_borrow_q60),
                ),
                10_000,
            );
            vstd::arithmetic::div_mod::lemma_div_pos_is_pos(
                sat_u128(rs.last().bor_value_q60 * 10_000),
                total_borrow_q60 as int,
            );
            assert(spec_pair_param_bps(
                m,
                rr,
                dep_index as int,
                rs.last().asset_index as int,
                use_liq_threshold,
            ) * spec_share_bps(rs.last().bor_value_q60, total_borrow_q60) >= 0) by (
            nonlinear_arith)
                requires
                    spec_share_bps(rs.last().bor_value_q60, total_borrow_q60) >= 0,
            ;
        }
    }
}

/// One deposit's weighted collateral value: its USD value scaled by its
/// risk weight.
pub open spec fn spec_weighted_value(
    m: Market,
    rr: RiskRegistry,
    dep: ResolvedPosition,
    rs: Seq<ResolvedPosition>,
    total_borrow_q60: u128,
    use_liq_threshold: bool,
) -> int {
    sat_u128(
        dep.dep_value_q60 * spec_risk_sum_bps(
            m,
            rr,
            dep.asset_index,
            rs,
            total_borrow_q60,
            use_liq_threshold,
        ),
    ) / 10_000
}

/// Total weighted collateral: the saturating sum over all deposits of
/// their weighted values, each weighted against every borrow.
pub open spec fn spec_weighted_collateral(
    m: Market,
    rr: RiskRegistry,
    deps: Seq<ResolvedPosition>,
    rs: Seq<ResolvedPosition>,
    total_borrow_q60: u128,
    use_liq_threshold: bool,
) -> int
    decreases deps.len(),
{
    if deps.len() == 0 {
        0
    } else {
        sat_u128(
            spec_weighted_collateral(m, rr, deps.drop_last(), rs, total_borrow_q60, use_liq_threshold)
                + spec_weighted_value(m, rr, deps.last(), rs, total_borrow_q60, use_liq_threshold),
        )
    }
}

/// The weighted collateral is a non-negative u128.
pub proof fn lemma_weighted_collateral_bounds(
    m: Market,
    rr: RiskRegistry,
    deps: Seq<ResolvedPosition>,
    rs: Seq<ResolvedPosition>,
    total_borrow_q60: u128,
    use_liq_threshold: bool,
)
    requires
        total_borrow_q60 > 0,
    ensures
        0 <= spec_weighted_collateral(m, rr, deps, rs, total_borrow_q60, use_liq_threshold)
            <= u128::MAX,
    decreases deps.len(),
{
    if deps.len() > 0 {
        lemma_weighted_collateral_bounds(m, rr, deps.drop_last(), rs, total_borrow_q60, use_liq_threshold);
        let dep = deps.last();
        lemma_risk_sum_bounds(m, rr, dep.asset_index, rs, total_borrow_q60, use_liq_threshold);
        let s = spec_risk_sum_bps(m, rr, dep.asset_index, rs, total_borrow_q60, use_liq_threshold);
        assert(dep.dep_value_q60 * s >= 0) by (nonlinear_arith)
            requires
                s >= 0,
        ;
        vstd::arithmetic::div_mod::lemma_div_pos_is_pos(sat_u128(dep.dep_value_q60 * s), 10_000);
    }
}

/// Health of resolved positions, ×1000: maximum value with no borrow
/// value; zero with no weighted collateral; otherwise
/// `weighted_collateral * 1000 / total_borrow`.
pub open spec fn spec_health_value(
    m: Market,
    rr: RiskRegistry,
    rs: Seq<ResolvedPosition>,
    use_liq_threshold: bool,
) -> int {
    let total = spec_total_borrow(rs);
    if total == 0 {
        u128::MAX as int
    } else {
        let wc = spec_weighted_collateral(m, rr, rs, rs, total as u128, use_liq_threshold);
        if wc == 0 {
            0
        } else {
            sat_u128(wc * 1000) / total
        }
    }
}

/// Health of an obligation's positions against registries, prices and
/// pools: the positions resolve to USD values and those score (see
/// `spec_health_value`); the first resolution failure is the result.
pub open spec fn spec_health_result(
    positions: Seq<crate::obligation::Position>,
    assets: Seq<AssetMeta>,
    m: Market,
    rr: RiskRegistry,
    cache: Option<Seq<PriceEntry>>,
    pools: Seq<Pool>,
    use_liq_threshold: bool,
) -> Result<u128, ZodialError> {
    match spec_resolve_all(positions, assets, m, cache, pools) {
        Err(e) => Err(e),
        Ok(rs) => Ok(spec_health_value(m, rr, rs, use_liq_threshold) as u128),
    }
}

/// Resolved positions without borrow value sum to a zero total.
proof fn lemma_total_borrow_zero(rs: Seq<ResolvedPosition>)
    requires
        forall|k: int| 0 <= k < rs.len() ==> (#[trigger] rs[k]).bor_value_q60 == 0,
    ensures
        spec_total_borrow(rs) == 0,
    decreases rs.len(),
{
    if rs.len() > 0 {
        lemma_total_borrow_zero(rs.drop_last());
    }
}

/// Law: an obligation whose positions carry no borrow shares — deposits
/// only — scores the maximum representable health, in either mode: the
/// terminal no-debt state, whenever the computation succeeds at all (and
/// the registry's decimals are within the Q60 range, as registration
/// guarantees).
pub proof fn lemma_health_max_without_borrows(
    positions: Seq<crate::obligation::Position>,
    assets: Seq<AssetMeta>,
    m: Market,
    rr: RiskRegistry,
    cache: Option<Seq<PriceEntry>>,
    pools: Seq<Pool>,
    use_liq_threshold: bool,
)
    requires
        forall|k: int| 0 <= k < positions.len() ==> (#[trigger] positions[k]).borrow_shares_q60
            == 0,
        forall|k: int| 0 <= k < assets.len() ==> (#[trigger] assets[k]).decimals <= 20,
        spec_health_result(positions, assets, m, rr, cache, pools, use_liq_threshold) is Ok,
    ensures
        spec_health_result(positions, assets, m, rr, cache, pools, use_liq_threshold) == Ok::<
            u128,
            ZodialError,
        >(u128::MAX),
{
    match spec_resolve_all(positions, assets, m, cache, pools) {
        Ok(rs) => {
            lemma_resolve_all_index(positions, assets, m, cache, pools, rs);
            assert forall|k: int| 0 <= k < rs.len() implies (#[trigger] rs[k]).bor_value_q60
                == 0 by {
                assert(spec_resolve_position(positions[k], assets, m, cache, pools) == Ok::<
                    ResolvedPosition,
                    ZodialError,
                >(rs[k]));
                assert(positions[k].borrow_shares_q60 == 0);
                match spec_find(pools, pool_mint_pred(positions[k].mint)) {
                    Some(pool) => {
                        assert(q60_mul_spec(0u128, pool.borrow_fac_q60) == 0) by {
                            assert(0u128 as int * pool.borrow_fac_q60 as int == 0) by (
                            nonlinear_arith);
                        }
                        match spec_find(assets, asset_mint_pred(positions[k].mint)) {
                            Some(a) => {
                                crate::lookup::lemma_find_index_props(
                                    assets,
                                    asset_mint_pred(positions[k].mint),
                                );
                                assert(a.decimals <= 20);
                                crate::math::lemma_pow10_pos(a.decimals as nat);
                                crate::math::lemma_pow10_le_20_bound(a.decimals);
                                match spec_price_for_index(m, cache, a.index) {
                                    Ok(price) => {
                                        assert(usd_value_q60_spec(0u128, a.decimals, price)
                                            == 0) by {
                                            assert(0u128 / (pow10(a.decimals as nat) as u128)
                                                == 0);
                                            assert(q60_mul_spec(0u128, price) == 0) by {
                                                assert(0u128 as int * price as int == 0) by (
                                                nonlinear_arith);
                                            }
                                        }
                                    },
                                    Err(_) => {},
                                }
                            },
                            None => {},
                        }
                    },
                    None => {},
                }
            }
            lemma_total_borrow_zero(rs);
        },
        Err(_) => {},
    }
}

/// Mapped images of multiset-equal sequences have multiset-equal images.
proof fn lemma_map_values_multiset<A, B>(s1: Seq<A>, s2: Seq<A>, f: spec_fn(A) -> B)
    requires
        s1.to_multiset() == s2.to_multiset(),
    ensures
        s1.map_values(f).to_multiset() == s2.map_values(f).to_multiset(),
    decreases s1.len(),
{
    broadcast use vstd::seq_lib::group_to_multiset_ensures;

    if s1.len() == 0 {
        assert(s2.len() == 0) by {
            assert(s1.to_multiset().len() == s1.len());
            assert(s2.to_multiset().len() == s2.len());
        }
        assert(s1.map_values(f) =~= s2.map_values(f));
    } else {
        let x = s1.last();
        let last = s1.len() - 1;
        assert(s1.contains(x));
        assert(s1.to_multiset().count(x) > 0);
        assert(s2.contains(x)) by {
            assert(s2.to_multiset().count(x) > 0);
        }
        let i = choose|j: int| 0 <= j < s2.len() && s2[j] == x;
        assert(s1.drop_last() =~= s1.remove(last));
        assert(s1.remove(last).to_multiset() =~= s1.to_multiset().remove(x));
        assert(s2.remove(i).to_multiset() =~= s2.to_multiset().remove(x));
        lemma_map_values_multiset(s1.drop_last(), s2.remove(i), f);
        assert(s1.map_values(f) =~= s1.drop_last().map_values(f).push(f(x)));
        assert(s1.map_values(f).to_multiset() =~= s1.drop_last().map_values(
            f,
        ).to_multiset().insert(f(x)));
        assert(s2.remove(i).map_values(f) =~= s2.map_values(f).remove(i));
        assert(s2.map_values(f)[i] == f(x));
        assert(s2.map_values(f).remove(i).to_multiset() =~= s2.map_values(f).to_multiset().remove(
            f(x),
        ));
        assert(s2.map_values(f).contains(f(x)));
        assert(s2.map_values(f).to_multiset().count(f(x)) > 0);
        assert(s2.map_values(f).to_multiset() =~= s2.map_values(f).to_multiset().remove(
            f(x),
        ).insert(f(x)));
    }
}

/// Named extractor of a resolved position's borrow value.
pub open spec fn bor_value_of() -> spec_fn(ResolvedPosition) -> u128 {
    |r: ResolvedPosition| r.bor_value_q60
}

/// The total borrow value is the saturating sum of the borrow values.
proof fn lemma_total_borrow_as_sat_sum(rs: Seq<ResolvedPosition>)
    ensures
        spec_total_borrow(rs) == sat_sum(rs.map_values(bor_value_of())),
    decreases rs.len(),
{
    if rs.len() > 0 {
        lemma_total_borrow_as_sat_sum(rs.drop_last());
        assert(rs.map_values(bor_value_of()).drop_last() =~= rs.drop_last().map_values(
            bor_value_of(),
        ));
        assert(rs.map_values(bor_value_of()).last() == bor_value_of()(rs.last()));
    }
}

/// Named per-borrow weight against one deposit, as a value.
pub open spec fn borrow_weight_of(
    m: Market,
    rr: RiskRegistry,
    dep_index: u16,
    total_borrow_q60: u128,
    use_liq_threshold: bool,
) -> spec_fn(ResolvedPosition) -> u128 {
    |r: ResolvedPosition|
        spec_borrow_weight_bps(m, rr, dep_index, r, total_borrow_q60, use_liq_threshold) as u128
}

/// A borrow's weight is a non-negative u128.
proof fn lemma_borrow_weight_bounds(
    m: Market,
    rr: RiskRegistry,
    dep_index: u16,
    r: ResolvedPosition,
    total_borrow_q60: u128,
    use_liq_threshold: bool,
)
    requires
        total_borrow_q60 > 0,
    ensures
        0 <= spec_borrow_weight_bps(m, rr, dep_index, r, total_borrow_q60, use_liq_threshold)
            <= u128::MAX,
{
    vstd::arithmetic::div_mod::lemma_div_pos_is_pos(
        sat_u128(r.bor_value_q60 * 10_000),
        total_borrow_q60 as int,
    );
    let share = spec_share_bps(r.bor_value_q60, total_borrow_q60);
    let param = spec_pair_param_bps(m, rr, dep_index as int, r.asset_index as int, use_liq_threshold);
    assert(param * share >= 0) by (nonlinear_arith)
        requires
            share >= 0,
            param >= 0,
    ;
    vstd::arithmetic::div_mod::lemma_div_pos_is_pos(sat_u128(param * share), 10_000);
    vstd::arithmetic::div_mod::lemma_div_nonincreasing(sat_u128(param * share), 10_000);
}

/// A deposit's risk weight is the saturating sum of the borrow weights.
proof fn lemma_risk_sum_as_sat_sum(
    m: Market,
    rr: RiskRegistry,
    dep_index: u16,
    rs: Seq<ResolvedPosition>,
    total_borrow_q60: u128,
    use_liq_threshold: bool,
)
    requires
        total_borrow_q60 > 0,
    ensures
        spec_risk_sum_bps(m, rr, dep_index, rs, total_borrow_q60, use_liq_threshold) == sat_sum(
            rs.map_values(borrow_weight_of(m, rr, dep_index, total_borrow_q60, use_liq_threshold)),
        ),
    decreases rs.len(),
{
    let f = borrow_weight_of(m, rr, dep_index, total_borrow_q60, use_liq_threshold);
    if rs.len() > 0 {
        lemma_risk_sum_as_sat_sum(m, rr, dep_index, rs.drop_last(), total_borrow_q60, use_liq_threshold);
        lemma_borrow_weight_bounds(m, rr, dep_index, rs.last(), total_borrow_q60, use_liq_threshold);
        assert(rs.map_values(f).drop_last() =~= rs.drop_last().map_values(f));
        assert(rs.map_values(f).last() == f(rs.last()));
    }
}

/// A deposit's risk weight depends only on the multiset of resolved
/// positions it is weighed against.
proof fn lemma_risk_sum_multiset(
    m: Market,
    rr: RiskRegistry,
    dep_index: u16,
    rs1: Seq<ResolvedPosition>,
    rs2: Seq<ResolvedPosition>,
    total_borrow_q60: u128,
    use_liq_threshold: bool,
)
    requires
        rs1.to_multiset() == rs2.to_multiset(),
        total_borrow_q60 > 0,
    ensures
        spec_risk_sum_bps(m, rr, dep_index, rs1, total_borrow_q60, use_liq_threshold)
            == spec_risk_sum_bps(m, rr, dep_index, rs2, total_borrow_q60, use_liq_threshold),
{
    let f = borrow_weight_of(m, rr, dep_index, total_borrow_q60, use_liq_threshold);
    lemma_risk_sum_as_sat_sum(m, rr, dep_index, rs1, total_borrow_q60, use_liq_threshold);
    lemma_risk_sum_as_sat_sum(m, rr, dep_index, rs2, total_borrow_q60, use_liq_threshold);
    lemma_map_values_multiset(rs1, rs2, f);
    crate::math::lemma_sat_sum_multiset(rs1.map_values(f), rs2.map_values(f));
}

/// Named weighted collateral value of one deposit, as a value.
pub open spec fn weighted_value_of(
    m: Market,
    rr: RiskRegistry,
    rs: Seq<ResolvedPosition>,
    total_borrow_q60: u128,
    use_liq_threshold: bool,
) -> spec_fn(ResolvedPosition) -> u128 {
    |r: ResolvedPosition|
        spec_weighted_value(m, rr, r, rs, total_borrow_q60, use_liq_threshold) as u128
}

/// One deposit's weighted value is a non-negative u128.
proof fn lemma_weighted_value_bounds(
    m: Market,
    rr: RiskRegistry,
    dep: ResolvedPosition,
    rs: Seq<ResolvedPosition>,
    total_borrow_q60: u128,
    use_liq_threshold: bool,
)
    requires
        total_borrow_q60 > 0,
    ensures
        0 <= spec_weighted_value(m, rr, dep, rs, total_borrow_q60, use_liq_threshold) <= u128::MAX,
{
    lemma_risk_sum_bounds(m, rr, dep.asset_index, rs, total_borrow_q60, use_liq_threshold);
    let s = spec_risk_sum_bps(m, rr, dep.asset_index, rs, total_borrow_q60, use_liq_threshold);
    assert(dep.dep_value_q60 * s >= 0) by (nonlinear_arith)
        requires
            s >= 0,
    ;
    vstd::arithmetic::div_mod::lemma_div_pos_is_pos(sat_u128(dep.dep_value_q60 * s), 10_000);
    vstd::arithmetic::div_mod::lemma_div_nonincreasing(sat_u128(dep.dep_value_q60 * s), 10_000);
}

/// The weighted collateral is the saturating sum of the weighted values.
proof fn lemma_weighted_as_sat_sum(
    m: Market,
    rr: RiskRegistry,
    deps: Seq<ResolvedPosition>,
    rs: Seq<ResolvedPosition>,
    total_borrow_q60: u128,
    use_liq_threshold: bool,
)
    requires
        total_borrow_q60 > 0,
    ensures
        spec_weighted_collateral(m, rr, deps, rs, total_borrow_q60, use_liq_threshold) == sat_sum(
            deps.map_values(weighted_value_of(m, rr, rs, total_borrow_q60, use_liq_threshold)),
        ),
    decreases deps.len(),
{
    let f = weighted_value_of(m, rr, rs, total_borrow_q60, use_liq_threshold);
    if deps.len() > 0 {
        lemma_weighted_as_sat_sum(m, rr, deps.drop_last(), rs, total_borrow_q60, use_liq_threshold);
        lemma_weighted_value_bounds(m, rr, deps.last(), rs, total_borrow_q60, use_liq_threshold);
        assert(deps.map_values(f).drop_last() =~= deps.drop_last().map_values(f));
        assert(deps.map_values(f).last() == f(deps.last()));
    }
}

/// The health value of resolved positions depends only on their multiset.
proof fn lemma_health_value_multiset(
    m: Market,
    rr: RiskRegistry,
    rs1: Seq<ResolvedPosition>,
    rs2: Seq<ResolvedPosition>,
    use_liq_threshold: bool,
)
    requires
        rs1.to_multiset() == rs2.to_multiset(),
    ensures
        spec_health_value(m, rr, rs1, use_liq_threshold) == spec_health_value(
            m,
            rr,
            rs2,
            use_liq_threshold,
        ),
{
    lemma_total_borrow_as_sat_sum(rs1);
    lemma_total_borrow_as_sat_sum(rs2);
    lemma_map_values_multiset(rs1, rs2, bor_value_of());
    crate::math::lemma_sat_sum_multiset(
        rs1.map_values(bor_value_of()),
        rs2.map_values(bor_value_of()),
    );
    lemma_total_borrow_bounds(rs1);
    let total = spec_total_borrow(rs1);
    if total != 0 {
        let t = total as u128;
        let w1 = weighted_value_of(m, rr, rs1, t, use_liq_threshold);
        let w2 = weighted_value_of(m, rr, rs2, t, use_liq_threshold);
        lemma_weighted_as_sat_sum(m, rr, rs1, rs1, t, use_liq_threshold);
        lemma_weighted_as_sat_sum(m, rr, rs2, rs2, t, use_liq_threshold);
        assert(rs1.map_values(w1) =~= rs1.map_values(w2)) by {
            assert forall|k: int| 0 <= k < rs1.len() implies rs1.map_values(w1)[k]
                == rs1.map_values(w2)[k] by {
                lemma_risk_sum_multiset(
                    m,
                    rr,
                    rs1[k].asset_index,
                    rs1,
                    rs2,
                    t,
                    use_liq_threshold,
                );
            }
        }
        lemma_map_values_multiset(rs1, rs2, w2);
        crate::math::lemma_sat_sum_multiset(rs1.map_values(w2), rs2.map_values(w2));
    }
}

/// The value each position resolves to (meaningful where resolution
/// succeeds).
pub open spec fn resolved_value_of(
    assets: Seq<AssetMeta>,
    m: Market,
    cache: Option<Seq<PriceEntry>>,
    pools: Seq<Pool>,
) -> spec_fn(crate::obligation::Position) -> ResolvedPosition {
    |p: crate::obligation::Position|
        match spec_resolve_position(p, assets, m, cache, pools) {
            Ok(rp) => rp,
            Err(_) => ResolvedPosition { asset_index: 0, dep_value_q60: 0, bor_value_q60: 0 },
        }
}

/// Law: the health score is deterministic and independent of the order
/// in which positions are iterated. Two obligations holding the same
/// positions, however arranged, score identically — including which of
/// them resolves at all — whenever the first one resolves.
pub proof fn lemma_health_order_independent(
    positions1: Seq<crate::obligation::Position>,
    positions2: Seq<crate::obligation::Position>,
    assets: Seq<AssetMeta>,
    m: Market,
    rr: RiskRegistry,
    cache: Option<Seq<PriceEntry>>,
    pools: Seq<Pool>,
    use_liq_threshold: bool,
)
    requires
        positions1.to_multiset() == positions2.to_multiset(),
        spec_health_result(positions1, assets, m, rr, cache, pools, use_liq_threshold) is Ok,
    ensures
        spec_health_result(positions2, assets, m, rr, cache, pools, use_liq_threshold)
            == spec_health_result(positions1, assets, m, rr, cache, pools, use_liq_threshold),
{
    broadcast use vstd::seq_lib::group_to_multiset_ensures;

    let g = resolved_value_of(assets, m, cache, pools);
    match spec_resolve_all(positions1, assets, m, cache, pools) {
        Err(_) => {},
        Ok(rs1) => {
            lemma_resolve_all_index(positions1, assets, m, cache, pools, rs1);
            assert(positions1.to_multiset().len() == positions1.len());
            assert(positions2.to_multiset().len() == positions2.len());
            assert forall|k: int| 0 <= k < positions2.len() implies spec_resolve_position(
                #[trigger] positions2[k],
                assets,
                m,
                cache,
                pools,
            ) == Ok::<ResolvedPosition, ZodialError>(g(positions2[k])) by {
                let x = positions2[k];
                assert(positions2.contains(x));
                assert(positions2.to_multiset().count(x) > 0);
                assert(positions1.contains(x)) by {
                    assert(positions1.to_multiset().count(x) > 0);
                }
                let j = choose|j: int| 0 <= j < positions1.len() && positions1[j] == x;
                assert(spec_resolve_position(positions1[j], assets, m, cache, pools) == Ok::<
                    ResolvedPosition,
                    ZodialError,
                >(rs1[j]));
            }
            let rs2 = positions2.map_values(g);
            lemma_resolve_all_ok(positions2, assets, m, cache, pools, rs2);
            assert(rs1 =~= positions1.map_values(g)) by {
                assert forall|k: int| 0 <= k < positions1.len() implies rs1[k] == g(
                    positions1[k],
                ) by {
                    assert(spec_resolve_position(positions1[k], assets, m, cache, pools) == Ok::<
                        ResolvedPosition,
                        ZodialError,
                    >(rs1[k]));
                }
            }
            lemma_map_values_multiset(positions1, positions2, g);
            lemma_health_value_multiset(m, rr, rs1, rs2, use_liq_threshold);
        },
    }
}

/// Positions that resolve identically under two contexts resolve
/// identically as a whole.
proof fn lemma_resolve_all_congruent(
    positions: Seq<crate::obligation::Position>,
    assets1: Seq<AssetMeta>,
    assets2: Seq<AssetMeta>,
    m: Market,
    cache: Option<Seq<PriceEntry>>,
    pools1: Seq<Pool>,
    pools2: Seq<Pool>,
)
    requires
        forall|k: int| 0 <= k < positions.len() ==> spec_resolve_position(
            #[trigger] positions[k],
            assets2,
            m,
            cache,
            pools2,
        ) == spec_resolve_position(positions[k], assets1, m, cache, pools1),
    ensures
        spec_resolve_all(positions, assets2, m, cache, pools2) == spec_resolve_all(
            positions,
            assets1,
            m,
            cache,
            pools1,
        ),
    decreases positions.len(),
{
    if positions.len() > 0 {
        let t = positions.drop_first();
        assert forall|k: int| 0 <= k < t.len() implies spec_resolve_position(
            #[trigger] t[k],
            assets2,
            m,
            cache,
            pools2,
        ) == spec_resolve_position(t[k], assets1, m, cache, pools1) by {
            assert(t[k] == positions[k + 1]);
        }
        lemma_resolve_all_congruent(t, assets1, assets2, m, cache, pools1, pools2);
    }
}

/// Law: the health result also sees through any rearrangement of the
/// supplied pool list and of the asset registry, provided neither names
/// a mint twice — each position resolves through the one entry for its
/// mint, wherever it sits.
pub proof fn lemma_health_context_order_independent(
    positions: Seq<crate::obligation::Position>,
    assets1: Seq<AssetMeta>,
    assets2: Seq<AssetMeta>,
    m: Market,
    rr: RiskRegistry,
    cache: Option<Seq<PriceEntry>>,
    pools1: Seq<Pool>,
    pools2: Seq<Pool>,
    use_liq_threshold: bool,
)
    requires
        assets1.to_multiset() == assets2.to_multiset(),
        pools1.to_multiset() == pools2.to_multiset(),
        forall|i: int, j: int| 0 <= i < j < assets1.len() ==> (#[trigger] assets1[i]).mint != (
        #[trigger] assets1[j]).mint,
        forall|i: int, j: int| 0 <= i < j < pools1.len() ==> (#[trigger] pools1[i]).mint != (
        #[trigger] pools1[j]).mint,
    ensures
        spec_health_result(positions, assets2, m, rr, cache, pools2, use_liq_threshold)
            == spec_health_result(positions, assets1, m, rr, cache, pools1, use_liq_threshold),
{
    assert forall|k: int| 0 <= k < positions.len() implies spec_resolve_position(
        #[trigger] positions[k],
        assets2,
        m,
        cache,
        pools2,
    ) == spec_resolve_position(positions[k], assets1, m, cache, pools1) by {
        let mint = positions[k].mint;
        assert forall|x: int, y: int|
            0 <= x < assets1.len() && 0 <= y < assets1.len() && asset_mint_pred(mint)(
                #[trigger] assets1[x],
            ) && asset_mint_pred(mint)(#[trigger] assets1[y]) implies assets1[x]
            == assets1[y] by {
            if x < y {
                assert(assets1[x].mint != assets1[y].mint);
            } else if y < x {
                assert(assets1[y].mint != assets1[x].mint);
            }
        }
        assert forall|x: int, y: int|
            0 <= x < pools1.len() && 0 <= y < pools1.len() && pool_mint_pred(mint)(
                #[trigger] pools1[x],
            ) && pool_mint_pred(mint)(#[trigger] pools1[y]) implies pools1[x] == pools1[y] by {
            if x < y {
                assert(pools1[x].mint != pools1[y].mint);
            } else if y < x {
                assert(pools1[y].mint != pools1[x].mint);
            }
        }
        crate::lookup::lemma_find_multiset(assets1, assets2, asset_mint_pred(mint));
        crate::lookup::lemma_find_multiset(pools1, pools2, pool_mint_pred(mint));
    }
    lemma_resolve_all_congruent(positions, assets1, assets2, m, cache, pools1, pools2);
}

/// Position of the first pool for `mint` in a supplied pool list.
pub fn find_pool(pools: &Vec<Pool>, mint: u64) -> (r: Option<usize>)
    ensures
        match r {
            Some(i) => spec_find_index(pools@, pool_mint_pred(mint)) == i as int && i
                < pools@.len() && pools@[i as int].mint == mint,
            None => spec_find_index(pools@, pool_mint_pred(mint)) == -1,
        },
{
    let mut i: usize = 0;
    while i < pools.len()
        invariant
            i <= pools@.len(),
            forall|k: int| 0 <= k < i ==> (#[trigger] pools@[k]).mint != mint,
        decreases pools@.len() - i,
    {
        if pools[i].mint == mint {
            proof {
                lemma_find_index_of_witness(pools@, pool_mint_pred(mint), i as int);
            }
            return Some(i);
        }
        i = i + 1;
    }
    proof {
        lemma_find_index_of_no_witness(pools@, pool_mint_pred(mint));
    }
    None
}

/// Shared health computation (see `spec_health_result`).
#[verifier::loop_isolation(false)]
fn compute_health_core(
    obligation: &Obligation,
    market: &Market,
    assets: &AssetRegistry,
    risk: &RiskRegistry,
    price_cache: Option<&PriceCache>,
    pools: &Vec<Pool>,
    use_liq_threshold: bool,
) -> (r: Result<u128, ZodialError>)
    requires
        assets.wf(),
    ensures
        r == spec_health_result(
            obligation.positions@,
            assets.assets@,
            *market,
            *risk,
            spec_cache_prices(price_cache),
            pools@,
            use_liq_threshold,
        ),
{
    let ghost positions = obligation.positions@;
    let ghost cache = spec_cache_prices(price_cache);

    let mut resolved: Vec<ResolvedPosition> = Vec::new();
    let mut i: usize = 0;
    while i < obligation.positions.len()
        invariant
            i <= positions.len(),
            resolved@.len() == i,
            forall|k: int| 0 <= k < i ==> spec_resolve_position(
                #[trigger] positions[k],
                assets.assets@,
                *market,
                cache,
                pools@,
            ) == Ok::<ResolvedPosition, ZodialError>(resolved@[k]),
        decreases positions.len() - i,
    {
        let pos = obligation.positions[i];
        let (asset_index, decimals): (u16, u8) = match assets.find_asset(pos.mint) {
            Some(a_i) => (assets.assets[a_i].index, assets.assets[a_i].decimals),
            None => {
                proof {
                    lemma_resolve_all_prefix_err(
                        positions,
                        assets.assets@,
                        *market,
                        cache,
                        pools@,
                        i as int,
                        ZodialError::AssetNotRegistered,
                    );
                }
                return Err(ZodialError::AssetNotRegistered);
            },
        };
        let pool: Pool = match find_pool(pools, pos.mint) {
            Some(p_i) => pools[p_i],
            None => {
                proof {
                    lemma_resolve_all_prefix_err(
                        positions,
                        assets.assets@,
                        *market,
                        cache,
                        pools@,
                        i as int,
                        ZodialError::PoolNotFound,
                    );
                }
                return Err(ZodialError::PoolNotFound);
            },
        };
        let dep_q60: u128 = match q60_mul(pos.deposit_shares_q60, pool.deposit_fac_q60) {
            Some(v) => v,
            None => {
                proof {
                    lemma_resolve_all_prefix_err(
                        positions,
                        assets.assets@,
                        *market,
                        cache,
                        pools@,
                        i as int,
                        ZodialError::MathOverflow,
                    );
                }
                return Err(ZodialError::MathOverflow);
            },
        };
        let bor_q60: u128 = match q60_mul(pos.borrow_shares_q60, pool.borrow_fac_q60) {
            Some(v) => v,
            None => {
                proof {
                    lemma_resolve_all_prefix_err(
                        positions,
                        assets.assets@,
                        *market,
                        cache,
                        pools@,
                        i as int,
                        ZodialError::MathOverflow,
                    );
                }
                return Err(ZodialError::MathOverflow);
            },
        };
        let price: u128 = match price_for_index_q60(market, price_cache, asset_index) {
            Ok(p) => p,
            Err(e) => {
                proof {
                    lemma_resolve_all_prefix_err(
                        positions,
                        assets.assets@,
                        *market,
                        cache,
                        pools@,
                        i as int,
                        e,
                    );
                }
                return Err(e);
            },
        };
        let dep_value: u128 = amount_q60_to_usd_q60(dep_q60, decimals, price);
        let bor_value: u128 = amount_q60_to_usd_q60(bor_q60, decimals, price);
        resolved.push(ResolvedPosition { asset_index, dep_value_q60: dep_value, bor_value_q60: bor_value });
        proof {
            assert(spec_resolve_position(positions[i as int], assets.assets@, *market, cache, pools@)
                == Ok::<ResolvedPosition, ZodialError>(resolved@[i as int]));
        }
        i = i + 1;
    }
    proof {
        lemma_resolve_all_ok(positions, assets.assets@, *market, cache, pools@, resolved@);
    }
    let ghost rs = resolved@;

    let mut total_borrow: u128 = 0;
    let mut j: usize = 0;
    while j < resolved.len()
        invariant
            j <= rs.len(),
            resolved@ == rs,
            total_borrow == spec_total_borrow(rs.subrange(0, j as int)),
        decreases rs.len() - j,
    {
        total_borrow = sat_add_u128(total_borrow, resolved[j].bor_value_q60);
        j = j + 1;
        proof {
            assert(rs.subrange(0, j as int).drop_last() =~= rs.subrange(0, j - 1));
        }
    }
    proof {
        assert(rs.subrange(0, rs.len() as int) =~= rs);
    }

    if total_borrow == 0 {
        return Ok(u128::MAX);
    }

    let mut weighted: u128 = 0;
    let mut d: usize = 0;
    while d < resolved.len()
        invariant
            d <= rs.len(),
            resolved@ == rs,
            total_borrow == spec_total_borrow(rs),
            total_borrow > 0,
            weighted == spec_weighted_collateral(
                *market,
                *risk,
                rs.subrange(0, d as int),
                rs,
                total_borrow,
                use_liq_threshold,
            ),
        decreases rs.len() - d,
    {
        let dep = resolved[d];
        let mut risk_sum: u128 = 0;
        let mut b: usize = 0;
        while b < resolved.len()
            invariant
                b <= rs.len(),
                resolved@ == rs,
                risk_sum == spec_risk_sum_bps(
                    *market,
                    *risk,
                    dep.asset_index,
                    rs.subrange(0, b as int),
                    total_borrow,
                    use_liq_threshold,
                ),
            decreases rs.len() - b,
        {
            let bor = resolved[b];
            let param = pair_param_bps(market, risk, dep.asset_index, bor.asset_index, use_liq_threshold);
            let share = sat_mul_u128(bor.bor_value_q60, 10_000) / total_borrow;
            let weight = sat_mul_u128(param as u128, share) / 10_000;
            risk_sum = sat_add_u128(risk_sum, weight);
            b = b + 1;
            proof {
                assert(rs.subrange(0, b as int).drop_last() =~= rs.subrange(0, b - 1));
            }
        }
        proof {
            assert(rs.subrange(0, rs.len() as int) =~= rs);
        }
        let w = sat_mul_u128(dep.dep_value_q60, risk_sum) / 10_000;
        weighted = sat_add_u128(weighted, w);
        d = d + 1;
        proof {
            assert(rs.subrange(0, d as int).drop_last() =~= rs.subrange(0, d - 1));
        }
    }
    proof {
        assert(rs.subrange(0, rs.len() as int) =~= rs);
    }

    if weighted == 0 {
        return Ok(0);
    }
    let health = sat_mul_u128(weighted, 1000) / total_borrow;
    Ok(health)
}

/// Health score ×1000 of an obligation, LTV mode: used to gate borrow
/// and withdraw. At least 1000 is healthy (see `spec_health_result`).
pub fn compute_health_score_q3(
    obligation: &Obligation,
    market: &Market,
    assets: &AssetRegistry,
    risk: &RiskRegistry,
    price_cache: Option<&PriceCache>,
    pools: &Vec<Pool>,
) -> (r: Result<u128, ZodialError>)
    requires
        assets.wf(),
    ensures
        r == spec_health_result(
            obligation.positions@,
            assets.assets@,
            *market,
            *risk,
            spec_cache_prices(price_cache),
            pools@,
            false,
        ),
{
    compute_health_core(obligation, market, assets, risk, price_cache, pools, false)
}

/// Health score ×1000 of an obligation, liquidation-threshold mode: a
/// position below 1000 here is liquidatable (see `spec_health_result`).
pub fn compute_liquidation_health_score_q3(
    obligation: &Obligation,
    market: &Market,
    assets: &AssetRegistry,
    risk: &RiskRegistry,
    price_cache: Option<&PriceCache>,
    pools: &Vec<Pool>,
) -> (r: Result<u128, ZodialError>)
    requires
        assets.wf(),
    ensures
        r == spec_health_result(
            obligation.positions@,
            assets.assets@,
            *market,
            *risk,
            spec_cache_prices(price_cache),
            pools@,
            true,
        ),
{
    compute_health_core(obligation, market, assets, risk, price_cache, pools, true)
}

/// Computes the LTV-mode health score and demands it healthy: the score
/// when it is at least 1000, `HealthCheckFailed` when it computes below
/// that, and the computation's own error otherwise.
pub fn assert_healthy_at_least_1(
    obligation: &Obligation,
    market: &Market,
    assets: &AssetRegistry,
    risk: &RiskRegistry,
    price_cache: Option<&PriceCache>,
    pools: &Vec<Pool>,
) -> (r: Result<u128, ZodialError>)
    requires
        assets.wf(),
    ensures
        r == (match spec_health_result(
            obligation.positions@,
            assets.assets@,
            *market,
            *risk,
            spec_cache_prices(price_cache),
            pools@,
            false,
        ) {
            Ok(h) => if h >= 1000 {
                Ok::<u128, ZodialError>(h)
            } else {
                Err::<u128, ZodialError>(ZodialError::HealthCheckFailed)
            },
            Err(e) => Err::<u128, ZodialError>(e),
        }),
{
    let health = match compute_health_score_q3(obligation, market, assets, risk, price_cache, pools) {
        Ok(h) => h,
        Err(e) => {
            return Err(e);
        },
    };
    if health < 1000 {
        return Err(ZodialError::HealthCheckFailed);
    }
    Ok(health)
}

} // verus!
