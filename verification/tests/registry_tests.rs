use zodial_core::errors::ZodialError;
use zodial_core::market::{init_market, InitMarketArgs, PriceMode};
use zodial_core::math::Q60;
use zodial_core::prices::{price_for_index_q60, update_prices, PriceUpdate};
use zodial_core::registry::{register_asset, RegisterAssetArgs};
use zodial_core::pool::init_pool;
use zodial_core::rate_model::RateModel;
use zodial_core::risk::{set_risk_pair, set_risk_pairs_batch, tri_index, RiskPairEntry,
    SetRiskPairArgs, SetRiskPairsBatchArgs};

fn default_args() -> InitMarketArgs {
    InitMarketArgs {
        max_assets: 8,
        max_positions: 4,
        default_ltv_bps: 5000,
        default_liq_threshold_bps: 6000,
        default_liq_bonus_bps: 300,
        price_mode: PriceMode::Cache,
        pyth_max_age_secs: 60,
    }
}

fn asset_args(mint: u64, decimals: u8) -> RegisterAssetArgs {
    RegisterAssetArgs {
        mint,
        decimals,
        pyth_price: 0,
        pyth_feed_id: None,
        enabled_as_collateral: true,
    }
}

#[test]
fn init_market_sets_configuration() {
    let (m, ar, rr, pc) = init_market(7, 42, default_args()).unwrap();
    assert_eq!(m.authority, 7);
    assert_eq!(m.max_assets, 8);
    assert_eq!(m.max_positions, 4);
    assert_eq!(m.version, 1);
    assert!(!m.paused);
    assert_eq!(ar.market, 42);
    assert_eq!(ar.count, 0);
    assert_eq!(rr.dim, 0);
    assert_eq!(pc.prices.len(), 0);
}

#[test]
fn init_market_rejects_excess_caps() {
    let too_many_assets = InitMarketArgs { max_assets: 34, ..default_args() };
    assert_eq!(init_market(7, 42, too_many_assets).unwrap_err(), ZodialError::ExceedsMaxAssets);
    let too_many_positions = InitMarketArgs { max_positions: 17, ..default_args() };
    assert_eq!(
        init_market(7, 42, too_many_positions).unwrap_err(),
        ZodialError::ExceedsMaxPositions
    );
}

#[test]
fn register_asset_assigns_dense_indices() {
    let (m, mut ar, mut rr, _) = init_market(7, 42, default_args()).unwrap();
    assert_eq!(register_asset(&m, &mut ar, &mut rr, asset_args(101, 18)), Ok(0));
    assert_eq!(register_asset(&m, &mut ar, &mut rr, asset_args(202, 6)), Ok(1));
    assert_eq!(ar.count, 2);
    assert_eq!(rr.dim, 2);
    assert_eq!(ar.assets[0].mint, 101);
    assert_eq!(ar.assets[1].index, 1);
}

#[test]
fn register_asset_respects_market_cap() {
    let args = InitMarketArgs { max_assets: 1, ..default_args() };
    let (m, mut ar, mut rr, _) = init_market(7, 42, args).unwrap();
    assert_eq!(register_asset(&m, &mut ar, &mut rr, asset_args(101, 6)), Ok(0));
    assert_eq!(
        register_asset(&m, &mut ar, &mut rr, asset_args(202, 6)),
        Err(ZodialError::ExceedsMaxAssets)
    );
    assert_eq!(ar.count, 1);
    assert_eq!(rr.dim, 1);
}

#[test]
fn tri_index_is_symmetric() {
    assert_eq!(tri_index(1, 3, 5), tri_index(3, 1, 5));
    for dim in 1u16..5 {
        for i in 0..dim {
            for j in 0..dim {
                assert_eq!(tri_index(i, j, dim), tri_index(j, i, dim));
                assert!(tri_index(i, j, dim) < (dim as usize * (dim as usize + 1)) / 2);
            }
        }
    }
}

#[test]
fn tri_index_small_dims_exhaustive() {
    // dim 2: cells (0,0)=0, (0,1)=1, (1,1)=2.
    assert_eq!(tri_index(0, 0, 2), 0);
    assert_eq!(tri_index(0, 1, 2), 1);
    assert_eq!(tri_index(1, 1, 2), 2);
    // dim 3 row starts: (0,_)=0..2, (1,_)=3..4, (2,2)=5.
    assert_eq!(tri_index(1, 1, 3), 3);
    assert_eq!(tri_index(1, 2, 3), 4);
    assert_eq!(tri_index(2, 2, 3), 5);
}

#[test]
fn set_risk_pair_grows_and_writes() {
    let (m, mut ar, mut rr, _) = init_market(7, 42, default_args()).unwrap();
    register_asset(&m, &mut ar, &mut rr, asset_args(101, 18)).unwrap();
    register_asset(&m, &mut ar, &mut rr, asset_args(202, 6)).unwrap();
    let args = SetRiskPairArgs {
        a_mint: 101,
        b_mint: 202,
        ltv_bps: 8000,
        liq_threshold_bps: 8500,
        liq_bonus_bps: 500,
    };
    assert_eq!(set_risk_pair(&m, &ar, &mut rr, args), Ok(()));
    assert_eq!(rr.pairs.len(), 3);
    // Unset cells hold the market defaults.
    assert_eq!(rr.pairs[0].ltv_bps, 5000);
    let p = rr.get_pair(0, 1).unwrap();
    assert_eq!(p.ltv_bps, 8000);
    assert_eq!(p.liq_threshold_bps, 8500);
    assert_eq!(p.liq_bonus_bps, 500);
    // The unordered pair reads the same both ways.
    let q = rr.get_pair(1, 0).unwrap();
    assert_eq!(q.ltv_bps, 8000);
}

#[test]
fn set_risk_pair_unknown_mint_changes_nothing() {
    let (m, mut ar, mut rr, _) = init_market(7, 42, default_args()).unwrap();
    register_asset(&m, &mut ar, &mut rr, asset_args(101, 18)).unwrap();
    let args = SetRiskPairArgs {
        a_mint: 101,
        b_mint: 999,
        ltv_bps: 8000,
        liq_threshold_bps: 8500,
        liq_bonus_bps: 500,
    };
    assert_eq!(set_risk_pair(&m, &ar, &mut rr, args), Err(ZodialError::AssetNotRegistered));
    assert_eq!(rr.pairs.len(), 0);
}

#[test]
fn set_risk_pairs_batch_writes_all_entries() {
    let (m, mut ar, mut rr, _) = init_market(7, 42, default_args()).unwrap();
    register_asset(&m, &mut ar, &mut rr, asset_args(101, 18)).unwrap();
    register_asset(&m, &mut ar, &mut rr, asset_args(202, 6)).unwrap();
    let batch = SetRiskPairsBatchArgs {
        pairs: vec![
            RiskPairEntry {
                a_index: 0,
                b_index: 1,
                ltv_bps: 7000,
                liq_threshold_bps: 7500,
                liq_bonus_bps: 400,
            },
            RiskPairEntry {
                a_index: 1,
                b_index: 1,
                ltv_bps: 9000,
                liq_threshold_bps: 9500,
                liq_bonus_bps: 100,
            },
        ],
    };
    assert_eq!(set_risk_pairs_batch(&m, &ar, &mut rr, &batch), Ok(()));
    assert_eq!(rr.get_pair(1, 0).unwrap().ltv_bps, 7000);
    assert_eq!(rr.get_pair(1, 1).unwrap().liq_threshold_bps, 9500);
}

#[test]
fn set_risk_pairs_batch_rejects_out_of_range_atomically() {
    let (m, mut ar, mut rr, _) = init_market(7, 42, default_args()).unwrap();
    register_asset(&m, &mut ar, &mut rr, asset_args(101, 18)).unwrap();
    let batch = SetRiskPairsBatchArgs {
        pairs: vec![
            RiskPairEntry {
                a_index: 0,
                b_index: 5,
                ltv_bps: 7000,
                liq_threshold_bps: 7500,
                liq_bonus_bps: 400,
            },
        ],
    };
    assert_eq!(
        set_risk_pairs_batch(&m, &ar, &mut rr, &batch),
        Err(ZodialError::AssetNotRegistered)
    );
    assert_eq!(rr.pairs.len(), 0);
}

#[test]
fn update_prices_requires_cache_mode() {
    let mock = InitMarketArgs { price_mode: PriceMode::Mock, ..default_args() };
    let (m, mut ar, mut rr, mut pc) = init_market(7, 42, mock).unwrap();
    register_asset(&m, &mut ar, &mut rr, asset_args(101, 6)).unwrap();
    let updates = vec![PriceUpdate { mint: 101, price_q60: Q60 }];
    assert_eq!(
        update_prices(&m, &ar, &mut pc, &updates, 5),
        Err(ZodialError::UnsupportedMode)
    );
}

#[test]
fn update_prices_upserts_and_advances_slot() {
    let (m, mut ar, mut rr, mut pc) = init_market(7, 42, default_args()).unwrap();
    register_asset(&m, &mut ar, &mut rr, asset_args(101, 6)).unwrap();
    register_asset(&m, &mut ar, &mut rr, asset_args(202, 6)).unwrap();
    let first = vec![
        PriceUpdate { mint: 101, price_q60: Q60 },
        PriceUpdate { mint: 202, price_q60: 2 * Q60 },
    ];
    assert_eq!(update_prices(&m, &ar, &mut pc, &first, 5), Ok(()));
    assert_eq!(pc.prices.len(), 2);
    assert_eq!(pc.last_slot, 5);
    assert_eq!(price_for_index_q60(&m, Some(&pc), 1), Ok(2 * Q60));
    // Overwriting keeps one entry per asset.
    let second = vec![PriceUpdate { mint: 202, price_q60: 3 * Q60 }];
    assert_eq!(update_prices(&m, &ar, &mut pc, &second, 9), Ok(()));
    assert_eq!(pc.prices.len(), 2);
    assert_eq!(pc.last_slot, 9);
    assert_eq!(price_for_index_q60(&m, Some(&pc), 1), Ok(3 * Q60));
}

#[test]
fn update_prices_rejects_unknown_mint_atomically() {
    let (m, mut ar, mut rr, mut pc) = init_market(7, 42, default_args()).unwrap();
    register_asset(&m, &mut ar, &mut rr, asset_args(101, 6)).unwrap();
    let updates = vec![
        PriceUpdate { mint: 101, price_q60: Q60 },
        PriceUpdate { mint: 999, price_q60: Q60 },
    ];
    assert_eq!(
        update_prices(&m, &ar, &mut pc, &updates, 5),
        Err(ZodialError::AssetNotRegistered)
    );
    assert_eq!(pc.prices.len(), 0);
    assert_eq!(pc.last_slot, 0);
}

#[test]
fn price_resolution_modes() {
    let mock = InitMarketArgs { price_mode: PriceMode::Mock, ..default_args() };
    let (mm, _, _, _) = init_market(7, 42, mock).unwrap();
    // Mock mode prices everything at one, cache or not.
    assert_eq!(price_for_index_q60(&mm, None, 3), Ok(Q60));

    let (cm, _, _, pc) = init_market(7, 43, default_args()).unwrap();
    // Cache mode without a cache, or without the entry, is stale.
    assert_eq!(price_for_index_q60(&cm, None, 0), Err(ZodialError::PriceStale));
    assert_eq!(price_for_index_q60(&cm, Some(&pc), 0), Err(ZodialError::PriceStale));
}

#[test]
fn init_pool_requires_a_registered_asset() {
    let (m, mut ar, mut rr, _) = init_market(7, 42, default_args()).unwrap();
    register_asset(&m, &mut ar, &mut rr, asset_args(101, 6)).unwrap();
    let rate = RateModel {
        kink_util_bps: 8000,
        base_borrow_apy_bps: 200,
        slope1_bps: 1000,
        slope2_bps: 30000,
        reserve_factor_bps: 1000,
        max_borrow_apy_bps: 40000,
    };
    let p = init_pool(&ar, 42, 101, rate, 77).unwrap();
    assert_eq!(p.mint, 101);
    assert_eq!(p.borrow_fac_q60, Q60);
    assert_eq!(p.deposit_fac_q60, Q60);
    assert_eq!(p.total_deposit_shares_q60, 0);
    assert_eq!(p.last_timestamp, 77);
    assert_eq!(init_pool(&ar, 42, 999, rate, 77).unwrap_err(), ZodialError::AssetNotRegistered);
}

#[test]
fn get_pair_outside_the_grown_matrix_is_invalid() {
    let (m, mut ar, mut rr, _) = init_market(7, 42, default_args()).unwrap();
    register_asset(&m, &mut ar, &mut rr, asset_args(101, 6)).unwrap();
    register_asset(&m, &mut ar, &mut rr, asset_args(202, 6)).unwrap();
    // The dimension follows the asset count, but no pair was ever
    // written, so the storage has not grown to cover the cell.
    assert_eq!(rr.dim, 2);
    assert_eq!(rr.pairs.len(), 0);
    assert_eq!(rr.get_pair(0, 1).unwrap_err(), ZodialError::InvalidRiskPair);
}
