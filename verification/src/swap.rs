//! Price-based conversion between two assets' token amounts.
//!
//! Used by leveraged borrowing (deposit the borrowed value as another
//! asset) and by the test-token swap: the input amount is valued in USD
//! at the source price and converted back at the destination price,
//! adjusting for the two assets' decimals.

use vstd::prelude::*;

use crate::errors::ZodialError;
use crate::lookup::spec_find;
use crate::market::Market;
use vstd::arithmetic::mul::lemma_mul_upper_bound;

use crate::math::{
    pow10, pow10_u128, q60_mul, q60_mul_sat, q60_mul_spec, q60_shl_div, q60_shl_div_spec,
    sat_u128, Q60,
};
use crate::prices::{price_for_index_q60, spec_cache_prices, spec_price_for_index, PriceCache, PriceEntry};
use crate::registry::{asset_mint_pred, AssetMeta, AssetRegistry};

verus! {

/// The token amount of `to_mint` worth as much as `amount` of
/// `from_mint`, both priced by the market: value the amount in USD at
/// the source price, divide by the destination price, scale by the
/// destination decimals, all in saturating Q60, rounding toward zero.
/// Fails on an unregistered mint, an unresolvable price, a zero
/// destination price, or a result beyond 64 bits.
pub open spec fn spec_swap_output(
    m: Market,
    cache: Option<Seq<PriceEntry>>,
    assets: Seq<AssetMeta>,
    from_mint: u64,
    to_mint: u64,
    amount: u64,
) -> Result<u64, ZodialError> {
    match spec_find(assets, asset_mint_pred(from_mint)) {
        None => Err(ZodialError::AssetNotRegistered),
        Some(fa) => match spec_find(assets, asset_mint_pred(to_mint)) {
            None => Err(ZodialError::AssetNotRegistered),
            Some(ta) => match spec_price_for_index(m, cache, fa.index) {
                Err(e) => Err(e),
                Ok(fp) => match spec_price_for_index(m, cache, ta.index) {
                    Err(e) => Err(e),
                    Ok(tp) => {
                        let from_base = ((amount * Q60) / (pow10(fa.decimals as nat) as int)) as u128;
                        let value = sat_u128(q60_mul_spec(from_base, fp)) as u128;
                        if tp == 0 {
                            Err(ZodialError::MathOverflow)
                        } else {
                            let to_base = sat_u128(q60_shl_div_spec(value, tp)) as u128;
                            let scale = (pow10(ta.decimals as nat) * Q60) as u128;
                            let out = (sat_u128(q60_mul_spec(to_base, scale)) as u128) as int
                                / (Q60 as int);
                            if out > u64::MAX {
                                Err(ZodialError::MathOverflow)
                            } else {
                                Ok(out as u64)
                            }
                        }
                    },
                },
            },
        },
    }
}

/// Computes the swap output of `amount` from one asset into another (see
/// `spec_swap_output`).
pub fn calculate_swap_output(
    market: &Market,
    price_cache: Option<&PriceCache>,
    assets: &AssetRegistry,
    from_mint: u64,
    to_mint: u64,
    amount: u64,
) -> (r: Result<u64, ZodialError>)
    requires
        assets.wf(),
    ensures
        r == spec_swap_output(
            *market,
            spec_cache_prices(price_cache),
            assets.assets@,
            from_mint,
            to_mint,
            amount,
        ),
{
    let (from_index, from_decimals): (u16, u8) = match assets.find_asset(from_mint) {
        Some(i) => (assets.assets[i].index, assets.assets[i].decimals),
        None => {
            return Err(ZodialError::AssetNotRegistered);
        },
    };
    let (to_index, to_decimals): (u16, u8) = match assets.find_asset(to_mint) {
        Some(i) => (assets.assets[i].index, assets.assets[i].decimals),
        None => {
            return Err(ZodialError::AssetNotRegistered);
        },
    };
    let from_price = match price_for_index_q60(market, price_cache, from_index) {
        Ok(p) => p,
        Err(e) => {
            return Err(e);
        },
    };
    let to_price = match price_for_index_q60(market, price_cache, to_index) {
        Ok(p) => p,
        Err(e) => {
            return Err(e);
        },
    };
    proof {
        assert(0xFFFF_FFFF_FFFF_FFFFint * 0x1000_0000_0000_0000int <= u128::MAX) by (
        nonlinear_arith);
        lemma_mul_upper_bound(amount as int, u64::MAX as int, Q60 as int, Q60 as int);
    }
    let from_denom = pow10_u128(from_decimals);
    proof {
        crate::math::lemma_pow10_pos(from_decimals as nat);
    }
    let from_base = (amount as u128 * Q60) / from_denom;
    let value = q60_mul_sat(from_base, from_price);
    if to_price == 0 {
        return Err(ZodialError::MathOverflow);
    }
    let to_base = match q60_shl_div(value, to_price) {
        Some(v) => v,
        None => u128::MAX,
    };
    let to_denom = pow10_u128(to_decimals);
    proof {
        crate::math::lemma_pow10_le_20_bound(to_decimals);
        lemma_mul_upper_bound(
            to_denom as int,
            0xF_FFFF_FFFF_FFFF_FFFF,
            Q60 as int,
            Q60 as int,
        );
        assert(0xF_FFFF_FFFF_FFFF_FFFFint * 0x1000_0000_0000_0000int <= u128::MAX) by (
        nonlinear_arith);
    }
    let scale = to_denom * Q60;
    let raw = q60_mul_sat(to_base, scale);
    let out = raw / Q60;
    if out > u64::MAX as u128 {
        Err(ZodialError::MathOverflow)
    } else {
        Ok(out as u64)
    }
}

/// The test-token swap's output: the amount valued at the source price,
/// shifted by the difference of the two decimals, divided by the
/// destination price, each step an exact Q60 operation that fails on
/// overflow or a zero destination price; an amount beyond 64 bits fails
/// too — nothing wraps silently.
pub open spec fn spec_faucet_swap_output(
    amount: u64,
    price_from_q60: u128,
    price_to_q60: u128,
    decimals_from: u8,
    decimals_to: u8,
) -> Result<u64, ZodialError> {
    let amount_fixed = (amount * Q60) as u128;
    if q60_mul_spec(amount_fixed, price_from_q60) > u128::MAX {
        Err(ZodialError::MathOverflow)
    } else {
        let usd = q60_mul_spec(amount_fixed, price_from_q60) as u128;
        let adjusted: Result<u128, ZodialError> = if decimals_from > decimals_to {
            let divisor = (pow10((decimals_from - decimals_to) as nat) * Q60) as u128;
            if q60_shl_div_spec(usd, divisor) > u128::MAX {
                Err(ZodialError::MathOverflow)
            } else {
                Ok(q60_shl_div_spec(usd, divisor) as u128)
            }
        } else if decimals_to > decimals_from {
            let multiplier = (pow10((decimals_to - decimals_from) as nat) * Q60) as u128;
            if q60_mul_spec(usd, multiplier) > u128::MAX {
                Err(ZodialError::MathOverflow)
            } else {
                Ok(q60_mul_spec(usd, multiplier) as u128)
            }
        } else {
            Ok(usd)
        };
        match adjusted {
            Err(e) => Err(e),
            Ok(adj) => if price_to_q60 == 0 || q60_shl_div_spec(adj, price_to_q60) > u128::MAX {
                Err(ZodialError::MathOverflow)
            } else {
                let out = q60_shl_div_spec(adj, price_to_q60) as u128;
                if out / Q60 > u64::MAX {
                    Err(ZodialError::MathOverflow)
                } else {
                    Ok((out / Q60) as u64)
                }
            },
        }
    }
}

/// Computes the test-token swap output (see `spec_faucet_swap_output`).
/// Decimals are limited to 19 so the power-of-ten shift stays exact.
pub fn faucet_swap_output(
    amount: u64,
    price_from_q60: u128,
    price_to_q60: u128,
    decimals_from: u8,
    decimals_to: u8,
) -> (r: Result<u64, ZodialError>)
    requires
        decimals_from <= 19,
        decimals_to <= 19,
    ensures
        r == spec_faucet_swap_output(
            amount,
            price_from_q60,
            price_to_q60,
            decimals_from,
            decimals_to,
        ),
{
    proof {
        assert(0xFFFF_FFFF_FFFF_FFFFint * 0x1000_0000_0000_0000int <= u128::MAX) by (
        nonlinear_arith);
        lemma_mul_upper_bound(amount as int, u64::MAX as int, Q60 as int, Q60 as int);
    }
    let amount_fixed = amount as u128 * Q60;
    let usd = match q60_mul(amount_fixed, price_from_q60) {
        Some(v) => v,
        None => {
            return Err(ZodialError::MathOverflow);
        },
    };
    let adjusted: u128;
    if decimals_from > decimals_to {
        let divisor = pow10_scale_q60(decimals_from - decimals_to);
        adjusted = match q60_shl_div(usd, divisor) {
            Some(v) => v,
            None => {
                return Err(ZodialError::MathOverflow);
            },
        };
    } else if decimals_to > decimals_from {
        let multiplier = pow10_scale_q60(decimals_to - decimals_from);
        adjusted = match q60_mul(usd, multiplier) {
            Some(v) => v,
            None => {
                return Err(ZodialError::MathOverflow);
            },
        };
    } else {
        adjusted = usd;
    }
    if price_to_q60 == 0 {
        return Err(ZodialError::MathOverflow);
    }
    let out = match q60_shl_div(adjusted, price_to_q60) {
        Some(v) => v,
        None => {
            return Err(ZodialError::MathOverflow);
        },
    };
    let whole = out / Q60;
    if whole > u64::MAX as u128 {
        return Err(ZodialError::MathOverflow);
    }
    Ok(whole as u64)
}

/// 10^e scaled into Q60 — the Q60 representation of a power of ten.
fn pow10_scale_q60(e: u8) -> (r: u128)
    requires
        e <= 19,
    ensures
        r == pow10(e as nat) * Q60,
        r >= Q60,
{
    proof {
        crate::math::lemma_pow10_pos(e as nat);
        crate::math::lemma_pow10_le_20_bound(e);
        assert(pow10(e as nat) * Q60 >= 1 * Q60) by (nonlinear_arith)
            requires
                pow10(e as nat) >= 1,
                Q60 >= 1,
        ;
        assert(0xF_FFFF_FFFF_FFFF_FFFFint * 0x1000_0000_0000_0000int <= u128::MAX) by (
        nonlinear_arith);
        lemma_mul_upper_bound(
            pow10(e as nat) as int,
            0xF_FFFF_FFFF_FFFF_FFFF,
            Q60 as int,
            Q60 as int,
        );
    }
    pow10_u128(e) * Q60
}

} // verus!
