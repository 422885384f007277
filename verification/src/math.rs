//! Q60 fixed-point engine.
//!
//! A Q60 value is an unsigned 128-bit integer holding a non-negative
//! rational with 60 fractional bits (68 integer bits). Share-price
//! indices, share balances and USD values are all Q60. Every operation
//! either rounds toward zero and reports overflow, or saturates at the
//! largest representable value; nothing wraps silently.

use vstd::prelude::*;
use vstd::arithmetic::div_mod::{
    lemma_div_by_multiple, lemma_div_pos_is_pos,
    lemma_div_denominator, lemma_div_is_ordered, lemma_fundamental_div_mod,
    lemma_fundamental_div_mod_converse, lemma_hoist_over_denominator,
};
use vstd::arithmetic::mul::{lemma_mul_inequality, lemma_mul_upper_bound};
use vstd::arithmetic::power2::{
    lemma2_to64, lemma2_to64_rest, lemma_pow2_strictly_increases, lemma_pow2_unfold, pow2,
};

use crate::errors::ZodialError;

verus! {

/// One in Q60 representation: 2^60.
pub const Q60: u128 = 0x1000_0000_0000_0000;

/// Clamp a mathematical integer to the u128 range from above.
pub open spec fn sat_u128(x: int) -> int {
    if x > u128::MAX as int {
        u128::MAX as int
    } else {
        x
    }
}

/// The product of two Q60 values, rounded toward zero, as an integer
/// (possibly wider than 128 bits).
pub open spec fn q60_mul_spec(a: u128, b: u128) -> int {
    (a * b) / (Q60 as int)
}

/// `a * 2^60 / b`, rounded toward zero: the quotient of two Q60 values,
/// and also the Q60 shares minted for an integer amount at index `b`.
pub open spec fn q60_shl_div_spec(a: u128, b: u128) -> int
    recommends
        b > 0,
{
    (a * Q60) / (b as int)
}

/// Token amount redeemed by `shares` at index `idx`, rounded toward zero.
pub open spec fn shares_to_amount_spec(shares: u128, idx: u128) -> int {
    (shares * idx) / (Q60 as int * Q60 as int)
}

/// Q60 shares minted for integer `amount` at index `idx`, rounded toward zero.
pub open spec fn amount_to_shares_spec(amount: u64, idx: u128) -> int
    recommends
        idx > 0,
{
    (amount * Q60 * Q60) / (idx as int)
}

/// 10^e.
pub open spec fn pow10(e: nat) -> nat
    decreases e,
{
    if e == 0 {
        1
    } else {
        10 * pow10((e - 1) as nat)
    }
}

proof fn lemma_pow10_increases(e1: nat, e2: nat)
    requires
        e1 <= e2,
    ensures
        pow10(e1) <= pow10(e2),
    decreases e2,
{
    if e1 < e2 {
        lemma_pow10_increases(e1, (e2 - 1) as nat);
        assert(pow10(e2) == 10 * pow10((e2 - 1) as nat));
    }
}

/// Every power of ten is positive.
pub proof fn lemma_pow10_pos(e: nat)
    ensures
        pow10(e) >= 1,
    decreases e,
{
    if e > 0 {
        lemma_pow10_pos((e - 1) as nat);
    }
}

/// Powers of ten up to 10^20 fit the 68 integer bits of a Q60 value.
pub proof fn lemma_pow10_le_20_bound(e: u8)
    requires
        e <= 20,
    ensures
        pow10(e as nat) <= 0xF_FFFF_FFFF_FFFF_FFFF,
{
    lemma_pow10_increases(e as nat, 20);
    assert(pow10(20) <= 0xF_FFFF_FFFF_FFFF_FFFF) by {
        reveal_with_fuel(pow10, 22);
    }
}

/// 10^e as a u128; 10^38 is the largest power of ten below 2^128.
pub fn pow10_u128(e: u8) -> (r: u128)
    requires
        e <= 38,
    ensures
        r == pow10(e as nat),
{
    proof {
        assert(pow10(38) < u128::MAX) by {
            reveal_with_fuel(pow10, 40);
        }
    }
    let mut acc: u128 = 1;
    let mut i: u8 = 0;
    while i < e
        invariant
            i <= e <= 38,
            acc == pow10(i as nat),
            pow10(38) < u128::MAX,
        decreases e - i,
    {
        proof {
            lemma_pow10_increases((i + 1) as nat, 38);
            assert(pow10((i + 1) as nat) == 10 * pow10(i as nat));
        }
        acc = acc * 10;
        i = i + 1;
    }
    acc
}

/// Splits the 128-bit product sum used by `q60_mul`: with `a = a1*Q + a0`
/// and `b = b1*Q + b0`, the truncated product `a*b/Q` is exactly
/// `a1*b1*Q + a1*b0 + a0*b1 + a0*b0/Q`.
#[verifier::rlimit(50)]
proof fn lemma_q60_split_mul(a: u128, b: u128)
    ensures
        (a * b) / (Q60 as int) == ((a as int / Q60 as int) * (b as int / Q60 as int)) * Q60
            + (a as int / Q60 as int) * (b as int % Q60 as int) + (a as int % Q60 as int) * (
        b as int / Q60 as int) + ((a as int % Q60 as int) * (b as int % Q60 as int)) / (Q60 as int),
{
    let q = Q60 as int;
    let a1 = a as int / q;
    let a0 = a as int % q;
    let b1 = b as int / q;
    let b0 = b as int % q;
    lemma_fundamental_div_mod(a as int, q);
    lemma_fundamental_div_mod(b as int, q);
    let k = a1 * b1 * q + a1 * b0 + a0 * b1;
    assert(a as int * b as int == k * q + a0 * b0) by (nonlinear_arith)
        requires
            a as int == q * a1 + a0,
            b as int == q * b1 + b0,
            k == a1 * b1 * q + a1 * b0 + a0 * b1,
    ;
    lemma_hoist_over_denominator(a0 * b0, k, Q60 as nat);
}

/// Truncated product of two Q60 values: `Some(a*b/2^60)` when the result
/// fits in 128 bits, `None` otherwise.
pub fn q60_mul(a: u128, b: u128) -> (r: Option<u128>)
    ensures
        match r {
            Some(v) => v == q60_mul_spec(a, b) && q60_mul_spec(a, b) <= u128::MAX,
            None => q60_mul_spec(a, b) > u128::MAX,
        },
{
    let a1 = a / Q60;
    let a0 = a % Q60;
    let b1 = b / Q60;
    let b0 = b % Q60;
    proof {
        lemma_q60_split_mul(a, b);
        assert(a1 == a / 0x1000_0000_0000_0000u128);
        assert(b0 == b % 0x1000_0000_0000_0000u128);
        assert(a / 0x1000_0000_0000_0000u128 <= 0xF_FFFF_FFFF_FFFF_FFFFu128) by (bit_vector);
        assert(b / 0x1000_0000_0000_0000u128 <= 0xF_FFFF_FFFF_FFFF_FFFFu128) by (bit_vector);
        assert(a % 0x1000_0000_0000_0000u128 <= 0xFFF_FFFF_FFFF_FFFFu128) by (bit_vector);
        assert(b % 0x1000_0000_0000_0000u128 <= 0xFFF_FFFF_FFFF_FFFFu128) by (bit_vector);
        lemma_mul_upper_bound(a1 as int, 0xF_FFFF_FFFF_FFFF_FFFF, b0 as int, 0xFFF_FFFF_FFFF_FFFF);
        lemma_mul_upper_bound(a0 as int, 0xFFF_FFFF_FFFF_FFFF, b1 as int, 0xF_FFFF_FFFF_FFFF_FFFF);
        lemma_mul_upper_bound(a0 as int, 0xFFF_FFFF_FFFF_FFFF, b0 as int, 0xFFF_FFFF_FFFF_FFFF);
    }
    let hh = match a1.checked_mul(b1) {
        Some(v) => v,
        None => {
            proof {
                assert(a1 * b1 * Q60 >= a1 * b1) by (nonlinear_arith)
                    requires
                        a1 >= 0 && b1 >= 0,
                        Q60 >= 1,
                ;
            }
            return None;
        },
    };
    let hhq = match hh.checked_mul(Q60) {
        Some(v) => v,
        None => {
            return None;
        },
    };
    let mid1 = a1 * b0;
    let mid2 = a0 * b1;
    let low = (a0 * b0) / Q60;
    let s1 = match hhq.checked_add(mid1) {
        Some(v) => v,
        None => {
            return None;
        },
    };
    let s2 = match s1.checked_add(mid2) {
        Some(v) => v,
        None => {
            return None;
        },
    };
    match s2.checked_add(low) {
        Some(v) => Some(v),
        None => None,
    }
}

/// Saturating truncated product of two Q60 values.
pub fn q60_mul_sat(a: u128, b: u128) -> (r: u128)
    ensures
        r == sat_u128(q60_mul_spec(a, b)),
{
    match q60_mul(a, b) {
        Some(v) => v,
        None => u128::MAX,
    }
}

/// Saturating 128-bit sum.
pub fn sat_add_u128(a: u128, b: u128) -> (r: u128)
    ensures
        r == sat_u128(a + b),
{
    match a.checked_add(b) {
        Some(v) => v,
        None => u128::MAX,
    }
}

/// Saturating 128-bit product.
pub fn sat_mul_u128(a: u128, b: u128) -> (r: u128)
    ensures
        r == sat_u128(a * b),
{
    match a.checked_mul(b) {
        Some(v) => v,
        None => u128::MAX,
    }
}

/// Truncated quotient `a * 2^60 / b` at full intermediate precision:
/// `Some` when the result fits in 128 bits, `None` otherwise. Computed by
/// schoolbook long division, one quotient bit per step, so the 188-bit
/// numerator is never materialized.
pub fn q60_shl_div(a: u128, b: u128) -> (r: Option<u128>)
    requires
        b > 0,
    ensures
        match r {
            Some(v) => v == q60_shl_div_spec(a, b) && q60_shl_div_spec(a, b) <= u128::MAX,
            None => q60_shl_div_spec(a, b) > u128::MAX,
        },
{
    let q1 = a / b;
    let r1 = a % b;
    let mut qf: u128 = 0;
    let mut r: u128 = r1;
    let mut j: u64 = 0;
    proof {
        lemma2_to64();
    }
    while j < 60
        invariant
            j <= 60,
            b > 0,
            r < b,
            qf < pow2(j as nat),
            qf * b + r == r1 * pow2(j as nat),
        decreases 60 - j,
    {
        proof {
            lemma_pow2_strictly_increases(j as nat, 60);
            lemma2_to64_rest();
        }
        let bit: u128;
        let r_next: u128;
        if r > u128::MAX - r {
            bit = 1;
            r_next = r - (b - r);
        } else {
            let r2 = r + r;
            if r2 >= b {
                bit = 1;
                r_next = r2 - b;
            } else {
                bit = 0;
                r_next = r2;
            }
        }
        let qf_next = 2 * qf + bit;
        proof {
            lemma_pow2_unfold((j + 1) as nat);
            assert((2 * qf + bit) * b == 2 * (qf * b) + bit * b) by (nonlinear_arith);
            assert(2 * (r1 * pow2(j as nat)) == r1 * (2 * pow2(j as nat))) by (nonlinear_arith);
            assert(qf_next * b + r_next == r1 * pow2((j + 1) as nat));
        }
        qf = qf_next;
        r = r_next;
        j = j + 1;
    }
    proof {
        lemma2_to64_rest();
        assert(qf * b + r == r1 * Q60);
        lemma_fundamental_div_mod(a as int, b as int);
        assert(a * Q60 == (q1 * Q60 + qf) * b + r) by (nonlinear_arith)
            requires
                a == b * q1 + r1,
                qf * b + r == r1 * Q60,
        ;
        lemma_fundamental_div_mod_converse(
            a as int * Q60 as int,
            b as int,
            q1 as int * Q60 as int + qf,
            r as int,
        );
    }
    let m = (u128::MAX - qf) / Q60;
    if q1 > m {
        proof {
            lemma_fundamental_div_mod((u128::MAX - qf) as int, Q60 as int);
            lemma_mul_inequality(m as int + 1, q1 as int, Q60 as int);
            assert((m as int + 1) * Q60 == m as int * Q60 + Q60) by (nonlinear_arith);
        }
        None
    } else {
        proof {
            lemma_fundamental_div_mod((u128::MAX - qf) as int, Q60 as int);
            lemma_mul_inequality(q1 as int, m as int, Q60 as int);
        }
        Some(q1 * Q60 + qf)
    }
}

/// Proof that `Q60 * 2^68 == 2^128`, the saturation threshold of the
/// 128-bit representation in units of `Q60`.
proof fn lemma_q60_times_pow68()
    ensures
        Q60 as int * 0x10_0000_0000_0000_0000 == u128::MAX as int + 1,
{
    assert(0x1000_0000_0000_0000int * 0x10_0000_0000_0000_0000int
        == 0x1_0000_0000_0000_0000_0000_0000_0000_0000int) by (nonlinear_arith);
}

/// Token amount redeemed by Q60 `shares_q60` at Q60 index `idx`, rounded
/// toward zero; fails when the amount does not fit in 64 bits.
pub fn mul_q60_by_u68_to_u64(shares_q60: u128, idx: u128) -> (r: Result<u64, ZodialError>)
    ensures
        match r {
            Ok(v) => v == shares_to_amount_spec(shares_q60, idx) && shares_to_amount_spec(
                shares_q60,
                idx,
            ) <= u64::MAX,
            Err(e) => e == ZodialError::MathOverflow && shares_to_amount_spec(shares_q60, idx)
                > u64::MAX,
        },
{
    let p = q60_mul_sat(shares_q60, idx);
    let out = p / Q60;
    proof {
        assert(Q60 as int * Q60 as int > 0) by (nonlinear_arith)
            requires
                Q60 >= 1,
        ;
        lemma_div_denominator(shares_q60 as int * idx as int, Q60 as int, Q60 as int);
        assert(shares_q60 as int * idx as int >= 0) by (nonlinear_arith);
        if q60_mul_spec(shares_q60, idx) > u128::MAX {
            assert(p == u128::MAX);
            assert(0xFFFF_FFFF_FFFF_FFFF_FFFF_FFFF_FFFF_FFFFu128 / 0x1000_0000_0000_0000u128
                == 0xF_FFFF_FFFF_FFFF_FFFFu128) by (bit_vector);
            lemma_q60_times_pow68();
            lemma_div_by_multiple(0x10_0000_0000_0000_0000, Q60 as int);
            lemma_div_is_ordered(
                u128::MAX as int + 1,
                shares_q60 as int * idx as int / (Q60 as int),
                Q60 as int,
            );
        }
    }
    if out > u64::MAX as u128 {
        Err(ZodialError::MathOverflow)
    } else {
        Ok(out as u64)
    }
}

/// Token amount scaled by a Q60 index: integer `amount` times Q60 `idx`,
/// rounded toward zero; fails when the result does not fit in 64 bits.
pub fn mul_u64_u68_to_u64(amount: u64, idx: u128) -> (r: Result<u64, ZodialError>)
    ensures
        match r {
            Ok(v) => v == (amount * idx) / (Q60 as int) && (amount * idx) / (Q60 as int)
                <= u64::MAX,
            Err(e) => e == ZodialError::MathOverflow && (amount * idx) / (Q60 as int) > u64::MAX,
        },
{
    proof {
        assert(0xFFFF_FFFF_FFFF_FFFFint * 0x1000_0000_0000_0000int <= u128::MAX) by (
        nonlinear_arith);
        lemma_mul_upper_bound(amount as int, u64::MAX as int, Q60 as int, Q60 as int);
    }
    let a_q = amount as u128 * Q60;
    proof {
        assert(a_q as int * idx as int == (amount as int * idx as int) * Q60) by (nonlinear_arith)
            requires
                a_q == amount as int * Q60,
        ;
        assert(Q60 as int * Q60 as int > 0) by (nonlinear_arith)
            requires
                Q60 >= 1,
        ;
        lemma_div_denominator(a_q as int * idx as int, Q60 as int, Q60 as int);
        assert(a_q as int * idx as int >= 0) by (nonlinear_arith);
        lemma_div_by_multiple(amount as int * idx as int, Q60 as int);
        assert(amount as int * idx as int >= 0) by (nonlinear_arith);
    }
    mul_q60_by_u68_to_u64(a_q, idx)
}

/// Q60 shares minted for integer `amount` at Q60 index `idx`, rounded
/// toward zero; fails on a zero index or when the shares do not fit in
/// 128 bits.
pub fn div_u64_by_u68_to_q60(amount: u64, idx: u128) -> (r: Result<u128, ZodialError>)
    ensures
        match r {
            Ok(v) => idx > 0 && v == amount_to_shares_spec(amount, idx) && amount_to_shares_spec(
                amount,
                idx,
            ) <= u128::MAX,
            Err(e) => e == ZodialError::MathOverflow && (idx == 0 || amount_to_shares_spec(
                amount,
                idx,
            ) > u128::MAX),
        },
{
    if idx == 0 {
        return Err(ZodialError::MathOverflow);
    }
    proof {
        assert(0xFFFF_FFFF_FFFF_FFFFint * 0x1000_0000_0000_0000int <= u128::MAX) by (
        nonlinear_arith);
        lemma_mul_upper_bound(amount as int, u64::MAX as int, Q60 as int, Q60 as int);
    }
    let a_q = amount as u128 * Q60;
    proof {
        assert(a_q as int * Q60 as int == amount as int * Q60 as int * Q60 as int) by (
        nonlinear_arith)
            requires
                a_q == amount as int * Q60,
        ;
    }
    match q60_shl_div(a_q, idx) {
        Some(v) => Ok(v),
        None => Err(ZodialError::MathOverflow),
    }
}

/// USD value of `amount_atomic` base units of an asset with `decimals`
/// decimals at Q60 price `price_q60`, per `usd = amount / 10^decimals *
/// price`, computed in Q60 throughout and saturating at the largest Q60
/// value.
pub open spec fn usd_value_spec(amount_atomic: u64, decimals: u8, price_q60: u128) -> int
    recommends
        decimals <= 20,
{
    sat_u128(
        (((amount_atomic * Q60) / (pow10(decimals as nat) as int)) * price_q60) / (Q60 as int),
    )
}

/// USD value of a token amount already expressed in Q60 — the health
/// engine's valuation, computed in Q60 throughout to avoid intermediate
/// truncation: `usd = (amount / 10^decimals) * price`, the division by
/// the power of ten exact in Q60, the price product saturating.
pub open spec fn usd_value_q60_spec(amount_q60: u128, decimals: u8, price_q60: u128) -> int
    recommends
        decimals <= 20,
{
    sat_u128(q60_mul_spec((amount_q60 / (pow10(decimals as nat) as u128)) as u128, price_q60))
}

/// USD value of a Q60 token amount at a Q60 price (see
/// `usd_value_q60_spec`).
pub fn amount_q60_to_usd_q60(amount_q60: u128, decimals: u8, price_q60: u128) -> (r: u128)
    requires
        decimals <= 20,
    ensures
        r == usd_value_q60_spec(amount_q60, decimals, price_q60),
{
    proof {
        lemma_pow10_pos(decimals as nat);
        lemma_pow10_le_20_bound(decimals);
    }
    let denom = pow10_u128(decimals);
    q60_mul_sat(amount_q60 / denom, price_q60)
}

/// USD value of a token amount at a Q60 price (see `usd_value_spec`).
pub fn amount_to_usd_q60(amount_atomic: u64, decimals: u8, price_q60: u128) -> (r: u128)
    requires
        decimals <= 20,
    ensures
        r == usd_value_spec(amount_atomic, decimals, price_q60),
{
    proof {
        assert(0xFFFF_FFFF_FFFF_FFFFint * 0x1000_0000_0000_0000int <= u128::MAX) by (
        nonlinear_arith);
        lemma_mul_upper_bound(amount_atomic as int, u64::MAX as int, Q60 as int, Q60 as int);
        lemma_pow10_increases(0, decimals as nat);
    }
    let denom = pow10_u128(decimals);
    let units = (amount_atomic as u128 * Q60) / denom;
    q60_mul_sat(units, price_q60)
}

/// Saturating sum of a sequence of values, in order.
pub open spec fn sat_sum(s: Seq<u128>) -> int
    decreases s.len(),
{
    if s.len() == 0 {
        0
    } else {
        sat_u128(sat_sum(s.drop_last()) + s.last())
    }
}

/// A saturating sum is a u128.
pub proof fn lemma_sat_sum_bounds(s: Seq<u128>)
    ensures
        0 <= sat_sum(s) <= u128::MAX,
    decreases s.len(),
{
    if s.len() > 0 {
        lemma_sat_sum_bounds(s.drop_last());
    }
}

/// Any element can be taken out of a saturating sum as if it were last.
pub proof fn lemma_sat_sum_extract(s: Seq<u128>, i: int)
    requires
        0 <= i < s.len(),
    ensures
        sat_sum(s) == sat_u128(sat_sum(s.remove(i)) + s[i]),
    decreases s.len(),
{
    if i == s.len() - 1 {
        assert(s.remove(i) =~= s.drop_last());
    } else {
        let t = s.drop_last();
        let x = s.last();
        lemma_sat_sum_extract(t, i);
        lemma_sat_sum_bounds(t.remove(i));
        assert(s.remove(i).drop_last() =~= t.remove(i));
        assert(s.remove(i).last() == x);
        let a = sat_sum(t.remove(i));
        assert(sat_u128(sat_u128(a + t[i]) + x) == sat_u128(sat_u128(a + x) + t[i]));
        assert(t[i] == s[i]);
    }
}

/// A saturating sum depends only on the multiset of its values, not on
/// their order.
pub proof fn lemma_sat_sum_multiset(s1: Seq<u128>, s2: Seq<u128>)
    requires
        s1.to_multiset() == s2.to_multiset(),
    ensures
        sat_sum(s1) == sat_sum(s2),
    decreases s1.len(),
{
    broadcast use vstd::seq_lib::group_to_multiset_ensures;

    if s1.len() == 0 {
        assert(s2.len() == 0) by {
            assert(s1.to_multiset().len() == s1.len());
            assert(s2.to_multiset().len() == s2.len());
        }
    } else {
        let x = s1.last();
        let last = s1.len() - 1;
        assert(s1.contains(x));
        assert(s1.to_multiset().count(x) > 0);
        assert(s2.contains(x)) by {
            assert(s2.to_multiset().count(x) > 0);
        }
        let i = choose|j: int| 0 <= j < s2.len() && s2[j] == x;
        assert(s1.drop_last() =~= s1.remove(last));
        assert(s1.remove(last).to_multiset() =~= s1.to_multiset().remove(x));
        assert(s2.remove(i).to_multiset() =~= s2.to_multiset().remove(x));
        lemma_sat_sum_multiset(s1.drop_last(), s2.remove(i));
        lemma_sat_sum_extract(s2, i);
    }
}

/// Round-trip law: an amount converted to shares at an index and back,
/// both conversions rounding toward zero, returns the original amount or
/// one unit less. Holds for any index of value at most `2^60` (raw index
/// at most `Q60 * Q60`); a larger index can lose more than one unit, as
/// the quotient is then coarser than one.
pub proof fn lemma_share_amount_round_trip(amount: u64, idx: u128)
    requires
        0 < idx,
        idx <= Q60 as int * Q60 as int,
        amount_to_shares_spec(amount, idx) <= u128::MAX,
    ensures
        shares_to_amount_spec(amount_to_shares_spec(amount, idx) as u128, idx) <= amount,
        shares_to_amount_spec(amount_to_shares_spec(amount, idx) as u128, idx) >= amount - 1,
{
    let q2 = Q60 as int * Q60 as int;
    assert(q2 > 0) by (nonlinear_arith)
        requires
            Q60 >= 1,
            q2 == Q60 as int * Q60 as int,
    ;
    let s = amount_to_shares_spec(amount, idx);
    assert(s >= 0) by {
        lemma_div_pos_is_pos(amount as int * Q60 as int * Q60 as int, idx as int);
        assert(amount as int * Q60 as int * Q60 as int >= 0) by (nonlinear_arith);
    }
    assert(amount as int * Q60 as int * Q60 as int == amount * q2) by (nonlinear_arith)
        requires
            q2 == Q60 as int * Q60 as int,
    ;
    lemma_fundamental_div_mod(amount as int * q2, idx as int);
    let rr = (amount as int * q2) % (idx as int);
    assert(s * idx == amount * q2 - rr) by (nonlinear_arith)
        requires
            amount as int * q2 == idx as int * s + rr,
    ;
    assert(shares_to_amount_spec(s as u128, idx) <= amount) by {
        lemma_div_is_ordered(s * idx, amount as int * q2, q2);
        lemma_div_by_multiple(amount as int, q2);
    }
    if amount == 0 {
        assert(shares_to_amount_spec(s as u128, idx) >= amount - 1);
    } else {
        assert(shares_to_amount_spec(s as u128, idx) >= amount - 1) by {
            assert((amount - 1) * q2 <= s * idx) by (nonlinear_arith)
                requires
                    s * idx == amount * q2 - rr,
                    0 <= rr < idx as int,
                    idx <= q2,
            ;
            assert((amount - 1) * q2 >= 0) by (nonlinear_arith)
                requires
                    amount >= 1,
                    q2 > 0,
            ;
            lemma_div_is_ordered((amount - 1) * q2, s * idx, q2);
            lemma_div_by_multiple(amount as int - 1, q2);
        }
    }
}

} // verus!
