use zodial_core::accrual::accrue_pool;
use zodial_core::constants::SECS_YEAR;
use zodial_core::math::Q60;
use zodial_core::pool::Pool;
use zodial_core::rate_model::RateModel;

fn kinked_model() -> RateModel {
    RateModel {
        kink_util_bps: 8000,
        base_borrow_apy_bps: 200,
        slope1_bps: 1000,
        slope2_bps: 30000,
        reserve_factor_bps: 1000,
        max_borrow_apy_bps: 40000,
    }
}

fn full_rate_model() -> RateModel {
    // 100% APY at any utilization, no reserve cut.
    RateModel {
        kink_util_bps: 10000,
        base_borrow_apy_bps: 10000,
        slope1_bps: 0,
        slope2_bps: 0,
        reserve_factor_bps: 0,
        max_borrow_apy_bps: 20000,
    }
}

#[test]
fn borrow_apy_below_kink() {
    // base + util*slope1/10^4 = 200 + 4000*1000/10^4 = 600.
    assert_eq!(kinked_model().borrow_apy_bps(4000), 600);
}

#[test]
fn borrow_apy_above_kink() {
    // 200 + 8000*1000/10^4 + (9000-8000)*30000/10^4 = 4000.
    assert_eq!(kinked_model().borrow_apy_bps(9000), 4000);
}

#[test]
fn borrow_apy_hard_cap() {
    // The protocol-wide hard cap of 10000 bps wins over a misconfigured
    // base and soft cap.
    let m = RateModel { base_borrow_apy_bps: 30000, max_borrow_apy_bps: 50000, ..kinked_model() };
    assert_eq!(m.borrow_apy_bps(0), 10000);
}

#[test]
fn borrow_apy_soft_cap() {
    let m = RateModel { max_borrow_apy_bps: 500, ..kinked_model() };
    assert_eq!(m.borrow_apy_bps(4000), 500);
}

#[test]
fn deposit_apy_scales_by_utilization_and_reserve() {
    // borrow 600 at util 4000, reserve 1000: 600*4000*9000/10^8 = 216.
    assert_eq!(kinked_model().deposit_apy_bps(4000), 216);
    // Zero utilization earns nothing.
    assert_eq!(kinked_model().deposit_apy_bps(0), 0);
}

#[test]
fn advance_factor_doubles_after_a_year_at_full_rate() {
    let m = full_rate_model();
    assert_eq!(m.advance_factor_simple(Q60, 0, SECS_YEAR, true), 2 * Q60);
}

#[test]
fn advance_factor_noop_cases() {
    let m = full_rate_model();
    // Zero elapsed time changes nothing.
    assert_eq!(m.advance_factor_simple(7 * Q60, 5000, 0, true), 7 * Q60);
    // A zero APY changes nothing.
    let zero = RateModel { base_borrow_apy_bps: 0, ..full_rate_model() };
    assert_eq!(zero.advance_factor_simple(7 * Q60, 0, 1000, true), 7 * Q60);
}

fn pool_with_totals(borrow_shares: u128, deposit_shares: u128) -> Pool {
    let mut p = Pool::new(1, 11, full_rate_model(), 100);
    p.total_borrow_shares_q60 = borrow_shares;
    p.total_deposit_shares_q60 = deposit_shares;
    p
}

#[test]
fn utilization_zero_totals_edge() {
    assert_eq!(pool_with_totals(0, 0).utilization_bps(), 0);
    assert_eq!(pool_with_totals(Q60, 0).utilization_bps(), 0);
    assert_eq!(pool_with_totals(0, Q60).utilization_bps(), 0);
}

#[test]
fn utilization_half_and_full() {
    assert_eq!(pool_with_totals(Q60, 2 * Q60).utilization_bps(), 5000);
    assert_eq!(pool_with_totals(Q60, Q60).utilization_bps(), 10000);
}

#[test]
fn utilization_clamped_at_full() {
    // More borrows than deposits still reads 10000.
    assert_eq!(pool_with_totals(3 * Q60, Q60).utilization_bps(), 10000);
}

#[test]
fn utilization_in_range_at_extreme_magnitudes() {
    // Share totals near the representable maximum stay within [0, 10000].
    let u = pool_with_totals(u128::MAX, u128::MAX).utilization_bps();
    assert!(u <= 10000);
}

#[test]
fn accrual_is_a_noop_for_stale_clocks() {
    let mut p = pool_with_totals(Q60, Q60);
    let before = p;
    accrue_pool(&mut p, 50);
    assert_eq!(p, before);
    accrue_pool(&mut p, 100);
    assert_eq!(p, before);
}

#[test]
fn accrual_advances_both_indices_and_clock() {
    // Full utilization at 100% APY for a year doubles both indices.
    let mut p = pool_with_totals(Q60, Q60);
    accrue_pool(&mut p, 100 + SECS_YEAR as i64);
    assert_eq!(p.borrow_fac_q60, 2 * Q60);
    assert_eq!(p.deposit_fac_q60, 2 * Q60);
    assert_eq!(p.last_timestamp, 100 + SECS_YEAR as i64);
    assert_eq!(p.total_borrow_shares_q60, Q60);
    assert_eq!(p.total_deposit_shares_q60, Q60);
}

#[test]
fn indices_never_decrease_across_accruals() {
    let mut p = pool_with_totals(5 * Q60, 8 * Q60);
    let times: [i64; 6] = [50, 100, 4000, 200, 1_000_000, 999_999];
    let mut last_b = p.borrow_fac_q60;
    let mut last_d = p.deposit_fac_q60;
    for t in times {
        accrue_pool(&mut p, t);
        assert!(p.borrow_fac_q60 >= last_b);
        assert!(p.deposit_fac_q60 >= last_d);
        last_b = p.borrow_fac_q60;
        last_d = p.deposit_fac_q60;
    }
}
