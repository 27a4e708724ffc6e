use insurance_calculator::calculator::{InsuranceCalculator, PoolId};
use insurance_calculator::fees::{
    flash_loan_fee, insurance_fee, liquidity_multiplier, size_multiplier, volume_multiplier,
    utilization_multiplier, il_multiplier, volatility_multiplier, default_multiplier,
};
use insurance_calculator::math::{isqrt, wad_div, wad_mul, Error};
use insurance_calculator::volatility::PoolState;
use insurance_calculator::word::Uint256;

const E18: u128 = 1_000_000_000_000_000_000;

fn u(v: u128) -> Uint256 {
    Uint256 { limbs: [v as u64, (v >> 64) as u64, 0, 0] }
}

fn max() -> Uint256 {
    Uint256 { limbs: [u64::MAX; 4] }
}

fn pool(b: u8) -> PoolId {
    PoolId { bytes: [b; 32] }
}

#[test]
fn zero_volume_gives_unit_multiplier() {
    assert_eq!(volume_multiplier(u(0)), Ok(u(E18)));
}

#[test]
fn volume_discount_formula() {
    // 1 - 0.9 * 1 / 2 = 0.55
    assert_eq!(volume_multiplier(u(E18)), Ok(u(550_000_000_000_000_000)));
}

#[test]
fn zero_liquidity_size_multiplier_is_two() {
    assert_eq!(size_multiplier(u(5 * E18), u(0)), Ok(u(2 * E18)));
}

#[test]
fn size_multiplier_formula() {
    assert_eq!(size_multiplier(u(E18), u(4 * E18)), Ok(u(1_250_000_000_000_000_000)));
}

#[test]
fn zero_liquidity_flash_multiplier_is_two() {
    assert_eq!(liquidity_multiplier(u(0)), Ok(u(2 * E18)));
}

#[test]
fn liquidity_multiplier_formula() {
    // 1 + 1 / (1 + 1) = 1.5
    assert_eq!(liquidity_multiplier(u(E18)), Ok(u(1_500_000_000_000_000_000)));
}

#[test]
fn other_multipliers() {
    assert_eq!(utilization_multiplier(u(0)), Ok(u(E18)));
    assert_eq!(utilization_multiplier(u(E18 / 2)), Ok(u(2 * E18)));
    assert_eq!(il_multiplier(u(E18 / 10)), Ok(u(1_300_000_000_000_000_000)));
    assert_eq!(volatility_multiplier(u(E18 / 4)), Ok(u(1_500_000_000_000_000_000)));
    assert_eq!(default_multiplier(u(E18)), Ok(u(2 * E18)));
}

#[test]
fn wad_helpers() {
    assert_eq!(wad_mul(u(3 * E18), u(E18 / 2)), Ok(u(1_500_000_000_000_000_000)));
    assert_eq!(wad_div(u(3 * E18), u(2 * E18)), Ok(u(1_500_000_000_000_000_000)));
    assert_eq!(wad_div(u(1), u(0)), Err(Error::CalculationError));
    assert_eq!(wad_mul(max(), u(2)), Err(Error::CalculationError));
}

#[test]
fn insurance_fee_monotone_on_samples() {
    let f = |amount: u128, liq: u128, vol: u128, il: u128| {
        insurance_fee(u(amount), u(liq), u(3 * E18), u(vol), u(il)).unwrap()
    };
    let limbs = |x: Uint256| ((x.limbs[1] as u128) << 64) | x.limbs[0] as u128;
    assert!(limbs(f(E18, 2 * E18, 0, 0)) <= limbs(f(E18, 2 * E18, 0, E18 / 10)));
    assert!(limbs(f(E18, 2 * E18, 0, 0)) < limbs(f(E18, 2 * E18, E18, 0)));
    assert!(limbs(f(E18, 2 * E18, 0, 0)) < limbs(f(3 * E18, 2 * E18, 0, 0)));
    assert!(limbs(f(E18, 4 * E18, 0, 0)) < limbs(f(E18, 2 * E18, 0, 0)));
}

#[test]
fn fresh_history_has_zero_volatility() {
    let st = PoolState::new();
    assert_eq!(st.estimate(u(2000 * E18)), Ok(u(0)));
    assert_eq!(st.estimate(u(1)), Ok(u(0)));
}

#[test]
fn volatility_from_a_sample_in_the_first_slot() {
    let mut st = PoolState::new();
    st.price_history[0] = u(1000 * E18);
    // return 2.0, weighted square 4, average 4e18, sqrt 2e9, times isqrt(8760) = 93, over 1e9
    assert_eq!(st.estimate(u(3000 * E18)), Ok(u(186)));
}

#[test]
fn hourly_gate_records_once() {
    let mut st = PoolState::new();
    assert_eq!(st.update_and_estimate(u(2000 * E18), u(3600)), Ok(u(0)));
    assert_eq!(st.price_update_index, 1);
    assert_eq!(st.price_history[1], u(2000 * E18));
    assert_eq!(st.price_data_timestamp, u(3600));
    let snapshot = st.clone();
    st.update_and_estimate(u(2500 * E18), u(3600 + 3599)).unwrap();
    assert_eq!(st.price_history, snapshot.price_history);
    assert_eq!(st.price_update_index, snapshot.price_update_index);
    assert_eq!(st.price_data_timestamp, snapshot.price_data_timestamp);
    st.update_and_estimate(u(2500 * E18), u(7200)).unwrap();
    assert_eq!(st.price_update_index, 2);
    assert_eq!(st.price_history[2], u(2500 * E18));
}

#[test]
fn gate_wraps_around_the_buffer() {
    let mut st = PoolState::new();
    st.price_update_index = 29;
    st.update_and_estimate(u(7), u(3600)).unwrap();
    assert_eq!(st.price_update_index, 0);
    assert_eq!(st.price_history[0], u(7));
}

#[test]
fn gate_overflow_is_an_error() {
    let mut st = PoolState::new();
    st.price_data_timestamp = max();
    assert_eq!(st.update_and_estimate(u(1), u(5)), Err(Error::CalculationError));
    assert_eq!(st.price_update_index, 0);
}

#[test]
fn isqrt_values() {
    assert_eq!(isqrt(u(0)), u(0));
    assert_eq!(isqrt(u(1)), u(1));
    assert_eq!(isqrt(u(2)), u(1));
    assert_eq!(isqrt(u(3)), u(1));
    assert_eq!(isqrt(u(4)), u(2));
    assert_eq!(isqrt(u(8760)), u(93));
    assert_eq!(isqrt(u(E18 * E18)), u(E18));
    assert_eq!(isqrt(u(E18 * E18 - 1)), u(E18 - 1));
    assert_eq!(isqrt(max()), u(u128::MAX));
}

#[test]
fn max_amount_overflows() {
    assert_eq!(insurance_fee(max(), u(E18), u(0), u(0), u(0)), Err(Error::CalculationError));
    assert_eq!(flash_loan_fee(max(), u(0), u(0), u(0)), Err(Error::CalculationError));
}

#[test]
fn max_liquidity_overflows_flash_loan() {
    assert_eq!(flash_loan_fee(u(E18), max(), u(0), u(0)), Err(Error::CalculationError));
}

#[test]
fn insurance_fee_fresh_pool_scenario() {
    let mut calc = InsuranceCalculator::new();
    let fee = calc.calculate_insurance_fee(pool(1), u(E18), u(E18), u(0), u(2000 * E18), u(3600));
    assert_eq!(fee, Ok(u(2_000_000_000_000_000)));
    let st = calc.pool(&pool(1)).unwrap();
    assert_eq!(st.price_history[1], u(2000 * E18));
    assert!(calc.pool(&pool(2)).is_none());
}

#[test]
fn insurance_fee_reads_historical_il() {
    let mut calc = InsuranceCalculator::new();
    calc.set_historical_il(pool(3), u(E18 / 10));
    let fee = calc.calculate_insurance_fee(pool(3), u(E18), u(E18), u(0), u(2000 * E18), u(3600));
    // 1e15 * 1.0 * 1.3 * 2.0 = 2.6e15
    assert_eq!(fee, Ok(u(2_600_000_000_000_000)));
    let other = calc.calculate_insurance_fee(pool(4), u(E18), u(E18), u(0), u(2000 * E18), u(3600));
    assert_eq!(other, Ok(u(2_000_000_000_000_000)));
}

#[test]
fn flash_loan_fee_scenario() {
    let calc = InsuranceCalculator::new();
    assert_eq!(calc.calculate_flash_loan_fee(u(E18), u(0), u(0), u(0)), Ok(u(1_000_000_000_000_000)));
}

#[test]
fn flash_loan_fee_with_all_terms() {
    // 5e14 * 2.0 * 1.5 * 2.0 = 3e15 per unit, times 2 units
    assert_eq!(flash_loan_fee(u(2 * E18), u(E18), u(E18 / 2), u(E18)), Ok(u(6_000_000_000_000_000)));
}
