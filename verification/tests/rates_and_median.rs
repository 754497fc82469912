use lending::rates::{bps_share, MIN_BORROW_AMOUNT, PRICE_PRECISION};
use lending::state::LendingContract;
use lending::types::LendingError;

#[test]
fn interest_over_a_full_year() {
    // 1_000 XLM at 15 % for 365 days: 150 XLM of interest.
    assert_eq!(LendingContract::calculate_interest(10_000_000_000, 1500, 365), Ok(1_500_000_000));
}

#[test]
fn interest_rounds_toward_zero() {
    // 100_000_000 * 1000 * 30 / 3_650_000 = 821_917.8...
    assert_eq!(LendingContract::calculate_interest(100_000_000, 1000, 30), Ok(821_917));
    assert_eq!(LendingContract::calculate_interest(-100_000_000, 1000, 30), Ok(-821_917));
    assert_eq!(LendingContract::calculate_interest(100_000_000, 0, 30), Ok(0));
}

#[test]
fn interest_overflow_is_reported() {
    assert_eq!(
        LendingContract::calculate_interest(i128::MAX / 2, 10_000, 365),
        Err(LendingError::ArithmeticOverflow)
    );
    assert_eq!(
        LendingContract::calculate_interest(i128::MAX / 20_000, 10_000, 365),
        Err(LendingError::ArithmeticOverflow)
    );
}

#[test]
fn liquidation_threshold_formula() {
    assert_eq!(LendingContract::calculate_liquidation_threshold(0, 0), 7500);
    assert_eq!(LendingContract::calculate_liquidation_threshold(100, 500), 7400);
    assert_eq!(LendingContract::calculate_liquidation_threshold(1, 1), 7501);
    assert_eq!(LendingContract::calculate_liquidation_threshold(1000, 0), 9000);
    assert_eq!(LendingContract::calculate_liquidation_threshold(u32::MAX, 0), 9000);
    assert_eq!(LendingContract::calculate_liquidation_threshold(0, 10_000), 5000);
    assert_eq!(LendingContract::calculate_liquidation_threshold(0, u32::MAX), 5000);
}

#[test]
fn reputation_bonus_is_capped() {
    // The bonus stops at 1500 bps: 7500 + 1500 - 1000.
    assert_eq!(LendingContract::calculate_liquidation_threshold(2000, 2000), 8000);
    assert_eq!(LendingContract::calculate_liquidation_threshold(999, 0), 8998);
}

#[test]
fn basis_point_share() {
    assert_eq!(bps_share(821_917, 100), Ok(8_219));
    assert_eq!(bps_share(-15_000, 50), Ok(-75));
    assert_eq!(bps_share(i128::MAX, 2), Err(LendingError::ArithmeticOverflow));
}

#[test]
fn min_borrow_amount_is_one_xlm() {
    assert_eq!(LendingContract::get_min_borrow_amount(), 10_000_000);
    assert_eq!(MIN_BORROW_AMOUNT, PRICE_PRECISION);
}

#[test]
fn median_of_odd_count_is_middle_sample() {
    assert_eq!(LendingContract::median_price(&vec![30, 10, 20]), Ok(20));
    assert_eq!(LendingContract::median_price(&vec![7]), Ok(7));
}

#[test]
fn median_of_even_count_is_mean_of_middle_pair() {
    assert_eq!(LendingContract::median_price(&vec![40, 10, 30, 20]), Ok(25));
    assert_eq!(LendingContract::median_price(&vec![1, 2]), Ok(1));
    // Rounded toward zero: (-3 + -2) / 2 = -2.
    assert_eq!(LendingContract::median_price(&vec![-3, -2]), Ok(-2));
}

#[test]
fn median_of_no_samples_is_rejected() {
    assert_eq!(LendingContract::median_price(&vec![]), Err(LendingError::NoPriceSamples));
}

#[test]
fn median_overflow_is_reported() {
    assert_eq!(
        LendingContract::median_price(&vec![i128::MAX, i128::MAX]),
        Err(LendingError::ArithmeticOverflow)
    );
}

#[test]
fn median_ignores_sample_order() {
    let a = LendingContract::median_price(&vec![5, 1, 9, 3, 7]);
    let b = LendingContract::median_price(&vec![9, 7, 5, 3, 1]);
    assert_eq!(a, b);
    assert_eq!(a, Ok(5));
}

#[test]
fn median_resists_one_outlier() {
    assert_eq!(LendingContract::median_price(&vec![100, 1_000_000_000, 101]), Ok(101));
    assert_eq!(LendingContract::median_price(&vec![100, -1_000_000_000, 101]), Ok(100));
    assert_eq!(LendingContract::median_price(&vec![100, 102, 1_000_000_000, 104]), Ok(103));
}
