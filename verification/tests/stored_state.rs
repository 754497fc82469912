use lending::account_map::MapEntry;
use lending::state::LendingContract;
use lending::stored::StoredState;
use lending::types::{
    AccountId, AssetCollateralConfig, CollateralEntry, InterestRateModel, LendingError, LoanRequestInput,
};

fn account(n: u8) -> AccountId {
    AccountId { kind: 0, key_hi: 5, key_lo: n as u128 }
}

fn busy_contract() -> LendingContract {
    let mut c = LendingContract::new(AccountId { kind: 1, key_hi: 1, key_lo: 1 });
    c.initialize(account(1)).unwrap();
    c.set_multisig_admin(account(1), account(2)).unwrap();
    c.whitelist_asset(account(2), account(10)).unwrap();
    c.set_asset_collateral_config(
        account(2),
        account(10),
        AssetCollateralConfig { collateral_factor_bps: 8000, has_price_oracle: true, volatility_bps: 300 },
    )
    .unwrap();
    c.set_asset_twap_price(account(2), account(10), 20_000_000).unwrap();
    c.set_asset_oracle_prices(account(2), account(10), vec![10_000_000, 30_000_000]).unwrap();
    c.deposit_collateral(account(20), account(10), 300_000_000).unwrap();
    let request = LoanRequestInput {
        amount: 100_000_000,
        duration_days: 10,
        interest_rate_bps: 500,
        max_loan_amount: 500_000_000,
        collateral_entries: vec![CollateralEntry { asset: account(10), amount: 300_000_000 }],
        rate_model: InterestRateModel::Floating,
        reputation_tier: 3,
    };
    let id = c.create_loan_request(account(20), request, 50).unwrap();
    c.approve_loan(account(30), id, 9).unwrap();
    c.activate_loan(account(1), id).unwrap();
    c.record_payment(account(1), id, 1_000, 60).unwrap();
    c.pause(account(2)).unwrap();
    c
}

#[test]
fn stored_state_round_trip() {
    let c = busy_contract();
    let loan = c.get_loan(1).unwrap();
    let power = c.get_borrowing_power(account(20));
    let fees = c.get_uncollected_fees();
    let restored = match LendingContract::restore(c.into_stored()) {
        Ok(r) => r,
        Err(_) => panic!("a stored state must restore"),
    };
    assert_eq!(restored.get_loan(1), Ok(loan));
    assert_eq!(restored.get_borrowing_power(account(20)), power);
    // Median price 2.0 per unit, 80 % factor.
    assert_eq!(power, Ok(480_000_000));
    assert_eq!(restored.get_uncollected_fees(), fees);
    assert_eq!(restored.get_payment_count(1), 1);
    assert!(restored.is_paused());
    assert!(restored.is_asset_whitelisted(account(10)));
    assert_eq!(restored.get_lender_loan_at(account(30), 0), Ok(1));
    assert_eq!(restored.get_multisig_admins(), vec![account(2)]);
}

fn restore_err(s: StoredState) -> bool {
    matches!(LendingContract::restore(s), Err(LendingError::CorruptState))
}

#[test]
fn duplicate_keys_are_corrupt() {
    let mut s = busy_contract().into_stored();
    let first = s.borrower_loans[0].key;
    s.borrower_loans.push(MapEntry { key: first, value: vec![] });
    assert!(restore_err(s));
}

#[test]
fn loan_counter_mismatch_is_corrupt() {
    let mut s = busy_contract().into_stored();
    s.loan_count = 7;
    assert!(restore_err(s));
}

#[test]
fn fee_above_cap_is_corrupt() {
    let mut s = busy_contract().into_stored();
    s.platform_fee_bps = 1001;
    assert!(restore_err(s));
}

#[test]
fn config_out_of_bounds_is_corrupt() {
    let mut s = busy_contract().into_stored();
    s.collateral_configs[0].value.collateral_factor_bps = 9600;
    assert!(restore_err(s));
}

#[test]
fn empty_position_is_corrupt() {
    let mut s = busy_contract().into_stored();
    s.user_collateral[0].value.clear();
    assert!(restore_err(s));
}

#[test]
fn repeated_asset_in_position_is_corrupt() {
    let mut s = busy_contract().into_stored();
    let e = s.user_collateral[0].value[0];
    s.user_collateral[0].value.push(e);
    assert!(restore_err(s));
}

#[test]
fn configuration_before_initialisation_is_corrupt() {
    let mut s = LendingContract::new(account(99)).into_stored();
    s.whitelisted.push(account(10));
    assert!(restore_err(s));
}

#[test]
fn fresh_state_restores() {
    let s = LendingContract::new(account(99)).into_stored();
    assert!(LendingContract::restore(s).is_ok());
}

#[test]
fn dangling_loan_id_is_corrupt() {
    let mut s = busy_contract().into_stored();
    s.lender_loans[0].value.push(2);
    assert!(restore_err(s));
}

#[test]
fn loan_listed_under_another_borrower_is_corrupt() {
    let mut s = busy_contract().into_stored();
    s.borrower_loans.push(MapEntry { key: account(21), value: vec![1] });
    assert!(restore_err(s));
}

#[test]
fn lingering_pause_vote_is_corrupt() {
    let mut s = busy_contract().into_stored();
    s.pause_signers.push(account(2));
    assert!(restore_err(s));
}
