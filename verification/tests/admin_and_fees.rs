use lending::state::{check_flash_loan_amount, check_flash_loan_repaid, check_sweep_balance, LendingContract};
use lending::types::{AccountId, FlashLoanTerms, LendingError};

fn account(n: u8) -> AccountId {
    AccountId { kind: 0, key_hi: n as u128, key_lo: 7 }
}

fn contract() -> LendingContract {
    LendingContract::new(AccountId { kind: 1, key_hi: 0, key_lo: 1 })
}

#[test]
fn initialize_only_once() {
    let mut c = contract();
    assert_eq!(c.get_admin(), Err(LendingError::NotInitialized));
    assert_eq!(c.initialize(account(1)), Ok(()));
    assert_eq!(c.get_admin(), Ok(account(1)));
    assert!(c.is_asset_whitelisted(account(1)));
    assert_eq!(c.get_loan_count(), 0);
    assert_eq!(c.initialize(account(2)), Err(LendingError::AlreadyInitialized));
    assert_eq!(c.get_admin(), Ok(account(1)));
}

#[test]
fn upgrade_needs_admin() {
    let mut c = contract();
    assert_eq!(c.upgrade(account(1)), Err(LendingError::NotInitialized));
    c.initialize(account(1)).unwrap();
    assert_eq!(c.upgrade(account(1)), Ok(()));
    assert_eq!(c.upgrade(account(2)), Err(LendingError::NotAdmin));
}

#[test]
fn setup_multisig_adds_caller_and_checks_threshold() {
    let mut c = contract();
    c.initialize(account(1)).unwrap();
    assert_eq!(c.setup_multisig(account(1), vec![account(2), account(3)], 0), Err(LendingError::ThresholdZero));
    assert_eq!(
        c.setup_multisig(account(1), vec![account(2), account(3)], 3),
        Err(LendingError::ThresholdExceedsAdmins)
    );
    assert_eq!(c.setup_multisig(account(9), vec![account(2)], 1), Err(LendingError::NotAdmin));
    assert_eq!(c.setup_multisig(account(1), vec![account(2), account(3)], 2), Ok(()));
    assert_eq!(c.get_multisig_admins(), vec![account(2), account(3), account(1)]);
    assert_eq!(c.get_multisig_threshold(), 2);
    assert!(!c.is_paused());
    // A multisig admin now counts as admin.
    assert_eq!(c.upgrade(account(3)), Ok(()));
}

#[test]
fn setup_multisig_keeps_list_holding_caller() {
    let mut c = contract();
    c.initialize(account(1)).unwrap();
    assert_eq!(c.setup_multisig(account(1), vec![account(1), account(2)], 2), Ok(()));
    assert_eq!(c.get_multisig_admins(), vec![account(1), account(2)]);
}

#[test]
fn pause_needs_threshold_of_distinct_votes() {
    let mut c = contract();
    c.initialize(account(1)).unwrap();
    c.setup_multisig(account(1), vec![account(2), account(3), account(4)], 2).unwrap();
    assert_eq!(c.pause(account(9)), Err(LendingError::NotMultisigAdmin));
    assert_eq!(c.pause(account(2)), Ok(false));
    assert!(!c.is_paused());
    assert_eq!(c.get_pause_signer_count(), 1);
    assert_eq!(c.pause(account(2)), Err(LendingError::AlreadySignedPause));
    assert_eq!(c.pause(account(3)), Ok(true));
    assert!(c.is_paused());
    assert_eq!(c.get_pause_signer_count(), 0);
    assert_eq!(c.pause(account(4)), Err(LendingError::AlreadyPaused));
}

#[test]
fn unpause_needs_threshold_of_distinct_votes() {
    let mut c = contract();
    c.initialize(account(1)).unwrap();
    c.setup_multisig(account(1), vec![account(2), account(3)], 2).unwrap();
    assert_eq!(c.unpause(account(2)), Err(LendingError::NotPaused));
    c.pause(account(2)).unwrap();
    c.pause(account(3)).unwrap();
    assert_eq!(c.unpause(account(3)), Ok(false));
    assert!(c.is_paused());
    assert_eq!(c.unpause(account(3)), Err(LendingError::AlreadySignedUnpause));
    assert_eq!(c.unpause(account(1)), Ok(true));
    assert!(!c.is_paused());
}

#[test]
fn signer_tracking_resets_each_cycle() {
    let mut c = contract();
    c.initialize(account(1)).unwrap();
    c.setup_multisig(account(1), vec![account(2), account(3)], 2).unwrap();
    assert_eq!(c.pause(account(2)), Ok(false));
    assert_eq!(c.pause(account(3)), Ok(true));
    assert_eq!(c.unpause(account(2)), Ok(false));
    assert_eq!(c.unpause(account(3)), Ok(true));
    assert!(!c.is_paused());
    // A new pause cycle: earlier voters may vote again.
    assert_eq!(c.pause(account(2)), Ok(false));
    assert_eq!(c.get_pause_signer_count(), 1);
    assert!(!c.is_paused());
    assert_eq!(c.pause(account(3)), Ok(true));
    assert_eq!(c.unpause(account(3)), Ok(false));
    assert_eq!(c.unpause(account(2)), Ok(true));
    assert!(!c.is_paused());
}

#[test]
fn multisig_gate_without_configuration() {
    let mut c = contract();
    c.initialize(account(1)).unwrap();
    assert_eq!(c.pause(account(1)), Err(LendingError::MultisigNotConfigured));
    assert_eq!(c.whitelist_asset(account(1), account(5)), Err(LendingError::MultisigNotConfigured));
}

#[test]
fn multisig_admin_link_is_one_time() {
    let mut c = contract();
    c.initialize(account(1)).unwrap();
    assert_eq!(c.get_multisig_admin(), Err(LendingError::MultisigAdminNotConfigured));
    assert_eq!(c.set_multisig_admin(account(1), account(8)), Ok(()));
    assert_eq!(c.get_multisig_admin(), Ok(account(8)));
    assert_eq!(c.get_multisig_admins(), vec![account(8)]);
    assert_eq!(c.set_multisig_admin(account(8), account(9)), Err(LendingError::MultisigAdminAlreadyConfigured));
    assert_eq!(c.whitelist_asset(account(8), account(5)), Ok(()));
    assert!(c.is_asset_whitelisted(account(5)));
    assert_eq!(c.whitelist_asset(account(1), account(6)), Err(LendingError::NotMultisigAdmin));
}

#[test]
fn loyalty_and_referral_contracts() {
    let mut c = contract();
    c.initialize(account(1)).unwrap();
    assert_eq!(c.get_loyalty_contract(), None);
    assert_eq!(c.set_loyalty_contract(account(2), account(30)), Err(LendingError::NotAdmin));
    assert_eq!(c.set_loyalty_contract(account(1), account(30)), Ok(()));
    assert_eq!(c.get_loyalty_contract(), Some(account(30)));
    assert_eq!(c.get_referral_contract(), None);
    assert_eq!(c.set_referral_contract(account(1), account(31)), Ok(()));
    assert_eq!(c.get_referral_contract(), Some(account(31)));
}

#[test]
fn platform_fee_only_by_governance() {
    let mut c = contract();
    c.initialize(account(1)).unwrap();
    assert_eq!(c.get_platform_fee_bps(), 100);
    assert_eq!(c.set_platform_fee_bps(account(1), 200), Err(LendingError::GovernanceNotConfigured));
    c.set_multisig_admin(account(1), account(8)).unwrap();
    assert_eq!(c.get_governance(), Err(LendingError::GovernanceNotConfigured));
    assert_eq!(c.set_governance(account(8), account(20)), Ok(()));
    assert_eq!(c.get_governance(), Ok(account(20)));
    // The link is a one-time bootstrap.
    assert_eq!(c.set_governance(account(8), account(21)), Err(LendingError::GovernanceAlreadyConfigured));
    assert_eq!(c.get_governance(), Ok(account(20)));
    assert_eq!(c.set_platform_fee_bps(account(1), 200), Err(LendingError::NotGovernance));
    assert_eq!(c.set_platform_fee_bps(account(20), 1001), Err(LendingError::PlatformFeeTooHigh));
    assert_eq!(c.set_platform_fee_bps(account(20), 1000), Ok(100));
    assert_eq!(c.get_platform_fee_bps(), 1000);
}

#[test]
fn flash_loan_fee_and_terms() {
    let mut c = contract();
    c.initialize(account(1)).unwrap();
    c.set_multisig_admin(account(1), account(8)).unwrap();
    assert_eq!(c.get_flash_loan_fee_bps(), 9);
    assert_eq!(
        c.flash_loan(1_000_000, 5_000_000),
        Ok(FlashLoanTerms { fee: 900, required_balance: 5_000_900 })
    );
    assert_eq!(c.flash_loan(0, 5_000_000), Err(LendingError::FlashLoanAmountNotPositive));
    assert_eq!(check_flash_loan_amount(-1), Err(LendingError::FlashLoanAmountNotPositive));
    assert_eq!(check_flash_loan_amount(1), Ok(()));
    assert_eq!(c.flash_loan(6_000_000, 5_000_000), Err(LendingError::InsufficientFlashLiquidity));
    assert_eq!(c.flash_loan(i128::MAX, i128::MAX), Err(LendingError::ArithmeticOverflow));
    assert_eq!(c.set_flash_loan_fee_bps(account(8), 501), Err(LendingError::FlashLoanFeeTooHigh));
    assert_eq!(c.set_flash_loan_fee_bps(account(8), 500), Ok(()));
    assert_eq!(c.get_flash_loan_fee_bps(), 500);
    let terms = c.flash_loan(1_000_000, 1_000_000).unwrap();
    assert_eq!(terms, FlashLoanTerms { fee: 50_000, required_balance: 1_050_000 });
    assert_eq!(check_flash_loan_repaid(terms, 1_049_999), Err(LendingError::FlashLoanNotRepaid));
    assert_eq!(check_flash_loan_repaid(terms, 1_050_000), Ok(()));
}

#[test]
fn sweep_decision() {
    let mut c = contract();
    c.initialize(account(1)).unwrap();
    assert_eq!(c.sweep_tokens(account(2), account(40), 10), Err(LendingError::NotAdmin));
    assert_eq!(c.sweep_tokens(account(1), account(40), 0), Err(LendingError::SweepAmountNotPositive));
    // The admin address is whitelisted by `initialize`.
    assert_eq!(c.sweep_tokens(account(1), account(1), 10), Err(LendingError::CannotSweepWhitelisted));
    assert_eq!(c.sweep_tokens(account(1), account(40), 10), Ok(()));
    assert_eq!(check_sweep_balance(10, 9), Err(LendingError::InsufficientSweepBalance));
    assert_eq!(check_sweep_balance(10, 10), Ok(()));
}

#[test]
fn collect_fees_resets_and_is_idempotent() {
    let mut c = contract();
    assert_eq!(c.get_uncollected_fees(), 0);
    assert_eq!(c.collect_fees(), 0);
}

#[test]
fn price_oracle_registration() {
    let mut c = contract();
    c.initialize(account(1)).unwrap();
    assert_eq!(c.get_price_oracle(), Err(LendingError::PriceOracleNotConfigured));
    assert_eq!(c.set_price_oracle(account(1), account(50)), Err(LendingError::MultisigNotConfigured));
    c.set_multisig_admin(account(1), account(8)).unwrap();
    assert_eq!(c.set_price_oracle(account(8), account(50)), Ok(()));
    assert_eq!(c.get_price_oracle(), Ok(account(50)));
}
