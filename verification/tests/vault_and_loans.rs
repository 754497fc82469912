use lending::state::LendingContract;
use lending::types::{
    AccountId, AssetCollateralConfig, CollateralEntry, InterestRateModel, LendingError, LoanRequestInput,
    LoanStatus, LoyaltyRewardCall, PaymentOutcome, PaymentRecord, ReferralBonusCall,
};

const DAY: u64 = 86_400;

fn account(n: u8) -> AccountId {
    AccountId { kind: 0, key_hi: n as u128, key_lo: 3 }
}

const ADMIN: u8 = 1;
const MULTISIG: u8 = 2;
const ASSET: u8 = 10;
const ORACLE_ASSET: u8 = 11;
const BORROWER: u8 = 20;
const LENDER: u8 = 30;

fn this_contract() -> AccountId {
    AccountId { kind: 1, key_hi: 0, key_lo: 99 }
}

fn setup() -> LendingContract {
    let mut c = LendingContract::new(this_contract());
    c.initialize(account(ADMIN)).unwrap();
    c.set_multisig_admin(account(ADMIN), account(MULTISIG)).unwrap();
    c.whitelist_asset(account(MULTISIG), account(ASSET)).unwrap();
    c.whitelist_asset(account(MULTISIG), account(ORACLE_ASSET)).unwrap();
    c
}

fn request(amount: i128, collateral: i128) -> LoanRequestInput {
    LoanRequestInput {
        amount,
        duration_days: 30,
        interest_rate_bps: 1000,
        max_loan_amount: 1_000_000_000,
        collateral_entries: vec![CollateralEntry { asset: account(ASSET), amount: collateral }],
        rate_model: InterestRateModel::Fixed,
        reputation_tier: 2,
    }
}

#[test]
fn deposit_then_withdraw_restores_collateral() {
    let mut c = setup();
    c.deposit_collateral(account(BORROWER), account(ASSET), 500).unwrap();
    let before = c.get_user_collateral_entries(account(BORROWER));
    c.deposit_collateral(account(BORROWER), account(ORACLE_ASSET), 70).unwrap();
    assert_eq!(c.withdraw_collateral(account(BORROWER), account(ORACLE_ASSET), 70), Ok(0));
    assert_eq!(c.get_user_collateral_entries(account(BORROWER)), before);
    c.deposit_collateral(account(BORROWER), account(ASSET), 30).unwrap();
    assert_eq!(
        c.get_user_collateral_entries(account(BORROWER)),
        vec![CollateralEntry { asset: account(ASSET), amount: 530 }]
    );
    assert_eq!(c.withdraw_collateral(account(BORROWER), account(ASSET), 30), Ok(500));
    assert_eq!(c.get_user_collateral_entries(account(BORROWER)), before);
}

#[test]
fn deposit_rejections() {
    let mut c = setup();
    assert_eq!(
        c.deposit_collateral(account(BORROWER), account(ASSET), 0),
        Err(LendingError::CollateralAmountNotPositive)
    );
    assert_eq!(
        c.deposit_collateral(account(BORROWER), account(77), 10),
        Err(LendingError::AssetNotWhitelisted)
    );
    c.deposit_collateral(account(BORROWER), account(ASSET), i128::MAX).unwrap();
    assert_eq!(
        c.deposit_collateral(account(BORROWER), account(ASSET), 1),
        Err(LendingError::ArithmeticOverflow)
    );
}

#[test]
fn withdraw_rejections() {
    let mut c = setup();
    assert_eq!(
        c.withdraw_collateral(account(BORROWER), account(ASSET), 1),
        Err(LendingError::NoCollateralEntries)
    );
    c.deposit_collateral(account(BORROWER), account(ASSET), 100).unwrap();
    assert_eq!(
        c.withdraw_collateral(account(BORROWER), account(ASSET), 0),
        Err(LendingError::WithdrawalAmountNotPositive)
    );
    assert_eq!(
        c.withdraw_collateral(account(BORROWER), account(ASSET), 101),
        Err(LendingError::InsufficientCollateral)
    );
    assert_eq!(
        c.withdraw_collateral(account(BORROWER), account(ORACLE_ASSET), 1),
        Err(LendingError::CollateralAssetNotFound)
    );
    assert_eq!(c.withdraw_collateral(account(BORROWER), account(ASSET), 100), Ok(0));
    assert_eq!(c.get_user_collateral_entries(account(BORROWER)), vec![]);
    assert_eq!(
        c.withdraw_collateral(account(BORROWER), account(ASSET), 1),
        Err(LendingError::NoCollateralEntries)
    );
}

#[test]
fn borrowing_power_uses_factor_and_oracle_prices() {
    let mut c = setup();
    c.deposit_collateral(account(BORROWER), account(ASSET), 1_000).unwrap();
    // Default factor 75 %, face value.
    assert_eq!(c.get_borrowing_power(account(BORROWER)), Ok(750));
    assert_eq!(c.get_total_collateral_value(account(BORROWER)), Ok(1_000));
    let cfg = AssetCollateralConfig { collateral_factor_bps: 9900, has_price_oracle: true, volatility_bps: 20_000 };
    assert_eq!(
        c.set_asset_collateral_config(account(MULTISIG), account(ORACLE_ASSET), cfg),
        Ok(AssetCollateralConfig { collateral_factor_bps: 9500, has_price_oracle: true, volatility_bps: 10_000 })
    );
    assert_eq!(
        c.set_asset_collateral_config(account(MULTISIG), account(77), cfg),
        Err(LendingError::AssetNotWhitelisted)
    );
    c.deposit_collateral(account(BORROWER), account(ORACLE_ASSET), 100).unwrap();
    // Oracle asset without samples or TWAP: face value, factor 95 %.
    assert_eq!(c.get_borrowing_power(account(BORROWER)), Ok(750 + 95));
    // TWAP fallback: 2.0 per unit.
    assert_eq!(c.set_asset_twap_price(account(MULTISIG), account(ORACLE_ASSET), 0), Err(LendingError::TwapPriceNotPositive));
    c.set_asset_twap_price(account(MULTISIG), account(ORACLE_ASSET), 20_000_000).unwrap();
    assert_eq!(c.get_borrowing_power(account(BORROWER)), Ok(750 + 190));
    assert_eq!(c.get_total_collateral_value(account(BORROWER)), Ok(1_000 + 200));
    // Median of samples wins over the TWAP: median 3.0 per unit.
    assert_eq!(
        c.set_asset_oracle_prices(account(MULTISIG), account(ORACLE_ASSET), vec![]),
        Err(LendingError::NoPriceSamples)
    );
    c.set_asset_oracle_prices(account(MULTISIG), account(ORACLE_ASSET), vec![90_000_000, 30_000_000, 10_000_000])
        .unwrap();
    assert_eq!(c.get_borrowing_power(account(BORROWER)), Ok(750 + 285));
    assert_eq!(
        c.get_asset_collateral_config(account(ASSET)),
        AssetCollateralConfig { collateral_factor_bps: 7500, has_price_oracle: false, volatility_bps: 0 }
    );
}

#[test]
fn borrowing_power_rounds_once() {
    let mut c = setup();
    let cfg = AssetCollateralConfig { collateral_factor_bps: 9500, has_price_oracle: true, volatility_bps: 0 };
    c.set_asset_collateral_config(account(MULTISIG), account(ORACLE_ASSET), cfg).unwrap();
    // Half a base unit per collateral unit.
    c.set_asset_twap_price(account(MULTISIG), account(ORACLE_ASSET), 5_000_000).unwrap();
    c.deposit_collateral(account(BORROWER), account(ORACLE_ASSET), 3).unwrap();
    // 3 * 5_000_000 * 9500 / (10_000_000 * 10_000) = 1.425, rounded down once.
    assert_eq!(c.get_borrowing_power(account(BORROWER)), Ok(1));
    assert_eq!(c.get_total_collateral_value(account(BORROWER)), Ok(1));
}

#[test]
fn borrowing_power_adds_up_in_any_order() {
    let mut c = setup();
    let cfg = AssetCollateralConfig { collateral_factor_bps: 9000, has_price_oracle: true, volatility_bps: 0 };
    c.set_asset_collateral_config(account(MULTISIG), account(ORACLE_ASSET), cfg).unwrap();
    c.set_asset_twap_price(account(MULTISIG), account(ORACLE_ASSET), 25_000_000).unwrap();
    c.deposit_collateral(account(BORROWER), account(ASSET), 1_001).unwrap();
    let asset_only = c.get_borrowing_power(account(BORROWER)).unwrap();
    c.deposit_collateral(account(BORROWER), account(ORACLE_ASSET), 7).unwrap();
    let both = c.get_borrowing_power(account(BORROWER)).unwrap();
    c.deposit_collateral(account(BORROWER + 1), account(ORACLE_ASSET), 7).unwrap();
    let oracle_only = c.get_borrowing_power(account(BORROWER + 1)).unwrap();
    c.deposit_collateral(account(BORROWER + 1), account(ASSET), 1_001).unwrap();
    // 1001 * 0.75 = 750.75 -> 750; 7 * 2.5 * 0.9 = 15.75 -> 15.
    assert_eq!(asset_only, 750);
    assert_eq!(oracle_only, 15);
    assert_eq!(both, 765);
    assert_eq!(c.get_borrowing_power(account(BORROWER + 1)), Ok(765));
}

#[test]
fn borrowing_power_of_large_collateral() {
    let mut c = setup();
    let cfg = AssetCollateralConfig { collateral_factor_bps: 8000, has_price_oracle: true, volatility_bps: 0 };
    c.set_asset_collateral_config(account(MULTISIG), account(ORACLE_ASSET), cfg).unwrap();
    c.set_asset_twap_price(account(MULTISIG), account(ORACLE_ASSET), 100_000_000_000_000_000_003).unwrap();
    c.deposit_collateral(account(BORROWER), account(ORACLE_ASSET), 1_000_000_000_000_000_007).unwrap();
    // amount * price is about 1e38: it fits, though times the factor it would not.
    assert_eq!(c.get_borrowing_power(account(BORROWER)), Ok(8_000_000_000_000_000_056_240_000_000_000));
    assert_eq!(c.get_total_collateral_value(account(BORROWER)), Ok(10_000_000_000_000_000_070_300_000_000_000));
}

#[test]
fn collateral_factor_clamped_from_below() {
    let mut c = setup();
    let cfg = AssetCollateralConfig { collateral_factor_bps: 5, has_price_oracle: false, volatility_bps: 10 };
    assert_eq!(
        c.set_asset_collateral_config(account(MULTISIG), account(ASSET), cfg),
        Ok(AssetCollateralConfig { collateral_factor_bps: 1000, has_price_oracle: false, volatility_bps: 10 })
    );
}

#[test]
fn loan_request_terms() {
    let mut c = setup();
    let id = c.create_loan_request(account(BORROWER), request(100_000_000, 200_000_000), 1_000).unwrap();
    assert_eq!(id, 1);
    assert_eq!(c.get_loan_count(), 1);
    let loan = c.get_loan(1).unwrap();
    assert_eq!(loan.id, 1);
    assert_eq!(loan.borrower, account(BORROWER));
    assert_eq!(loan.lender, this_contract());
    assert_eq!(loan.status, LoanStatus::Pending);
    assert_eq!(loan.total_due, 100_821_917);
    assert_eq!(loan.remaining_due, 100_821_917);
    assert_eq!(loan.platform_fee, 8_219);
    assert_eq!(loan.due_at, 1_000 + 30 * DAY);
    assert_eq!(loan.base_rate_bps, 1000);
    assert_eq!(c.get_uncollected_fees(), 8_219);
    assert_eq!(c.get_borrower_loan_count(account(BORROWER)), 1);
    assert_eq!(c.get_borrower_loan_at(account(BORROWER), 0), Ok(1));
    assert_eq!(c.get_borrower_loan_at(account(BORROWER), 1), Err(LendingError::IndexOutOfBounds));
    assert_eq!(c.collect_fees(), 8_219);
    assert_eq!(c.get_uncollected_fees(), 0);
    assert_eq!(c.collect_fees(), 0);
    assert_eq!(c.get_loan(2), Err(LendingError::LoanNotFound));
}

#[test]
fn loan_request_rejections() {
    let mut c = setup();
    let b = account(BORROWER);
    assert_eq!(c.create_loan_request(b, request(0, 1), 0), Err(LendingError::LoanAmountNotPositive));
    assert_eq!(c.create_loan_request(b, request(9_999_999, 1), 0), Err(LendingError::BelowMinimumBorrow));
    assert_eq!(c.create_loan_request(b, request(2_000_000_000, 1), 0), Err(LendingError::ExceedsReputationLimit));
    let mut r = request(100_000_000, 200_000_000);
    r.duration_days = 366;
    assert_eq!(c.create_loan_request(b, r, 0), Err(LendingError::InvalidDuration));
    let mut r = request(100_000_000, 200_000_000);
    r.duration_days = 0;
    assert_eq!(c.create_loan_request(b, r, 0), Err(LendingError::InvalidDuration));
    let mut r = request(100_000_000, 200_000_000);
    r.reputation_tier = 5;
    assert_eq!(c.create_loan_request(b, r, 0), Err(LendingError::InvalidReputationTier));
    let mut r = request(100_000_000, 200_000_000);
    r.collateral_entries = vec![];
    assert_eq!(c.create_loan_request(b, r, 0), Err(LendingError::NoCollateralProvided));
    let mut r = request(100_000_000, 200_000_000);
    r.collateral_entries.push(CollateralEntry { asset: account(77), amount: 5 });
    assert_eq!(c.create_loan_request(b, r, 0), Err(LendingError::CollateralNotWhitelisted));
    assert_eq!(c.create_loan_request(b, request(100_000_000, 0), 0), Err(LendingError::CollateralEntryNotPositive));
    assert_eq!(
        c.create_loan_request(b, request(100_000_000, 100_000_000), 0),
        Err(LendingError::InsufficientBorrowingPower { power: 75_000_000, amount: 100_000_000 })
    );
    assert_eq!(
        c.create_loan_request(b, request(100_000_000, 200_000_000), u64::MAX - DAY),
        Err(LendingError::ArithmeticOverflow)
    );
    assert_eq!(c.get_loan_count(), 0);
}

#[test]
fn paused_contract_rejects_borrower_actions() {
    let mut c = setup();
    c.pause(account(MULTISIG)).unwrap();
    assert!(c.is_paused());
    assert_eq!(
        c.create_loan_request(account(BORROWER), request(100_000_000, 200_000_000), 0),
        Err(LendingError::ContractPaused)
    );
    assert_eq!(
        c.deposit_collateral(account(BORROWER), account(ASSET), 5),
        Err(LendingError::ContractPaused)
    );
}

#[test]
fn full_lifecycle_with_rewards() {
    let mut c = setup();
    c.set_loyalty_contract(account(ADMIN), account(60)).unwrap();
    c.set_referral_contract(account(ADMIN), account(61)).unwrap();
    let id = c.create_loan_request(account(BORROWER), request(100_000_000, 200_000_000), 1_000).unwrap();
    assert_eq!(c.activate_loan(account(ADMIN), id), Err(LendingError::LoanNotApproved));
    assert_eq!(c.approve_loan(account(LENDER), id, 42), Ok(()));
    assert_eq!(c.approve_loan(account(LENDER), id, 42), Err(LendingError::LoanNotPending));
    let loan = c.get_loan(id).unwrap();
    assert_eq!((loan.status, loan.lender, loan.escrow_id), (LoanStatus::Approved, account(LENDER), 42));
    assert_eq!(c.get_lender_loan_count(account(LENDER)), 1);
    assert_eq!(c.get_lender_loan_at(account(LENDER), 0), Ok(id));
    assert_eq!(c.activate_loan(account(LENDER), id), Err(LendingError::NotAdmin));
    assert_eq!(
        c.activate_loan(account(ADMIN), id),
        Ok(Some(ReferralBonusCall { referral_contract: account(61), borrower: account(BORROWER), loan_amount: 100_000_000 }))
    );
    assert_eq!(c.get_loan(id).unwrap().status, LoanStatus::Active);
    assert_eq!(c.record_payment(account(ADMIN), id, 0, 2_000), Err(LendingError::PaymentAmountNotPositive));
    assert_eq!(
        c.record_payment(account(ADMIN), id, 821_917, 2_000),
        Ok(PaymentOutcome { status: LoanStatus::Active, loyalty_reward: None })
    );
    assert_eq!(c.get_loan(id).unwrap().remaining_due, 100_000_000);
    assert_eq!(c.get_payment_count(id), 1);
    assert_eq!(c.get_payment(id, 1), Ok(PaymentRecord { loan_id: id, amount: 821_917, paid_at: 2_000 }));
    assert_eq!(c.get_payment(id, 2), Err(LendingError::PaymentNotFound));
    assert_eq!(
        c.record_payment(account(ADMIN), id, 200_000_000, 3_000),
        Ok(PaymentOutcome {
            status: LoanStatus::Repaid,
            loyalty_reward: Some(LoyaltyRewardCall {
                loyalty_contract: account(60),
                borrower: account(BORROWER),
                loan_amount: 100_000_000,
                duration_days: 30,
                reputation_tier: 2,
            }),
        })
    );
    let loan = c.get_loan(id).unwrap();
    assert_eq!((loan.status, loan.remaining_due), (LoanStatus::Repaid, 0));
    assert_eq!(c.get_payment_count(id), 2);
    assert_eq!(c.record_payment(account(ADMIN), id, 1, 4_000), Err(LendingError::LoanNotActive));
    assert_eq!(c.mark_defaulted(account(ADMIN), id), Err(LendingError::LoanNotActive));
}

#[test]
fn late_repayment_earns_no_loyalty_reward() {
    let mut c = setup();
    c.set_loyalty_contract(account(ADMIN), account(60)).unwrap();
    let id = c.create_loan_request(account(BORROWER), request(100_000_000, 200_000_000), 0).unwrap();
    c.approve_loan(account(LENDER), id, 1).unwrap();
    assert_eq!(c.activate_loan(account(ADMIN), id), Ok(None));
    assert_eq!(c.is_overdue(id, 30 * DAY), Ok(false));
    assert_eq!(c.is_overdue(id, 30 * DAY + 1), Ok(true));
    assert_eq!(c.days_overdue(id, 32 * DAY + 5), Ok(2));
    assert_eq!(
        c.record_payment(account(ADMIN), id, 500_000_000, 31 * DAY),
        Ok(PaymentOutcome { status: LoanStatus::Repaid, loyalty_reward: None })
    );
    assert_eq!(c.days_overdue(id, 40 * DAY), Ok(0));
    assert_eq!(c.is_overdue(9, 0), Err(LendingError::LoanNotFound));
}

#[test]
fn revoke_and_default() {
    let mut c = setup();
    let id = c.create_loan_request(account(BORROWER), request(100_000_000, 200_000_000), 0).unwrap();
    assert_eq!(c.revoke_approval(account(LENDER), id), Err(LendingError::NotLender));
    let pending = c.get_loan(id).unwrap();
    c.approve_loan(account(LENDER), id, 5).unwrap();
    assert_eq!(c.revoke_approval(account(BORROWER), id), Err(LendingError::NotLender));
    assert_eq!(c.revoke_approval(account(LENDER), id), Ok(()));
    let loan = c.get_loan(id).unwrap();
    assert_eq!((loan.status, loan.lender, loan.escrow_id), (LoanStatus::Pending, this_contract(), 0));
    assert_eq!(loan, pending);
    assert_eq!(c.revoke_approval(account(LENDER), id), Err(LendingError::NotLender));
    c.approve_loan(account(LENDER), id, 6).unwrap();
    c.activate_loan(account(ADMIN), id).unwrap();
    assert_eq!(c.mark_defaulted(account(LENDER), id), Err(LendingError::NotAdmin));
    assert_eq!(c.mark_defaulted(account(ADMIN), id), Ok(()));
    assert_eq!(c.get_loan(id).unwrap().status, LoanStatus::Defaulted);
    assert_eq!(c.get_lender_loan_count(account(LENDER)), 2);
}

#[test]
fn withdrawal_blocked_by_active_debt() {
    let mut c = setup();
    c.deposit_collateral(account(BORROWER), account(ASSET), 200_000_000).unwrap();
    let id = c.create_loan_request(account(BORROWER), request(100_000_000, 200_000_000), 0).unwrap();
    // A pending loan does not count as debt.
    assert_eq!(c.withdraw_collateral(account(BORROWER), account(ASSET), 100_000_000), Ok(100_000_000));
    c.deposit_collateral(account(BORROWER), account(ASSET), 100_000_000).unwrap();
    c.approve_loan(account(LENDER), id, 1).unwrap();
    assert_eq!(
        c.withdraw_collateral(account(BORROWER), account(ASSET), 100_000_000),
        // 100_000_000 at 10 % for 30 days owes 100_821_917.
        Err(LendingError::UnderCollateralized { power: 75_000_000, debt: 100_821_917 })
    );
    assert_eq!(c.withdraw_collateral(account(BORROWER), account(ASSET), 50_000_000), Ok(150_000_000));
    assert_eq!(c.get_borrowing_power(account(BORROWER)), Ok(112_500_000));
}

#[test]
fn rate_switch_fee_and_cooldown() {
    let mut c = setup();
    let id = c.create_loan_request(account(BORROWER), request(100_000_000, 200_000_000), 0).unwrap();
    assert_eq!(c.switch_rate_model(account(BORROWER), id, 10), Err(LendingError::LoanNotActive));
    c.approve_loan(account(LENDER), id, 1).unwrap();
    c.activate_loan(account(ADMIN), id).unwrap();
    assert_eq!(c.switch_rate_model(account(LENDER), id, 10), Err(LendingError::NotBorrower));
    // 0.5 % of 100_821_917.
    assert_eq!(c.switch_rate_model(account(BORROWER), id, 10), Ok(504_109));
    let loan = c.get_loan(id).unwrap();
    assert_eq!(loan.rate_model, InterestRateModel::Floating);
    assert_eq!((loan.remaining_due, loan.total_due), (101_326_026, 101_326_026));
    assert_eq!(loan.last_rate_update, 10);
    assert_eq!(c.switch_rate_model(account(BORROWER), id, 10 + DAY - 1), Err(LendingError::RateSwitchCooldown));
    assert_eq!(c.switch_rate_model(account(BORROWER), id, 5), Err(LendingError::ArithmeticOverflow));
    assert!(c.switch_rate_model(account(BORROWER), id, 10 + DAY).is_ok());
    assert_eq!(c.get_loan(id).unwrap().rate_model, InterestRateModel::Fixed);
}

#[test]
fn floating_rate_update() {
    let mut c = setup();
    let mut r = request(100_000_000, 200_000_000);
    r.rate_model = InterestRateModel::Floating;
    let id = c.create_loan_request(account(BORROWER), r, 0).unwrap();
    assert_eq!(c.update_floating_rate(account(ADMIN), id, 2000, 0), Err(LendingError::LoanNotActive));
    c.approve_loan(account(LENDER), id, 1).unwrap();
    c.activate_loan(account(ADMIN), id).unwrap();
    c.record_payment(account(ADMIN), id, 821_917, DAY).unwrap();
    assert_eq!(c.update_floating_rate(account(LENDER), id, 2000, DAY), Err(LendingError::NotAdmin));
    // 20 days left at 20 %: 100_000_000 * 2000 * 20 / 3_650_000 = 1_095_890; 821_917 already paid.
    assert_eq!(c.update_floating_rate(account(ADMIN), id, 2000, 10 * DAY), Ok(100_273_973));
    let loan = c.get_loan(id).unwrap();
    assert_eq!((loan.total_due, loan.remaining_due, loan.interest_rate_bps), (101_095_890, 100_273_973, 2000));
    assert_eq!(loan.base_rate_bps, 1000);
    // Past the deadline no interest remains.
    assert_eq!(c.update_floating_rate(account(ADMIN), id, 3000, 40 * DAY), Ok(100_000_000 - 821_917));
    let fixed = c.create_loan_request(account(BORROWER), request(100_000_000, 200_000_000), 0).unwrap();
    assert_eq!(c.update_floating_rate(account(ADMIN), fixed, 2000, 0), Err(LendingError::NotFloatingRate));
}

#[test]
fn no_loans_before_initialisation() {
    // Nothing is whitelisted before `initialize`, so no collateral is acceptable.
    let mut c = LendingContract::new(this_contract());
    let b = account(BORROWER);
    assert_eq!(
        c.create_loan_request(b, request(100_000_000, 200_000_000), 0),
        Err(LendingError::CollateralNotWhitelisted)
    );
    c.initialize(account(ASSET)).unwrap();
    assert_eq!(c.create_loan_request(b, request(100_000_000, 200_000_000), 0), Ok(1));
    assert_eq!(c.get_borrower_loan_count(b), 1);
    assert_eq!(c.get_loan_count(), 1);
}
