//! The abstract state of the lending contract and what each entry point does
//! to it.
use vstd::prelude::*;
use crate::median::median_of;
use crate::rates::{
    bps_share_of, fits_i128, interest_of, trunc_div, DEFAULT_COLLATERAL_FACTOR_BPS,
    DEFAULT_FLASH_LOAN_FEE_BPS, DEFAULT_PLATFORM_FEE_BPS, MAX_COLLATERAL_FACTOR_BPS,
    MAX_FLASH_LOAN_FEE_BPS, MAX_PLATFORM_FEE_BPS, MIN_BORROW_AMOUNT, MIN_COLLATERAL_FACTOR_BPS,
    PRICE_PRECISION, RATE_SWITCH_COOLDOWN_SECS, RATE_SWITCH_FEE_BPS,
};
use crate::types::{
    AccountId, AssetCollateralConfig, CollateralEntry, FlashLoanTerms, InterestRateModel,
    LendingError, LoanRecord, LoanRequestInput, LoanStatus, LoyaltyRewardCall, PaymentOutcome,
    PaymentRecord, ReferralBonusCall,
};

verus! {

/// Everything the contract keeps between calls.
///
/// Values that the contract reads with a default stand here as their
/// effective value (the platform fee is 100 bps until governance sets it,
/// the multisig threshold 1 until it is configured, and so on).
#[verifier::ext_equal]
pub struct LendingView {
    /// The contract's own address (placeholder lender of unapproved loans).
    pub contract_address: AccountId,
    pub admin: Option<AccountId>,
    /// The id of the most recently created loan.
    pub loan_count: u32,
    /// `loans[i]` is the loan with id `i + 1`.
    pub loans: Seq<LoanRecord>,
    /// Reputation tier recorded for each loan.
    pub loan_tiers: Seq<u32>,
    /// Time of each loan's last rate-model switch (0 = never).
    pub rate_switched_at: Seq<u64>,
    /// Payments of each loan; payment `k` (1-based) is `payments[i][k - 1]`.
    pub payments: Seq<Seq<PaymentRecord>>,
    /// Ids of the loans each borrower has created, in order.
    pub borrower_loans: Map<AccountId, Seq<u32>>,
    /// Ids of the loans each lender has approved, in order.
    pub lender_loans: Map<AccountId, Seq<u32>>,
    pub platform_fee_bps: u32,
    pub governance: Option<AccountId>,
    pub whitelisted: Set<AccountId>,
    /// The linked multisig admin contract.
    pub multisig_link: Option<AccountId>,
    pub multisig_admins: Seq<AccountId>,
    pub multisig_threshold: u32,
    pub paused: bool,
    pub pause_signers: Set<AccountId>,
    pub pause_signer_count: u32,
    pub unpause_signers: Set<AccountId>,
    pub unpause_signer_count: u32,
    pub flash_loan_fee_bps: u32,
    pub uncollected_fees: i128,
    pub collateral_configs: Map<AccountId, AssetCollateralConfig>,
    pub user_collateral: Map<AccountId, Seq<CollateralEntry>>,
    pub price_oracle: Option<AccountId>,
    pub oracle_samples: Map<AccountId, Seq<i128>>,
    pub twap_prices: Map<AccountId, i128>,
    pub loyalty_contract: Option<AccountId>,
    pub referral_contract: Option<AccountId>,
}

/// The state of a freshly deployed contract at `contract_address`.
pub open spec fn empty_view(contract_address: AccountId) -> LendingView {
    LendingView {
        contract_address,
        admin: None,
        loan_count: 0,
        loans: Seq::empty(),
        loan_tiers: Seq::empty(),
        rate_switched_at: Seq::empty(),
        payments: Seq::empty(),
        borrower_loans: Map::empty(),
        lender_loans: Map::empty(),
        platform_fee_bps: DEFAULT_PLATFORM_FEE_BPS,
        governance: None,
        whitelisted: Set::empty(),
        multisig_link: None,
        multisig_admins: Seq::empty(),
        multisig_threshold: 1,
        paused: false,
        pause_signers: Set::empty(),
        pause_signer_count: 0,
        unpause_signers: Set::empty(),
        unpause_signer_count: 0,
        flash_loan_fee_bps: DEFAULT_FLASH_LOAN_FEE_BPS,
        uncollected_fees: 0,
        collateral_configs: Map::empty(),
        user_collateral: Map::empty(),
        price_oracle: None,
        oracle_samples: Map::empty(),
        twap_prices: Map::empty(),
        loyalty_contract: None,
        referral_contract: None,
    }
}

/// A borrower's collateral position: one positive entry per asset.
pub open spec fn collateral_position_ok(entries: Seq<CollateralEntry>) -> bool {
    &&& forall|i: int| 0 <= i < entries.len() ==> #[trigger] entries[i].amount > 0
    &&& forall|i: int, j: int|
        0 <= i < entries.len() && 0 <= j < entries.len() && i != j ==> entries[i].asset
            != entries[j].asset
}

/// A stored collateral configuration respects the protocol bounds.
pub open spec fn config_in_bounds(c: AssetCollateralConfig) -> bool {
    &&& MIN_COLLATERAL_FACTOR_BPS <= c.collateral_factor_bps <= MAX_COLLATERAL_FACTOR_BPS
    &&& c.volatility_bps <= 10_000
}

/// What holds of every state the contract can reach.
pub open spec fn view_ok(v: LendingView) -> bool {
    core_ok(v) && collections_ok(v) && loan_index_ok(v)
}

/// `id` is the id of a stored loan and, with `own`, one that `owner`
/// borrowed.
pub open spec fn id_names_loan(loans: Seq<LoanRecord>, id: u32, owner: AccountId, own: bool) -> bool {
    &&& 1 <= id <= loans.len()
    &&& own ==> loans[id - 1].borrower == owner
}

/// Every id listed in the map names a stored loan; with `own`, a loan of
/// the account it is listed under.
pub open spec fn lists_name_loans(lists: Map<AccountId, Seq<u32>>, loans: Seq<LoanRecord>, own: bool) -> bool {
    forall|b: AccountId, k: int|
        lists.contains_key(b) && 0 <= k < lists[b].len() ==> id_names_loan(loans, #[trigger] lists[b][k], b, own)
}

/// Each borrower's listed loan ids name loans of that borrower, and each
/// lender's listed loan ids name stored loans.
pub open spec fn loan_index_ok(v: LendingView) -> bool {
    &&& lists_name_loans(v.borrower_loans, v.loans, true)
    &&& lists_name_loans(v.lender_loans, v.loans, false)
}

/// The loan records line up, loan ids follow their positions, a pending loan
/// has the contract as placeholder lender and no escrow, nothing is
/// configured before initialisation, the fees stay within their caps, and
/// no vote of a finished pause (or unpause) cycle lingers.
pub open spec fn core_ok(v: LendingView) -> bool {
    &&& v.loan_tiers.len() == v.loans.len()
    &&& v.rate_switched_at.len() == v.loans.len()
    &&& v.payments.len() == v.loans.len()
    &&& v.loan_count == v.loans.len()
    &&& v.admin is None ==> v.multisig_admins.len() == 0 && v.loans.len() == 0
        && forall|a: AccountId| !v.whitelisted.contains(a)
    &&& forall|i: int| 0 <= i < v.loans.len() ==> #[trigger] v.loans[i].id == i + 1
    &&& forall|i: int| 0 <= i < v.loans.len() && #[trigger] v.loans[i].status == LoanStatus::Pending
        ==> v.loans[i].lender == v.contract_address && v.loans[i].escrow_id == 0
    &&& forall|i: int| 0 <= i < v.payments.len() ==> #[trigger] v.payments[i].len() <= u32::MAX
    &&& v.platform_fee_bps <= MAX_PLATFORM_FEE_BPS
    &&& v.flash_loan_fee_bps <= MAX_FLASH_LOAN_FEE_BPS
    &&& v.paused ==> v.pause_signer_count == 0 && forall|a: AccountId| !v.pause_signers.contains(a)
    &&& !v.paused ==> v.unpause_signer_count == 0 && forall|a: AccountId| !v.unpause_signers.contains(a)
}

/// Loan lists fit 32-bit counts, collateral configurations respect the
/// protocol bounds, and each collateral position holds one positive entry
/// per asset.
pub open spec fn collections_ok(v: LendingView) -> bool {
    &&& forall|b: AccountId| #[trigger] v.borrower_loans.contains_key(b) ==> v.borrower_loans[b].len() <= u32::MAX
    &&& forall|b: AccountId| #[trigger] v.lender_loans.contains_key(b) ==> v.lender_loans[b].len() <= u32::MAX
    &&& forall|a: AccountId| #[trigger] v.collateral_configs.contains_key(a) ==> config_in_bounds(v.collateral_configs[a])
    &&& forall|b: AccountId| #[trigger] v.user_collateral.contains_key(b) ==> collateral_position_ok(v.user_collateral[b])
        && v.user_collateral[b].len() > 0
}

// ── Authorisation ───────────────────────────────────────────────────────────

/// Why `caller` may not act as admin, if it may not: a member of a non-empty
/// multisig admin list may; otherwise only the single admin may.
pub open spec fn admin_error(v: LendingView, caller: AccountId) -> Option<LendingError> {
    if v.multisig_admins.len() > 0 && v.multisig_admins.contains(caller) {
        None
    } else {
        match v.admin {
            None => Some(LendingError::NotInitialized),
            Some(a) => if a == caller {
                None
            } else {
                Some(LendingError::NotAdmin)
            },
        }
    }
}

/// Why `caller` may not act as multisig admin, if it may not.
pub open spec fn multisig_error(v: LendingView, caller: AccountId) -> Option<LendingError> {
    if v.multisig_admins.len() == 0 {
        Some(LendingError::MultisigNotConfigured)
    } else if !v.multisig_admins.contains(caller) {
        Some(LendingError::NotMultisigAdmin)
    } else {
        None
    }
}

/// The rejection of a call that needs the contract not to be paused.
pub open spec fn paused_error(v: LendingView) -> Option<LendingError> {
    if v.paused {
        Some(LendingError::ContractPaused)
    } else {
        None
    }
}

// ── Admin entry points ──────────────────────────────────────────────────────

pub open spec fn initialize_outcome(v: LendingView, admin: AccountId) -> Result<LendingView, LendingError> {
    if v.admin is Some {
        Err(LendingError::AlreadyInitialized)
    } else {
        Ok(LendingView { admin: Some(admin), loan_count: 0, whitelisted: v.whitelisted.insert(admin), ..v })
    }
}

/// The admin list after setup: the given list, with the caller appended if
/// it is not already in it.
pub open spec fn with_admin(admins: Seq<AccountId>, admin: AccountId) -> Seq<AccountId> {
    if admins.contains(admin) {
        admins
    } else {
        admins.push(admin)
    }
}

pub open spec fn setup_multisig_outcome(
    v: LendingView,
    admin: AccountId,
    admins: Seq<AccountId>,
    threshold: u32,
) -> Result<LendingView, LendingError> {
    if let Some(e) = admin_error(v, admin) {
        Err(e)
    } else if threshold == 0 {
        Err(LendingError::ThresholdZero)
    } else if threshold > admins.len() {
        Err(LendingError::ThresholdExceedsAdmins)
    } else {
        Ok(LendingView {
            multisig_threshold: threshold,
            multisig_admins: with_admin(admins, admin),
            paused: false,
            pause_signers: Set::empty(),
            pause_signer_count: 0,
            unpause_signers: Set::empty(),
            unpause_signer_count: 0,
            ..v
        })
    }
}

/// A pause vote by `caller`; the flag says whether it paused the contract.
/// The vote that reaches the threshold pauses the contract and resets the
/// signer tracking for the next pause cycle.
pub open spec fn pause_outcome(v: LendingView, caller: AccountId) -> Result<(LendingView, bool), LendingError> {
    if let Some(e) = multisig_error(v, caller) {
        Err(e)
    } else if v.paused {
        Err(LendingError::AlreadyPaused)
    } else if v.pause_signers.contains(caller) {
        Err(LendingError::AlreadySignedPause)
    } else if v.pause_signer_count == u32::MAX {
        Err(LendingError::ArithmeticOverflow)
    } else {
        let count = (v.pause_signer_count + 1) as u32;
        let reached = count >= v.multisig_threshold;
        Ok((
            LendingView {
                pause_signers: if reached { Set::empty() } else { v.pause_signers.insert(caller) },
                pause_signer_count: if reached { 0 } else { count },
                paused: reached,
                ..v
            },
            reached,
        ))
    }
}

/// An unpause vote by `caller`; the flag says whether it unpaused the
/// contract. The vote that reaches the threshold unpauses the contract and
/// resets the signer tracking for the next unpause cycle.
pub open spec fn unpause_outcome(v: LendingView, caller: AccountId) -> Result<(LendingView, bool), LendingError> {
    if let Some(e) = multisig_error(v, caller) {
        Err(e)
    } else if !v.paused {
        Err(LendingError::NotPaused)
    } else if v.unpause_signers.contains(caller) {
        Err(LendingError::AlreadySignedUnpause)
    } else if v.unpause_signer_count == u32::MAX {
        Err(LendingError::ArithmeticOverflow)
    } else {
        let count = (v.unpause_signer_count + 1) as u32;
        let reached = count >= v.multisig_threshold;
        Ok((
            LendingView {
                unpause_signers: if reached { Set::empty() } else { v.unpause_signers.insert(caller) },
                unpause_signer_count: if reached { 0 } else { count },
                paused: !reached,
                ..v
            },
            reached,
        ))
    }
}

pub open spec fn set_multisig_admin_outcome(v: LendingView, admin: AccountId, multisig: AccountId) -> Result<LendingView, LendingError> {
    if let Some(e) = admin_error(v, admin) {
        Err(e)
    } else if v.multisig_link is Some {
        Err(LendingError::MultisigAdminAlreadyConfigured)
    } else {
        Ok(LendingView { multisig_link: Some(multisig), multisig_admins: seq![multisig], ..v })
    }
}

/// Rejection reason of a token sweep, before the pool balance is known.
pub open spec fn sweep_error(v: LendingView, caller: AccountId, token: AccountId, amount: i128) -> Option<LendingError> {
    if let Some(e) = admin_error(v, caller) {
        Some(e)
    } else if amount <= 0 {
        Some(LendingError::SweepAmountNotPositive)
    } else if v.whitelisted.contains(token) {
        Some(LendingError::CannotSweepWhitelisted)
    } else {
        None
    }
}

/// The one-time link of the governance contract, by a multisig admin.
pub open spec fn set_governance_outcome(v: LendingView, caller: AccountId, governance: AccountId) -> Result<LendingView, LendingError> {
    if let Some(e) = multisig_error(v, caller) {
        Err(e)
    } else if v.governance is Some {
        Err(LendingError::GovernanceAlreadyConfigured)
    } else {
        Ok(LendingView { governance: Some(governance), ..v })
    }
}

pub open spec fn set_platform_fee_outcome(v: LendingView, caller: AccountId, new_fee_bps: u32) -> Result<(LendingView, u32), LendingError> {
    match v.governance {
        None => Err(LendingError::GovernanceNotConfigured),
        Some(g) => if caller != g {
            Err(LendingError::NotGovernance)
        } else if new_fee_bps > MAX_PLATFORM_FEE_BPS {
            Err(LendingError::PlatformFeeTooHigh)
        } else {
            Ok((LendingView { platform_fee_bps: new_fee_bps, ..v }, v.platform_fee_bps))
        },
    }
}

/// Collection of the accrued platform fees: the collected amount, and the
/// account reset to zero; nothing when no fees are positive.
pub open spec fn collect_fees_outcome(v: LendingView) -> (LendingView, i128) {
    if v.uncollected_fees <= 0 {
        (v, 0)
    } else {
        (LendingView { uncollected_fees: 0, ..v }, v.uncollected_fees)
    }
}

/// Terms of a flash loan of `amount` from a pool holding `balance_before`.
pub open spec fn flash_loan_outcome(v: LendingView, amount: i128, balance_before: i128) -> Result<FlashLoanTerms, LendingError> {
    if amount <= 0 {
        Err(LendingError::FlashLoanAmountNotPositive)
    } else if balance_before < amount {
        Err(LendingError::InsufficientFlashLiquidity)
    } else {
        match bps_share_of(amount as int, v.flash_loan_fee_bps as int) {
            None => Err(LendingError::ArithmeticOverflow),
            Some(fee) => if fits_i128(balance_before + fee) {
                Ok(FlashLoanTerms { fee: fee as i128, required_balance: (balance_before + fee) as i128 })
            } else {
                Err(LendingError::ArithmeticOverflow)
            },
        }
    }
}

/// The configuration as stored: the factor clamped to
/// [MIN_COLLATERAL_FACTOR_BPS, MAX_COLLATERAL_FACTOR_BPS], the volatility
/// capped at 10_000.
pub open spec fn clamped_config(c: AssetCollateralConfig) -> AssetCollateralConfig {
    AssetCollateralConfig {
        collateral_factor_bps: if c.collateral_factor_bps < MIN_COLLATERAL_FACTOR_BPS {
            MIN_COLLATERAL_FACTOR_BPS
        } else if c.collateral_factor_bps > MAX_COLLATERAL_FACTOR_BPS {
            MAX_COLLATERAL_FACTOR_BPS
        } else {
            c.collateral_factor_bps
        },
        has_price_oracle: c.has_price_oracle,
        volatility_bps: if c.volatility_bps > 10_000 { 10_000 } else { c.volatility_bps },
    }
}

/// The configuration of an asset, or the default (75% LTV, no oracle,
/// no volatility) when none was set.
pub open spec fn collateral_config_of(v: LendingView, asset: AccountId) -> AssetCollateralConfig {
    if v.collateral_configs.contains_key(asset) {
        v.collateral_configs[asset]
    } else {
        AssetCollateralConfig { collateral_factor_bps: DEFAULT_COLLATERAL_FACTOR_BPS, has_price_oracle: false, volatility_bps: 0 }
    }
}

// ── Oracle prices and collateral valuation ──────────────────────────────────

/// The price of `asset` under configuration `c`, in units of
/// `PRICE_PRECISION`: the median of its oracle samples if it has an oracle
/// and samples, else its TWAP fallback if it has an oracle and one, else face
/// value (`PRICE_PRECISION`). `None` when the median overflows.
pub open spec fn price_with_config(v: LendingView, asset: AccountId, c: AssetCollateralConfig) -> Option<int> {
    if c.has_price_oracle && v.oracle_samples.contains_key(asset) && v.oracle_samples[asset].len() > 0 {
        median_of(v.oracle_samples[asset])
    } else if c.has_price_oracle && v.twap_prices.contains_key(asset) {
        Some(v.twap_prices[asset] as int)
    } else {
        Some(PRICE_PRECISION as int)
    }
}

/// The price of `asset` under its own configuration.
pub open spec fn asset_price_of(v: LendingView, asset: AccountId) -> Option<int> {
    price_with_config(v, asset, collateral_config_of(v, asset))
}

/// Value of a collateral entry in base units: `amount * price / PRICE_PRECISION`.
pub open spec fn entry_value_of(v: LendingView, e: CollateralEntry) -> Option<int> {
    match asset_price_of(v, e.asset) {
        None => None,
        Some(p) => if fits_i128(e.amount * p) {
            Some(trunc_div(e.amount * p, PRICE_PRECISION as int))
        } else {
            None
        },
    }
}

/// Borrowing power of a collateral entry:
/// `amount * price * collateral_factor_bps / (PRICE_PRECISION * 10_000)`,
/// one division rounded toward zero; `None` when `amount * price` leaves the
/// `i128` range or the price overflows.
pub open spec fn entry_power_of(v: LendingView, e: CollateralEntry) -> Option<int> {
    match asset_price_of(v, e.asset) {
        None => None,
        Some(p) => {
            let factor = collateral_config_of(v, e.asset).collateral_factor_bps as int;
            if fits_i128(e.amount * p) {
                Some(trunc_div(e.amount * p * factor, PRICE_PRECISION * 10_000))
            } else {
                None
            }
        },
    }
}

/// Sum of `entry_power_of` over the entries; `None` if any step overflows.
pub open spec fn borrowing_power_of(v: LendingView, entries: Seq<CollateralEntry>) -> Option<int>
    decreases entries.len(),
{
    if entries.len() == 0 {
        Some(0)
    } else {
        match (borrowing_power_of(v, entries.drop_last()), entry_power_of(v, entries.last())) {
            (Some(a), Some(b)) => if fits_i128(a + b) {
                Some(a + b)
            } else {
                None
            },
            _ => None,
        }
    }
}

/// Sum of `entry_value_of` over the entries; `None` if any step overflows.
pub open spec fn collateral_value_of(v: LendingView, entries: Seq<CollateralEntry>) -> Option<int>
    decreases entries.len(),
{
    if entries.len() == 0 {
        Some(0)
    } else {
        match (collateral_value_of(v, entries.drop_last()), entry_value_of(v, entries.last())) {
            (Some(a), Some(b)) => if fits_i128(a + b) {
                Some(a + b)
            } else {
                None
            },
            _ => None,
        }
    }
}

/// The collateral entries a borrower holds.
pub open spec fn user_entries(v: LendingView, borrower: AccountId) -> Seq<CollateralEntry> {
    if v.user_collateral.contains_key(borrower) {
        v.user_collateral[borrower]
    } else {
        Seq::empty()
    }
}

/// The rejection of a multisig-gated update of an asset's oracle data.
pub open spec fn asset_update_error(v: LendingView, caller: AccountId, asset: AccountId, bad_input: Option<LendingError>) -> Option<LendingError> {
    if multisig_error(v, caller) is Some {
        multisig_error(v, caller)
    } else if bad_input is Some {
        bad_input
    } else if !v.whitelisted.contains(asset) {
        Some(LendingError::AssetNotWhitelisted)
    } else {
        None
    }
}

// ── Collateral vault ────────────────────────────────────────────────────────

/// Some entry of `entries` is for `asset`.
pub open spec fn holds_asset(entries: Seq<CollateralEntry>, asset: AccountId) -> bool {
    exists|i: int| 0 <= i < entries.len() && #[trigger] entries[i].asset == asset
}

/// An entry after a deposit of `amount` of `asset`.
pub open spec fn grown_entry(e: CollateralEntry, asset: AccountId, amount: i128) -> CollateralEntry {
    if e.asset == asset {
        CollateralEntry { asset: e.asset, amount: (e.amount + amount) as i128 }
    } else {
        e
    }
}

/// The entries after depositing `amount` of `asset`: the entry for the
/// asset grows by `amount`, or a new entry is appended.
pub open spec fn deposited(entries: Seq<CollateralEntry>, asset: AccountId, amount: i128) -> Seq<CollateralEntry> {
    let grown = entries.map_values(|e: CollateralEntry| grown_entry(e, asset, amount));
    if holds_asset(entries, asset) {
        grown
    } else {
        grown.push(CollateralEntry { asset, amount })
    }
}

/// Depositing `amount` of `asset` would push an entry past the `i128` range.
pub open spec fn deposit_overflows(entries: Seq<CollateralEntry>, asset: AccountId, amount: i128) -> bool {
    exists|i: int| 0 <= i < entries.len() && #[trigger] entries[i].asset == asset && !fits_i128(entries[i].amount + amount)
}

pub open spec fn deposit_outcome(v: LendingView, borrower: AccountId, asset: AccountId, amount: i128) -> Result<LendingView, LendingError> {
    let entries = user_entries(v, borrower);
    if v.paused {
        Err(LendingError::ContractPaused)
    } else if amount <= 0 {
        Err(LendingError::CollateralAmountNotPositive)
    } else if !v.whitelisted.contains(asset) {
        Err(LendingError::AssetNotWhitelisted)
    } else if deposit_overflows(entries, asset, amount) {
        Err(LendingError::ArithmeticOverflow)
    } else {
        Ok(LendingView { user_collateral: v.user_collateral.insert(borrower, deposited(entries, asset, amount)), ..v })
    }
}

/// The entries after withdrawing `amount` of `asset`: the entry for the
/// asset shrinks by `amount` and is dropped when nothing is left of it.
pub open spec fn withdrawn(entries: Seq<CollateralEntry>, asset: AccountId, amount: i128) -> Seq<CollateralEntry>
    decreases entries.len(),
{
    if entries.len() == 0 {
        Seq::empty()
    } else {
        let rest = withdrawn(entries.drop_last(), asset, amount);
        let e = entries.last();
        if e.asset != asset {
            rest.push(e)
        } else if e.amount - amount > 0 {
            rest.push(CollateralEntry { asset: e.asset, amount: (e.amount - amount) as i128 })
        } else {
            rest
        }
    }
}

/// What is left of the (last) entry for `asset` after the withdrawal.
pub open spec fn remaining_after_withdrawal(entries: Seq<CollateralEntry>, asset: AccountId, amount: i128) -> int
    decreases entries.len(),
{
    if entries.len() == 0 {
        0
    } else if entries.last().asset == asset {
        entries.last().amount - amount
    } else {
        remaining_after_withdrawal(entries.drop_last(), asset, amount)
    }
}

/// Some entry for `asset` holds less than `amount`.
pub open spec fn short_of(entries: Seq<CollateralEntry>, asset: AccountId, amount: i128) -> bool {
    exists|i: int| 0 <= i < entries.len() && #[trigger] entries[i].asset == asset && entries[i].amount < amount
}

/// The loan with id `id`, if there is one.
pub open spec fn loan_of(v: LendingView, id: u32) -> Option<LoanRecord> {
    if 1 <= id <= v.loans.len() {
        Some(v.loans[id - 1])
    } else {
        None
    }
}

/// The loan still owes its remaining balance toward collateral cover.
pub open spec fn counts_as_debt(l: LoanRecord) -> bool {
    l.status == LoanStatus::Active || l.status == LoanStatus::Approved
}

/// Sum of the remaining balances of the active or approved loans among `ids`.
pub open spec fn debt_over(v: LendingView, ids: Seq<u32>) -> Result<int, LendingError>
    decreases ids.len(),
{
    if ids.len() == 0 {
        Ok(0)
    } else {
        match debt_over(v, ids.drop_last()) {
            Err(e) => Err(e),
            Ok(a) => match loan_of(v, ids.last()) {
                None => Err(LendingError::LoanNotFound),
                Some(l) => if !counts_as_debt(l) {
                    Ok(a)
                } else if fits_i128(a + l.remaining_due) {
                    Ok(a + l.remaining_due)
                } else {
                    Err(LendingError::ArithmeticOverflow)
                },
            },
        }
    }
}

/// The ids of the loans `borrower` created.
pub open spec fn borrower_loan_ids(v: LendingView, borrower: AccountId) -> Seq<u32> {
    if v.borrower_loans.contains_key(borrower) {
        v.borrower_loans[borrower]
    } else {
        Seq::empty()
    }
}

/// The ids of the loans `lender` approved.
pub open spec fn lender_loan_ids(v: LendingView, lender: AccountId) -> Seq<u32> {
    if v.lender_loans.contains_key(lender) {
        v.lender_loans[lender]
    } else {
        Seq::empty()
    }
}

/// Total remaining debt of the borrower's active or approved loans.
pub open spec fn active_debt_of(v: LendingView, borrower: AccountId) -> Result<int, LendingError> {
    debt_over(v, borrower_loan_ids(v, borrower))
}

/// A withdrawal, answering what is left of the asset's entry.
pub open spec fn withdraw_outcome(v: LendingView, borrower: AccountId, asset: AccountId, amount: i128) -> Result<(LendingView, i128), LendingError> {
    let entries = user_entries(v, borrower);
    let after = withdrawn(entries, asset, amount);
    if v.paused {
        Err(LendingError::ContractPaused)
    } else if amount <= 0 {
        Err(LendingError::WithdrawalAmountNotPositive)
    } else if !v.user_collateral.contains_key(borrower) {
        Err(LendingError::NoCollateralEntries)
    } else if short_of(entries, asset, amount) {
        Err(LendingError::InsufficientCollateral)
    } else if !holds_asset(entries, asset) {
        Err(LendingError::CollateralAssetNotFound)
    } else {
        match (borrowing_power_of(v, after), active_debt_of(v, borrower)) {
            (None, _) => Err(LendingError::ArithmeticOverflow),
            (Some(_), Err(e)) => Err(e),
            (Some(power), Ok(debt)) => if power < debt {
                Err(LendingError::UnderCollateralized { power: power as i128, debt: debt as i128 })
            } else {
                Ok((
                    LendingView {
                        user_collateral: if after.len() == 0 {
                            v.user_collateral.remove(borrower)
                        } else {
                            v.user_collateral.insert(borrower, after)
                        },
                        ..v
                    },
                    remaining_after_withdrawal(entries, asset, amount) as i128,
                ))
            },
        }
    }
}

/// An overflow in summing a prefix of the entries is an overflow in summing
/// all of them.
pub proof fn lemma_power_prefix_overflow(v: LendingView, s: Seq<CollateralEntry>, k: int)
    requires
        0 <= k <= s.len(),
        borrowing_power_of(v, s.subrange(0, k)) is None,
    ensures
        borrowing_power_of(v, s) is None,
    decreases s.len(),
{
    if k < s.len() {
        assert(s.drop_last().subrange(0, k) == s.subrange(0, k));
        lemma_power_prefix_overflow(v, s.drop_last(), k);
    } else {
        assert(s.subrange(0, k) == s);
    }
}

/// An overflow in valuing a prefix of the entries is an overflow in valuing
/// all of them.
pub proof fn lemma_value_prefix_overflow(v: LendingView, s: Seq<CollateralEntry>, k: int)
    requires
        0 <= k <= s.len(),
        collateral_value_of(v, s.subrange(0, k)) is None,
    ensures
        collateral_value_of(v, s) is None,
    decreases s.len(),
{
    if k < s.len() {
        assert(s.drop_last().subrange(0, k) == s.subrange(0, k));
        lemma_value_prefix_overflow(v, s.drop_last(), k);
    } else {
        assert(s.subrange(0, k) == s);
    }
}

/// The first failure in summing the debt of a prefix of the loans is the
/// failure in summing the debt of all of them.
pub proof fn lemma_debt_prefix_error(v: LendingView, s: Seq<u32>, k: int)
    requires
        0 <= k <= s.len(),
        debt_over(v, s.subrange(0, k)) is Err,
    ensures
        debt_over(v, s) == debt_over(v, s.subrange(0, k)),
    decreases s.len(),
{
    if k < s.len() {
        assert(s.drop_last().subrange(0, k) == s.subrange(0, k));
        lemma_debt_prefix_error(v, s.drop_last(), k);
    } else {
        assert(s.subrange(0, k) == s);
    }
}

// ── Loan lifecycle ──────────────────────────────────────────────────────────

/// The first unacceptable collateral entry of a loan request, if any: each
/// entry must be for a whitelisted asset and hold a positive amount.
pub open spec fn request_entries_error(v: LendingView, entries: Seq<CollateralEntry>) -> Option<LendingError>
    decreases entries.len(),
{
    if entries.len() == 0 {
        None
    } else {
        match request_entries_error(v, entries.drop_last()) {
            Some(e) => Some(e),
            None => if !v.whitelisted.contains(entries.last().asset) {
                Some(LendingError::CollateralNotWhitelisted)
            } else if entries.last().amount <= 0 {
                Some(LendingError::CollateralEntryNotPositive)
            } else {
                None
            },
        }
    }
}

/// The repayment deadline of a loan created at `now` for `days` days.
pub open spec fn due_time(now: u64, days: u32) -> int {
    now + days * 86_400
}

/// The loan that a request creates.
pub open spec fn requested_loan(
    v: LendingView,
    borrower: AccountId,
    req: LoanRequestInput,
    now: u64,
    interest: int,
    fee: int,
) -> LoanRecord {
    let total = req.amount + interest;
    LoanRecord {
        id: (v.loan_count + 1) as u32,
        borrower,
        lender: v.contract_address,
        amount: req.amount,
        duration_days: req.duration_days,
        interest_rate_bps: req.interest_rate_bps,
        total_due: total as i128,
        remaining_due: total as i128,
        created_at: now,
        due_at: due_time(now, req.duration_days) as u64,
        status: LoanStatus::Pending,
        escrow_id: 0,
        platform_fee: fee as i128,
        rate_model: req.rate_model,
        base_rate_bps: req.interest_rate_bps,
        last_rate_update: now,
    }
}

/// The state after storing the loan under the next id, with its reputation
/// tier, no rate switch and no payments yet.
pub open spec fn with_new_loan(v: LendingView, borrower: AccountId, loan: LoanRecord, tier: u32, fee: int) -> LendingView {
    LendingView {
        loan_count: loan.id,
        loans: v.loans.push(loan),
        loan_tiers: v.loan_tiers.push(tier),
        rate_switched_at: v.rate_switched_at.push(0),
        payments: v.payments.push(Seq::empty()),
        uncollected_fees: (v.uncollected_fees + fee) as i128,
        borrower_loans: v.borrower_loans.insert(borrower, borrower_loan_ids(v, borrower).push(loan.id)),
        ..v
    }
}

/// Some step of recording a new loan would leave its integer range.
pub open spec fn creation_overflows(v: LendingView, borrower: AccountId, req: LoanRequestInput, now: u64, interest: int, fee: int) -> bool {
    ||| !fits_i128(req.amount + interest)
    ||| v.loan_count == u32::MAX
    ||| due_time(now, req.duration_days) > u64::MAX
    ||| !fits_i128(v.uncollected_fees + fee)
    ||| borrower_loan_ids(v, borrower).len() >= u32::MAX
}

/// A loan request, answering the new loan's id. The checks come in this
/// order: not paused; a positive amount of at least `MIN_BORROW_AMOUNT`
/// within the reputation limit; 1 to 365 days; a tier of at most 4; at least
/// one collateral entry, each whitelisted and positive; enough borrowing
/// power; and no arithmetic overflow.
pub open spec fn create_loan_outcome(v: LendingView, borrower: AccountId, req: LoanRequestInput, now: u64) -> Result<(LendingView, u32), LendingError> {
    let entries = req.collateral_entries@;
    if v.paused {
        Err(LendingError::ContractPaused)
    } else if req.amount <= 0 {
        Err(LendingError::LoanAmountNotPositive)
    } else if req.amount < MIN_BORROW_AMOUNT {
        Err(LendingError::BelowMinimumBorrow)
    } else if req.amount > req.max_loan_amount {
        Err(LendingError::ExceedsReputationLimit)
    } else if req.duration_days == 0 || req.duration_days > 365 {
        Err(LendingError::InvalidDuration)
    } else if req.reputation_tier > 4 {
        Err(LendingError::InvalidReputationTier)
    } else if entries.len() == 0 {
        Err(LendingError::NoCollateralProvided)
    } else if request_entries_error(v, entries) is Some {
        Err(request_entries_error(v, entries).unwrap())
    } else {
        match borrowing_power_of(v, entries) {
            None => Err(LendingError::ArithmeticOverflow),
            Some(power) => if power < req.amount {
                Err(LendingError::InsufficientBorrowingPower { power: power as i128, amount: req.amount })
            } else {
                match interest_of(req.amount as int, req.interest_rate_bps as int, req.duration_days as int) {
                    None => Err(LendingError::ArithmeticOverflow),
                    Some(interest) => match bps_share_of(interest, v.platform_fee_bps as int) {
                        None => Err(LendingError::ArithmeticOverflow),
                        Some(fee) => if creation_overflows(v, borrower, req, now, interest, fee) {
                            Err(LendingError::ArithmeticOverflow)
                        } else {
                            let loan = requested_loan(v, borrower, req, now, interest, fee);
                            Ok((with_new_loan(v, borrower, loan, req.reputation_tier, fee), loan.id))
                        },
                    },
                }
            },
        }
    }
}

/// The state with loan `id` replaced by `loan`.
pub open spec fn with_loan(v: LendingView, id: u32, loan: LoanRecord) -> LendingView {
    LendingView { loans: v.loans.update(id - 1, loan), ..v }
}

pub open spec fn approve_outcome(v: LendingView, lender: AccountId, loan_id: u32, escrow_id: u32) -> Result<LendingView, LendingError> {
    if v.paused {
        Err(LendingError::ContractPaused)
    } else {
        match loan_of(v, loan_id) {
            None => Err(LendingError::LoanNotFound),
            Some(l) => if l.status != LoanStatus::Pending {
                Err(LendingError::LoanNotPending)
            } else if lender_loan_ids(v, lender).len() >= u32::MAX {
                Err(LendingError::ArithmeticOverflow)
            } else {
                Ok(LendingView {
                    lender_loans: v.lender_loans.insert(lender, lender_loan_ids(v, lender).push(loan_id)),
                    ..with_loan(v, loan_id, LoanRecord { lender, escrow_id, status: LoanStatus::Approved, ..l })
                })
            },
        }
    }
}

pub open spec fn revoke_outcome(v: LendingView, lender: AccountId, loan_id: u32) -> Result<LendingView, LendingError> {
    match loan_of(v, loan_id) {
        None => Err(LendingError::LoanNotFound),
        Some(l) => if l.lender != lender {
            Err(LendingError::NotLender)
        } else if l.status != LoanStatus::Approved {
            Err(LendingError::LoanNotApproved)
        } else {
            Ok(with_loan(v, loan_id, LoanRecord {
                status: LoanStatus::Pending,
                lender: v.contract_address,
                escrow_id: 0,
                ..l
            }))
        },
    }
}

/// Activation, answering the referral bonus claim to send, if a referral
/// contract is set.
pub open spec fn activate_outcome(v: LendingView, caller: AccountId, loan_id: u32) -> Result<(LendingView, Option<ReferralBonusCall>), LendingError> {
    if admin_error(v, caller) is Some {
        Err(admin_error(v, caller).unwrap())
    } else if v.paused {
        Err(LendingError::ContractPaused)
    } else {
        match loan_of(v, loan_id) {
            None => Err(LendingError::LoanNotFound),
            Some(l) => if l.status != LoanStatus::Approved {
                Err(LendingError::LoanNotApproved)
            } else {
                Ok((
                    with_loan(v, loan_id, LoanRecord { status: LoanStatus::Active, ..l }),
                    match v.referral_contract {
                        Some(c) => Some(ReferralBonusCall { referral_contract: c, borrower: l.borrower, loan_amount: l.amount }),
                        None => None,
                    },
                ))
            },
        }
    }
}

/// A recorded payment. A payment of at least the remaining balance repays
/// the loan (remaining balance 0, status Repaid) and, when it comes no later
/// than the deadline and a loyalty contract is set, answers a loyalty reward
/// to send; a smaller payment lowers the remaining balance by its amount.
pub open spec fn record_payment_outcome(v: LendingView, caller: AccountId, loan_id: u32, amount: i128, now: u64) -> Result<(LendingView, PaymentOutcome), LendingError> {
    if admin_error(v, caller) is Some {
        Err(admin_error(v, caller).unwrap())
    } else {
        match loan_of(v, loan_id) {
            None => Err(LendingError::LoanNotFound),
            Some(l) => if l.status != LoanStatus::Active {
                Err(LendingError::LoanNotActive)
            } else if amount <= 0 {
                Err(LendingError::PaymentAmountNotPositive)
            } else if v.payments[loan_id - 1].len() >= u32::MAX {
                Err(LendingError::ArithmeticOverflow)
            } else {
                let payment = PaymentRecord { loan_id, amount, paid_at: now };
                let repaid = amount >= l.remaining_due;
                let updated = if repaid {
                    LoanRecord { remaining_due: 0, status: LoanStatus::Repaid, ..l }
                } else {
                    LoanRecord { remaining_due: (l.remaining_due - amount) as i128, ..l }
                };
                let reward = if repaid && now <= l.due_at && v.loyalty_contract is Some {
                    Some(LoyaltyRewardCall {
                        loyalty_contract: v.loyalty_contract.unwrap(),
                        borrower: l.borrower,
                        loan_amount: l.amount,
                        duration_days: l.duration_days,
                        reputation_tier: v.loan_tiers[loan_id - 1],
                    })
                } else {
                    None
                };
                Ok((
                    LendingView {
                        payments: v.payments.update(loan_id - 1, v.payments[loan_id - 1].push(payment)),
                        ..with_loan(v, loan_id, updated)
                    },
                    PaymentOutcome { status: updated.status, loyalty_reward: reward },
                ))
            },
        }
    }
}

pub open spec fn mark_defaulted_outcome(v: LendingView, caller: AccountId, loan_id: u32) -> Result<LendingView, LendingError> {
    if admin_error(v, caller) is Some {
        Err(admin_error(v, caller).unwrap())
    } else if v.paused {
        Err(LendingError::ContractPaused)
    } else {
        match loan_of(v, loan_id) {
            None => Err(LendingError::LoanNotFound),
            Some(l) => if l.status != LoanStatus::Active {
                Err(LendingError::LoanNotActive)
            } else {
                Ok(with_loan(v, loan_id, LoanRecord { status: LoanStatus::Defaulted, ..l }))
            },
        }
    }
}

/// The other interest rate model.
pub open spec fn toggled(m: InterestRateModel) -> InterestRateModel {
    match m {
        InterestRateModel::Fixed => InterestRateModel::Floating,
        InterestRateModel::Floating => InterestRateModel::Fixed,
    }
}

/// A switch of rate model by the borrower, answering the switch fee (0.5%
/// of the remaining balance), which is added to the remaining and total
/// balances. At most one switch per `RATE_SWITCH_COOLDOWN_SECS`.
pub open spec fn switch_rate_outcome(v: LendingView, borrower: AccountId, loan_id: u32, now: u64) -> Result<(LendingView, i128), LendingError> {
    match loan_of(v, loan_id) {
        None => Err(LendingError::LoanNotFound),
        Some(l) => {
            let last = v.rate_switched_at[loan_id - 1];
            if l.borrower != borrower {
                Err(LendingError::NotBorrower)
            } else if l.status != LoanStatus::Active {
                Err(LendingError::LoanNotActive)
            } else if last > 0 && now < last {
                Err(LendingError::ArithmeticOverflow)
            } else if last > 0 && now - last < RATE_SWITCH_COOLDOWN_SECS {
                Err(LendingError::RateSwitchCooldown)
            } else {
                match bps_share_of(l.remaining_due as int, RATE_SWITCH_FEE_BPS as int) {
                    None => Err(LendingError::ArithmeticOverflow),
                    Some(fee) => if !fits_i128(l.remaining_due + fee) || !fits_i128(l.total_due + fee) {
                        Err(LendingError::ArithmeticOverflow)
                    } else {
                        Ok((
                            LendingView {
                                rate_switched_at: v.rate_switched_at.update(loan_id - 1, now),
                                ..with_loan(v, loan_id, LoanRecord {
                                    remaining_due: (l.remaining_due + fee) as i128,
                                    total_due: (l.total_due + fee) as i128,
                                    rate_model: toggled(l.rate_model),
                                    last_rate_update: now,
                                    ..l
                                })
                            },
                            fee as i128,
                        ))
                    },
                }
            }
        },
    }
}

/// Whole days left until the deadline (0 once it has passed), as the
/// 32-bit day count the rate update works with.
pub open spec fn remaining_days(due_at: u64, now: u64) -> u32 {
    let secs: u64 = if due_at > now { (due_at - now) as u64 } else { 0 };
    (secs / 86_400) as u32
}

/// An admin update of a floating-rate loan's rate, answering the new
/// remaining balance: interest at the new rate over the remaining days on
/// the principal (none once nothing remains), added to the principal, less
/// what has been paid so far.
pub open spec fn update_rate_outcome(v: LendingView, caller: AccountId, loan_id: u32, new_rate_bps: u32, now: u64) -> Result<(LendingView, i128), LendingError> {
    if admin_error(v, caller) is Some {
        Err(admin_error(v, caller).unwrap())
    } else {
        match loan_of(v, loan_id) {
            None => Err(LendingError::LoanNotFound),
            Some(l) => if l.rate_model != InterestRateModel::Floating {
                Err(LendingError::NotFloatingRate)
            } else if l.status != LoanStatus::Active {
                Err(LendingError::LoanNotActive)
            } else if !fits_i128(l.total_due - l.remaining_due) {
                Err(LendingError::ArithmeticOverflow)
            } else {
                let paid = l.total_due - l.remaining_due;
                let principal = if l.remaining_due > 0 { l.amount as int } else { 0 };
                match interest_of(principal, new_rate_bps as int, remaining_days(l.due_at, now) as int) {
                    None => Err(LendingError::ArithmeticOverflow),
                    Some(interest) => if !fits_i128(l.amount + interest) || !fits_i128(l.amount + interest - paid) {
                        Err(LendingError::ArithmeticOverflow)
                    } else {
                        let remaining = (l.amount + interest - paid) as i128;
                        Ok((
                            with_loan(v, loan_id, LoanRecord {
                                total_due: (l.amount + interest) as i128,
                                remaining_due: remaining,
                                interest_rate_bps: new_rate_bps,
                                last_rate_update: now,
                                ..l
                            }),
                            remaining,
                        ))
                    },
                }
            },
        }
    }
}

/// Number of payments recorded for a loan id.
pub open spec fn payment_count_of(v: LendingView, loan_id: u32) -> int {
    if 1 <= loan_id <= v.payments.len() {
        v.payments[loan_id - 1].len() as int
    } else {
        0
    }
}

/// The first unacceptable entry of a prefix is the first of the whole list.
pub proof fn lemma_request_entries_prefix_error(v: LendingView, s: Seq<CollateralEntry>, k: int)
    requires
        0 <= k <= s.len(),
        request_entries_error(v, s.subrange(0, k)) is Some,
    ensures
        request_entries_error(v, s) == request_entries_error(v, s.subrange(0, k)),
    decreases s.len(),
{
    if k < s.len() {
        assert(s.drop_last().subrange(0, k) == s.subrange(0, k));
        lemma_request_entries_prefix_error(v, s.drop_last(), k);
    } else {
        assert(s.subrange(0, k) == s);
    }
}

} // verus!
