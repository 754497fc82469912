//! Plain data types of the lending contract: identities, loans, payments,
//! collateral entries and the errors an entry point can be rejected with.
use vstd::prelude::*;

verus! {

/// The identity of an account or a contract on the ledger.
///
/// What the lending logic reads of an address is its identity alone, so an
/// address is held as its kind tag and its 32-byte key, split into two halves.
#[derive(Clone, Copy, PartialEq, Eq, Structural, Debug)]
pub struct AccountId {
    pub kind: u8,
    pub key_hi: u128,
    pub key_lo: u128,
}

/// Full lifecycle status of a loan.
#[derive(Clone, Copy, PartialEq, Eq, Structural, Debug)]
pub enum LoanStatus {
    Pending,
    Approved,
    Active,
    Repaid,
    Defaulted,
    Cancelled,
}

/// Interest rate model for a loan.
#[derive(Clone, Copy, PartialEq, Eq, Structural, Debug)]
pub enum InterestRateModel {
    Fixed,
    Floating,
}

/// A single collateral entry: asset address + amount in that asset's smallest unit.
#[derive(Clone, Copy, PartialEq, Eq, Structural, Debug)]
pub struct CollateralEntry {
    pub asset: AccountId,
    pub amount: i128,
}

/// Per-asset collateral configuration: LTV ratio (collateral factor) and
/// whether an oracle price feed values the asset.
#[derive(Clone, Copy, PartialEq, Eq, Structural, Debug)]
pub struct AssetCollateralConfig {
    /// Collateral factor / LTV ratio in basis-points (e.g. 8000 = 80% LTV).
    pub collateral_factor_bps: u32,
    /// Whether the asset has an oracle price feed configured.
    pub has_price_oracle: bool,
    /// Volatility basis-points used in liquidation threshold calculations.
    pub volatility_bps: u32,
}

/// What a borrower submits to open a loan request.
pub struct LoanRequestInput {
    pub amount: i128,
    pub duration_days: u32,
    pub interest_rate_bps: u32,
    pub max_loan_amount: i128,
    /// Collateral entries supporting this loan (multi-asset).
    pub collateral_entries: Vec<CollateralEntry>,
    /// Interest rate model: Fixed or Floating.
    pub rate_model: InterestRateModel,
    /// Borrower reputation tier (0=None, 1=Beginner, 2=Silver, 3=Gold, 4=Platinum).
    pub reputation_tier: u32,
}

/// A single loan record.
#[derive(Clone, Copy, PartialEq, Eq, Structural, Debug)]
pub struct LoanRecord {
    pub id: u32,
    pub borrower: AccountId,
    pub lender: AccountId,
    /// Principal in stroops.
    pub amount: i128,
    pub duration_days: u32,
    /// Interest rate in basis-points (1500 = 15.00 %).
    pub interest_rate_bps: u32,
    /// Principal + full interest in stroops.
    pub total_due: i128,
    /// Remaining balance the borrower still owes.
    pub remaining_due: i128,
    /// Ledger timestamp of loan creation.
    pub created_at: u64,
    /// Ledger timestamp of repayment deadline.
    pub due_at: u64,
    pub status: LoanStatus,
    /// Escrow ID from the escrow contract.
    pub escrow_id: u32,
    /// Platform fee taken (a share of the interest, in stroops).
    pub platform_fee: i128,
    /// Interest rate model: Fixed or Floating.
    pub rate_model: InterestRateModel,
    /// Baseline rate at loan creation in bps (anchors floating calculations).
    pub base_rate_bps: u32,
    /// Timestamp of the last rate adjustment.
    pub last_rate_update: u64,
}

/// A partial/full payment record.
#[derive(Clone, Copy, PartialEq, Eq, Structural, Debug)]
pub struct PaymentRecord {
    pub loan_id: u32,
    pub amount: i128,
    pub paid_at: u64,
}

/// Why an entry point rejected a call. A rejected call leaves the contract
/// state exactly as it was.
#[derive(Clone, Copy, PartialEq, Eq, Structural, Debug)]
pub enum LendingError {
    AlreadyInitialized,
    NotInitialized,
    NotAdmin,
    MultisigNotConfigured,
    NotMultisigAdmin,
    ContractPaused,
    ThresholdZero,
    ThresholdExceedsAdmins,
    AlreadyPaused,
    NotPaused,
    AlreadySignedPause,
    AlreadySignedUnpause,
    MultisigAdminAlreadyConfigured,
    MultisigAdminNotConfigured,
    SweepAmountNotPositive,
    CannotSweepWhitelisted,
    InsufficientSweepBalance,
    GovernanceNotConfigured,
    GovernanceAlreadyConfigured,
    NotGovernance,
    PlatformFeeTooHigh,
    FlashLoanFeeTooHigh,
    FlashLoanAmountNotPositive,
    InsufficientFlashLiquidity,
    FlashLoanNotRepaid,
    PriceOracleNotConfigured,
    NoPriceSamples,
    TwapPriceNotPositive,
    AssetNotWhitelisted,
    CollateralAmountNotPositive,
    WithdrawalAmountNotPositive,
    NoCollateralEntries,
    InsufficientCollateral,
    CollateralAssetNotFound,
    /// The borrowing power left after a withdrawal, below the borrower's debt.
    UnderCollateralized { power: i128, debt: i128 },
    LoanAmountNotPositive,
    BelowMinimumBorrow,
    ExceedsReputationLimit,
    InvalidDuration,
    InvalidReputationTier,
    NoCollateralProvided,
    CollateralNotWhitelisted,
    CollateralEntryNotPositive,
    /// The borrowing power of a request's collateral, below its amount.
    InsufficientBorrowingPower { power: i128, amount: i128 },
    LoanNotFound,
    LoanNotPending,
    NotLender,
    LoanNotApproved,
    LoanNotActive,
    PaymentAmountNotPositive,
    NotBorrower,
    RateSwitchCooldown,
    NotFloatingRate,
    PaymentNotFound,
    IndexOutOfBounds,
    ArithmeticOverflow,
    /// A stored state that the contract cannot have written.
    CorruptState,
}

} // verus!

verus! {

/// The fee and the balance the pool must hold again once a flash loan is over.
#[derive(Clone, Copy, PartialEq, Eq, Structural, Debug)]
pub struct FlashLoanTerms {
    pub fee: i128,
    pub required_balance: i128,
}

/// A referral bonus claim to send to the referral contract when a loan
/// becomes active.
#[derive(Clone, Copy, PartialEq, Eq, Structural, Debug)]
pub struct ReferralBonusCall {
    pub referral_contract: AccountId,
    pub borrower: AccountId,
    pub loan_amount: i128,
}

/// A loyalty reward to send to the loyalty contract when a loan is repaid on
/// time.
#[derive(Clone, Copy, PartialEq, Eq, Structural, Debug)]
pub struct LoyaltyRewardCall {
    pub loyalty_contract: AccountId,
    pub borrower: AccountId,
    pub loan_amount: i128,
    pub duration_days: u32,
    pub reputation_tier: u32,
}

/// What a recorded payment did to its loan.
#[derive(Clone, Copy, PartialEq, Eq, Structural, Debug)]
pub struct PaymentOutcome {
    pub status: LoanStatus,
    pub loyalty_reward: Option<LoyaltyRewardCall>,
}

} // verus!
