//! The contract's stored state and its entry points.
use vstd::prelude::*;
use crate::account_map::{distinct_keys, map_of, AccountMap};
use crate::model::{
    activate_outcome, active_debt_of, admin_error, approve_outcome, asset_update_error,
    borrower_loan_ids, borrowing_power_of, clamped_config, collateral_config_of,
    collateral_position_ok, collateral_value_of, collect_fees_outcome, collections_ok,
    config_in_bounds, core_ok, create_loan_outcome, debt_over, deposit_outcome, empty_view,
    entry_power_of, entry_value_of, flash_loan_outcome, id_names_loan, initialize_outcome, lemma_debt_prefix_error,
    lemma_power_prefix_overflow, lemma_request_entries_prefix_error, lemma_value_prefix_overflow,
    lender_loan_ids, loan_index_ok, loan_of, mark_defaulted_outcome, multisig_error, pause_outcome, paused_error,
    payment_count_of, price_with_config, record_payment_outcome, remaining_days,
    request_entries_error, requested_loan, revoke_outcome, set_multisig_admin_outcome,
    set_governance_outcome, set_platform_fee_outcome, setup_multisig_outcome, sweep_error, switch_rate_outcome,
    unpause_outcome, update_rate_outcome, user_entries, view_ok, with_new_loan, withdraw_outcome,
    LendingView,
};
use crate::stored::{
    configs_within_bounds, ids_name_loans, lemma_entries_name_loans, lemma_entry_values, lists_fit_u32, positions_valid, stored_ok, stored_view,
    StoredState,
};
use crate::vault::{deposit_into, lemma_deposited_ok, lemma_withdrawn_ok, withdraw_from};
use crate::rates::{
    bps_share, lemma_scaled_div_split, BPS_DENOMINATOR, DEFAULT_COLLATERAL_FACTOR_BPS, DEFAULT_FLASH_LOAN_FEE_BPS, DEFAULT_PLATFORM_FEE_BPS,
    MAX_COLLATERAL_FACTOR_BPS, MAX_FLASH_LOAN_FEE_BPS, MAX_PLATFORM_FEE_BPS, MIN_BORROW_AMOUNT,
    MIN_COLLATERAL_FACTOR_BPS, PRICE_PRECISION, RATE_SWITCH_COOLDOWN_SECS, RATE_SWITCH_FEE_BPS,
};
use crate::types::{
    AccountId, AssetCollateralConfig, CollateralEntry, FlashLoanTerms, InterestRateModel,
    LendingError, LoanRecord, LoanRequestInput, LoanStatus, LoyaltyRewardCall, PaymentOutcome,
    PaymentRecord, ReferralBonusCall,
};

verus! {

/// The lending contract: everything it stores, and the entry points that
/// read and change it. A rejected call leaves it unchanged.
pub struct LendingContract {
    contract_address: AccountId,
    admin: Option<AccountId>,
    loan_count: u32,
    loans: Vec<LoanRecord>,
    loan_tiers: Vec<u32>,
    rate_switched_at: Vec<u64>,
    payments: Vec<Vec<PaymentRecord>>,
    borrower_loans: AccountMap<Vec<u32>>,
    lender_loans: AccountMap<Vec<u32>>,
    platform_fee_bps: u32,
    governance: Option<AccountId>,
    whitelisted: AccountMap<()>,
    multisig_link: Option<AccountId>,
    multisig_admins: Vec<AccountId>,
    multisig_threshold: u32,
    paused: bool,
    pause_signers: AccountMap<()>,
    pause_signer_count: u32,
    unpause_signers: AccountMap<()>,
    unpause_signer_count: u32,
    flash_loan_fee_bps: u32,
    uncollected_fees: i128,
    collateral_configs: AccountMap<AssetCollateralConfig>,
    user_collateral: AccountMap<Vec<CollateralEntry>>,
    price_oracle: Option<AccountId>,
    oracle_samples: AccountMap<Vec<i128>>,
    twap_prices: AccountMap<i128>,
    loyalty_contract: Option<AccountId>,
    referral_contract: Option<AccountId>,
}

/// `Ok(())` when there is no rejection reason, else the reason.
pub open spec fn checked(e: Option<LendingError>) -> Result<(), LendingError> {
    match e {
        None => Ok(()),
        Some(e) => Err(e),
    }
}

impl LendingContract {
    pub closed spec fn abstract_view(&self) -> LendingView {
        LendingView {
            contract_address: self.contract_address,
            admin: self.admin,
            loan_count: self.loan_count,
            loans: self.loans@,
            loan_tiers: self.loan_tiers@,
            rate_switched_at: self.rate_switched_at@,
            payments: self.payments@.map_values(|p: Vec<PaymentRecord>| p@),
            borrower_loans: self.borrower_loans.view().map_values(|l: Vec<u32>| l@),
            lender_loans: self.lender_loans.view().map_values(|l: Vec<u32>| l@),
            platform_fee_bps: self.platform_fee_bps,
            governance: self.governance,
            whitelisted: self.whitelisted.view().dom(),
            multisig_link: self.multisig_link,
            multisig_admins: self.multisig_admins@,
            multisig_threshold: self.multisig_threshold,
            paused: self.paused,
            pause_signers: self.pause_signers.view().dom(),
            pause_signer_count: self.pause_signer_count,
            unpause_signers: self.unpause_signers.view().dom(),
            unpause_signer_count: self.unpause_signer_count,
            flash_loan_fee_bps: self.flash_loan_fee_bps,
            uncollected_fees: self.uncollected_fees,
            collateral_configs: self.collateral_configs.view(),
            user_collateral: self.user_collateral.view().map_values(|l: Vec<CollateralEntry>| l@),
            price_oracle: self.price_oracle,
            oracle_samples: self.oracle_samples.view().map_values(|l: Vec<i128>| l@),
            twap_prices: self.twap_prices.view(),
            loyalty_contract: self.loyalty_contract,
            referral_contract: self.referral_contract,
        }
    }

    /// The stored collections are well formed and the state is one the
    /// contract can reach (`view_ok`).
    pub closed spec fn wf(&self) -> bool {
        &&& self.maps_wf()
        &&& view_ok(self.abstract_view())
    }

    /// The keyed collections hold each key once.
    pub closed spec fn maps_wf(&self) -> bool {
        &&& self.borrower_loans.wf()
        &&& self.lender_loans.wf()
        &&& self.whitelisted.wf()
        &&& self.pause_signers.wf()
        &&& self.unpause_signers.wf()
        &&& self.collateral_configs.wf()
        &&& self.user_collateral.wf()
        &&& self.oracle_samples.wf()
        &&& self.twap_prices.wf()
    }
}

impl LendingContract {
    /// Every state the contract reaches satisfies `view_ok`: loan ids follow
    /// their positions, the fees stay within their caps, stored collateral
    /// configurations within the protocol bounds, and each stored collateral
    /// position holds one positive entry per asset.
    pub proof fn law_reachable_states_ok(&self)
        requires
            self.wf(),
        ensures
            view_ok(self@),
    {
    }
}

impl View for LendingContract {
    type V = LendingView;

    open spec fn view(&self) -> LendingView {
        self.abstract_view()
    }
}

impl LendingContract {
    /// A freshly deployed contract at `contract_address`, with empty storage.
    pub fn new(contract_address: AccountId) -> (c: Self)
        ensures
            c.wf(),
            c@ == empty_view(contract_address),
    {
        let c = LendingContract {
            contract_address,
            admin: None,
            loan_count: 0,
            loans: Vec::new(),
            loan_tiers: Vec::new(),
            rate_switched_at: Vec::new(),
            payments: Vec::new(),
            borrower_loans: AccountMap::new(),
            lender_loans: AccountMap::new(),
            platform_fee_bps: DEFAULT_PLATFORM_FEE_BPS,
            governance: None,
            whitelisted: AccountMap::new(),
            multisig_link: None,
            multisig_admins: Vec::new(),
            multisig_threshold: 1,
            paused: false,
            pause_signers: AccountMap::new(),
            pause_signer_count: 0,
            unpause_signers: AccountMap::new(),
            unpause_signer_count: 0,
            flash_loan_fee_bps: DEFAULT_FLASH_LOAN_FEE_BPS,
            uncollected_fees: 0,
            collateral_configs: AccountMap::new(),
            user_collateral: AccountMap::new(),
            price_oracle: None,
            oracle_samples: AccountMap::new(),
            twap_prices: AccountMap::new(),
            loyalty_contract: None,
            referral_contract: None,
        };
        assert(c@.payments =~= Seq::<Seq<PaymentRecord>>::empty());
        assert(c@.borrower_loans =~= Map::<AccountId, Seq<u32>>::empty());
        assert(c@.lender_loans =~= Map::<AccountId, Seq<u32>>::empty());
        assert(c@.whitelisted =~= Set::<AccountId>::empty());
        assert(c@.pause_signers =~= Set::<AccountId>::empty());
        assert(c@.unpause_signers =~= Set::<AccountId>::empty());
        assert(c@.user_collateral =~= Map::<AccountId, Seq<CollateralEntry>>::empty());
        assert(c@.oracle_samples =~= Map::<AccountId, Seq<i128>>::empty());
        c
    }

    // ── Authorisation helpers ───────────────────────────────────────────────

    fn is_multisig_admin(&self, caller: &AccountId) -> (r: bool)
        ensures
            r == self@.multisig_admins.contains(*caller),
    {
        let mut i: usize = 0;
        while i < self.multisig_admins.len()
            invariant
                i <= self.multisig_admins@.len(),
                forall|j: int| 0 <= j < i ==> self.multisig_admins@[j] != *caller,
            decreases self.multisig_admins@.len() - i,
        {
            if self.multisig_admins[i] == *caller {
                assert(self.multisig_admins@[i as int] == *caller);
                return true;
            }
            i = i + 1;
        }
        false
    }

    /// The caller is a multisig admin, or else the single admin.
    fn assert_admin(&self, caller: &AccountId) -> (r: Result<(), LendingError>)
        ensures
            r == checked(admin_error(self@, *caller)),
    {
        if self.multisig_admins.len() > 0 && self.is_multisig_admin(caller) {
            return Ok(());
        }
        match self.admin {
            None => Err(LendingError::NotInitialized),
            Some(a) => if a == *caller {
                Ok(())
            } else {
                Err(LendingError::NotAdmin)
            },
        }
    }

    fn assert_multisig_admin(&self, caller: &AccountId) -> (r: Result<(), LendingError>)
        ensures
            r == checked(multisig_error(self@, *caller)),
    {
        if self.multisig_admins.len() == 0 {
            return Err(LendingError::MultisigNotConfigured);
        }
        if !self.is_multisig_admin(caller) {
            return Err(LendingError::NotMultisigAdmin);
        }
        Ok(())
    }

    fn assert_not_paused(&self) -> (r: Result<(), LendingError>)
        ensures
            r == checked(paused_error(self@)),
    {
        if self.paused {
            Err(LendingError::ContractPaused)
        } else {
            Ok(())
        }
    }

    // ── Admin ───────────────────────────────────────────────────────────────

    /// Records the admin, resets the loan counter and whitelists the admin
    /// address as the default collateral asset. Rejected once an admin exists.
    pub fn initialize(&mut self, admin: AccountId) -> (r: Result<(), LendingError>)
        requires
            old(self).wf(),
        ensures
            final(self).wf(),
            match initialize_outcome(old(self)@, admin) {
                Ok(post) => r == Ok::<(), LendingError>(()) && final(self)@ == post,
                Err(e) => r == Err::<(), LendingError>(e) && final(self)@ == old(self)@,
            },
    {
        if self.admin.is_some() {
            return Err(LendingError::AlreadyInitialized);
        }
        self.admin = Some(admin);
        self.loan_count = 0;
        self.whitelisted.insert(admin, ());
        Ok(())
    }

    /// Authorises a code upgrade: only an admin may upgrade.
    pub fn upgrade(&self, caller: AccountId) -> (r: Result<(), LendingError>)
        ensures
            r == checked(admin_error(self@, caller)),
    {
        self.assert_admin(&caller)
    }

    /// Configures the multisig admin set for pause/unpause. The caller is
    /// added to the set if it is not in it; `threshold` must be at least 1
    /// and at most the number of admins given. Resets the pause state.
    pub fn setup_multisig(&mut self, admin: AccountId, admins: Vec<AccountId>, threshold: u32) -> (r: Result<(), LendingError>)
        requires
            old(self).wf(),
        ensures
            final(self).wf(),
            match setup_multisig_outcome(old(self)@, admin, admins@, threshold) {
                Ok(post) => r == Ok::<(), LendingError>(()) && final(self)@ == post,
                Err(e) => r == Err::<(), LendingError>(e) && final(self)@ == old(self)@,
            },
    {
        self.assert_admin(&admin)?;
        if threshold == 0 {
            return Err(LendingError::ThresholdZero);
        }
        if threshold as usize > admins.len() {
            return Err(LendingError::ThresholdExceedsAdmins);
        }
        let mut final_admins = admins;
        let mut has_admin = false;
        let mut i: usize = 0;
        while i < final_admins.len()
            invariant
                i <= final_admins@.len(),
                has_admin == exists|j: int| 0 <= j < i && final_admins@[j] == admin,
            decreases final_admins@.len() - i,
        {
            if final_admins[i] == admin {
                has_admin = true;
            }
            i = i + 1;
        }
        if !has_admin {
            final_admins.push(admin);
        }
        self.multisig_threshold = threshold;
        self.multisig_admins = final_admins;
        self.paused = false;
        self.pause_signers = AccountMap::new();
        self.pause_signer_count = 0;
        self.unpause_signers = AccountMap::new();
        self.unpause_signer_count = 0;
        Ok(())
    }

    /// Multisig pause vote: each multisig admin votes once; the contract
    /// pauses when `threshold` distinct admins have voted, and the signer
    /// tracking starts again for the next pause cycle. Answers whether this vote paused the contract.
    pub fn pause(&mut self, caller: AccountId) -> (r: Result<bool, LendingError>)
        requires
            old(self).wf(),
        ensures
            final(self).wf(),
            match pause_outcome(old(self)@, caller) {
                Ok((post, paused_now)) => r == Ok::<bool, LendingError>(paused_now) && final(self)@ == post,
                Err(e) => r == Err::<bool, LendingError>(e) && final(self)@ == old(self)@,
            },
    {
        self.assert_multisig_admin(&caller)?;
        if self.paused {
            return Err(LendingError::AlreadyPaused);
        }
        if self.pause_signers.contains_key(&caller) {
            return Err(LendingError::AlreadySignedPause);
        }
        if self.pause_signer_count == u32::MAX {
            return Err(LendingError::ArithmeticOverflow);
        }
        self.pause_signers.insert(caller, ());
        let new_count = self.pause_signer_count + 1;
        self.pause_signer_count = new_count;
        let threshold = self.get_multisig_threshold();
        if new_count >= threshold {
            self.paused = true;
            self.pause_signers = AccountMap::new();
            self.pause_signer_count = 0;
            Ok(true)
        } else {
            Ok(false)
        }
    }

    /// Multisig unpause vote, the mirror image of `pause`. Answers whether
    /// this vote unpaused the contract.
    pub fn unpause(&mut self, caller: AccountId) -> (r: Result<bool, LendingError>)
        requires
            old(self).wf(),
        ensures
            final(self).wf(),
            match unpause_outcome(old(self)@, caller) {
                Ok((post, unpaused_now)) => r == Ok::<bool, LendingError>(unpaused_now) && final(self)@ == post,
                Err(e) => r == Err::<bool, LendingError>(e) && final(self)@ == old(self)@,
            },
    {
        self.assert_multisig_admin(&caller)?;
        if !self.paused {
            return Err(LendingError::NotPaused);
        }
        if self.unpause_signers.contains_key(&caller) {
            return Err(LendingError::AlreadySignedUnpause);
        }
        if self.unpause_signer_count == u32::MAX {
            return Err(LendingError::ArithmeticOverflow);
        }
        self.unpause_signers.insert(caller, ());
        let new_count = self.unpause_signer_count + 1;
        self.unpause_signer_count = new_count;
        let threshold = self.get_multisig_threshold();
        if new_count >= threshold {
            self.paused = false;
            self.unpause_signers = AccountMap::new();
            self.unpause_signer_count = 0;
            Ok(true)
        } else {
            Ok(false)
        }
    }

    pub fn is_paused(&self) -> (r: bool)
        ensures
            r == self@.paused,
    {
        self.paused
    }

    pub fn get_multisig_admins(&self) -> (r: Vec<AccountId>)
        ensures
            r@ == self@.multisig_admins,
    {
        let mut out: Vec<AccountId> = Vec::new();
        let mut i: usize = 0;
        while i < self.multisig_admins.len()
            invariant
                i <= self.multisig_admins@.len(),
                out@ == self.multisig_admins@.subrange(0, i as int),
            decreases self.multisig_admins@.len() - i,
        {
            out.push(self.multisig_admins[i]);
            i = i + 1;
        }
        assert(out@ == self.multisig_admins@.subrange(0, self.multisig_admins@.len() as int));
        out
    }

    pub fn get_multisig_threshold(&self) -> (r: u32)
        ensures
            r == self@.multisig_threshold,
    {
        self.multisig_threshold
    }

    pub fn get_pause_signer_count(&self) -> (r: u32)
        ensures
            r == self@.pause_signer_count,
    {
        self.pause_signer_count
    }

    /// One-time bootstrap linking the multisig admin contract (admin only);
    /// it becomes the only multisig admin.
    pub fn set_multisig_admin(&mut self, admin: AccountId, multisig: AccountId) -> (r: Result<(), LendingError>)
        requires
            old(self).wf(),
        ensures
            final(self).wf(),
            match set_multisig_admin_outcome(old(self)@, admin, multisig) {
                Ok(post) => r == Ok::<(), LendingError>(()) && final(self)@ == post,
                Err(e) => r == Err::<(), LendingError>(e) && final(self)@ == old(self)@,
            },
    {
        self.assert_admin(&admin)?;
        if self.multisig_link.is_some() {
            return Err(LendingError::MultisigAdminAlreadyConfigured);
        }
        self.multisig_link = Some(multisig);
        let mut admins: Vec<AccountId> = Vec::new();
        admins.push(multisig);
        self.multisig_admins = admins;
        Ok(())
    }

    pub fn get_multisig_admin(&self) -> (r: Result<AccountId, LendingError>)
        ensures
            r == match self@.multisig_link {
                Some(m) => Ok::<AccountId, LendingError>(m),
                None => Err(LendingError::MultisigAdminNotConfigured),
            },
    {
        match self.multisig_link {
            Some(m) => Ok(m),
            None => Err(LendingError::MultisigAdminNotConfigured),
        }
    }

    /// Sets the borrower loyalty rewards contract (admin only).
    pub fn set_loyalty_contract(&mut self, admin: AccountId, loyalty: AccountId) -> (r: Result<(), LendingError>)
        requires
            old(self).wf(),
        ensures
            final(self).wf(),
            r == checked(admin_error(old(self)@, admin)),
            r is Ok ==> final(self)@ == (LendingView { loyalty_contract: Some(loyalty), ..old(self)@ }),
            r is Err ==> final(self)@ == old(self)@,
    {
        self.assert_admin(&admin)?;
        self.loyalty_contract = Some(loyalty);
        Ok(())
    }

    pub fn get_loyalty_contract(&self) -> (r: Option<AccountId>)
        ensures
            r == self@.loyalty_contract,
    {
        self.loyalty_contract
    }

    /// Sets the referral rewards contract (admin only). Leaving it unset
    /// disables referral payouts.
    pub fn set_referral_contract(&mut self, admin: AccountId, referral: AccountId) -> (r: Result<(), LendingError>)
        requires
            old(self).wf(),
        ensures
            final(self).wf(),
            r == checked(admin_error(old(self)@, admin)),
            r is Ok ==> final(self)@ == (LendingView { referral_contract: Some(referral), ..old(self)@ }),
            r is Err ==> final(self)@ == old(self)@,
    {
        self.assert_admin(&admin)?;
        self.referral_contract = Some(referral);
        Ok(())
    }

    pub fn get_referral_contract(&self) -> (r: Option<AccountId>)
        ensures
            r == self@.referral_contract,
    {
        self.referral_contract
    }

    /// Whitelists a collateral asset (multisig admins only).
    pub fn whitelist_asset(&mut self, caller: AccountId, asset: AccountId) -> (r: Result<(), LendingError>)
        requires
            old(self).wf(),
        ensures
            final(self).wf(),
            r == checked(multisig_error(old(self)@, caller)),
            r is Ok ==> final(self)@ == (LendingView { whitelisted: old(self)@.whitelisted.insert(asset), ..old(self)@ }),
            r is Err ==> final(self)@ == old(self)@,
    {
        self.assert_multisig_admin(&caller)?;
        self.whitelisted.insert(asset, ());
        Ok(())
    }

    pub fn is_asset_whitelisted(&self, asset: AccountId) -> (r: bool)
        requires
            self.wf(),
        ensures
            r == self@.whitelisted.contains(asset),
    {
        self.whitelisted.contains_key(&asset)
    }

    pub fn get_admin(&self) -> (r: Result<AccountId, LendingError>)
        ensures
            r == match self@.admin {
                Some(a) => Ok::<AccountId, LendingError>(a),
                None => Err(LendingError::NotInitialized),
            },
    {
        match self.admin {
            Some(a) => Ok(a),
            None => Err(LendingError::NotInitialized),
        }
    }

    /// Decides a sweep of accidentally sent tokens before the pool balance is
    /// read: admin only, positive amount, and never a whitelisted asset.
    pub fn sweep_tokens(&self, caller: AccountId, token: AccountId, amount: i128) -> (r: Result<(), LendingError>)
        requires
            self.wf(),
        ensures
            r == checked(sweep_error(self@, caller, token, amount)),
    {
        self.assert_admin(&caller)?;
        if amount <= 0 {
            return Err(LendingError::SweepAmountNotPositive);
        }
        if self.whitelisted.contains_key(&token) {
            return Err(LendingError::CannotSweepWhitelisted);
        }
        Ok(())
    }

    /// Links the governance contract (multisig admins only, once). From then
    /// on only governance may change the platform fee.
    pub fn set_governance(&mut self, caller: AccountId, governance: AccountId) -> (r: Result<(), LendingError>)
        requires
            old(self).wf(),
        ensures
            final(self).wf(),
            match set_governance_outcome(old(self)@, caller, governance) {
                Ok(post) => r == Ok::<(), LendingError>(()) && final(self)@ == post,
                Err(e) => r == Err::<(), LendingError>(e) && final(self)@ == old(self)@,
            },
    {
        self.assert_multisig_admin(&caller)?;
        if self.governance.is_some() {
            return Err(LendingError::GovernanceAlreadyConfigured);
        }
        self.governance = Some(governance);
        Ok(())
    }

    pub fn get_governance(&self) -> (r: Result<AccountId, LendingError>)
        ensures
            r == match self@.governance {
                Some(g) => Ok::<AccountId, LendingError>(g),
                None => Err(LendingError::GovernanceNotConfigured),
            },
    {
        match self.governance {
            Some(g) => Ok(g),
            None => Err(LendingError::GovernanceNotConfigured),
        }
    }

    /// Current platform fee in basis-points of interest (default 100 = 1 %).
    pub fn get_platform_fee_bps(&self) -> (r: u32)
        ensures
            r == self@.platform_fee_bps,
    {
        self.platform_fee_bps
    }

    /// Updates the platform fee; only the linked governance contract may, and
    /// never above `MAX_PLATFORM_FEE_BPS`. Answers the previous fee.
    pub fn set_platform_fee_bps(&mut self, caller: AccountId, new_fee_bps: u32) -> (r: Result<u32, LendingError>)
        requires
            old(self).wf(),
        ensures
            final(self).wf(),
            match set_platform_fee_outcome(old(self)@, caller, new_fee_bps) {
                Ok((post, old_fee)) => r == Ok::<u32, LendingError>(old_fee) && final(self)@ == post,
                Err(e) => r == Err::<u32, LendingError>(e) && final(self)@ == old(self)@,
            },
    {
        match self.governance {
            None => {
                return Err(LendingError::GovernanceNotConfigured);
            },
            Some(g) => {
                if caller != g {
                    return Err(LendingError::NotGovernance);
                }
            },
        }
        if new_fee_bps > MAX_PLATFORM_FEE_BPS {
            return Err(LendingError::PlatformFeeTooHigh);
        }
        let old_fee_bps = self.platform_fee_bps;
        self.platform_fee_bps = new_fee_bps;
        Ok(old_fee_bps)
    }

    pub fn get_uncollected_fees(&self) -> (r: i128)
        ensures
            r == self@.uncollected_fees,
    {
        self.uncollected_fees
    }

    /// Hands over the accrued platform fees: answers them and resets the
    /// account to zero; answers 0 and changes nothing when none are positive.
    pub fn collect_fees(&mut self) -> (r: i128)
        requires
            old(self).wf(),
        ensures
            final(self).wf(),
            (final(self)@, r) == collect_fees_outcome(old(self)@),
    {
        let uncollected = self.uncollected_fees;
        if uncollected <= 0 {
            return 0;
        }
        self.uncollected_fees = 0;
        assert(self@ =~= (LendingView { uncollected_fees: 0, ..old(self)@ }));
        uncollected
    }

    /// Current flash-loan fee in basis-points of the borrowed amount
    /// (default 9 = 0.09 %).
    pub fn get_flash_loan_fee_bps(&self) -> (r: u32)
        ensures
            r == self@.flash_loan_fee_bps,
    {
        self.flash_loan_fee_bps
    }

    /// Updates the flash-loan fee (multisig admins only), capped at
    /// `MAX_FLASH_LOAN_FEE_BPS`.
    pub fn set_flash_loan_fee_bps(&mut self, caller: AccountId, new_fee_bps: u32) -> (r: Result<(), LendingError>)
        requires
            old(self).wf(),
        ensures
            final(self).wf(),
            r == checked(
                if multisig_error(old(self)@, caller) is Some {
                    multisig_error(old(self)@, caller)
                } else if new_fee_bps > MAX_FLASH_LOAN_FEE_BPS {
                    Some(LendingError::FlashLoanFeeTooHigh)
                } else {
                    None
                },
            ),
            r is Ok ==> final(self)@ == (LendingView { flash_loan_fee_bps: new_fee_bps, ..old(self)@ }),
            r is Err ==> final(self)@ == old(self)@,
    {
        self.assert_multisig_admin(&caller)?;
        if new_fee_bps > MAX_FLASH_LOAN_FEE_BPS {
            return Err(LendingError::FlashLoanFeeTooHigh);
        }
        self.flash_loan_fee_bps = new_fee_bps;
        Ok(())
    }

    /// Terms of an uncollateralised flash loan of `amount` against a pool
    /// that holds `balance_before` of the token: the fee, and the balance the
    /// pool must hold again once the receiver's callback has run.
    pub fn flash_loan(&self, amount: i128, balance_before: i128) -> (r: Result<FlashLoanTerms, LendingError>)
        requires
            self.wf(),
        ensures
            r == flash_loan_outcome(self@, amount, balance_before),
    {
        check_flash_loan_amount(amount)?;
        if balance_before < amount {
            return Err(LendingError::InsufficientFlashLiquidity);
        }
        let fee = bps_share(amount, self.flash_loan_fee_bps)?;
        match balance_before.checked_add(fee) {
            Some(required_balance) => Ok(FlashLoanTerms { fee, required_balance }),
            None => Err(LendingError::ArithmeticOverflow),
        }
    }

    // ── Price oracle and collateral configuration ──────────────────────────

    /// Registers or rotates the price oracle (multisig admins only).
    pub fn set_price_oracle(&mut self, caller: AccountId, oracle: AccountId) -> (r: Result<(), LendingError>)
        requires
            old(self).wf(),
        ensures
            final(self).wf(),
            r == checked(multisig_error(old(self)@, caller)),
            r is Ok ==> final(self)@ == (LendingView { price_oracle: Some(oracle), ..old(self)@ }),
            r is Err ==> final(self)@ == old(self)@,
    {
        self.assert_multisig_admin(&caller)?;
        self.price_oracle = Some(oracle);
        Ok(())
    }

    pub fn get_price_oracle(&self) -> (r: Result<AccountId, LendingError>)
        ensures
            r == match self@.price_oracle {
                Some(o) => Ok::<AccountId, LendingError>(o),
                None => Err(LendingError::PriceOracleNotConfigured),
            },
    {
        match self.price_oracle {
            Some(o) => Ok(o),
            None => Err(LendingError::PriceOracleNotConfigured),
        }
    }

    /// Stores the oracle price samples of a whitelisted asset (multisig
    /// admins only); at least one sample is needed.
    pub fn set_asset_oracle_prices(&mut self, caller: AccountId, asset: AccountId, prices: Vec<i128>) -> (r: Result<(), LendingError>)
        requires
            old(self).wf(),
        ensures
            final(self).wf(),
            r == checked(
                asset_update_error(
                    old(self)@,
                    caller,
                    asset,
                    if prices@.len() == 0 { Some(LendingError::NoPriceSamples) } else { None },
                ),
            ),
            r is Ok ==> final(self)@ == (LendingView {
                oracle_samples: old(self)@.oracle_samples.insert(asset, prices@),
                ..old(self)@
            }),
            r is Err ==> final(self)@ == old(self)@,
    {
        self.assert_multisig_admin(&caller)?;
        if prices.len() == 0 {
            return Err(LendingError::NoPriceSamples);
        }
        if !self.whitelisted.contains_key(&asset) {
            return Err(LendingError::AssetNotWhitelisted);
        }
        self.oracle_samples.insert(asset, prices);
        proof {
            assert(self@.oracle_samples =~= old(self)@.oracle_samples.insert(asset, prices@));
        }
        Ok(())
    }

    /// Stores the TWAP fallback price of a whitelisted asset (multisig admins
    /// only); the price must be positive.
    pub fn set_asset_twap_price(&mut self, caller: AccountId, asset: AccountId, price: i128) -> (r: Result<(), LendingError>)
        requires
            old(self).wf(),
        ensures
            final(self).wf(),
            r == checked(
                asset_update_error(
                    old(self)@,
                    caller,
                    asset,
                    if price <= 0 { Some(LendingError::TwapPriceNotPositive) } else { None },
                ),
            ),
            r is Ok ==> final(self)@ == (LendingView {
                twap_prices: old(self)@.twap_prices.insert(asset, price),
                ..old(self)@
            }),
            r is Err ==> final(self)@ == old(self)@,
    {
        self.assert_multisig_admin(&caller)?;
        if price <= 0 {
            return Err(LendingError::TwapPriceNotPositive);
        }
        if !self.whitelisted.contains_key(&asset) {
            return Err(LendingError::AssetNotWhitelisted);
        }
        self.twap_prices.insert(asset, price);
        Ok(())
    }

    /// Configures a whitelisted asset's collateral parameters (multisig
    /// admins only). The collateral factor is clamped to
    /// [MIN_COLLATERAL_FACTOR_BPS, MAX_COLLATERAL_FACTOR_BPS] and the
    /// volatility to at most 10_000; answers the configuration as stored.
    pub fn set_asset_collateral_config(&mut self, caller: AccountId, asset: AccountId, config: AssetCollateralConfig) -> (r: Result<AssetCollateralConfig, LendingError>)
        requires
            old(self).wf(),
        ensures
            final(self).wf(),
            match asset_update_error(old(self)@, caller, asset, None) {
                Some(e) => r == Err::<AssetCollateralConfig, LendingError>(e) && final(self)@ == old(self)@,
                None => r == Ok::<AssetCollateralConfig, LendingError>(clamped_config(config))
                    && final(self)@ == (LendingView {
                    collateral_configs: old(self)@.collateral_configs.insert(asset, clamped_config(config)),
                    ..old(self)@
                }),
            },
    {
        self.assert_multisig_admin(&caller)?;
        if !self.whitelisted.contains_key(&asset) {
            return Err(LendingError::AssetNotWhitelisted);
        }
        let factor = if config.collateral_factor_bps < MIN_COLLATERAL_FACTOR_BPS {
            MIN_COLLATERAL_FACTOR_BPS
        } else if config.collateral_factor_bps > MAX_COLLATERAL_FACTOR_BPS {
            MAX_COLLATERAL_FACTOR_BPS
        } else {
            config.collateral_factor_bps
        };
        let volatility = if config.volatility_bps > 10_000 {
            10_000
        } else {
            config.volatility_bps
        };
        let safe_config = AssetCollateralConfig {
            collateral_factor_bps: factor,
            has_price_oracle: config.has_price_oracle,
            volatility_bps: volatility,
        };
        self.collateral_configs.insert(asset, safe_config);
        Ok(safe_config)
    }

    /// The configuration of an asset, or the default (75% LTV, no oracle,
    /// no volatility) when none was set.
    pub fn get_asset_collateral_config(&self, asset: AccountId) -> (r: AssetCollateralConfig)
        requires
            self.wf(),
        ensures
            r == collateral_config_of(self@, asset),
    {
        match self.collateral_configs.get(&asset) {
            Some(c) => *c,
            None => AssetCollateralConfig {
                collateral_factor_bps: DEFAULT_COLLATERAL_FACTOR_BPS,
                has_price_oracle: false,
                volatility_bps: 0,
            },
        }
    }

    /// The price of an asset under the given configuration (see
    /// `price_with_config`).
    fn get_asset_price(&self, asset: &AccountId, config: &AssetCollateralConfig) -> (r: Result<i128, LendingError>)
        requires
            self.wf(),
        ensures
            match price_with_config(self@, *asset, *config) {
                Some(p) => r == Ok::<i128, LendingError>(p as i128),
                None => r == Err::<i128, LendingError>(LendingError::ArithmeticOverflow),
            },
    {
        if config.has_price_oracle {
            match self.oracle_samples.get(asset) {
                Some(samples) => {
                    if samples.len() > 0 {
                        return Self::median_price(samples);
                    }
                },
                None => {},
            }
            match self.twap_prices.get(asset) {
                Some(p) => {
                    return Ok(*p);
                },
                None => {},
            }
        }
        Ok(PRICE_PRECISION)
    }

    /// Value of one collateral entry in base units.
    fn entry_value(&self, entry: &CollateralEntry) -> (r: Result<i128, LendingError>)
        requires
            self.wf(),
        ensures
            match entry_value_of(self@, *entry) {
                Some(x) => r == Ok::<i128, LendingError>(x as i128),
                None => r == Err::<i128, LendingError>(LendingError::ArithmeticOverflow),
            },
    {
        let config = self.get_asset_collateral_config(entry.asset);
        let price = self.get_asset_price(&entry.asset, &config)?;
        match entry.amount.checked_mul(price) {
            Some(product) => Ok(product / PRICE_PRECISION),
            None => Err(LendingError::ArithmeticOverflow),
        }
    }

    /// Borrowing power of one collateral entry (see `entry_power_of`).
    fn entry_power(&self, entry: &CollateralEntry) -> (r: Result<i128, LendingError>)
        requires
            self.wf(),
        ensures
            match entry_power_of(self@, *entry) {
                Some(x) => r matches Ok(y) && y == x,
                None => r == Err::<i128, LendingError>(LendingError::ArithmeticOverflow),
            },
    {
        let config = self.get_asset_collateral_config(entry.asset);
        let price = self.get_asset_price(&entry.asset, &config)?;
        let value = match entry.amount.checked_mul(price) {
            Some(product) => product,
            None => {
                return Err(LendingError::ArithmeticOverflow);
            },
        };
        // `value * factor` may leave the `i128` range, so the division is
        // taken in two parts: whole multiples of the denominator, and the rest.
        let denom: i128 = PRICE_PRECISION * BPS_DENOMINATOR;
        let factor: i128 = config.collateral_factor_bps as i128;
        let whole: i128 = value / denom;
        proof {
            lemma_scaled_div_split(value as int, factor as int, denom as int);
        }
        let rest: i128 = value - whole * denom;
        proof {
            assert(-2_000_000_000_000_000_000_000_000_000 <= whole <= 2_000_000_000_000_000_000_000_000_000) by (nonlinear_arith)
                requires
                    denom == 100_000_000_000,
                    value >= 0 ==> 0 <= whole * denom <= value,
                    value < 0 ==> value <= whole * denom <= 0,
                    i128::MIN <= value <= i128::MAX,
            ;
            assert(-10_000_000_000_000_000_000_000_000_000_000_000_000 <= whole * factor <= 10_000_000_000_000_000_000_000_000_000_000_000_000) by (nonlinear_arith)
                requires
                    -2_000_000_000_000_000_000_000_000_000 <= whole <= 2_000_000_000_000_000_000_000_000_000,
                    0 <= factor <= u32::MAX,
            ;
            assert(-1_000_000_000_000_000_000_000 <= rest * factor <= 1_000_000_000_000_000_000_000) by (nonlinear_arith)
                requires
                    -100_000_000_000 < rest < 100_000_000_000,
                    0 <= factor <= u32::MAX,
            ;
        }
        let part: i128 = rest * factor / denom;
        proof {
            assert(-1_000_000_000_000 <= part <= 1_000_000_000_000);
        }
        Ok(whole * factor + part)
    }

    /// Borrowing power of a list of collateral entries: the sum over the
    /// entries of `amount * price * factor / (PRICE_PRECISION * 10_000)`.
    fn compute_borrowing_power_from_entries(&self, entries: &Vec<CollateralEntry>) -> (r: Result<i128, LendingError>)
        requires
            self.wf(),
        ensures
            match borrowing_power_of(self@, entries@) {
                Some(p) => r matches Ok(x) && x == p,
                None => r == Err::<i128, LendingError>(LendingError::ArithmeticOverflow),
            },
    {
        let mut total_power: i128 = 0;
        let mut i: usize = 0;
        while i < entries.len()
            invariant
                self.wf(),
                i <= entries@.len(),
                borrowing_power_of(self@, entries@.subrange(0, i as int)) == Some(total_power as int),
            decreases entries@.len() - i,
        {
            let ghost next = entries@.subrange(0, i + 1);
            assert(next.drop_last() == entries@.subrange(0, i as int));
            assert(next.last() == entries@[i as int]);
            let entry = entries[i];
            let adjusted = match self.entry_power(&entry) {
                Ok(x) => x,
                Err(e) => {
                    proof {
                        lemma_power_prefix_overflow(self@, entries@, i + 1);
                    }
                    return Err(e);
                },
            };
            total_power = match total_power.checked_add(adjusted) {
                Some(t) => t,
                None => {
                    proof {
                        lemma_power_prefix_overflow(self@, entries@, i + 1);
                    }
                    return Err(LendingError::ArithmeticOverflow);
                },
            };
            i = i + 1;
        }
        assert(entries@.subrange(0, entries@.len() as int) == entries@);
        Ok(total_power)
    }

    /// Total value of a list of collateral entries, not LTV-adjusted.
    fn collateral_value(&self, entries: &Vec<CollateralEntry>) -> (r: Result<i128, LendingError>)
        requires
            self.wf(),
        ensures
            match collateral_value_of(self@, entries@) {
                Some(p) => r matches Ok(x) && x == p,
                None => r == Err::<i128, LendingError>(LendingError::ArithmeticOverflow),
            },
    {
        let mut total_value: i128 = 0;
        let mut i: usize = 0;
        while i < entries.len()
            invariant
                self.wf(),
                i <= entries@.len(),
                collateral_value_of(self@, entries@.subrange(0, i as int)) == Some(total_value as int),
            decreases entries@.len() - i,
        {
            let ghost next = entries@.subrange(0, i + 1);
            assert(next.drop_last() == entries@.subrange(0, i as int));
            assert(next.last() == entries@[i as int]);
            let value = match self.entry_value(&entries[i]) {
                Ok(x) => x,
                Err(e) => {
                    proof {
                        lemma_value_prefix_overflow(self@, entries@, i + 1);
                    }
                    return Err(e);
                },
            };
            total_value = match total_value.checked_add(value) {
                Some(t) => t,
                None => {
                    proof {
                        lemma_value_prefix_overflow(self@, entries@, i + 1);
                    }
                    return Err(LendingError::ArithmeticOverflow);
                },
            };
            i = i + 1;
        }
        assert(entries@.subrange(0, entries@.len() as int) == entries@);
        Ok(total_value)
    }

    // ── Collateral vault ────────────────────────────────────────────────────

    /// All collateral entries of a borrower.
    pub fn get_user_collateral_entries(&self, borrower: AccountId) -> (r: Vec<CollateralEntry>)
        requires
            self.wf(),
        ensures
            r@ == user_entries(self@, borrower),
    {
        match self.user_collateral.get(&borrower) {
            Some(entries) => copy_entries(entries),
            None => Vec::new(),
        }
    }

    /// A borrower's total borrowing power in base units.
    pub fn get_borrowing_power(&self, borrower: AccountId) -> (r: Result<i128, LendingError>)
        requires
            self.wf(),
        ensures
            match borrowing_power_of(self@, user_entries(self@, borrower)) {
                Some(p) => r matches Ok(x) && x == p,
                None => r == Err::<i128, LendingError>(LendingError::ArithmeticOverflow),
            },
    {
        let entries = self.get_user_collateral_entries(borrower);
        self.compute_borrowing_power_from_entries(&entries)
    }

    /// A borrower's total collateral value in base units, not LTV-adjusted.
    pub fn get_total_collateral_value(&self, borrower: AccountId) -> (r: Result<i128, LendingError>)
        requires
            self.wf(),
        ensures
            match collateral_value_of(self@, user_entries(self@, borrower)) {
                Some(p) => r matches Ok(x) && x == p,
                None => r == Err::<i128, LendingError>(LendingError::ArithmeticOverflow),
            },
    {
        let entries = self.get_user_collateral_entries(borrower);
        self.collateral_value(&entries)
    }

    /// Adds collateral to the borrower's position in a whitelisted asset.
    /// The token transfer itself happens before this bookkeeping.
    pub fn deposit_collateral(&mut self, borrower: AccountId, asset: AccountId, amount: i128) -> (r: Result<(), LendingError>)
        requires
            old(self).wf(),
        ensures
            final(self).wf(),
            match deposit_outcome(old(self)@, borrower, asset, amount) {
                Ok(post) => r == Ok::<(), LendingError>(()) && final(self)@ == post,
                Err(e) => r == Err::<(), LendingError>(e) && final(self)@ == old(self)@,
            },
    {
        self.assert_not_paused()?;
        if amount <= 0 {
            return Err(LendingError::CollateralAmountNotPositive);
        }
        if !self.whitelisted.contains_key(&asset) {
            return Err(LendingError::AssetNotWhitelisted);
        }
        let new_entries = {
            let empty: Vec<CollateralEntry> = Vec::new();
            let entries: &Vec<CollateralEntry> = match self.user_collateral.get(&borrower) {
                Some(e) => e,
                None => &empty,
            };
            assert(entries@ == user_entries(self@, borrower));
            let res = deposit_into(entries, asset, amount);
            proof {
                if res is Ok {
                    lemma_deposited_ok(entries@, asset, amount);
                }
            }
            res?
        };
        let ghost new_view = new_entries@;
        self.user_collateral.insert(borrower, new_entries);
        proof {
            assert(self@.user_collateral =~= old(self)@.user_collateral.insert(borrower, new_view));
        }
        Ok(())
    }

    /// Takes collateral out of the borrower's position. Rejected when the
    /// remaining collateral's borrowing power would fall below the
    /// borrower's active debt. Answers what is left of the asset's entry.
    pub fn withdraw_collateral(&mut self, borrower: AccountId, asset: AccountId, amount: i128) -> (r: Result<i128, LendingError>)
        requires
            old(self).wf(),
        ensures
            final(self).wf(),
            match withdraw_outcome(old(self)@, borrower, asset, amount) {
                Ok((post, left)) => r == Ok::<i128, LendingError>(left) && final(self)@ == post,
                Err(e) => r == Err::<i128, LendingError>(e) && final(self)@ == old(self)@,
            },
    {
        self.assert_not_paused()?;
        if amount <= 0 {
            return Err(LendingError::WithdrawalAmountNotPositive);
        }
        let (new_entries, remaining_amount) = match self.user_collateral.get(&borrower) {
            None => {
                return Err(LendingError::NoCollateralEntries);
            },
            Some(entries) => {
                proof {
                    lemma_withdrawn_ok(entries@, asset, amount);
                }
                withdraw_from(entries, asset, amount)?
            },
        };
        let borrowing_power = self.compute_borrowing_power_from_entries(&new_entries)?;
        let total_active_debt = self.get_total_active_debt_of_borrower(&borrower)?;
        if borrowing_power < total_active_debt {
            return Err(LendingError::UnderCollateralized { power: borrowing_power, debt: total_active_debt });
        }
        let ghost new_view = new_entries@;
        if new_entries.len() == 0 {
            self.user_collateral.remove(&borrower);
            proof {
                assert(self@.user_collateral =~= old(self)@.user_collateral.remove(borrower));
            }
        } else {
            self.user_collateral.insert(borrower, new_entries);
            proof {
                assert(self@.user_collateral =~= old(self)@.user_collateral.insert(borrower, new_view));
            }
        }
        Ok(remaining_amount)
    }

    // ── Loan indexes ────────────────────────────────────────────────────────

    /// Number of loans a borrower has created.
    pub fn get_borrower_loan_count(&self, borrower: AccountId) -> (r: u32)
        requires
            self.wf(),
        ensures
            r == borrower_loan_ids(self@, borrower).len(),
    {
        match self.borrower_loans.get(&borrower) {
            Some(ids) => ids.len() as u32,
            None => 0,
        }
    }

    /// Loan id at a given (0-based) index for a borrower.
    pub fn get_borrower_loan_at(&self, borrower: AccountId, index: u32) -> (r: Result<u32, LendingError>)
        requires
            self.wf(),
        ensures
            index < borrower_loan_ids(self@, borrower).len() ==> r == Ok::<u32, LendingError>(
                borrower_loan_ids(self@, borrower)[index as int],
            ),
            index >= borrower_loan_ids(self@, borrower).len() ==> r == Err::<u32, LendingError>(
                LendingError::IndexOutOfBounds,
            ),
    {
        match self.borrower_loans.get(&borrower) {
            Some(ids) => if (index as usize) < ids.len() {
                Ok(ids[index as usize])
            } else {
                Err(LendingError::IndexOutOfBounds)
            },
            None => Err(LendingError::IndexOutOfBounds),
        }
    }

    /// Number of loans a lender has approved.
    pub fn get_lender_loan_count(&self, lender: AccountId) -> (r: u32)
        requires
            self.wf(),
        ensures
            r == lender_loan_ids(self@, lender).len(),
    {
        match self.lender_loans.get(&lender) {
            Some(ids) => ids.len() as u32,
            None => 0,
        }
    }

    /// Loan id at a given (0-based) index for a lender.
    pub fn get_lender_loan_at(&self, lender: AccountId, index: u32) -> (r: Result<u32, LendingError>)
        requires
            self.wf(),
        ensures
            index < lender_loan_ids(self@, lender).len() ==> r == Ok::<u32, LendingError>(
                lender_loan_ids(self@, lender)[index as int],
            ),
            index >= lender_loan_ids(self@, lender).len() ==> r == Err::<u32, LendingError>(
                LendingError::IndexOutOfBounds,
            ),
    {
        match self.lender_loans.get(&lender) {
            Some(ids) => if (index as usize) < ids.len() {
                Ok(ids[index as usize])
            } else {
                Err(LendingError::IndexOutOfBounds)
            },
            None => Err(LendingError::IndexOutOfBounds),
        }
    }

    pub fn get_loan(&self, loan_id: u32) -> (r: Result<LoanRecord, LendingError>)
        requires
            self.wf(),
        ensures
            r == match loan_of(self@, loan_id) {
                Some(l) => Ok::<LoanRecord, LendingError>(l),
                None => Err(LendingError::LoanNotFound),
            },
    {
        if loan_id >= 1 && (loan_id as usize) <= self.loans.len() {
            Ok(self.loans[(loan_id - 1) as usize])
        } else {
            Err(LendingError::LoanNotFound)
        }
    }

    /// Total remaining debt of the borrower's active or approved loans; used
    /// to keep collateral withdrawals covered.
    fn get_total_active_debt_of_borrower(&self, borrower: &AccountId) -> (r: Result<i128, LendingError>)
        requires
            self.wf(),
        ensures
            match active_debt_of(self@, *borrower) {
                Ok(d) => r matches Ok(x) && x == d,
                Err(e) => r == Err::<i128, LendingError>(e),
            },
    {
        let empty: Vec<u32> = Vec::new();
        let ids: &Vec<u32> = match self.borrower_loans.get(borrower) {
            Some(ids) => ids,
            None => &empty,
        };
        assert(ids@ == borrower_loan_ids(self@, *borrower));
        let mut total_debt: i128 = 0;
        let mut i: usize = 0;
        while i < ids.len()
            invariant
                self.wf(),
                i <= ids@.len(),
                ids@ == borrower_loan_ids(self@, *borrower),
                debt_over(self@, ids@.subrange(0, i as int)) == Ok::<int, LendingError>(total_debt as int),
            decreases ids@.len() - i,
        {
            let ghost next = ids@.subrange(0, i + 1);
            assert(next.drop_last() == ids@.subrange(0, i as int));
            assert(next.last() == ids@[i as int]);
            let loan = match self.get_loan(ids[i]) {
                Ok(l) => l,
                Err(e) => {
                    proof {
                        assert(debt_over(self@, next) == Err::<int, LendingError>(e));
                        lemma_debt_prefix_error(self@, ids@, i + 1);
                    }
                    return Err(e);
                },
            };
            if loan.status == LoanStatus::Active || loan.status == LoanStatus::Approved {
                total_debt = match total_debt.checked_add(loan.remaining_due) {
                    Some(t) => t,
                    None => {
                        proof {
                            assert(debt_over(self@, next) == Err::<int, LendingError>(
                                LendingError::ArithmeticOverflow,
                            ));
                            lemma_debt_prefix_error(self@, ids@, i + 1);
                        }
                        return Err(LendingError::ArithmeticOverflow);
                    },
                };
            }
            i = i + 1;
        }
        assert(ids@.subrange(0, ids@.len() as int) == ids@);
        Ok(total_debt)
    }

    // ── Loan lifecycle ──────────────────────────────────────────────────────

    /// Appends `loan_id` to the borrower's list of loans.
    fn store_borrower_loan_id(&mut self, borrower: AccountId, loan_id: u32)
        requires
            old(self).wf(),
            borrower_loan_ids(old(self)@, borrower).len() < u32::MAX,
            id_names_loan(old(self)@.loans, loan_id, borrower, true),
        ensures
            final(self).wf(),
            final(self)@ == (LendingView {
                borrower_loans: old(self)@.borrower_loans.insert(
                    borrower,
                    borrower_loan_ids(old(self)@, borrower).push(loan_id),
                ),
                ..old(self)@
            }),
    {
        let mut ids = match self.borrower_loans.remove(&borrower) {
            Some(ids) => ids,
            None => Vec::new(),
        };
        ids.push(loan_id);
        let ghost ids_view = ids@;
        self.borrower_loans.insert(borrower, ids);
        proof {
            assert(self@.borrower_loans =~= old(self)@.borrower_loans.insert(borrower, ids_view));
            assert forall|b: AccountId, k: int|
                self@.borrower_loans.contains_key(b) && 0 <= k < self@.borrower_loans[b].len() implies id_names_loan(
                self@.loans,
                #[trigger] self@.borrower_loans[b][k],
                b,
                true,
            ) by {
                if b == borrower && k < ids_view.len() - 1 {
                    assert(self@.borrower_loans[b][k] == old(self)@.borrower_loans[b][k]);
                }
            }
        }
    }

    /// Appends `loan_id` to the lender's list of approved loans.
    fn push_loan_id_for_lender(&mut self, lender: AccountId, loan_id: u32)
        requires
            old(self).wf(),
            lender_loan_ids(old(self)@, lender).len() < u32::MAX,
            id_names_loan(old(self)@.loans, loan_id, lender, false),
        ensures
            final(self).wf(),
            final(self)@ == (LendingView {
                lender_loans: old(self)@.lender_loans.insert(
                    lender,
                    lender_loan_ids(old(self)@, lender).push(loan_id),
                ),
                ..old(self)@
            }),
    {
        let mut ids = match self.lender_loans.remove(&lender) {
            Some(ids) => ids,
            None => Vec::new(),
        };
        ids.push(loan_id);
        let ghost ids_view = ids@;
        self.lender_loans.insert(lender, ids);
        proof {
            assert(self@.lender_loans =~= old(self)@.lender_loans.insert(lender, ids_view));
            assert forall|b: AccountId, k: int|
                self@.lender_loans.contains_key(b) && 0 <= k < self@.lender_loans[b].len() implies id_names_loan(
                self@.loans,
                #[trigger] self@.lender_loans[b][k],
                b,
                false,
            ) by {
                if b == lender && k < ids_view.len() - 1 {
                    assert(self@.lender_loans[b][k] == old(self)@.lender_loans[b][k]);
                }
            }
        }
    }

    /// The first unacceptable collateral entry of a request, if any.
    fn check_request_entries(&self, entries: &Vec<CollateralEntry>) -> (r: Result<(), LendingError>)
        requires
            self.wf(),
        ensures
            r == checked(request_entries_error(self@, entries@)),
    {
        let mut i: usize = 0;
        while i < entries.len()
            invariant
                self.wf(),
                i <= entries@.len(),
                request_entries_error(self@, entries@.subrange(0, i as int)) is None,
            decreases entries@.len() - i,
        {
            let ghost next = entries@.subrange(0, i + 1);
            assert(next.drop_last() == entries@.subrange(0, i as int));
            assert(next.last() == entries@[i as int]);
            let entry = entries[i];
            if !self.whitelisted.contains_key(&entry.asset) {
                proof {
                    lemma_request_entries_prefix_error(self@, entries@, i + 1);
                }
                return Err(LendingError::CollateralNotWhitelisted);
            }
            if entry.amount <= 0 {
                proof {
                    lemma_request_entries_prefix_error(self@, entries@, i + 1);
                }
                return Err(LendingError::CollateralEntryNotPositive);
            }
            i = i + 1;
        }
        assert(entries@.subrange(0, entries@.len() as int) == entries@);
        Ok(())
    }

    /// A borrower's loan request. `interest_rate_bps` and `max_loan_amount`
    /// come from the borrower's reputation; the request's collateral must
    /// give enough borrowing power for the amount. The loan starts Pending
    /// with the contract itself as placeholder lender, owes principal plus
    /// simple interest, and accrues the platform fee (a share of the
    /// interest) to the uncollected fees. Answers the new loan's id.
    pub fn create_loan_request(&mut self, borrower: AccountId, request: LoanRequestInput, now: u64) -> (r: Result<u32, LendingError>)
        requires
            old(self).wf(),
        ensures
            final(self).wf(),
            match create_loan_outcome(old(self)@, borrower, request, now) {
                Ok((post, id)) => r == Ok::<u32, LendingError>(id) && final(self)@ == post,
                Err(e) => r == Err::<u32, LendingError>(e) && final(self)@ == old(self)@,
            },
    {
        self.assert_not_paused()?;
        let amount = request.amount;
        let duration_days = request.duration_days;
        let interest_rate_bps = request.interest_rate_bps;
        if amount <= 0 {
            return Err(LendingError::LoanAmountNotPositive);
        }
        if amount < MIN_BORROW_AMOUNT {
            return Err(LendingError::BelowMinimumBorrow);
        }
        if amount > request.max_loan_amount {
            return Err(LendingError::ExceedsReputationLimit);
        }
        if duration_days == 0 || duration_days > 365 {
            return Err(LendingError::InvalidDuration);
        }
        if request.reputation_tier > 4 {
            return Err(LendingError::InvalidReputationTier);
        }
        if request.collateral_entries.len() == 0 {
            return Err(LendingError::NoCollateralProvided);
        }
        self.check_request_entries(&request.collateral_entries)?;
        let borrowing_power = self.compute_borrowing_power_from_entries(&request.collateral_entries)?;
        if borrowing_power < amount {
            return Err(LendingError::InsufficientBorrowingPower { power: borrowing_power, amount });
        }
        let interest = Self::calculate_interest(amount, interest_rate_bps, duration_days)?;
        let platform_fee = bps_share(interest, self.platform_fee_bps)?;
        let ghost g_interest = interest as int;
        let ghost g_fee = platform_fee as int;
        let total_due = match amount.checked_add(interest) {
            Some(t) => t,
            None => {
                return Err(LendingError::ArithmeticOverflow);
            },
        };
        if self.loan_count == u32::MAX {
            return Err(LendingError::ArithmeticOverflow);
        }
        let loan_id = self.loan_count + 1;
        let duration_secs: u64 = (duration_days as u64) * 86_400;
        let due_at = match now.checked_add(duration_secs) {
            Some(d) => d,
            None => {
                return Err(LendingError::ArithmeticOverflow);
            },
        };
        let new_fees = match self.uncollected_fees.checked_add(platform_fee) {
            Some(f) => f,
            None => {
                return Err(LendingError::ArithmeticOverflow);
            },
        };
        if self.get_borrower_loan_count(borrower) == u32::MAX {
            return Err(LendingError::ArithmeticOverflow);
        }
        let loan = LoanRecord {
            id: loan_id,
            borrower,
            lender: self.contract_address,
            amount,
            duration_days,
            interest_rate_bps,
            total_due,
            remaining_due: total_due,
            created_at: now,
            due_at,
            status: LoanStatus::Pending,
            escrow_id: 0,
            platform_fee,
            rate_model: request.rate_model,
            base_rate_bps: interest_rate_bps,
            last_rate_update: now,
        };
        assert(loan == requested_loan(old(self)@, borrower, request, now, g_interest, g_fee));
        let ghost pre = self@;
        self.loans.push(loan);
        self.loan_tiers.push(request.reputation_tier);
        self.rate_switched_at.push(0);
        self.payments.push(Vec::new());
        proof {
            assert(self@.payments =~= pre.payments.push(Seq::<PaymentRecord>::empty()));
        }
        self.loan_count = loan_id;
        self.uncollected_fees = new_fees;
        proof {
            assert(forall|i: int| 0 <= i < self.loans@.len() ==> #[trigger] self.loans@[i].id == i + 1);
        }
        self.store_borrower_loan_id(borrower, loan_id);
        proof {
            assert(self@ =~= with_new_loan(pre, borrower, loan, request.reputation_tier, g_fee));
        }
        Ok(loan_id)
    }

    /// A lender approves a pending loan, recording itself as lender and the
    /// escrow id; the loan joins the lender's list.
    pub fn approve_loan(&mut self, lender: AccountId, loan_id: u32, escrow_id: u32) -> (r: Result<(), LendingError>)
        requires
            old(self).wf(),
        ensures
            final(self).wf(),
            match approve_outcome(old(self)@, lender, loan_id, escrow_id) {
                Ok(post) => r == Ok::<(), LendingError>(()) && final(self)@ == post,
                Err(e) => r == Err::<(), LendingError>(e) && final(self)@ == old(self)@,
            },
    {
        self.assert_not_paused()?;
        let mut loan = self.get_loan(loan_id)?;
        if loan.status != LoanStatus::Pending {
            return Err(LendingError::LoanNotPending);
        }
        if self.get_lender_loan_count(lender) == u32::MAX {
            return Err(LendingError::ArithmeticOverflow);
        }
        loan.lender = lender;
        loan.escrow_id = escrow_id;
        loan.status = LoanStatus::Approved;
        self.loans.set((loan_id - 1) as usize, loan);
        self.push_loan_id_for_lender(lender, loan_id);
        Ok(())
    }

    /// The lender takes back its approval: the loan is Pending again, with
    /// the contract as placeholder lender and no escrow.
    pub fn revoke_approval(&mut self, lender: AccountId, loan_id: u32) -> (r: Result<(), LendingError>)
        requires
            old(self).wf(),
        ensures
            final(self).wf(),
            match revoke_outcome(old(self)@, lender, loan_id) {
                Ok(post) => r == Ok::<(), LendingError>(()) && final(self)@ == post,
                Err(e) => r == Err::<(), LendingError>(e) && final(self)@ == old(self)@,
            },
    {
        let mut loan = self.get_loan(loan_id)?;
        if loan.lender != lender {
            return Err(LendingError::NotLender);
        }
        if loan.status != LoanStatus::Approved {
            return Err(LendingError::LoanNotApproved);
        }
        loan.status = LoanStatus::Pending;
        loan.lender = self.contract_address;
        loan.escrow_id = 0;
        self.loans.set((loan_id - 1) as usize, loan);
        Ok(())
    }

    /// An admin activates an approved loan once the escrow disbursement is
    /// confirmed. Answers the referral bonus claim to send, if a referral
    /// contract is set; its outcome never affects the activation.
    pub fn activate_loan(&mut self, caller: AccountId, loan_id: u32) -> (r: Result<Option<ReferralBonusCall>, LendingError>)
        requires
            old(self).wf(),
        ensures
            final(self).wf(),
            match activate_outcome(old(self)@, caller, loan_id) {
                Ok((post, call)) => r == Ok::<Option<ReferralBonusCall>, LendingError>(call) && final(self)@ == post,
                Err(e) => r == Err::<Option<ReferralBonusCall>, LendingError>(e) && final(self)@ == old(self)@,
            },
    {
        self.assert_admin(&caller)?;
        self.assert_not_paused()?;
        let mut loan = self.get_loan(loan_id)?;
        if loan.status != LoanStatus::Approved {
            return Err(LendingError::LoanNotApproved);
        }
        loan.status = LoanStatus::Active;
        self.loans.set((loan_id - 1) as usize, loan);
        match self.referral_contract {
            Some(c) => Ok(Some(ReferralBonusCall { referral_contract: c, borrower: loan.borrower, loan_amount: loan.amount })),
            None => Ok(None),
        }
    }

    /// An admin records a (partial or full) payment on an active loan, made
    /// at `now` (see `record_payment_outcome`).
    pub fn record_payment(&mut self, caller: AccountId, loan_id: u32, amount: i128, now: u64) -> (r: Result<PaymentOutcome, LendingError>)
        requires
            old(self).wf(),
        ensures
            final(self).wf(),
            match record_payment_outcome(old(self)@, caller, loan_id, amount, now) {
                Ok((post, outcome)) => r == Ok::<PaymentOutcome, LendingError>(outcome) && final(self)@ == post,
                Err(e) => r == Err::<PaymentOutcome, LendingError>(e) && final(self)@ == old(self)@,
            },
    {
        self.assert_admin(&caller)?;
        let mut loan = self.get_loan(loan_id)?;
        if loan.status != LoanStatus::Active {
            return Err(LendingError::LoanNotActive);
        }
        if amount <= 0 {
            return Err(LendingError::PaymentAmountNotPositive);
        }
        let index = (loan_id - 1) as usize;
        if self.payments[index].len() >= u32::MAX as usize {
            return Err(LendingError::ArithmeticOverflow);
        }
        let payment = PaymentRecord { loan_id, amount, paid_at: now };
        let ghost pre = self@;
        let mut loan_payments = self.payments.remove(index);
        loan_payments.push(payment);
        self.payments.insert(index, loan_payments);
        proof {
            assert(self@.payments =~= pre.payments.update(index as int, pre.payments[index as int].push(payment)));
        }
        let mut loyalty_reward: Option<LoyaltyRewardCall> = None;
        if amount >= loan.remaining_due {
            loan.remaining_due = 0;
            loan.status = LoanStatus::Repaid;
            if now <= loan.due_at {
                match self.loyalty_contract {
                    Some(c) => {
                        loyalty_reward = Some(LoyaltyRewardCall {
                            loyalty_contract: c,
                            borrower: loan.borrower,
                            loan_amount: loan.amount,
                            duration_days: loan.duration_days,
                            reputation_tier: self.loan_tiers[index],
                        });
                    },
                    None => {},
                }
            }
        } else {
            loan.remaining_due = loan.remaining_due - amount;
        }
        self.loans.set(index, loan);
        Ok(PaymentOutcome { status: loan.status, loyalty_reward })
    }

    /// An admin marks an active loan as defaulted.
    pub fn mark_defaulted(&mut self, caller: AccountId, loan_id: u32) -> (r: Result<(), LendingError>)
        requires
            old(self).wf(),
        ensures
            final(self).wf(),
            match mark_defaulted_outcome(old(self)@, caller, loan_id) {
                Ok(post) => r == Ok::<(), LendingError>(()) && final(self)@ == post,
                Err(e) => r == Err::<(), LendingError>(e) && final(self)@ == old(self)@,
            },
    {
        self.assert_admin(&caller)?;
        self.assert_not_paused()?;
        let mut loan = self.get_loan(loan_id)?;
        if loan.status != LoanStatus::Active {
            return Err(LendingError::LoanNotActive);
        }
        loan.status = LoanStatus::Defaulted;
        self.loans.set((loan_id - 1) as usize, loan);
        Ok(())
    }

    /// The borrower switches an active loan between the Fixed and Floating
    /// rate models at `now` (see `switch_rate_outcome`). Answers the fee.
    pub fn switch_rate_model(&mut self, borrower: AccountId, loan_id: u32, now: u64) -> (r: Result<i128, LendingError>)
        requires
            old(self).wf(),
        ensures
            final(self).wf(),
            match switch_rate_outcome(old(self)@, borrower, loan_id, now) {
                Ok((post, fee)) => r == Ok::<i128, LendingError>(fee) && final(self)@ == post,
                Err(e) => r == Err::<i128, LendingError>(e) && final(self)@ == old(self)@,
            },
    {
        let mut loan = self.get_loan(loan_id)?;
        if loan.borrower != borrower {
            return Err(LendingError::NotBorrower);
        }
        if loan.status != LoanStatus::Active {
            return Err(LendingError::LoanNotActive);
        }
        let index = (loan_id - 1) as usize;
        let last_switch = self.rate_switched_at[index];
        if last_switch > 0 {
            if now < last_switch {
                return Err(LendingError::ArithmeticOverflow);
            }
            if now - last_switch < RATE_SWITCH_COOLDOWN_SECS {
                return Err(LendingError::RateSwitchCooldown);
            }
        }
        let fee = bps_share(loan.remaining_due, RATE_SWITCH_FEE_BPS)?;
        let remaining_due = match loan.remaining_due.checked_add(fee) {
            Some(x) => x,
            None => {
                return Err(LendingError::ArithmeticOverflow);
            },
        };
        let total_due = match loan.total_due.checked_add(fee) {
            Some(x) => x,
            None => {
                return Err(LendingError::ArithmeticOverflow);
            },
        };
        loan.remaining_due = remaining_due;
        loan.total_due = total_due;
        loan.rate_model = match loan.rate_model {
            InterestRateModel::Fixed => InterestRateModel::Floating,
            InterestRateModel::Floating => InterestRateModel::Fixed,
        };
        loan.last_rate_update = now;
        self.loans.set(index, loan);
        self.rate_switched_at.set(index, now);
        Ok(fee)
    }

    /// An admin sets a new rate on an active floating-rate loan at `now`
    /// (see `update_rate_outcome`). Answers the new remaining balance.
    pub fn update_floating_rate(&mut self, caller: AccountId, loan_id: u32, new_rate_bps: u32, now: u64) -> (r: Result<i128, LendingError>)
        requires
            old(self).wf(),
        ensures
            final(self).wf(),
            match update_rate_outcome(old(self)@, caller, loan_id, new_rate_bps, now) {
                Ok((post, remaining)) => r == Ok::<i128, LendingError>(remaining) && final(self)@ == post,
                Err(e) => r == Err::<i128, LendingError>(e) && final(self)@ == old(self)@,
            },
    {
        self.assert_admin(&caller)?;
        let mut loan = self.get_loan(loan_id)?;
        if loan.rate_model != InterestRateModel::Floating {
            return Err(LendingError::NotFloatingRate);
        }
        if loan.status != LoanStatus::Active {
            return Err(LendingError::LoanNotActive);
        }
        let remaining_secs: u64 = if loan.due_at > now {
            loan.due_at - now
        } else {
            0
        };
        let days: u32 = (remaining_secs / 86_400) as u32;
        assert(days == remaining_days(loan.due_at, now));
        let paid_so_far = match loan.total_due.checked_sub(loan.remaining_due) {
            Some(x) => x,
            None => {
                return Err(LendingError::ArithmeticOverflow);
            },
        };
        let remaining_principal: i128 = if loan.remaining_due > 0 {
            loan.amount
        } else {
            0
        };
        let new_interest = Self::calculate_interest(remaining_principal, new_rate_bps, days)?;
        let new_total_due = match loan.amount.checked_add(new_interest) {
            Some(x) => x,
            None => {
                return Err(LendingError::ArithmeticOverflow);
            },
        };
        let new_remaining = match new_total_due.checked_sub(paid_so_far) {
            Some(x) => x,
            None => {
                return Err(LendingError::ArithmeticOverflow);
            },
        };
        loan.total_due = new_total_due;
        loan.remaining_due = new_remaining;
        loan.interest_rate_bps = new_rate_bps;
        loan.last_rate_update = now;
        self.loans.set((loan_id - 1) as usize, loan);
        Ok(new_remaining)
    }

    // ── Loan queries ────────────────────────────────────────────────────────

    /// The id of the most recently created loan.
    pub fn get_loan_count(&self) -> (r: u32)
        ensures
            r == self@.loan_count,
    {
        self.loan_count
    }

    /// The minimum allowed borrow amount in stroops.
    pub fn get_min_borrow_amount() -> (r: i128)
        ensures
            r == MIN_BORROW_AMOUNT,
    {
        MIN_BORROW_AMOUNT
    }

    /// Whether the loan is active and its deadline has passed at `now`.
    pub fn is_overdue(&self, loan_id: u32, now: u64) -> (r: Result<bool, LendingError>)
        requires
            self.wf(),
        ensures
            r == match loan_of(self@, loan_id) {
                Some(l) => Ok::<bool, LendingError>(l.status == LoanStatus::Active && now > l.due_at),
                None => Err(LendingError::LoanNotFound),
            },
    {
        let loan = self.get_loan(loan_id)?;
        Ok(loan.status == LoanStatus::Active && now > loan.due_at)
    }

    /// Whole days the loan is overdue at `now` (0 if it is not overdue).
    pub fn days_overdue(&self, loan_id: u32, now: u64) -> (r: Result<u64, LendingError>)
        requires
            self.wf(),
        ensures
            r == match loan_of(self@, loan_id) {
                Some(l) => Ok::<u64, LendingError>(
                    if l.status == LoanStatus::Active && now > l.due_at {
                        ((now - l.due_at) / 86_400) as u64
                    } else {
                        0
                    },
                ),
                None => Err(LendingError::LoanNotFound),
            },
    {
        let loan = self.get_loan(loan_id)?;
        if loan.status == LoanStatus::Active && now > loan.due_at {
            Ok((now - loan.due_at) / 86_400)
        } else {
            Ok(0)
        }
    }

    /// Number of payments recorded for a loan.
    pub fn get_payment_count(&self, loan_id: u32) -> (r: u32)
        requires
            self.wf(),
        ensures
            r == payment_count_of(self@, loan_id),
    {
        if loan_id >= 1 && (loan_id as usize) <= self.payments.len() {
            self.payments[(loan_id - 1) as usize].len() as u32
        } else {
            0
        }
    }

    /// Payment number `payment_index` (1-based) of a loan.
    pub fn get_payment(&self, loan_id: u32, payment_index: u32) -> (r: Result<PaymentRecord, LendingError>)
        requires
            self.wf(),
        ensures
            1 <= payment_index <= payment_count_of(self@, loan_id) ==> r == Ok::<PaymentRecord, LendingError>(
                self@.payments[loan_id - 1][payment_index - 1],
            ),
            !(1 <= payment_index <= payment_count_of(self@, loan_id)) ==> r == Err::<PaymentRecord, LendingError>(
                LendingError::PaymentNotFound,
            ),
    {
        if loan_id >= 1 && (loan_id as usize) <= self.payments.len() {
            let list = &self.payments[(loan_id - 1) as usize];
            if payment_index >= 1 && (payment_index as usize) <= list.len() {
                return Ok(list[(payment_index - 1) as usize]);
            }
        }
        Err(LendingError::PaymentNotFound)
    }

    // ── Keeping the state between calls ─────────────────────────────────────

    /// The state as plain values, for keeping in ledger storage.
    pub fn into_stored(self) -> (r: StoredState)
        requires
            self.wf(),
        ensures
            stored_ok(r),
            stored_view(r) == self@,
    {
        let ghost v = self@;
        let whitelisted = self.whitelisted.keys();
        let pause_signers = self.pause_signers.keys();
        let unpause_signers = self.unpause_signers.keys();
        let r = StoredState {
            contract_address: self.contract_address,
            admin: self.admin,
            loan_count: self.loan_count,
            loans: self.loans,
            loan_tiers: self.loan_tiers,
            rate_switched_at: self.rate_switched_at,
            payments: self.payments,
            borrower_loans: self.borrower_loans.into_entries(),
            lender_loans: self.lender_loans.into_entries(),
            platform_fee_bps: self.platform_fee_bps,
            governance: self.governance,
            whitelisted,
            multisig_link: self.multisig_link,
            multisig_admins: self.multisig_admins,
            multisig_threshold: self.multisig_threshold,
            paused: self.paused,
            pause_signers,
            pause_signer_count: self.pause_signer_count,
            unpause_signers,
            unpause_signer_count: self.unpause_signer_count,
            flash_loan_fee_bps: self.flash_loan_fee_bps,
            uncollected_fees: self.uncollected_fees,
            collateral_configs: self.collateral_configs.into_entries(),
            user_collateral: self.user_collateral.into_entries(),
            price_oracle: self.price_oracle,
            oracle_samples: self.oracle_samples.into_entries(),
            twap_prices: self.twap_prices.into_entries(),
            loyalty_contract: self.loyalty_contract,
            referral_contract: self.referral_contract,
        };
        assert(stored_view(r).whitelisted =~= v.whitelisted);
        assert(stored_view(r).pause_signers =~= v.pause_signers);
        assert(stored_view(r).unpause_signers =~= v.unpause_signers);
        assert(stored_view(r) =~= v);
        r
    }

    /// The checks of `view_ok` that do not look into the keyed collections.
    fn plain_parts_ok(&self) -> (r: bool)
        requires
            self.maps_wf(),
        ensures
            r == core_ok(self@),
    {
        let n = self.loans.len();
        if self.loan_tiers.len() != n || self.rate_switched_at.len() != n || self.payments.len() != n {
            return false;
        }
        if self.loan_count as usize != n {
            return false;
        }
        if self.admin.is_none() {
            if self.multisig_admins.len() != 0 || n != 0 {
                return false;
            }
            if !self.whitelisted.is_empty() {
                let ghost k = choose|k: AccountId| self.whitelisted.view().contains_key(k);
                assert(self@.whitelisted.contains(k));
                return false;
            }
        }
        if self.platform_fee_bps > MAX_PLATFORM_FEE_BPS || self.flash_loan_fee_bps > MAX_FLASH_LOAN_FEE_BPS {
            return false;
        }
        if self.paused {
            if self.pause_signer_count != 0 {
                return false;
            }
            if !self.pause_signers.is_empty() {
                let ghost k = choose|k: AccountId| self.pause_signers.view().contains_key(k);
                assert(self@.pause_signers.contains(k));
                return false;
            }
        } else {
            if self.unpause_signer_count != 0 {
                return false;
            }
            if !self.unpause_signers.is_empty() {
                let ghost k = choose|k: AccountId| self.unpause_signers.view().contains_key(k);
                assert(self@.unpause_signers.contains(k));
                return false;
            }
        }
        let mut i: usize = 0;
        while i < n
            invariant
                n == self.loans@.len(),
                n == self.payments@.len(),
                i <= n,
                forall|j: int| 0 <= j < i ==> #[trigger] self.loans@[j].id == j + 1,
                forall|j: int|
                    0 <= j < i && #[trigger] self.loans@[j].status == LoanStatus::Pending ==> self.loans@[j].lender
                        == self.contract_address && self.loans@[j].escrow_id == 0,
                forall|j: int| 0 <= j < i ==> #[trigger] self.payments@[j]@.len() <= u32::MAX,
            decreases n - i,
        {
            let loan = self.loans[i];
            if loan.status == LoanStatus::Pending && (loan.lender != self.contract_address || loan.escrow_id != 0) {
                assert(self@.loans[i as int].status == LoanStatus::Pending);
                return false;
            }
            if self.loans[i].id as usize != i + 1 {
                assert(self@.loans[i as int].id != i + 1);
                return false;
            }
            if self.payments[i].len() > u32::MAX as usize {
                assert(self@.payments[i as int].len() > u32::MAX);
                return false;
            }
            i = i + 1;
        }
        true
    }

    /// Resumes from a stored state; rejected as `CorruptState` unless it is
    /// one the contract can have written (`stored_ok`).
    pub fn restore(stored: StoredState) -> (r: Result<Self, LendingError>)
        ensures
            r is Ok <==> stored_ok(stored),
            r matches Ok(c) ==> c.wf() && c@ == stored_view(stored),
            r matches Err(e) ==> e == LendingError::CorruptState,
    {
        let ghost sv = stored_view(stored);
        let ghost count_fits = |l: Vec<u32>| l@.len() <= u32::MAX;
        let ghost bounded = |c: AssetCollateralConfig| config_in_bounds(c);
        let ghost position = |p: Vec<CollateralEntry>| collateral_position_ok(p@) && p@.len() > 0;
        proof {
            if distinct_keys(stored.borrower_loans@) {
                lemma_entry_values(stored.borrower_loans@, count_fits);
            }
            if distinct_keys(stored.lender_loans@) {
                lemma_entry_values(stored.lender_loans@, count_fits);
            }
            if distinct_keys(stored.collateral_configs@) {
                lemma_entry_values(stored.collateral_configs@, bounded);
            }
            if distinct_keys(stored.user_collateral@) {
                lemma_entry_values(stored.user_collateral@, position);
            }
        }
        let values_ok = lists_fit_u32(&stored.borrower_loans) && lists_fit_u32(&stored.lender_loans)
            && configs_within_bounds(&stored.collateral_configs) && positions_valid(&stored.user_collateral);
        let indexes_ok = ids_name_loans(&stored.borrower_loans, &stored.loans, true) && ids_name_loans(
            &stored.lender_loans,
            &stored.loans,
            false,
        );
        proof {
            if distinct_keys(stored.borrower_loans@) {
                lemma_entries_name_loans(stored.borrower_loans@, stored.loans@, true);
            }
            if distinct_keys(stored.lender_loans@) {
                lemma_entries_name_loans(stored.lender_loans@, stored.loans@, false);
            }
            assert(distinct_keys(stored.borrower_loans@) && distinct_keys(stored.lender_loans@) ==> (indexes_ok
                == loan_index_ok(sv)));
        }
        let whitelisted = AccountMap::from_keys(&stored.whitelisted);
        let pause_signers = AccountMap::from_keys(&stored.pause_signers);
        let unpause_signers = AccountMap::from_keys(&stored.unpause_signers);
        let borrower_loans = match AccountMap::from_entries(stored.borrower_loans) {
            Some(m) => m,
            None => {
                return Err(LendingError::CorruptState);
            },
        };
        let lender_loans = match AccountMap::from_entries(stored.lender_loans) {
            Some(m) => m,
            None => {
                return Err(LendingError::CorruptState);
            },
        };
        let collateral_configs = match AccountMap::from_entries(stored.collateral_configs) {
            Some(m) => m,
            None => {
                return Err(LendingError::CorruptState);
            },
        };
        let user_collateral = match AccountMap::from_entries(stored.user_collateral) {
            Some(m) => m,
            None => {
                return Err(LendingError::CorruptState);
            },
        };
        let oracle_samples = match AccountMap::from_entries(stored.oracle_samples) {
            Some(m) => m,
            None => {
                return Err(LendingError::CorruptState);
            },
        };
        let twap_prices = match AccountMap::from_entries(stored.twap_prices) {
            Some(m) => m,
            None => {
                return Err(LendingError::CorruptState);
            },
        };
        let c = LendingContract {
            contract_address: stored.contract_address,
            admin: stored.admin,
            loan_count: stored.loan_count,
            loans: stored.loans,
            loan_tiers: stored.loan_tiers,
            rate_switched_at: stored.rate_switched_at,
            payments: stored.payments,
            borrower_loans,
            lender_loans,
            platform_fee_bps: stored.platform_fee_bps,
            governance: stored.governance,
            whitelisted,
            multisig_link: stored.multisig_link,
            multisig_admins: stored.multisig_admins,
            multisig_threshold: stored.multisig_threshold,
            paused: stored.paused,
            pause_signers,
            pause_signer_count: stored.pause_signer_count,
            unpause_signers,
            unpause_signer_count: stored.unpause_signer_count,
            flash_loan_fee_bps: stored.flash_loan_fee_bps,
            uncollected_fees: stored.uncollected_fees,
            collateral_configs,
            user_collateral,
            price_oracle: stored.price_oracle,
            oracle_samples,
            twap_prices,
            loyalty_contract: stored.loyalty_contract,
            referral_contract: stored.referral_contract,
        };
        assert(c@.whitelisted =~= sv.whitelisted);
        assert(c@.pause_signers =~= sv.pause_signers);
        assert(c@.unpause_signers =~= sv.unpause_signers);
        assert(c@ =~= sv);
        proof {
            let bl = map_of(stored.borrower_loans@);
            let ll = map_of(stored.lender_loans@);
            let cc = map_of(stored.collateral_configs@);
            let uc = map_of(stored.user_collateral@);
            if values_ok && distinct_keys(stored.borrower_loans@) && distinct_keys(stored.lender_loans@)
                && distinct_keys(stored.collateral_configs@) && distinct_keys(stored.user_collateral@) {
                assert forall|b: AccountId| #[trigger] sv.borrower_loans.contains_key(b) implies sv.borrower_loans[b].len()
                    <= u32::MAX by {
                    assert(bl.contains_key(b));
                    assert(count_fits(bl[b]));
                }
                assert forall|b: AccountId| #[trigger] sv.lender_loans.contains_key(b) implies sv.lender_loans[b].len()
                    <= u32::MAX by {
                    assert(ll.contains_key(b));
                    assert(count_fits(ll[b]));
                }
                assert forall|a: AccountId| #[trigger] sv.collateral_configs.contains_key(a) implies config_in_bounds(
                    sv.collateral_configs[a],
                ) by {
                    assert(cc.contains_key(a));
                    assert(bounded(cc[a]));
                }
                assert forall|b: AccountId| #[trigger] sv.user_collateral.contains_key(b) implies collateral_position_ok(
                    sv.user_collateral[b],
                ) && sv.user_collateral[b].len() > 0 by {
                    assert(uc.contains_key(b));
                    assert(position(uc[b]));
                }
            }
            if collections_ok(sv) && distinct_keys(stored.borrower_loans@) && distinct_keys(stored.lender_loans@)
                && distinct_keys(stored.collateral_configs@) && distinct_keys(stored.user_collateral@) {
                assert forall|b: AccountId| #[trigger] bl.contains_key(b) implies count_fits(bl[b]) by {
                    assert(sv.borrower_loans.contains_key(b));
                }
                assert forall|b: AccountId| #[trigger] ll.contains_key(b) implies count_fits(ll[b]) by {
                    assert(sv.lender_loans.contains_key(b));
                }
                assert forall|a: AccountId| #[trigger] cc.contains_key(a) implies bounded(cc[a]) by {
                    assert(sv.collateral_configs.contains_key(a));
                }
                assert forall|b: AccountId| #[trigger] uc.contains_key(b) implies position(uc[b]) by {
                    assert(sv.user_collateral.contains_key(b));
                }
                let bs = stored.borrower_loans@;
                let ls = stored.lender_loans@;
                let cs = stored.collateral_configs@;
                let us = stored.user_collateral@;
                assert forall|i: int| 0 <= i < bs.len() implies #[trigger] bs[i].value@.len() <= u32::MAX by {
                    assert(count_fits(bs[i].value));
                }
                assert forall|i: int| 0 <= i < ls.len() implies #[trigger] ls[i].value@.len() <= u32::MAX by {
                    assert(count_fits(ls[i].value));
                }
                assert forall|i: int| 0 <= i < cs.len() implies config_in_bounds(#[trigger] cs[i].value) by {
                    assert(bounded(cs[i].value));
                }
                assert forall|i: int| 0 <= i < us.len() implies collateral_position_ok(#[trigger] us[i].value@)
                    && us[i].value@.len() > 0 by {
                    assert(position(us[i].value));
                }
            }
        }
        assert(distinct_keys(stored.borrower_loans@) && distinct_keys(stored.lender_loans@)
            && distinct_keys(stored.collateral_configs@) && distinct_keys(stored.user_collateral@)
            ==> (values_ok == collections_ok(sv)));
        if values_ok && indexes_ok && c.plain_parts_ok() {
            Ok(c)
        } else {
            Err(LendingError::CorruptState)
        }
    }
}

/// A copy of a list of collateral entries.
fn copy_entries(entries: &Vec<CollateralEntry>) -> (r: Vec<CollateralEntry>)
    ensures
        r@ == entries@,
{
    let mut out: Vec<CollateralEntry> = Vec::new();
    let mut i: usize = 0;
    while i < entries.len()
        invariant
            i <= entries@.len(),
            out@ == entries@.subrange(0, i as int),
        decreases entries@.len() - i,
    {
        out.push(entries[i]);
        i = i + 1;
    }
    assert(out@ == entries@.subrange(0, entries@.len() as int));
    out
}

/// The first check of a flash loan, made before the pool balance is read:
/// the amount must be positive.
pub fn check_flash_loan_amount(amount: i128) -> (r: Result<(), LendingError>)
    ensures
        r == (if amount <= 0 {
            Err::<(), LendingError>(LendingError::FlashLoanAmountNotPositive)
        } else {
            Ok(())
        }),
{
    if amount <= 0 {
        Err(LendingError::FlashLoanAmountNotPositive)
    } else {
        Ok(())
    }
}

/// Whether a flash loan was repaid: the pool must hold at least the balance
/// the loan's terms require.
pub fn check_flash_loan_repaid(terms: FlashLoanTerms, balance_after: i128) -> (r: Result<(), LendingError>)
    ensures
        r is Ok <==> balance_after >= terms.required_balance,
        r is Err ==> r == Err::<(), LendingError>(LendingError::FlashLoanNotRepaid),
{
    if balance_after < terms.required_balance {
        Err(LendingError::FlashLoanNotRepaid)
    } else {
        Ok(())
    }
}

/// Whether the pool holds enough of a token for a sweep of `amount`.
pub fn check_sweep_balance(amount: i128, balance: i128) -> (r: Result<(), LendingError>)
    ensures
        r is Ok <==> amount <= balance,
        r is Err ==> r == Err::<(), LendingError>(LendingError::InsufficientSweepBalance),
{
    if amount > balance {
        Err(LendingError::InsufficientSweepBalance)
    } else {
        Ok(())
    }
}

} // verus!
