//! Properties of the contract that span calls: multisig voting, the loan
//! lifecycle, the collateral vault, loan creation, payments and rate
//! switches.
use vstd::prelude::*;
use crate::model::{
    activate_outcome, active_debt_of, approve_outcome, asset_price_of, borrower_loan_ids, borrowing_power_of,
    collateral_config_of, collateral_position_ok, collateral_value_of, collect_fees_outcome, config_in_bounds, create_loan_outcome, debt_over, deposit_outcome,
    deposited, entry_power_of, entry_value_of, grown_entry, holds_asset, id_names_loan, initialize_outcome, loan_of,
    mark_defaulted_outcome, pause_outcome, payment_count_of, record_payment_outcome, revoke_outcome,
    set_governance_outcome, set_multisig_admin_outcome, set_platform_fee_outcome, setup_multisig_outcome, short_of,
    switch_rate_outcome, toggled, unpause_outcome, update_rate_outcome, user_entries, view_ok,
    withdraw_outcome, withdrawn, LendingView,
};
use crate::rates::{bps_share_of, fits_i128, interest_of, PRICE_PRECISION, RATE_SWITCH_COOLDOWN_SECS};
use crate::types::{AccountId, CollateralEntry, LendingError, LoanRequestInput, LoanStatus, PaymentRecord};

verus! {

// ── Multisig voting ─────────────────────────────────────────────────────────

/// Pause votes by `callers`, in order.
pub open spec fn pause_votes(v: LendingView, callers: Seq<AccountId>) -> Result<LendingView, LendingError>
    decreases callers.len(),
{
    if callers.len() == 0 {
        Ok(v)
    } else {
        match pause_votes(v, callers.drop_last()) {
            Err(e) => Err(e),
            Ok(w) => match pause_outcome(w, callers.last()) {
                Err(e) => Err(e),
                Ok((w2, _)) => Ok(w2),
            },
        }
    }
}

/// Unpause votes by `callers`, in order.
pub open spec fn unpause_votes(v: LendingView, callers: Seq<AccountId>) -> Result<LendingView, LendingError>
    decreases callers.len(),
{
    if callers.len() == 0 {
        Ok(v)
    } else {
        match unpause_votes(v, callers.drop_last()) {
            Err(e) => Err(e),
            Ok(w) => match unpause_outcome(w, callers.last()) {
                Err(e) => Err(e),
                Ok((w2, _)) => Ok(w2),
            },
        }
    }
}

/// `callers` are distinct multisig admins that have not voted yet.
pub open spec fn fresh_voters(admins: Seq<AccountId>, voted: Set<AccountId>, callers: Seq<AccountId>) -> bool {
    &&& forall|i: int, j: int| 0 <= i < j < callers.len() ==> callers[i] != callers[j]
    &&& forall|i: int| 0 <= i < callers.len() ==> admins.contains(#[trigger] callers[i])
    &&& forall|i: int| 0 <= i < callers.len() ==> !voted.contains(#[trigger] callers[i])
}

proof fn lemma_pause_votes_progress(v: LendingView, callers: Seq<AccountId>)
    requires
        !v.paused,
        v.pause_signer_count == 0,
        1 <= v.multisig_threshold,
        callers.len() <= v.multisig_threshold,
        fresh_voters(v.multisig_admins, v.pause_signers, callers),
    ensures
        pause_votes(v, callers) is Ok,
        pause_votes(v, callers) matches Ok(w) && w.multisig_admins == v.multisig_admins
            && w.multisig_threshold == v.multisig_threshold
            && (callers.len() < v.multisig_threshold ==> !w.paused && w.pause_signer_count == callers.len()
                && forall|c: AccountId| #[trigger] w.pause_signers.contains(c) ==> v.pause_signers.contains(c)
                    || callers.contains(c))
            && (callers.len() == v.multisig_threshold ==> w.paused),
    decreases callers.len(),
{
    if callers.len() > 0 {
        let pre = callers.drop_last();
        let c = callers.last();
        assert(fresh_voters(v.multisig_admins, v.pause_signers, pre)) by {
            assert forall|i: int| 0 <= i < pre.len() implies v.multisig_admins.contains(#[trigger] pre[i]) by {
                assert(pre[i] == callers[i]);
            }
            assert forall|i: int| 0 <= i < pre.len() implies !v.pause_signers.contains(#[trigger] pre[i]) by {
                assert(pre[i] == callers[i]);
            }
        }
        lemma_pause_votes_progress(v, pre);
        let w = pause_votes(v, pre).unwrap();
        assert(v.multisig_admins.contains(callers[callers.len() - 1]));
        assert(!w.pause_signers.contains(c)) by {
            if w.pause_signers.contains(c) {
                assert(!v.pause_signers.contains(callers[callers.len() - 1]));
                let j = choose|j: int| 0 <= j < pre.len() && pre[j] == c;
                assert(callers[j] == callers[callers.len() - 1]);
            }
        }
        let w2 = pause_outcome(w, c).unwrap().0;
        assert forall|d: AccountId| #[trigger] w2.pause_signers.contains(d) implies v.pause_signers.contains(d)
            || callers.contains(d) by {
            if d == c {
                assert(callers[callers.len() - 1] == d);
            } else {
                assert(w.pause_signers.contains(d));
                if pre.contains(d) {
                    let j = choose|j: int| 0 <= j < pre.len() && pre[j] == d;
                    assert(callers[j] == d);
                }
            }
        }
    }
}

/// Law: the contract pauses after exactly `multisig_threshold` pause votes
/// by distinct multisig admins who have not voted before; fewer votes leave
/// it running.
pub proof fn law_pause_needs_threshold_votes(v: LendingView, callers: Seq<AccountId>)
    requires
        !v.paused,
        v.pause_signer_count == 0,
        1 <= v.multisig_threshold,
        callers.len() <= v.multisig_threshold,
        fresh_voters(v.multisig_admins, v.pause_signers, callers),
    ensures
        pause_votes(v, callers) is Ok,
        pause_votes(v, callers).unwrap().paused <==> callers.len() == v.multisig_threshold,
{
    lemma_pause_votes_progress(v, callers);
}

proof fn lemma_unpause_votes_progress(v: LendingView, callers: Seq<AccountId>)
    requires
        v.paused,
        v.unpause_signer_count == 0,
        1 <= v.multisig_threshold,
        callers.len() <= v.multisig_threshold,
        fresh_voters(v.multisig_admins, v.unpause_signers, callers),
    ensures
        unpause_votes(v, callers) is Ok,
        unpause_votes(v, callers) matches Ok(w) && w.multisig_admins == v.multisig_admins
            && w.multisig_threshold == v.multisig_threshold
            && (callers.len() < v.multisig_threshold ==> w.paused && w.unpause_signer_count == callers.len()
                && forall|c: AccountId| #[trigger] w.unpause_signers.contains(c) ==> v.unpause_signers.contains(c)
                    || callers.contains(c))
            && (callers.len() == v.multisig_threshold ==> !w.paused),
    decreases callers.len(),
{
    if callers.len() > 0 {
        let pre = callers.drop_last();
        let c = callers.last();
        assert(fresh_voters(v.multisig_admins, v.unpause_signers, pre)) by {
            assert forall|i: int| 0 <= i < pre.len() implies v.multisig_admins.contains(#[trigger] pre[i]) by {
                assert(pre[i] == callers[i]);
            }
            assert forall|i: int| 0 <= i < pre.len() implies !v.unpause_signers.contains(#[trigger] pre[i]) by {
                assert(pre[i] == callers[i]);
            }
        }
        lemma_unpause_votes_progress(v, pre);
        let w = unpause_votes(v, pre).unwrap();
        assert(v.multisig_admins.contains(callers[callers.len() - 1]));
        assert(!w.unpause_signers.contains(c)) by {
            if w.unpause_signers.contains(c) {
                assert(!v.unpause_signers.contains(callers[callers.len() - 1]));
                let j = choose|j: int| 0 <= j < pre.len() && pre[j] == c;
                assert(callers[j] == callers[callers.len() - 1]);
            }
        }
        let w2 = unpause_outcome(w, c).unwrap().0;
        assert forall|d: AccountId| #[trigger] w2.unpause_signers.contains(d) implies v.unpause_signers.contains(d)
            || callers.contains(d) by {
            if d == c {
                assert(callers[callers.len() - 1] == d);
            } else {
                assert(w.unpause_signers.contains(d));
                if pre.contains(d) {
                    let j = choose|j: int| 0 <= j < pre.len() && pre[j] == d;
                    assert(callers[j] == d);
                }
            }
        }
    }
}

/// Law: the contract unpauses after exactly `multisig_threshold` unpause
/// votes by distinct multisig admins who have not voted before; fewer votes
/// leave it paused.
pub proof fn law_unpause_needs_threshold_votes(v: LendingView, callers: Seq<AccountId>)
    requires
        v.paused,
        v.unpause_signer_count == 0,
        1 <= v.multisig_threshold,
        callers.len() <= v.multisig_threshold,
        fresh_voters(v.multisig_admins, v.unpause_signers, callers),
    ensures
        unpause_votes(v, callers) is Ok,
        !unpause_votes(v, callers).unwrap().paused <==> callers.len() == v.multisig_threshold,
{
    lemma_unpause_votes_progress(v, callers);
}

proof fn lemma_pause_votes_shape(v: LendingView, callers: Seq<AccountId>)
    ensures
        pause_votes(v, callers) matches Ok(w) ==> w.multisig_admins == v.multisig_admins
            && w.unpause_signers == v.unpause_signers && w.unpause_signer_count == v.unpause_signer_count
            && (w.paused ==> v.paused || (w.pause_signers == Set::<AccountId>::empty() && w.pause_signer_count == 0)),
    decreases callers.len(),
{
    if callers.len() > 0 {
        lemma_pause_votes_shape(v, callers.drop_last());
    }
}

proof fn lemma_unpause_votes_shape(v: LendingView, callers: Seq<AccountId>)
    ensures
        unpause_votes(v, callers) matches Ok(w) ==> w.multisig_admins == v.multisig_admins
            && w.pause_signers == v.pause_signers && w.pause_signer_count == v.pause_signer_count
            && (!w.paused ==> !v.paused || (w.unpause_signers == Set::<AccountId>::empty()
                && w.unpause_signer_count == 0)),
    decreases callers.len(),
{
    if callers.len() > 0 {
        lemma_unpause_votes_shape(v, callers.drop_last());
    }
}

/// Law: signer tracking is reset for the next cycle. Once pause votes have
/// paused a running contract, every multisig admin may vote to unpause; and
/// once unpause votes have then unpaused it, every multisig admin may vote to
/// pause again, and that vote counts as the first of the new cycle.
pub proof fn law_vote_tracking_resets(
    v: LendingView,
    pause_callers: Seq<AccountId>,
    unpause_callers: Seq<AccountId>,
    admin: AccountId,
)
    requires
        view_ok(v),
        !v.paused,
        pause_votes(v, pause_callers) matches Ok(w) && w.paused,
        v.multisig_admins.contains(admin),
    ensures
        unpause_outcome(pause_votes(v, pause_callers).unwrap(), admin) is Ok,
        unpause_votes(pause_votes(v, pause_callers).unwrap(), unpause_callers) matches Ok(x) ==> (!x.paused
            ==> (pause_outcome(x, admin) matches Ok((y, paused_now)) && (paused_now || y.pause_signer_count == 1))),
{
    lemma_pause_votes_shape(v, pause_callers);
    let w = pause_votes(v, pause_callers).unwrap();
    assert(!w.unpause_signers.contains(admin));
    lemma_unpause_votes_shape(w, unpause_callers);
}

/// Law: an admin's pause vote counts once; voting again is rejected.
pub proof fn law_pause_vote_counts_once(v: LendingView, caller: AccountId)
    requires
        pause_outcome(v, caller) is Ok,
    ensures
        pause_outcome(pause_outcome(v, caller).unwrap().0, caller) is Err,
{
}

/// Law: an admin's unpause vote counts once; voting again is rejected.
pub proof fn law_unpause_vote_counts_once(v: LendingView, caller: AccountId)
    requires
        unpause_outcome(v, caller) is Ok,
    ensures
        unpause_outcome(unpause_outcome(v, caller).unwrap().0, caller) is Err,
{
}

/// Law: the contract can be initialised only once.
pub proof fn law_initialize_once(v: LendingView, admin: AccountId, other: AccountId)
    requires
        initialize_outcome(v, admin) is Ok,
    ensures
        initialize_outcome(initialize_outcome(v, admin).unwrap(), other) == Err::<LendingView, LendingError>(
            LendingError::AlreadyInitialized,
        ),
{
}

/// Law: after a multisig setup the caller is among the multisig admins, and
/// the threshold can be met by the admins listed.
pub proof fn law_setup_includes_caller(v: LendingView, admin: AccountId, admins: Seq<AccountId>, threshold: u32)
    requires
        setup_multisig_outcome(v, admin, admins, threshold) is Ok,
    ensures
        setup_multisig_outcome(v, admin, admins, threshold).unwrap().multisig_admins.contains(admin),
        1 <= threshold <= setup_multisig_outcome(v, admin, admins, threshold).unwrap().multisig_admins.len(),
{
    let w = setup_multisig_outcome(v, admin, admins, threshold).unwrap();
    if !admins.contains(admin) {
        assert(w.multisig_admins[admins.len() as int] == admin);
    }
}

/// Law: the multisig admin contract can be linked only once.
pub proof fn law_multisig_link_once(v: LendingView, admin: AccountId, multisig: AccountId, caller: AccountId, other: AccountId)
    requires
        set_multisig_admin_outcome(v, admin, multisig) is Ok,
    ensures
        set_multisig_admin_outcome(set_multisig_admin_outcome(v, admin, multisig).unwrap(), caller, other)
            is Err,
{
}

/// Law: fees are handed over once: collecting again right away yields
/// nothing and changes nothing.
pub proof fn law_fees_collected_once(v: LendingView)
    ensures
        collect_fees_outcome(collect_fees_outcome(v).0).1 == 0,
        collect_fees_outcome(collect_fees_outcome(v).0).0 == collect_fees_outcome(v).0,
        collect_fees_outcome(v).0.uncollected_fees <= 0,
{
}

/// Law: the governance contract is linked once; a later link is refused and
/// leaves the governance contract in place.
pub proof fn law_governance_link_once(v: LendingView, caller: AccountId, governance: AccountId, other_caller: AccountId, other: AccountId)
    requires
        set_governance_outcome(v, caller, governance) is Ok,
    ensures
        set_governance_outcome(v, caller, governance).unwrap().governance == Some(governance),
        set_governance_outcome(set_governance_outcome(v, caller, governance).unwrap(), other_caller, other) is Err,
{
}

/// Law: only the linked governance contract changes the platform fee.
pub proof fn law_only_governance_sets_fee(v: LendingView, caller: AccountId, fee: u32)
    requires
        set_platform_fee_outcome(v, caller, fee) is Ok,
    ensures
        v.governance == Some(caller),
        set_platform_fee_outcome(v, caller, fee).unwrap().0.platform_fee_bps == fee,
{
}

// ── Loan lifecycle ──────────────────────────────────────────────────────────

/// The moves a loan's status may make: Pending to Approved, Approved back to
/// Pending, Approved to Active, Active to Repaid or Defaulted, or none.
/// Repaid and Defaulted loans never move.
pub open spec fn lifecycle_step(a: LoanStatus, b: LoanStatus) -> bool {
    ||| a == b
    ||| a == LoanStatus::Pending && b == LoanStatus::Approved
    ||| a == LoanStatus::Approved && b == LoanStatus::Pending
    ||| a == LoanStatus::Approved && b == LoanStatus::Active
    ||| a == LoanStatus::Active && b == LoanStatus::Repaid
    ||| a == LoanStatus::Active && b == LoanStatus::Defaulted
}

/// From `v` to `w`, loan `loan_id` made a lifecycle step and no other loan
/// changed.
pub open spec fn one_loan_stepped(v: LendingView, w: LendingView, loan_id: u32) -> bool {
    &&& w.loans.len() == v.loans.len()
    &&& 1 <= loan_id <= v.loans.len()
    &&& lifecycle_step(v.loans[loan_id - 1].status, w.loans[loan_id - 1].status)
    &&& forall|i: int| 0 <= i < v.loans.len() && i != loan_id - 1 ==> #[trigger] w.loans[i] == v.loans[i]
}

/// Law: approval, revocation, activation, payment, default, rate switch and
/// rate update move only the loan they name, and only along the lifecycle.
pub proof fn law_loan_lifecycle(
    v: LendingView,
    actor: AccountId,
    loan_id: u32,
    escrow_id: u32,
    amount: i128,
    new_rate_bps: u32,
    now: u64,
)
    ensures
        approve_outcome(v, actor, loan_id, escrow_id) matches Ok(w) ==> one_loan_stepped(v, w, loan_id),
        revoke_outcome(v, actor, loan_id) matches Ok(w) ==> one_loan_stepped(v, w, loan_id),
        activate_outcome(v, actor, loan_id) matches Ok((w, _)) ==> one_loan_stepped(v, w, loan_id),
        record_payment_outcome(v, actor, loan_id, amount, now) matches Ok((w, _)) ==> one_loan_stepped(v, w, loan_id),
        mark_defaulted_outcome(v, actor, loan_id) matches Ok(w) ==> one_loan_stepped(v, w, loan_id),
        switch_rate_outcome(v, actor, loan_id, now) matches Ok((w, _)) ==> one_loan_stepped(v, w, loan_id),
        update_rate_outcome(v, actor, loan_id, new_rate_bps, now) matches Ok((w, _)) ==> one_loan_stepped(v, w, loan_id),
{
}

/// Law: a lender's revocation undoes its approval of a loan: the loans are
/// as they were before the approval.
pub proof fn law_revoke_undoes_approval(v: LendingView, lender: AccountId, loan_id: u32, escrow_id: u32)
    requires
        view_ok(v),
        approve_outcome(v, lender, loan_id, escrow_id) is Ok,
    ensures
        revoke_outcome(approve_outcome(v, lender, loan_id, escrow_id).unwrap(), lender, loan_id) is Ok,
        revoke_outcome(approve_outcome(v, lender, loan_id, escrow_id).unwrap(), lender, loan_id).unwrap().loans
            == v.loans,
{
    let w = approve_outcome(v, lender, loan_id, escrow_id).unwrap();
    let u = revoke_outcome(w, lender, loan_id).unwrap();
    let i = loan_id - 1;
    assert(v.loans[i].status == LoanStatus::Pending);
    assert(u.loans[i] == v.loans[i]);
    assert(u.loans =~= v.loans);
}

/// Law: a new loan request appends a Pending loan under the next id for the
/// borrower, leaving every earlier loan as it was, owing its principal plus `interest_of` its amount, rate and
/// duration, covered by the borrowing power of its collateral; the loan's
/// platform fee (its share of the interest) joins the uncollected fees.
pub proof fn law_created_loan(v: LendingView, borrower: AccountId, req: LoanRequestInput, now: u64)
    requires
        view_ok(v),
        create_loan_outcome(v, borrower, req, now) is Ok,
    ensures
        ({
            let (w, id) = create_loan_outcome(v, borrower, req, now).unwrap();
            &&& id == v.loan_count + 1
            &&& w.loan_count == id
            &&& w.loans == v.loans.push(w.loans[id - 1])
            &&& loan_of(w, id) matches Some(l) && {
                &&& l.status == LoanStatus::Pending
                &&& l.borrower == borrower
                &&& l.amount == req.amount
                &&& interest_of(req.amount as int, req.interest_rate_bps as int, req.duration_days as int)
                    == Some(l.total_due - l.amount)
                &&& l.remaining_due == l.total_due
                &&& bps_share_of(l.total_due - l.amount, v.platform_fee_bps as int) == Some(l.platform_fee as int)
                &&& w.uncollected_fees == v.uncollected_fees + l.platform_fee
                &&& borrowing_power_of(v, req.collateral_entries@) matches Some(p) && p >= l.amount
            }
            &&& borrower_loan_ids(w, borrower) == borrower_loan_ids(v, borrower).push(id)
        }),
{
    let (w, id) = create_loan_outcome(v, borrower, req, now).unwrap();
    assert(borrower_loan_ids(w, borrower) == borrower_loan_ids(v, borrower).push(id));
}

/// Law: a recorded payment lowers the loan's remaining balance by its
/// amount, or to 0 (repaying the loan) when it covers the balance, and is
/// appended to the loan's payments.
pub proof fn law_payment_effect(v: LendingView, caller: AccountId, loan_id: u32, amount: i128, now: u64)
    requires
        view_ok(v),
        record_payment_outcome(v, caller, loan_id, amount, now) is Ok,
    ensures
        ({
            let (w, outcome) = record_payment_outcome(v, caller, loan_id, amount, now).unwrap();
            let before = loan_of(v, loan_id).unwrap();
            let after = loan_of(w, loan_id).unwrap();
            &&& loan_of(v, loan_id) is Some
            &&& after.remaining_due == if amount >= before.remaining_due {
                0
            } else {
                before.remaining_due - amount
            }
            &&& (after.status == LoanStatus::Repaid) == (amount >= before.remaining_due)
            &&& outcome.status == after.status
            &&& payment_count_of(w, loan_id) == payment_count_of(v, loan_id) + 1
            &&& w.payments[loan_id - 1].last() == (PaymentRecord { loan_id, amount, paid_at: now })
        }),
{
}

/// Law: after a rate-model switch at a non-zero time `now`, another switch
/// of the loan is rejected until `RATE_SWITCH_COOLDOWN_SECS` have passed; the
/// switch toggles the model.
pub proof fn law_rate_switch_cooldown(v: LendingView, borrower: AccountId, loan_id: u32, now: u64, later: u64)
    requires
        view_ok(v),
        switch_rate_outcome(v, borrower, loan_id, now) is Ok,
        now > 0,
        now <= later < now + RATE_SWITCH_COOLDOWN_SECS,
    ensures
        loan_of(switch_rate_outcome(v, borrower, loan_id, now).unwrap().0, loan_id).unwrap().rate_model
            == toggled(loan_of(v, loan_id).unwrap().rate_model),
        switch_rate_outcome(switch_rate_outcome(v, borrower, loan_id, now).unwrap().0, borrower, loan_id, later)
            == Err::<(LendingView, i128), LendingError>(LendingError::RateSwitchCooldown),
{
}

proof fn lemma_debt_over_listed(v: LendingView, ids: Seq<u32>)
    requires
        forall|k: int| 0 <= k < ids.len() ==> 1 <= #[trigger] ids[k] <= v.loans.len(),
    ensures
        debt_over(v, ids) matches Err(e) ==> e == LendingError::ArithmeticOverflow,
    decreases ids.len(),
{
    if ids.len() > 0 {
        let pre = ids.drop_last();
        assert forall|k: int| 0 <= k < pre.len() implies 1 <= #[trigger] pre[k] <= v.loans.len() by {
            assert(pre[k] == ids[k]);
        }
        lemma_debt_over_listed(v, pre);
        assert(ids.last() == ids[ids.len() - 1]);
    }
}

/// Law: the loans listed for a borrower are stored loans of that borrower,
/// so summing a borrower's debt never fails for want of a loan; it fails
/// only on overflow.
pub proof fn law_listed_loans_exist(v: LendingView, borrower: AccountId)
    requires
        view_ok(v),
    ensures
        forall|k: int|
            0 <= k < borrower_loan_ids(v, borrower).len() ==> (loan_of(v, #[trigger] borrower_loan_ids(v, borrower)[k])
                matches Some(l) && l.borrower == borrower),
        active_debt_of(v, borrower) matches Err(e) ==> e == LendingError::ArithmeticOverflow,
{
    let ids = borrower_loan_ids(v, borrower);
    assert forall|j: int| 0 <= j < ids.len() implies 1 <= #[trigger] ids[j] <= v.loans.len() && v.loans[ids[j] - 1].borrower == borrower by {
        assert(v.borrower_loans.contains_key(borrower));
        assert(id_names_loan(v.loans, v.borrower_loans[borrower][j], borrower, true));
    }
    lemma_debt_over_listed(v, ids);
}

// ── Collateral vault ────────────────────────────────────────────────────────

/// The price of an asset depends on configurations and oracle data alone.
proof fn lemma_power_depends_on_prices(v: LendingView, w: LendingView, s: Seq<CollateralEntry>)
    requires
        w.collateral_configs == v.collateral_configs,
        w.oracle_samples == v.oracle_samples,
        w.twap_prices == v.twap_prices,
    ensures
        borrowing_power_of(w, s) == borrowing_power_of(v, s),
    decreases s.len(),
{
    if s.len() > 0 {
        lemma_power_depends_on_prices(v, w, s.drop_last());
        assert(entry_power_of(w, s.last()) == entry_power_of(v, s.last()));
    }
}

proof fn lemma_debt_depends_on_loans(v: LendingView, w: LendingView, ids: Seq<u32>)
    requires
        w.loans == v.loans,
    ensures
        debt_over(w, ids) == debt_over(v, ids),
    decreases ids.len(),
{
    if ids.len() > 0 {
        lemma_debt_depends_on_loans(v, w, ids.drop_last());
    }
}

/// Withdrawing from a position with no entry for the asset changes nothing.
proof fn lemma_withdrawn_other_assets(e: Seq<CollateralEntry>, asset: AccountId, amount: i128)
    requires
        !holds_asset(e, asset),
    ensures
        withdrawn(e, asset, amount) == e,
    decreases e.len(),
{
    if e.len() > 0 {
        let pre = e.drop_last();
        assert(!holds_asset(pre, asset)) by {
            if holds_asset(pre, asset) {
                let j = choose|j: int| 0 <= j < pre.len() && #[trigger] pre[j].asset == asset;
                assert(e[j].asset == asset);
            }
        }
        lemma_withdrawn_other_assets(pre, asset, amount);
        assert(e.last().asset != asset) by {
            assert(e[e.len() - 1].asset != asset);
        }
        assert(pre.push(e.last()) =~= e);
    }
}

/// Taking back `amount` from every entry it was added to restores them.
proof fn lemma_withdrawn_grown(e: Seq<CollateralEntry>, asset: AccountId, amount: i128)
    requires
        amount > 0,
        forall|i: int| 0 <= i < e.len() ==> #[trigger] e[i].amount > 0,
        forall|i: int| 0 <= i < e.len() && #[trigger] e[i].asset == asset ==> e[i].amount + amount <= i128::MAX,
    ensures
        withdrawn(e.map_values(|x: CollateralEntry| grown_entry(x, asset, amount)), asset, amount) == e,
    decreases e.len(),
{
    if e.len() > 0 {
        let pre = e.drop_last();
        let g = e.map_values(|x: CollateralEntry| grown_entry(x, asset, amount));
        let gp = pre.map_values(|x: CollateralEntry| grown_entry(x, asset, amount));
        assert(g.drop_last() =~= gp);
        assert forall|i: int| 0 <= i < pre.len() implies #[trigger] pre[i].amount > 0 by {
            assert(pre[i] == e[i]);
        }
        assert forall|i: int| 0 <= i < pre.len() && #[trigger] pre[i].asset == asset implies pre[i].amount
            + amount <= i128::MAX by {
            assert(pre[i] == e[i]);
        }
        lemma_withdrawn_grown(pre, asset, amount);
        let last = e[e.len() - 1];
        assert(last.amount > 0);
        assert(g.last() == grown_entry(last, asset, amount));
        assert(pre.push(last) =~= e);
    }
}

/// Withdrawing what was just deposited gives the entries back.
proof fn lemma_withdrawn_deposited(e: Seq<CollateralEntry>, asset: AccountId, amount: i128)
    requires
        amount > 0,
        collateral_position_ok(e),
        forall|i: int| 0 <= i < e.len() && #[trigger] e[i].asset == asset ==> e[i].amount + amount <= i128::MAX,
    ensures
        withdrawn(deposited(e, asset, amount), asset, amount) == e,
        !short_of(deposited(e, asset, amount), asset, amount),
        holds_asset(deposited(e, asset, amount), asset),
{
    let d = deposited(e, asset, amount);
    let g = e.map_values(|x: CollateralEntry| grown_entry(x, asset, amount));
    lemma_withdrawn_grown(e, asset, amount);
    if holds_asset(e, asset) {
        let j = choose|j: int| 0 <= j < e.len() && #[trigger] e[j].asset == asset;
        assert(d[j].asset == asset);
        assert forall|i: int| 0 <= i < d.len() && #[trigger] d[i].asset == asset implies d[i].amount >= amount by {
            assert(e[i].amount > 0);
        }
    } else {
        assert(d.drop_last() == g);
        assert(forall|i: int| 0 <= i < e.len() ==> #[trigger] g[i] == e[i]);
        assert(g =~= e);
        lemma_withdrawn_other_assets(e, asset, amount);
        assert(d[e.len() as int].asset == asset);
        assert forall|i: int| 0 <= i < d.len() && #[trigger] d[i].asset == asset implies d[i].amount >= amount by {
            if i < e.len() {
                assert(g[i] == e[i]);
            }
        }
    }
}

/// Law: a deposit followed by a withdrawal of the same amount of the same
/// asset, by a borrower whose collateral covered their active debt, is
/// accepted and gives the borrower's collateral back exactly.
pub proof fn law_deposit_then_withdraw(v: LendingView, borrower: AccountId, asset: AccountId, amount: i128)
    requires
        view_ok(v),
        deposit_outcome(v, borrower, asset, amount) is Ok,
        borrowing_power_of(v, user_entries(v, borrower)) matches Some(p) && active_debt_of(v, borrower) matches Ok(d)
            && p >= d,
    ensures
        withdraw_outcome(deposit_outcome(v, borrower, asset, amount).unwrap(), borrower, asset, amount) is Ok,
        withdraw_outcome(deposit_outcome(v, borrower, asset, amount).unwrap(), borrower, asset, amount).unwrap().0.user_collateral
            == v.user_collateral,
{
    let e = user_entries(v, borrower);
    let v1 = deposit_outcome(v, borrower, asset, amount).unwrap();
    assert(collateral_position_ok(e));
    lemma_withdrawn_deposited(e, asset, amount);
    assert(user_entries(v1, borrower) == deposited(e, asset, amount));
    lemma_power_depends_on_prices(v, v1, e);
    lemma_debt_depends_on_loans(v, v1, borrower_loan_ids(v, borrower));
    assert(borrower_loan_ids(v1, borrower) == borrower_loan_ids(v, borrower));
    let v2 = withdraw_outcome(v1, borrower, asset, amount).unwrap().0;
    if e.len() == 0 {
        assert(!v.user_collateral.contains_key(borrower));
        assert(v2.user_collateral =~= v.user_collateral);
    } else {
        assert(v.user_collateral.contains_key(borrower));
        assert(v2.user_collateral =~= v.user_collateral);
    }
}

/// Law: after an accepted withdrawal the borrower's remaining collateral
/// still covers their active debt.
pub proof fn law_withdrawal_keeps_cover(v: LendingView, borrower: AccountId, asset: AccountId, amount: i128)
    requires
        withdraw_outcome(v, borrower, asset, amount) is Ok,
    ensures
        ({
            let w = withdraw_outcome(v, borrower, asset, amount).unwrap().0;
            borrowing_power_of(w, user_entries(w, borrower)) matches Some(p) && active_debt_of(w, borrower) matches Ok(d)
                && p >= d
        }),
{
    let w = withdraw_outcome(v, borrower, asset, amount).unwrap().0;
    let after = withdrawn(user_entries(v, borrower), asset, amount);
    lemma_power_depends_on_prices(v, w, after);
    lemma_debt_depends_on_loans(v, w, borrower_loan_ids(v, borrower));
    assert(borrower_loan_ids(w, borrower) == borrower_loan_ids(v, borrower));
    if after.len() == 0 {
        assert(user_entries(w, borrower) == after);
    } else {
        assert(user_entries(w, borrower) == after);
    }
}

// ── Borrowing power ─────────────────────────────────────────────────────────

/// The sum of two optional values; `None` when either is missing.
pub open spec fn sum_opt(a: Option<int>, b: Option<int>) -> Option<int> {
    match (a, b) {
        (Some(x), Some(y)) => Some(x + y),
        _ => None,
    }
}

/// The value when it fits in an `i128`, else `None`.
pub open spec fn within_i128(a: Option<int>) -> Option<int> {
    match a {
        Some(x) => if fits_i128(x) {
            Some(x)
        } else {
            None
        },
        None => None,
    }
}

/// Sum of the entries' borrowing powers with no bound on the running total;
/// `None` when the power of some entry is undefined.
pub open spec fn power_sum(v: LendingView, s: Seq<CollateralEntry>) -> Option<int>
    decreases s.len(),
{
    if s.len() == 0 {
        Some(0)
    } else {
        sum_opt(power_sum(v, s.drop_last()), entry_power_of(v, s.last()))
    }
}

/// Every entry has a non-negative amount and, where it has one, a
/// non-negative price.
pub open spec fn nonneg_entries(v: LendingView, s: Seq<CollateralEntry>) -> bool {
    forall|i: int| 0 <= i < s.len() ==> #[trigger] s[i].amount >= 0 && (asset_price_of(v, s[i].asset) matches Some(p) ==> p >= 0)
}

proof fn lemma_entry_power_nonneg(v: LendingView, e: CollateralEntry)
    requires
        e.amount >= 0,
        asset_price_of(v, e.asset) matches Some(p) ==> p >= 0,
    ensures
        entry_power_of(v, e) matches Some(x) ==> x >= 0,
{
    if let Some(p) = asset_price_of(v, e.asset) {
        let f = collateral_config_of(v, e.asset).collateral_factor_bps as int;
        let a = e.amount as int;
        assert(a * p * f >= 0) by (nonlinear_arith)
            requires
                a >= 0,
                p >= 0,
                f >= 0,
        ;
    }
}

proof fn lemma_entry_power_monotone(v: LendingView, e: CollateralEntry, more: i128)
    requires
        0 <= e.amount <= more,
        asset_price_of(v, e.asset) matches Some(p) ==> p >= 0,
    ensures
        entry_power_of(v, e) matches Some(x) ==> (entry_power_of(v, CollateralEntry { amount: more, ..e })
            matches Some(y) ==> x <= y),
{
    if let Some(p) = asset_price_of(v, e.asset) {
        let f = collateral_config_of(v, e.asset).collateral_factor_bps as int;
        let a = e.amount as int;
        let b = more as int;
        let d = (PRICE_PRECISION * 10_000) as int;
        assert(0 <= a * p * f <= b * p * f) by (nonlinear_arith)
            requires
                0 <= a <= b,
                p >= 0,
                f >= 0,
        ;
        vstd::arithmetic::div_mod::lemma_div_is_ordered(a * p * f, b * p * f, d);
    }
}

/// A defined fold of the powers is their plain sum.
proof fn lemma_fold_is_sum(v: LendingView, s: Seq<CollateralEntry>)
    ensures
        borrowing_power_of(v, s) matches Some(t) ==> power_sum(v, s) == Some(t) && fits_i128(t),
    decreases s.len(),
{
    if s.len() > 0 {
        lemma_fold_is_sum(v, s.drop_last());
    }
}

/// With non-negative entries, the fold is the plain sum whenever that fits.
proof fn lemma_nonneg_fold(v: LendingView, s: Seq<CollateralEntry>)
    requires
        nonneg_entries(v, s),
    ensures
        borrowing_power_of(v, s) == within_i128(power_sum(v, s)),
        power_sum(v, s) matches Some(t) ==> t >= 0,
    decreases s.len(),
{
    lemma_fold_is_sum(v, s);
    if s.len() > 0 {
        let pre = s.drop_last();
        assert forall|i: int| 0 <= i < pre.len() implies #[trigger] pre[i].amount >= 0 && (asset_price_of(v, pre[i].asset) matches Some(p) ==> p >= 0) by {
            assert(pre[i] == s[i]);
        }
        lemma_nonneg_fold(v, pre);
        assert(s.last() == s[s.len() - 1]);
        lemma_entry_power_nonneg(v, s.last());
    }
}

proof fn lemma_power_sum_single(v: LendingView, e: CollateralEntry)
    ensures
        power_sum(v, seq![e]) == sum_opt(Some(0), entry_power_of(v, e)),
{
    let one = seq![e];
    assert(one.drop_last() =~= Seq::<CollateralEntry>::empty());
    assert(one.last() == e);
    assert(power_sum(v, one.drop_last()) == Some(0int));
}

proof fn lemma_power_sum_concat(v: LendingView, s1: Seq<CollateralEntry>, s2: Seq<CollateralEntry>)
    ensures
        power_sum(v, s1 + s2) == sum_opt(power_sum(v, s1), power_sum(v, s2)),
    decreases s2.len(),
{
    if s2.len() == 0 {
        assert(s1 + s2 =~= s1);
    } else {
        lemma_power_sum_concat(v, s1, s2.drop_last());
        assert((s1 + s2).drop_last() =~= s1 + s2.drop_last());
        assert((s1 + s2).last() == s2.last());
    }
}

proof fn lemma_power_sum_permutation(v: LendingView, s1: Seq<CollateralEntry>, s2: Seq<CollateralEntry>)
    requires
        s1.to_multiset() == s2.to_multiset(),
    ensures
        power_sum(v, s1) == power_sum(v, s2),
    decreases s1.len(),
{
    broadcast use vstd::seq_lib::group_to_multiset_ensures;

    if s1.len() == 0 {
        assert(s2.to_multiset().len() == 0);
        assert(s2 =~= Seq::<CollateralEntry>::empty());
    } else {
        let e = s1.last();
        let pre = s1.drop_last();
        assert(pre.push(e) =~= s1);
        assert(s1.contains(e)) by {
            assert(s1[s1.len() - 1] == e);
        }
        assert(s1.to_multiset().count(e) > 0);
        assert(s2.to_multiset().count(e) > 0);
        assert(s2.contains(e));
        let j = choose|j: int| 0 <= j < s2.len() && s2[j] == e;
        let rest = s2.remove(j);
        assert(pre.to_multiset() =~= s1.to_multiset().remove(e)) by {
            broadcast use vstd::multiset::group_multiset_axioms;

        }
        assert(rest.to_multiset() == s2.to_multiset().remove(s2[j]));
        lemma_power_sum_permutation(v, pre, rest);
        let a = s2.subrange(0, j);
        let b = s2.subrange(j + 1, s2.len() as int);
        assert(rest =~= a + b);
        assert(s2 =~= (a + seq![e]) + b);
        lemma_power_sum_concat(v, a, b);
        lemma_power_sum_concat(v, a + seq![e], b);
        lemma_power_sum_concat(v, a, seq![e]);
        lemma_power_sum_single(v, e);
    }
}

/// Law: borrowing power adds up over concatenated entry lists. Where the
/// power of the whole list and of both parts is defined, the whole is the
/// sum of the parts; where no amount and no price is negative, the whole is
/// defined exactly when both parts are and their sum fits in an `i128`.
pub proof fn law_borrowing_power_adds(v: LendingView, s1: Seq<CollateralEntry>, s2: Seq<CollateralEntry>)
    ensures
        borrowing_power_of(v, s1 + s2) matches Some(t) ==> (borrowing_power_of(v, s1) matches Some(a) ==> (
        borrowing_power_of(v, s2) matches Some(b) ==> t == a + b)),
        nonneg_entries(v, s1 + s2) ==> borrowing_power_of(v, s1 + s2) == within_i128(
            sum_opt(borrowing_power_of(v, s1), borrowing_power_of(v, s2)),
        ),
{
    lemma_fold_is_sum(v, s1 + s2);
    lemma_fold_is_sum(v, s1);
    lemma_fold_is_sum(v, s2);
    lemma_power_sum_concat(v, s1, s2);
    if nonneg_entries(v, s1 + s2) {
        assert forall|i: int| 0 <= i < s1.len() implies #[trigger] s1[i].amount >= 0 && (asset_price_of(v, s1[i].asset) matches Some(p) ==> p >= 0) by {
            assert(s1[i] == (s1 + s2)[i]);
        }
        assert forall|i: int| 0 <= i < s2.len() implies #[trigger] s2[i].amount >= 0 && (asset_price_of(v, s2[i].asset) matches Some(p) ==> p >= 0) by {
            assert(s2[i] == (s1 + s2)[s1.len() + i]);
        }
        lemma_nonneg_fold(v, s1 + s2);
        lemma_nonneg_fold(v, s1);
        lemma_nonneg_fold(v, s2);
    }
}

/// Law: borrowing power does not depend on the order of the entries. Of two
/// lists holding the same entries, where both powers are defined they are
/// equal; where no amount and no price is negative, they are the same.
pub proof fn law_borrowing_power_ignores_order(v: LendingView, s1: Seq<CollateralEntry>, s2: Seq<CollateralEntry>)
    requires
        s1.to_multiset() == s2.to_multiset(),
    ensures
        borrowing_power_of(v, s1) matches Some(a) ==> (borrowing_power_of(v, s2) matches Some(b) ==> a == b),
        nonneg_entries(v, s1) ==> borrowing_power_of(v, s1) == borrowing_power_of(v, s2),
{
    lemma_power_sum_permutation(v, s1, s2);
    lemma_fold_is_sum(v, s1);
    lemma_fold_is_sum(v, s2);
    if nonneg_entries(v, s1) {
        assert forall|i: int| 0 <= i < s2.len() implies #[trigger] s2[i].amount >= 0 && (asset_price_of(v, s2[i].asset) matches Some(p) ==> p >= 0) by {
            broadcast use vstd::seq_lib::group_to_multiset_ensures;

            assert(s2.contains(s2[i]));
            assert(s2.to_multiset().count(s2[i]) > 0);
            assert(s1.to_multiset().count(s2[i]) > 0);
            assert(s1.contains(s2[i]));
            let k = choose|k: int| 0 <= k < s1.len() && s1[k] == s2[i];
        }
        lemma_nonneg_fold(v, s1);
        lemma_nonneg_fold(v, s2);
    }
}

/// Law: where no amount and no price is negative, borrowing power is never
/// negative, and raising the amount of one entry does not lower it.
pub proof fn law_borrowing_power_monotone(v: LendingView, s: Seq<CollateralEntry>, i: int, more: i128)
    requires
        nonneg_entries(v, s),
        0 <= i < s.len(),
        s[i].amount <= more,
    ensures
        borrowing_power_of(v, s) matches Some(t) ==> t >= 0,
        borrowing_power_of(v, s) matches Some(t) ==> (borrowing_power_of(
            v,
            s.update(i, CollateralEntry { amount: more, ..s[i] }),
        ) matches Some(u) ==> t <= u),
{
    let e = s[i];
    let e2 = CollateralEntry { amount: more, ..e };
    let s2 = s.update(i, e2);
    assert forall|k: int| 0 <= k < s2.len() implies #[trigger] s2[k].amount >= 0 && (asset_price_of(v, s2[k].asset) matches Some(p) ==> p >= 0) by {
        if k != i {
            assert(s2[k] == s[k]);
        }
    }
    lemma_nonneg_fold(v, s);
    lemma_nonneg_fold(v, s2);
    let a = s.subrange(0, i);
    let b = s.subrange(i + 1, s.len() as int);
    assert(s =~= (a + seq![e]) + b);
    assert(s2 =~= (a + seq![e2]) + b);
    lemma_power_sum_concat(v, a + seq![e], b);
    lemma_power_sum_concat(v, a, seq![e]);
    lemma_power_sum_concat(v, a + seq![e2], b);
    lemma_power_sum_concat(v, a, seq![e2]);
    lemma_power_sum_single(v, e);
    lemma_power_sum_single(v, e2);
    lemma_entry_power_monotone(v, e, more);
}

/// Sum of the entries' values with no bound on the running total; `None`
/// when the value of some entry is undefined.
pub open spec fn value_sum(v: LendingView, s: Seq<CollateralEntry>) -> Option<int>
    decreases s.len(),
{
    if s.len() == 0 {
        Some(0)
    } else {
        sum_opt(value_sum(v, s.drop_last()), entry_value_of(v, s.last()))
    }
}

proof fn lemma_value_fold_is_sum(v: LendingView, s: Seq<CollateralEntry>)
    ensures
        collateral_value_of(v, s) matches Some(t) ==> value_sum(v, s) == Some(t),
    decreases s.len(),
{
    if s.len() > 0 {
        lemma_value_fold_is_sum(v, s.drop_last());
    }
}

proof fn lemma_entry_power_within_value(v: LendingView, e: CollateralEntry)
    requires
        view_ok(v),
        e.amount >= 0,
        asset_price_of(v, e.asset) matches Some(p) ==> p >= 0,
    ensures
        entry_power_of(v, e) matches Some(x) ==> (entry_value_of(v, e) matches Some(y) && x <= y),
{
    if let Some(p) = asset_price_of(v, e.asset) {
        let c = collateral_config_of(v, e.asset);
        if v.collateral_configs.contains_key(e.asset) {
            assert(config_in_bounds(c));
        }
        let f = c.collateral_factor_bps as int;
        let x = e.amount * p;
        let pp = PRICE_PRECISION as int;
        assert(0 <= x * f <= x * 10_000) by (nonlinear_arith)
            requires
                e.amount >= 0,
                p >= 0,
                x == e.amount * p,
                0 <= f <= 10_000,
        ;
        vstd::arithmetic::div_mod::lemma_div_is_ordered(x * f, x * 10_000, pp * 10_000);
        vstd::arithmetic::div_mod::lemma_div_denominator(x * 10_000, 10_000, pp);
        vstd::arithmetic::div_mod::lemma_div_multiples_vanish(x, 10_000);
        assert(10_000 * x == x * 10_000);
        assert(10_000 * pp == pp * 10_000);
    }
}

proof fn lemma_power_sum_within_value_sum(v: LendingView, s: Seq<CollateralEntry>)
    requires
        view_ok(v),
        nonneg_entries(v, s),
    ensures
        power_sum(v, s) matches Some(x) ==> (value_sum(v, s) matches Some(y) ==> x <= y),
    decreases s.len(),
{
    if s.len() > 0 {
        let pre = s.drop_last();
        assert forall|i: int| 0 <= i < pre.len() implies #[trigger] pre[i].amount >= 0 && (asset_price_of(v, pre[i].asset) matches Some(p) ==> p >= 0) by {
            assert(pre[i] == s[i]);
        }
        lemma_power_sum_within_value_sum(v, pre);
        assert(s.last() == s[s.len() - 1]);
        lemma_entry_power_within_value(v, s.last());
    }
}

/// Law: where no amount and no price is negative, borrowing power never
/// exceeds the raw value of the same collateral: collateral factors stay at
/// or below 100 %.
pub proof fn law_power_within_collateral_value(v: LendingView, s: Seq<CollateralEntry>)
    requires
        view_ok(v),
        nonneg_entries(v, s),
    ensures
        borrowing_power_of(v, s) matches Some(p) ==> (collateral_value_of(v, s) matches Some(c) ==> p <= c),
{
    lemma_fold_is_sum(v, s);
    lemma_value_fold_is_sum(v, s);
    lemma_power_sum_within_value_sum(v, s);
}

} // verus!
