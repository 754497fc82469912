//! Laws on what loans and collateral are worth: the debt a withdrawal must
//! leave covered, how an asset without a price oracle is valued, the fee of
//! a rate-model switch, the steps of the liquidation threshold, which loan
//! requests are accepted, floating-rate updates, flash-loan terms, and how
//! deposits and withdrawals move collateral.
use vstd::prelude::*;
use crate::model::{
    asset_price_of, borrower_loan_ids, collateral_position_ok, deposit_outcome, deposited, grown_entry,
    holds_asset, short_of, withdrawn, borrowing_power_of, create_loan_outcome, debt_over, entry_power_of,
    entry_value_of, flash_loan_outcome, id_names_loan, loan_of, request_entries_error, switch_rate_outcome,
    update_rate_outcome, user_entries, view_ok, withdraw_outcome, LendingView,
};
use crate::rates::{fits_i128, liquidation_threshold_of, trunc_div};
use crate::types::{AccountId, CollateralEntry, InterestRateModel, LoanRequestInput, LoanStatus};

verus! {

// ── Debt cover ──────────────────────────────────────────────────────────────

/// The remaining balance owed on the loans `ids` that are Active or
/// Approved.
pub open spec fn open_balance(v: LendingView, ids: Seq<u32>) -> int
    decreases ids.len(),
{
    if ids.len() == 0 {
        0
    } else {
        let l = v.loans[ids.last() - 1];
        open_balance(v, ids.drop_last()) + if l.status == LoanStatus::Active || l.status == LoanStatus::Approved {
            l.remaining_due as int
        } else {
            0
        }
    }
}

proof fn lemma_debt_is_open_balance(v: LendingView, ids: Seq<u32>)
    requires
        forall|k: int| 0 <= k < ids.len() ==> 1 <= #[trigger] ids[k] <= v.loans.len(),
    ensures
        debt_over(v, ids) matches Ok(d) ==> d == open_balance(v, ids),
    decreases ids.len(),
{
    if ids.len() > 0 {
        let pre = ids.drop_last();
        assert forall|k: int| 0 <= k < pre.len() implies 1 <= #[trigger] pre[k] <= v.loans.len() by {
            assert(pre[k] == ids[k]);
        }
        lemma_debt_is_open_balance(v, pre);
        assert(ids.last() == ids[ids.len() - 1]);
    }
}

proof fn lemma_open_balance_at_least_one(v: LendingView, ids: Seq<u32>, k: int)
    requires
        0 <= k < ids.len(),
        forall|j: int|
            0 <= j < ids.len() ==> (#[trigger] v.loans[ids[j] - 1].status == LoanStatus::Active
                || v.loans[ids[j] - 1].status == LoanStatus::Approved) ==> v.loans[ids[j] - 1].remaining_due >= 0,
        v.loans[ids[k] - 1].status == LoanStatus::Active || v.loans[ids[k] - 1].status == LoanStatus::Approved,
    ensures
        open_balance(v, ids) >= v.loans[ids[k] - 1].remaining_due,
    decreases ids.len(),
{
    lemma_open_balance_nonneg(v, ids.drop_last());
    let pre = ids.drop_last();
    if k < ids.len() - 1 {
        assert(pre[k] == ids[k]);
        assert forall|j: int|
            0 <= j < pre.len() && (#[trigger] v.loans[pre[j] - 1].status == LoanStatus::Active
                || v.loans[pre[j] - 1].status == LoanStatus::Approved) implies v.loans[pre[j] - 1].remaining_due >= 0 by {
            assert(pre[j] == ids[j]);
        }
        lemma_open_balance_at_least_one(v, pre, k);
        let j = ids.len() - 1;
        assert(ids.last() == ids[j]);
    } else {
        assert(ids.last() == ids[k]);
    }
}

proof fn lemma_open_balance_nonneg(v: LendingView, ids: Seq<u32>)
    requires
        forall|j: int|
            0 <= j < ids.len() ==> (#[trigger] v.loans[ids[j] - 1].status == LoanStatus::Active
                || v.loans[ids[j] - 1].status == LoanStatus::Approved) ==> v.loans[ids[j] - 1].remaining_due >= 0,
    ensures
        open_balance(v, ids) >= 0,
    decreases ids.len(),
{
    if ids.len() > 0 {
        let pre = ids.drop_last();
        assert forall|j: int|
            0 <= j < pre.len() && (#[trigger] v.loans[pre[j] - 1].status == LoanStatus::Active
                || v.loans[pre[j] - 1].status == LoanStatus::Approved) implies v.loans[pre[j] - 1].remaining_due >= 0 by {
            assert(pre[j] == ids[j]);
        }
        lemma_open_balance_nonneg(v, pre);
        assert(ids.last() == ids[ids.len() - 1]);
    }
}

/// Law: an accepted withdrawal leaves the borrower's remaining collateral
/// with borrowing power at least the remaining balance of every listed loan
/// of the borrower that is Active or Approved; the loans are untouched.
pub proof fn law_withdrawal_covers_open_loans(v: LendingView, borrower: AccountId, asset: AccountId, amount: i128)
    requires
        view_ok(v),
        withdraw_outcome(v, borrower, asset, amount) is Ok,
    ensures
        ({
            let w = withdraw_outcome(v, borrower, asset, amount).unwrap().0;
            &&& w.loans == v.loans
            &&& borrower_loan_ids(w, borrower) == borrower_loan_ids(v, borrower)
            &&& borrowing_power_of(w, user_entries(w, borrower)) matches Some(p) && p >= open_balance(
                v,
                borrower_loan_ids(v, borrower),
            )
        }),
{
    let w = withdraw_outcome(v, borrower, asset, amount).unwrap().0;
    crate::laws::law_withdrawal_keeps_cover(v, borrower, asset, amount);
    let ids = borrower_loan_ids(v, borrower);
    assert forall|k: int| 0 <= k < ids.len() implies 1 <= #[trigger] ids[k] <= v.loans.len() by {
        assert(v.borrower_loans.contains_key(borrower));
        assert(id_names_loan(v.loans, v.borrower_loans[borrower][k], borrower, true));
    }
    assert(borrower_loan_ids(w, borrower) == ids);
    lemma_debt_is_open_balance(w, ids);
    assert(open_balance(w, ids) == open_balance(v, ids)) by {
        lemma_open_balance_same_loans(v, w, ids);
    }
}

proof fn lemma_open_balance_same_loans(v: LendingView, w: LendingView, ids: Seq<u32>)
    requires
        v.loans == w.loans,
    ensures
        open_balance(v, ids) == open_balance(w, ids),
    decreases ids.len(),
{
    if ids.len() > 0 {
        lemma_open_balance_same_loans(v, w, ids.drop_last());
    }
}

/// Law: a borrower with an Active or Approved loan that still owes a
/// positive balance (and no such loan with a negative balance) can never
/// withdraw all collateral: an accepted withdrawal leaves some collateral.
pub proof fn law_open_loan_keeps_collateral(v: LendingView, borrower: AccountId, asset: AccountId, amount: i128, k: int)
    requires
        view_ok(v),
        0 <= k < borrower_loan_ids(v, borrower).len(),
        ({
            let l = v.loans[borrower_loan_ids(v, borrower)[k] - 1];
            (l.status == LoanStatus::Active || l.status == LoanStatus::Approved) && l.remaining_due > 0
        }),
        forall|j: int|
            0 <= j < borrower_loan_ids(v, borrower).len() ==> (#[trigger] v.loans[borrower_loan_ids(v, borrower)[j]
                - 1].status == LoanStatus::Active || v.loans[borrower_loan_ids(v, borrower)[j] - 1].status
                == LoanStatus::Approved) ==> v.loans[borrower_loan_ids(v, borrower)[j] - 1].remaining_due >= 0,
    ensures
        withdraw_outcome(v, borrower, asset, amount) matches Ok((w, _)) ==> user_entries(w, borrower).len() > 0,
{
    if withdraw_outcome(v, borrower, asset, amount) is Ok {
        let w = withdraw_outcome(v, borrower, asset, amount).unwrap().0;
        law_withdrawal_covers_open_loans(v, borrower, asset, amount);
        lemma_open_balance_at_least_one(v, borrower_loan_ids(v, borrower), k);
        if user_entries(w, borrower).len() == 0 {
            assert(borrowing_power_of(w, user_entries(w, borrower)) == Some(0int));
        }
    }
}

// ── Collateral without a price oracle ───────────────────────────────────────

/// `x * 10_000_000 / (10_000_000 * d)` rounds as `x / d` does.
proof fn lemma_cancel_precision(x: int, d: int)
    requires
        d > 0,
    ensures
        trunc_div(x * 10_000_000, 10_000_000 * d) == trunc_div(x, d),
        trunc_div(x * 10_000_000, 10_000_000) == x,
{
    let y = if x >= 0 { x } else { -x };
    vstd::arithmetic::div_mod::lemma_div_denominator(y * 10_000_000, 10_000_000, d);
    vstd::arithmetic::div_mod::lemma_div_multiples_vanish(y, 10_000_000);
    assert(10_000_000 * y == y * 10_000_000);
    assert(y * 10_000_000 >= 0) by (nonlinear_arith)
        requires
            y >= 0,
    ;
    if x < 0 {
        assert(x * 10_000_000 == -(y * 10_000_000)) by (nonlinear_arith)
            requires
                y == -x,
        ;
    }
}

/// Law: an asset whose collateral configuration (stored, or the default when
/// none is stored) has no price oracle is valued at face value, whatever
/// oracle samples or TWAP price are stored for it: its price is
/// `PRICE_PRECISION`, an entry's value is its amount, and an entry's
/// borrowing power is `amount * factor / 10_000`, rounded toward zero, with
/// the stored factor or the default 7500.
pub proof fn law_face_value_without_oracle(v: LendingView, e: CollateralEntry)
    requires
        !(v.collateral_configs.contains_key(e.asset) && v.collateral_configs[e.asset].has_price_oracle),
    ensures
        asset_price_of(v, e.asset) == Some(10_000_000int),
        entry_value_of(v, e) == if fits_i128(e.amount * 10_000_000) {
            Some(e.amount as int)
        } else {
            None
        },
        entry_power_of(v, e) == if fits_i128(e.amount * 10_000_000) {
            Some(
                trunc_div(
                    e.amount * (if v.collateral_configs.contains_key(e.asset) {
                        v.collateral_configs[e.asset].collateral_factor_bps as int
                    } else {
                        7500
                    }),
                    10_000,
                ),
            )
        } else {
            None
        },
{
    let f: int = if v.collateral_configs.contains_key(e.asset) {
        v.collateral_configs[e.asset].collateral_factor_bps as int
    } else {
        7500
    };
    lemma_cancel_precision(e.amount * f, 10_000);
    lemma_cancel_precision(e.amount as int, 10_000);
    assert(e.amount * 10_000_000 * f == (e.amount * f) * 10_000_000) by (nonlinear_arith);
    assert(10_000_000 * 10_000 == 100_000_000_000int);
}

// ── Rate-model switch ───────────────────────────────────────────────────────

/// Law: every accepted rate-model switch, from either model, charges a fee
/// of 0.5 % of the remaining balance (`remaining_due * 50 / 10_000`, rounded
/// toward zero), raises both the remaining and the total balance by exactly
/// that fee, and moves the loan to the other model; nothing else of the loan
/// changes but the time of its last rate update.
pub proof fn law_rate_switch_fee(v: LendingView, borrower: AccountId, loan_id: u32, now: u64)
    requires
        switch_rate_outcome(v, borrower, loan_id, now) is Ok,
    ensures
        ({
            let (w, fee) = switch_rate_outcome(v, borrower, loan_id, now).unwrap();
            let before = loan_of(v, loan_id).unwrap();
            let after = loan_of(w, loan_id).unwrap();
            &&& loan_of(v, loan_id) is Some && loan_of(w, loan_id) is Some
            &&& fee == trunc_div(before.remaining_due * 50, 10_000)
            &&& after.remaining_due == before.remaining_due + fee
            &&& after.total_due == before.total_due + fee
            &&& before.rate_model == InterestRateModel::Fixed ==> after.rate_model == InterestRateModel::Floating
            &&& before.rate_model == InterestRateModel::Floating ==> after.rate_model == InterestRateModel::Fixed
            &&& after.amount == before.amount && after.status == before.status && after.borrower == before.borrower
            &&& after.last_rate_update == now
        }),
{
}

// ── Liquidation threshold ───────────────────────────────────────────────────

/// Law: wherever the liquidation threshold is not clamped, each further
/// 2 bps of asset volatility lower it by exactly 1 bp, and each further 10
/// points of reputation (up to a score of 1000, where the bonus reaches its
/// 1500 bps cap) raise it by exactly 15 bps; beyond a score of 1000 more
/// reputation changes nothing.
pub proof fn law_liquidation_threshold_steps(score: int, volatility: int)
    requires
        score >= 0,
        volatility >= 0,
    ensures
        5000 < liquidation_threshold_of(score, volatility + 2) && liquidation_threshold_of(score, volatility) < 9000
            ==> liquidation_threshold_of(score, volatility + 2) == liquidation_threshold_of(score, volatility) - 1,
        score + 10 <= 1000 && 5000 < liquidation_threshold_of(score, volatility) && liquidation_threshold_of(
            score + 10,
            volatility,
        ) < 9000 ==> liquidation_threshold_of(score + 10, volatility) == liquidation_threshold_of(score, volatility)
            + 15,
        score >= 1000 ==> liquidation_threshold_of(score, volatility) == liquidation_threshold_of(1000, volatility),
{
    assert((volatility + 2) / 2 == volatility / 2 + 1);
    assert((score + 10) * 15 / 10 == score * 15 / 10 + 15) by (nonlinear_arith);
    assert(score >= 1000 ==> score * 15 / 10 >= 1500) by (nonlinear_arith);
    assert(score + 10 <= 1000 ==> (score + 10) * 15 / 10 <= 1500) by (nonlinear_arith);
}

/// Law: the liquidation threshold is 7500 bps plus the reputation bonus
/// (1.5 bps per point, at most 1500) minus half the volatility, kept within
/// [5000, 9000].
pub proof fn law_liquidation_threshold_formula(score: int, volatility: int)
    requires
        score >= 0,
        volatility >= 0,
    ensures
        ({
            let bonus = if score * 15 / 10 < 1500 { score * 15 / 10 } else { 1500 };
            let raw = 7500 + bonus - volatility / 2;
            liquidation_threshold_of(score, volatility) == if raw <= 5000 {
                5000
            } else if raw >= 9000 {
                9000
            } else {
                raw
            }
        }),
{
}

// ── Loan requests ───────────────────────────────────────────────────────────

proof fn lemma_entries_acceptable(v: LendingView, entries: Seq<CollateralEntry>)
    requires
        forall|i: int| 0 <= i < entries.len() ==> v.whitelisted.contains(#[trigger] entries[i].asset) && entries[i].amount > 0,
    ensures
        request_entries_error(v, entries) is None,
    decreases entries.len(),
{
    if entries.len() > 0 {
        let pre = entries.drop_last();
        assert forall|i: int| 0 <= i < pre.len() implies v.whitelisted.contains(#[trigger] pre[i].asset) && pre[i].amount > 0 by {
            assert(pre[i] == entries[i]);
        }
        lemma_entries_acceptable(v, pre);
        assert(entries.last() == entries[entries.len() - 1]);
    }
}

/// Law: a loan request is accepted whenever the contract is running, the
/// amount is at least the 10_000_000 minimum and within the reputation
/// limit, the duration is 1 to 365 days, the tier at most 4, the collateral
/// list is non-empty with every entry whitelisted and positive, the
/// collateral's borrowing power is at least the amount (the principal, not
/// principal plus interest), and no step overflows. The new loan gets the
/// next id, is Pending, and owes the principal plus simple interest
/// `amount * rate_bps * days / 3_650_000`.
pub proof fn law_covered_request_accepted(v: LendingView, borrower: AccountId, req: LoanRequestInput, now: u64)
    requires
        view_ok(v),
        !v.paused,
        10_000_000 <= req.amount <= req.max_loan_amount,
        1 <= req.duration_days <= 365,
        req.reputation_tier <= 4,
        req.collateral_entries@.len() > 0,
        forall|i: int|
            0 <= i < req.collateral_entries@.len() ==> v.whitelisted.contains(#[trigger] req.collateral_entries@[i].asset)
                && req.collateral_entries@[i].amount > 0,
        borrowing_power_of(v, req.collateral_entries@) matches Some(p) && p >= req.amount,
        ({
            let by_rate = req.amount * req.interest_rate_bps;
            let interest = by_rate * req.duration_days / 3_650_000;
            let fee = interest * v.platform_fee_bps / 10_000;
            &&& fits_i128(by_rate)
            &&& fits_i128(by_rate * req.duration_days)
            &&& fits_i128(interest * v.platform_fee_bps)
            &&& fits_i128(req.amount + interest)
            &&& fits_i128(v.uncollected_fees + fee)
            &&& v.loan_count < u32::MAX
            &&& now + req.duration_days * 86_400 <= u64::MAX
            &&& borrower_loan_ids(v, borrower).len() < u32::MAX
        }),
    ensures
        create_loan_outcome(v, borrower, req, now) is Ok,
        ({
            let (w, id) = create_loan_outcome(v, borrower, req, now).unwrap();
            let interest = req.amount * req.interest_rate_bps * req.duration_days / 3_650_000;
            &&& id == v.loan_count + 1
            &&& w.loan_count == id
            &&& loan_of(w, id) matches Some(l) && l.status == LoanStatus::Pending && l.borrower == borrower
                && l.amount == req.amount && l.total_due == req.amount + interest && l.remaining_due == l.total_due
        }),
{
    lemma_entries_acceptable(v, req.collateral_entries@);
    let by_rate = req.amount * req.interest_rate_bps;
    let interest = by_rate * req.duration_days / 3_650_000;
    assert(by_rate >= 0 && by_rate * req.duration_days >= 0) by (nonlinear_arith)
        requires
            req.amount >= 0,
            by_rate == req.amount * req.interest_rate_bps,
    ;
    assert(interest >= 0);
    assert(interest * v.platform_fee_bps >= 0) by (nonlinear_arith)
        requires
            interest >= 0,
    ;
}

// ── Floating-rate update ────────────────────────────────────────────────────

/// Law: a floating-rate update keeps what has been paid so far
/// (`total_due - remaining_due`), sets the total to the principal plus simple
/// interest at the new rate over the whole days left before the deadline (no
/// interest once nothing remains owed), and answers the new remaining
/// balance; the loan keeps its model and status.
pub proof fn law_floating_update_keeps_paid(v: LendingView, caller: AccountId, loan_id: u32, new_rate_bps: u32, now: u64)
    requires
        update_rate_outcome(v, caller, loan_id, new_rate_bps, now) is Ok,
    ensures
        ({
            let (w, remaining) = update_rate_outcome(v, caller, loan_id, new_rate_bps, now).unwrap();
            let before = loan_of(v, loan_id).unwrap();
            let after = loan_of(w, loan_id).unwrap();
            let secs: int = if before.due_at > now { before.due_at - now } else { 0 };
            let days = (secs / 86_400) as u32;
            let principal: int = if before.remaining_due > 0 { before.amount as int } else { 0 };
            &&& loan_of(v, loan_id) is Some && loan_of(w, loan_id) is Some
            &&& after.total_due - after.remaining_due == before.total_due - before.remaining_due
            &&& after.total_due == before.amount + trunc_div(principal * new_rate_bps * days, 3_650_000)
            &&& remaining == after.remaining_due
            &&& after.interest_rate_bps == new_rate_bps
            &&& after.rate_model == InterestRateModel::Floating && before.rate_model == InterestRateModel::Floating
            &&& after.status == LoanStatus::Active && before.status == LoanStatus::Active
            &&& after.amount == before.amount && after.borrower == before.borrower
        }),
{
}

// ── Flash loans ─────────────────────────────────────────────────────────────

/// Law: a flash loan of a positive `amount` from a pool holding at least
/// that much is granted unless a sum overflows; its fee is
/// `amount * flash_loan_fee_bps / 10_000`, rounded down, and the pool must
/// afterwards hold its former balance plus the fee. A non-positive amount or
/// a pool holding less than the amount is refused.
pub proof fn law_flash_loan_terms(v: LendingView, amount: i128, balance_before: i128)
    ensures
        amount <= 0 || balance_before < amount ==> flash_loan_outcome(v, amount, balance_before) is Err,
        amount > 0 && balance_before >= amount && fits_i128(amount * v.flash_loan_fee_bps) && fits_i128(
            balance_before + amount * v.flash_loan_fee_bps / 10_000,
        ) ==> flash_loan_outcome(v, amount, balance_before) is Ok,
        flash_loan_outcome(v, amount, balance_before) matches Ok(t) ==> t.fee == amount * v.flash_loan_fee_bps
            / 10_000 && t.required_balance == balance_before + t.fee && t.fee >= 0,
{
    if amount > 0 {
        assert(amount * v.flash_loan_fee_bps >= 0) by (nonlinear_arith)
            requires
                amount > 0,
        ;
    }
}

// ── Collateral amounts ──────────────────────────────────────────────────────

/// How much of `asset` the entries hold in all.
pub open spec fn asset_total(s: Seq<CollateralEntry>, asset: AccountId) -> int
    decreases s.len(),
{
    if s.len() == 0 {
        0
    } else {
        asset_total(s.drop_last(), asset) + if s.last().asset == asset {
            s.last().amount as int
        } else {
            0
        }
    }
}

/// How many of the entries are for `asset`.
pub open spec fn asset_entries(s: Seq<CollateralEntry>, asset: AccountId) -> int
    decreases s.len(),
{
    if s.len() == 0 {
        0
    } else {
        asset_entries(s.drop_last(), asset) + if s.last().asset == asset {
            1int
        } else {
            0
        }
    }
}

proof fn lemma_one_entry_per_asset(s: Seq<CollateralEntry>, asset: AccountId)
    requires
        collateral_position_ok(s),
    ensures
        asset_entries(s, asset) == if holds_asset(s, asset) {
            1int
        } else {
            0
        },
    decreases s.len(),
{
    if s.len() > 0 {
        let pre = s.drop_last();
        let n = s.len() - 1;
        assert(s.last() == s[n]);
        assert(collateral_position_ok(pre)) by {
            assert forall|i: int| 0 <= i < pre.len() implies #[trigger] pre[i].amount > 0 by {
                assert(pre[i] == s[i]);
            }
            assert forall|i: int, j: int|
                0 <= i < pre.len() && 0 <= j < pre.len() && i != j implies pre[i].asset != pre[j].asset by {
                assert(pre[i] == s[i] && pre[j] == s[j]);
            }
        }
        lemma_one_entry_per_asset(pre, asset);
        if s.last().asset == asset {
            assert(!holds_asset(pre, asset)) by {
                if holds_asset(pre, asset) {
                    let i = choose|i: int| 0 <= i < pre.len() && #[trigger] pre[i].asset == asset;
                    assert(s[i].asset == s[n].asset);
                }
            }
            assert(s[n].asset == asset);
        } else {
            if holds_asset(s, asset) {
                let i = choose|i: int| 0 <= i < s.len() && #[trigger] s[i].asset == asset;
                assert(pre[i].asset == asset);
            }
            if holds_asset(pre, asset) {
                let i = choose|i: int| 0 <= i < pre.len() && #[trigger] pre[i].asset == asset;
                assert(s[i].asset == asset);
            }
        }
    }
}

proof fn lemma_grown_total(s: Seq<CollateralEntry>, asset: AccountId, amount: i128, a: AccountId)
    requires
        forall|i: int| 0 <= i < s.len() && #[trigger] s[i].asset == asset ==> fits_i128(s[i].amount + amount),
    ensures
        asset_total(s.map_values(|e: CollateralEntry| grown_entry(e, asset, amount)), a) == asset_total(s, a) + if a
            == asset {
            amount * asset_entries(s, asset)
        } else {
            0
        },
    decreases s.len(),
{
    if s.len() > 0 {
        let pre = s.drop_last();
        let g = s.map_values(|e: CollateralEntry| grown_entry(e, asset, amount));
        assert(g.drop_last() =~= pre.map_values(|e: CollateralEntry| grown_entry(e, asset, amount)));
        assert(g.last() == grown_entry(s.last(), asset, amount));
        assert(s.last() == s[s.len() - 1]);
        assert forall|i: int| 0 <= i < pre.len() && #[trigger] pre[i].asset == asset implies fits_i128(pre[i].amount + amount) by {
            assert(pre[i] == s[i]);
        }
        lemma_grown_total(pre, asset, amount, a);
        assert(amount * asset_entries(s, asset) == amount * asset_entries(pre, asset) + if s.last().asset == asset {
            amount as int
        } else {
            0
        }) by (nonlinear_arith)
            requires
                asset_entries(s, asset) == asset_entries(pre, asset) + if s.last().asset == asset {
                    1int
                } else {
                    0
                },
        ;
    }
}

proof fn lemma_withdrawn_total(s: Seq<CollateralEntry>, asset: AccountId, amount: i128, a: AccountId)
    requires
        amount > 0,
        !short_of(s, asset, amount),
    ensures
        asset_total(withdrawn(s, asset, amount), a) == asset_total(s, a) - if a == asset {
            amount * asset_entries(s, asset)
        } else {
            0
        },
    decreases s.len(),
{
    if s.len() > 0 {
        let pre = s.drop_last();
        let e = s.last();
        assert(e == s[s.len() - 1]);
        assert(!short_of(pre, asset, amount)) by {
            if short_of(pre, asset, amount) {
                let i = choose|i: int| 0 <= i < pre.len() && #[trigger] pre[i].asset == asset && pre[i].amount < amount;
                assert(s[i] == pre[i]);
            }
        }
        lemma_withdrawn_total(pre, asset, amount, a);
        let rest = withdrawn(pre, asset, amount);
        if e.asset == asset && e.amount - amount > 0 {
            let r = rest.push(CollateralEntry { asset: e.asset, amount: (e.amount - amount) as i128 });
            assert(r.drop_last() =~= rest);
        } else if e.asset != asset {
            assert(rest.push(e).drop_last() =~= rest);
        }
        assert(amount * asset_entries(s, asset) == amount * asset_entries(pre, asset) + if e.asset == asset {
            amount as int
        } else {
            0
        }) by (nonlinear_arith)
            requires
                asset_entries(s, asset) == asset_entries(pre, asset) + if e.asset == asset {
                    1int
                } else {
                    0
                },
        ;
    }
}

/// Law: an accepted deposit raises the borrower's holding of the deposited
/// asset by exactly the amount and leaves every other holding, and every
/// other borrower's collateral, as it was.
pub proof fn law_deposit_adds_amount(v: LendingView, borrower: AccountId, asset: AccountId, amount: i128, a: AccountId, other: AccountId)
    requires
        view_ok(v),
        deposit_outcome(v, borrower, asset, amount) is Ok,
        other != borrower,
    ensures
        ({
            let w = deposit_outcome(v, borrower, asset, amount).unwrap();
            &&& asset_total(user_entries(w, borrower), a) == asset_total(user_entries(v, borrower), a) + if a == asset {
                amount as int
            } else {
                0
            }
            &&& user_entries(w, other) == user_entries(v, other)
        }),
{
    let s = user_entries(v, borrower);
    let w = deposit_outcome(v, borrower, asset, amount).unwrap();
    if v.user_collateral.contains_key(borrower) {
        assert(collateral_position_ok(s));
    }
    lemma_one_entry_per_asset(s, asset);
    lemma_grown_total(s, asset, amount, a);
    let g = s.map_values(|e: CollateralEntry| grown_entry(e, asset, amount));
    assert(user_entries(w, borrower) == deposited(s, asset, amount));
    if !holds_asset(s, asset) {
        let n = g.push(CollateralEntry { asset, amount });
        assert(n.drop_last() =~= g);
    }
}

/// Law: an accepted withdrawal lowers the borrower's holding of the asset by
/// exactly the amount (an entry that reaches zero disappears) and leaves
/// every other holding, and every other borrower's collateral, as it was.
pub proof fn law_withdrawal_removes_amount(v: LendingView, borrower: AccountId, asset: AccountId, amount: i128, a: AccountId, other: AccountId)
    requires
        view_ok(v),
        withdraw_outcome(v, borrower, asset, amount) is Ok,
        other != borrower,
    ensures
        ({
            let w = withdraw_outcome(v, borrower, asset, amount).unwrap().0;
            &&& asset_total(user_entries(w, borrower), a) == asset_total(user_entries(v, borrower), a) - if a == asset {
                amount as int
            } else {
                0
            }
            &&& user_entries(w, other) == user_entries(v, other)
        }),
{
    let s = user_entries(v, borrower);
    assert(collateral_position_ok(s));
    lemma_one_entry_per_asset(s, asset);
    lemma_withdrawn_total(s, asset, amount, a);
    let w = withdraw_outcome(v, borrower, asset, amount).unwrap().0;
    let after = withdrawn(s, asset, amount);
    if after.len() == 0 {
        assert(user_entries(w, borrower) =~= after);
    } else {
        assert(user_entries(w, borrower) == after);
    }
}

} // verus!
