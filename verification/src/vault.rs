//! Bookkeeping of a borrower's collateral entries: deposits and withdrawals.
use vstd::prelude::*;
use crate::model::{
    collateral_position_ok, deposit_overflows, deposited, grown_entry, holds_asset, remaining_after_withdrawal,
    short_of, withdrawn,
};
use crate::types::{AccountId, CollateralEntry, LendingError};

verus! {

/// The entries after depositing `amount` of `asset` (see `deposited`).
pub fn deposit_into(entries: &Vec<CollateralEntry>, asset: AccountId, amount: i128) -> (r: Result<
    Vec<CollateralEntry>,
    LendingError,
>)
    ensures
        match r {
            Ok(n) => !deposit_overflows(entries@, asset, amount) && n@ == deposited(
                entries@,
                asset,
                amount,
            ),
            Err(e) => e == LendingError::ArithmeticOverflow && deposit_overflows(
                entries@,
                asset,
                amount,
            ),
        },
{
    let mut found = false;
    let mut new_entries: Vec<CollateralEntry> = Vec::new();
    let mut i: usize = 0;
    while i < entries.len()
        invariant
            i <= entries@.len(),
            new_entries@.len() == i,
            forall|j: int| 0 <= j < i ==> new_entries@[j] == grown_entry(entries@[j], asset, amount),
            found == exists|j: int| 0 <= j < i && #[trigger] entries@[j].asset == asset,
            forall|j: int|
                0 <= j < i && #[trigger] entries@[j].asset == asset ==> i128::MIN <= entries@[j].amount
                    + amount <= i128::MAX,
        decreases entries@.len() - i,
    {
        let entry = entries[i];
        if entry.asset == asset {
            match entry.amount.checked_add(amount) {
                Some(new_amount) => {
                    new_entries.push(CollateralEntry { asset: entry.asset, amount: new_amount });
                    found = true;
                },
                None => {
                    assert(entries@[i as int].asset == asset);
                    return Err(LendingError::ArithmeticOverflow);
                },
            }
        } else {
            new_entries.push(entry);
        }
        i = i + 1;
    }
    assert(new_entries@ =~= entries@.map_values(|e: CollateralEntry| grown_entry(e, asset, amount)));
    if !found {
        new_entries.push(CollateralEntry { asset, amount });
    }
    Ok(new_entries)
}

/// The entries after withdrawing `amount` of `asset`, with what is left of
/// the asset's entry; rejected when an entry for the asset holds less than
/// `amount`, or when there is none.
pub fn withdraw_from(entries: &Vec<CollateralEntry>, asset: AccountId, amount: i128) -> (r: Result<
    (Vec<CollateralEntry>, i128),
    LendingError,
>)
    requires
        amount > 0,
    ensures
        match r {
            Ok((n, left)) => !short_of(entries@, asset, amount) && holds_asset(entries@, asset)
                && n@ == withdrawn(entries@, asset, amount) && left == remaining_after_withdrawal(
                entries@,
                asset,
                amount,
            ),
            Err(e) => if short_of(entries@, asset, amount) {
                e == LendingError::InsufficientCollateral
            } else {
                !holds_asset(entries@, asset) && e == LendingError::CollateralAssetNotFound
            },
        },
{
    let mut found = false;
    let mut remaining_amount: i128 = 0;
    let mut new_entries: Vec<CollateralEntry> = Vec::new();
    let mut i: usize = 0;
    while i < entries.len()
        invariant
            amount > 0,
            i <= entries@.len(),
            new_entries@ == withdrawn(entries@.subrange(0, i as int), asset, amount),
            found == exists|j: int| 0 <= j < i && #[trigger] entries@[j].asset == asset,
            found ==> remaining_amount == remaining_after_withdrawal(
                entries@.subrange(0, i as int),
                asset,
                amount,
            ),
            !found ==> remaining_amount == 0,
            forall|j: int| 0 <= j < i && #[trigger] entries@[j].asset == asset ==> entries@[j].amount >= amount,
        decreases entries@.len() - i,
    {
        let entry = entries[i];
        let ghost pre = entries@.subrange(0, i as int);
        let ghost next = entries@.subrange(0, i + 1);
        assert(next.drop_last() == pre);
        assert(next.last() == entries@[i as int]);
        if entry.asset == asset {
            if entry.amount < amount {
                assert(short_of(entries@, asset, amount)) by {
                    assert(entries@[i as int].asset == asset);
                }
                return Err(LendingError::InsufficientCollateral);
            }
            remaining_amount = entry.amount - amount;
            found = true;
            if remaining_amount > 0 {
                new_entries.push(CollateralEntry { asset: entry.asset, amount: remaining_amount });
            }
        } else {
            new_entries.push(entry);
            proof {
                if exists|j: int| 0 <= j < i && #[trigger] entries@[j].asset == asset {
                    assert(remaining_after_withdrawal(next, asset, amount)
                        == remaining_after_withdrawal(pre, asset, amount));
                }
            }
        }
        i = i + 1;
    }
    assert(entries@.subrange(0, entries@.len() as int) == entries@);
    if !found {
        return Err(LendingError::CollateralAssetNotFound);
    }
    Ok((new_entries, remaining_amount))
}

/// A deposit keeps a position to one positive entry per asset.
pub proof fn lemma_deposited_ok(entries: Seq<CollateralEntry>, asset: AccountId, amount: i128)
    requires
        collateral_position_ok(entries),
        amount > 0,
        !deposit_overflows(entries, asset, amount),
    ensures
        collateral_position_ok(deposited(entries, asset, amount)),
{
    let d = deposited(entries, asset, amount);
    assert forall|i: int| 0 <= i < d.len() implies #[trigger] d[i].amount > 0 by {
        if i < entries.len() && entries[i].asset == asset {
            assert(entries[i].amount > 0);
        }
    }
    assert forall|i: int, j: int| 0 <= i < d.len() && 0 <= j < d.len() && i != j implies d[i].asset
        != d[j].asset by {
        if i < entries.len() && j < entries.len() {
            assert(entries[i].asset != entries[j].asset);
        } else if i < entries.len() {
            assert(!holds_asset(entries, asset));
            assert(entries[i].asset != asset);
        } else {
            assert(!holds_asset(entries, asset));
            assert(entries[j].asset != asset);
        }
    }
}

/// Every entry left after a withdrawal stands for an entry of the same asset
/// that was there before.
pub proof fn lemma_withdrawn_assets(entries: Seq<CollateralEntry>, asset: AccountId, amount: i128)
    ensures
        withdrawn(entries, asset, amount).len() <= entries.len(),
        forall|i: int|
            0 <= i < withdrawn(entries, asset, amount).len() ==> exists|j: int|
                0 <= j < entries.len() && entries[j].asset == (#[trigger] withdrawn(
                    entries,
                    asset,
                    amount,
                )[i]).asset,
    decreases entries.len(),
{
    if entries.len() > 0 {
        let pre = entries.drop_last();
        lemma_withdrawn_assets(pre, asset, amount);
        let w = withdrawn(entries, asset, amount);
        let wp = withdrawn(pre, asset, amount);
        assert forall|i: int| 0 <= i < w.len() implies exists|j: int|
            0 <= j < entries.len() && entries[j].asset == (#[trigger] w[i]).asset by {
            if i < wp.len() {
                assert(w[i] == wp[i]);
                let j = choose|j: int| 0 <= j < pre.len() && pre[j].asset == wp[i].asset;
                assert(entries[j] == pre[j]);
            } else {
                assert(w[i].asset == entries[entries.len() - 1].asset);
            }
        }
    }
}

/// A withdrawal keeps a position to one positive entry per asset.
pub proof fn lemma_withdrawn_ok(entries: Seq<CollateralEntry>, asset: AccountId, amount: i128)
    requires
        collateral_position_ok(entries),
        amount > 0,
    ensures
        collateral_position_ok(withdrawn(entries, asset, amount)),
    decreases entries.len(),
{
    if entries.len() > 0 {
        let pre = entries.drop_last();
        assert(collateral_position_ok(pre)) by {
            assert forall|i: int, j: int|
                0 <= i < pre.len() && 0 <= j < pre.len() && i != j implies pre[i].asset
                != pre[j].asset by {
                assert(entries[i] == pre[i] && entries[j] == pre[j]);
            }
        }
        lemma_withdrawn_ok(pre, asset, amount);
        lemma_withdrawn_assets(pre, asset, amount);
        let w = withdrawn(entries, asset, amount);
        let wp = withdrawn(pre, asset, amount);
        let last = entries.last();
        assert forall|i: int| 0 <= i < wp.len() implies (#[trigger] wp[i]).asset != last.asset by {
            let j = choose|j: int| 0 <= j < pre.len() && pre[j].asset == wp[i].asset;
            assert(entries[j] == pre[j]);
            assert(entries[entries.len() - 1] == last);
        }
        assert forall|i: int| 0 <= i < w.len() implies #[trigger] w[i].amount > 0 by {
            if i < wp.len() {
                assert(w[i] == wp[i]);
                assert(wp[i].amount > 0);
            } else {
                assert(entries[entries.len() - 1] == last);
                assert(entries[entries.len() - 1].amount > 0);
            }
        }
        assert forall|i: int, j: int| 0 <= i < w.len() && 0 <= j < w.len() && i != j implies w[i].asset
            != w[j].asset by {
            if i < wp.len() && j < wp.len() {
                assert(w[i] == wp[i] && w[j] == wp[j]);
            } else if i < wp.len() {
                assert(w[i] == wp[i]);
            } else {
                assert(w[j] == wp[j]);
            }
        }
    }
}

} // verus!
