//! The contract state as plain values, for keeping it in ledger storage
//! between calls.
use vstd::prelude::*;
use crate::account_map::{distinct_keys, lemma_key_entry, lemma_lookup, map_of, MapEntry};
use crate::model::{collateral_position_ok, config_in_bounds, id_names_loan, lists_name_loans, view_ok, LendingView};
use crate::rates::{MAX_COLLATERAL_FACTOR_BPS, MIN_COLLATERAL_FACTOR_BPS};
use crate::types::{AccountId, AssetCollateralConfig, CollateralEntry, LoanRecord, PaymentRecord};

verus! {

/// Everything the contract keeps, as lists: keyed collections as lists of
/// entries, sets as lists of members.
pub struct StoredState {
    pub contract_address: AccountId,
    pub admin: Option<AccountId>,
    pub loan_count: u32,
    pub loans: Vec<LoanRecord>,
    pub loan_tiers: Vec<u32>,
    pub rate_switched_at: Vec<u64>,
    pub payments: Vec<Vec<PaymentRecord>>,
    pub borrower_loans: Vec<MapEntry<Vec<u32>>>,
    pub lender_loans: Vec<MapEntry<Vec<u32>>>,
    pub platform_fee_bps: u32,
    pub governance: Option<AccountId>,
    pub whitelisted: Vec<AccountId>,
    pub multisig_link: Option<AccountId>,
    pub multisig_admins: Vec<AccountId>,
    pub multisig_threshold: u32,
    pub paused: bool,
    pub pause_signers: Vec<AccountId>,
    pub pause_signer_count: u32,
    pub unpause_signers: Vec<AccountId>,
    pub unpause_signer_count: u32,
    pub flash_loan_fee_bps: u32,
    pub uncollected_fees: i128,
    pub collateral_configs: Vec<MapEntry<AssetCollateralConfig>>,
    pub user_collateral: Vec<MapEntry<Vec<CollateralEntry>>>,
    pub price_oracle: Option<AccountId>,
    pub oracle_samples: Vec<MapEntry<Vec<i128>>>,
    pub twap_prices: Vec<MapEntry<i128>>,
    pub loyalty_contract: Option<AccountId>,
    pub referral_contract: Option<AccountId>,
}

/// The members of a list, as a set.
pub open spec fn members(s: Seq<AccountId>) -> Set<AccountId> {
    Set::new(|a: AccountId| s.contains(a))
}

/// The loan-id lists that a list of entries stands for.
pub open spec fn id_lists(entries: Seq<MapEntry<Vec<u32>>>) -> Map<AccountId, Seq<u32>> {
    map_of(entries).map_values(|l: Vec<u32>| l@)
}

/// The contract state a stored state stands for.
pub open spec fn stored_view(s: StoredState) -> LendingView {
    LendingView {
        contract_address: s.contract_address,
        admin: s.admin,
        loan_count: s.loan_count,
        loans: s.loans@,
        loan_tiers: s.loan_tiers@,
        rate_switched_at: s.rate_switched_at@,
        payments: s.payments@.map_values(|p: Vec<PaymentRecord>| p@),
        borrower_loans: id_lists(s.borrower_loans@),
        lender_loans: id_lists(s.lender_loans@),
        platform_fee_bps: s.platform_fee_bps,
        governance: s.governance,
        whitelisted: members(s.whitelisted@),
        multisig_link: s.multisig_link,
        multisig_admins: s.multisig_admins@,
        multisig_threshold: s.multisig_threshold,
        paused: s.paused,
        pause_signers: members(s.pause_signers@),
        pause_signer_count: s.pause_signer_count,
        unpause_signers: members(s.unpause_signers@),
        unpause_signer_count: s.unpause_signer_count,
        flash_loan_fee_bps: s.flash_loan_fee_bps,
        uncollected_fees: s.uncollected_fees,
        collateral_configs: map_of(s.collateral_configs@),
        user_collateral: map_of(s.user_collateral@).map_values(|l: Vec<CollateralEntry>| l@),
        price_oracle: s.price_oracle,
        oracle_samples: map_of(s.oracle_samples@).map_values(|l: Vec<i128>| l@),
        twap_prices: map_of(s.twap_prices@),
        loyalty_contract: s.loyalty_contract,
        referral_contract: s.referral_contract,
    }
}

/// A stored state the contract can resume from: no key is listed twice and
/// the state is one the contract can reach.
pub open spec fn stored_ok(s: StoredState) -> bool {
    &&& distinct_keys(s.borrower_loans@)
    &&& distinct_keys(s.lender_loans@)
    &&& distinct_keys(s.collateral_configs@)
    &&& distinct_keys(s.user_collateral@)
    &&& distinct_keys(s.oracle_samples@)
    &&& distinct_keys(s.twap_prices@)
    &&& view_ok(stored_view(s))
}

/// A property holds of every entry's value exactly when it holds of every
/// value of the map.
pub proof fn lemma_entry_values<V>(s: Seq<MapEntry<V>>, p: spec_fn(V) -> bool)
    requires
        distinct_keys(s),
    ensures
        (forall|i: int| 0 <= i < s.len() ==> #[trigger] p(s[i].value)) <==> (forall|k: AccountId|
            #[trigger] map_of(s).contains_key(k) ==> p(map_of(s)[k])),
{
    if forall|i: int| 0 <= i < s.len() ==> #[trigger] p(s[i].value) {
        assert forall|k: AccountId| #[trigger] map_of(s).contains_key(k) implies p(map_of(s)[k]) by {
            lemma_key_entry(s, k);
        }
    }
    if forall|k: AccountId| #[trigger] map_of(s).contains_key(k) ==> p(map_of(s)[k]) {
        assert forall|i: int| 0 <= i < s.len() implies #[trigger] p(s[i].value) by {
            lemma_lookup(s, i);
        }
    }
}

/// Every listed loan-id list fits a 32-bit count.
pub fn lists_fit_u32(entries: &Vec<MapEntry<Vec<u32>>>) -> (r: bool)
    ensures
        r == forall|i: int| 0 <= i < entries@.len() ==> #[trigger] entries@[i].value@.len() <= u32::MAX,
{
    let mut i: usize = 0;
    while i < entries.len()
        invariant
            i <= entries@.len(),
            forall|j: int| 0 <= j < i ==> #[trigger] entries@[j].value@.len() <= u32::MAX,
        decreases entries@.len() - i,
    {
        if entries[i].value.len() > u32::MAX as usize {
            return false;
        }
        i = i + 1;
    }
    true
}

/// Every listed collateral configuration respects the protocol bounds.
pub fn configs_within_bounds(entries: &Vec<MapEntry<AssetCollateralConfig>>) -> (r: bool)
    ensures
        r == forall|i: int| 0 <= i < entries@.len() ==> config_in_bounds(#[trigger] entries@[i].value),
{
    let mut i: usize = 0;
    while i < entries.len()
        invariant
            i <= entries@.len(),
            forall|j: int| 0 <= j < i ==> config_in_bounds(#[trigger] entries@[j].value),
        decreases entries@.len() - i,
    {
        let c = entries[i].value;
        if c.collateral_factor_bps < MIN_COLLATERAL_FACTOR_BPS || c.collateral_factor_bps > MAX_COLLATERAL_FACTOR_BPS
            || c.volatility_bps > 10_000 {
            return false;
        }
        i = i + 1;
    }
    true
}

/// A collateral position holds one positive entry per asset.
pub fn position_valid(p: &Vec<CollateralEntry>) -> (r: bool)
    ensures
        r == collateral_position_ok(p@),
{
    let mut i: usize = 0;
    while i < p.len()
        invariant
            i <= p@.len(),
            forall|a: int| 0 <= a < i ==> #[trigger] p@[a].amount > 0,
            forall|a: int, b: int| 0 <= a < i && 0 <= b < p@.len() && a != b ==> p@[a].asset != p@[b].asset,
        decreases p@.len() - i,
    {
        if p[i].amount <= 0 {
            return false;
        }
        let mut j: usize = 0;
        while j < p.len()
            invariant
                i < p@.len(),
                j <= p@.len(),
                forall|b: int| 0 <= b < j && b != i ==> p@[i as int].asset != p@[b].asset,
            decreases p@.len() - j,
        {
            if j != i && p[i].asset == p[j].asset {
                assert(p@[i as int].asset == p@[j as int].asset);
                return false;
            }
            j = j + 1;
        }
        i = i + 1;
    }
    true
}

/// Every listed collateral position is valid and not empty.
pub fn positions_valid(entries: &Vec<MapEntry<Vec<CollateralEntry>>>) -> (r: bool)
    ensures
        r == forall|i: int|
            0 <= i < entries@.len() ==> collateral_position_ok(#[trigger] entries@[i].value@)
                && entries@[i].value@.len() > 0,
{
    let mut i: usize = 0;
    while i < entries.len()
        invariant
            i <= entries@.len(),
            forall|j: int|
                0 <= j < i ==> collateral_position_ok(#[trigger] entries@[j].value@) && entries@[j].value@.len() > 0,
        decreases entries@.len() - i,
    {
        if entries[i].value.len() == 0 || !position_valid(&entries[i].value) {
            return false;
        }
        i = i + 1;
    }
    true
}

/// Every id listed in the entries names a stored loan; with `own`, a loan
/// of the account it is listed under.
pub open spec fn entries_name_loans(entries: Seq<MapEntry<Vec<u32>>>, loans: Seq<LoanRecord>, own: bool) -> bool {
    forall|i: int, k: int|
        0 <= i < entries.len() && 0 <= k < entries[i].value@.len() ==> id_names_loan(
            loans,
            #[trigger] entries[i].value@[k],
            entries[i].key,
            own,
        )
}

/// The check on the entries is the check on the map they stand for.
pub proof fn lemma_entries_name_loans(entries: Seq<MapEntry<Vec<u32>>>, loans: Seq<LoanRecord>, own: bool)
    requires
        distinct_keys(entries),
    ensures
        entries_name_loans(entries, loans, own) <==> lists_name_loans(id_lists(entries), loans, own),
{
    let lists = id_lists(entries);
    if entries_name_loans(entries, loans, own) {
        assert forall|b: AccountId, k: int| lists.contains_key(b) && 0 <= k < lists[b].len() implies id_names_loan(
            loans,
            #[trigger] lists[b][k],
            b,
            own,
        ) by {
            lemma_key_entry(entries, b);
            let i = choose|i: int| 0 <= i < entries.len() && entries[i].key == b && #[trigger] entries[i].value == map_of(entries)[b];
            assert(entries[i].value@[k] == lists[b][k]);
        }
    }
    if lists_name_loans(lists, loans, own) {
        assert forall|i: int, k: int| 0 <= i < entries.len() && 0 <= k < entries[i].value@.len() implies id_names_loan(
            loans,
            #[trigger] entries[i].value@[k],
            entries[i].key,
            own,
        ) by {
            lemma_lookup(entries, i);
            assert(lists.contains_key(entries[i].key));
            assert(lists[entries[i].key][k] == entries[i].value@[k]);
        }
    }
}

/// Whether every listed loan id names a stored loan and, with `own`, a loan
/// of the account it is listed under.
pub fn ids_name_loans(entries: &Vec<MapEntry<Vec<u32>>>, loans: &Vec<LoanRecord>, own: bool) -> (r: bool)
    ensures
        r == entries_name_loans(entries@, loans@, own),
{
    let mut i: usize = 0;
    while i < entries.len()
        invariant
            i <= entries@.len(),
            forall|a: int, k: int|
                0 <= a < i && 0 <= k < entries@[a].value@.len() ==> id_names_loan(
                    loans@,
                    #[trigger] entries@[a].value@[k],
                    entries@[a].key,
                    own,
                ),
        decreases entries@.len() - i,
    {
        let ids = &entries[i].value;
        let owner = entries[i].key;
        let mut k: usize = 0;
        while k < ids.len()
            invariant
                i < entries@.len(),
                ids@ == entries@[i as int].value@,
                owner == entries@[i as int].key,
                k <= ids@.len(),
                forall|j: int| 0 <= j < k ==> id_names_loan(loans@, #[trigger] ids@[j], owner, own),
            decreases ids@.len() - k,
        {
            let id = ids[k];
            if id == 0 || id as usize > loans.len() {
                assert(!id_names_loan(loans@, entries@[i as int].value@[k as int], entries@[i as int].key, own));
                return false;
            }
            if own && loans[id as usize - 1].borrower != owner {
                assert(!id_names_loan(loans@, entries@[i as int].value@[k as int], entries@[i as int].key, own));
                return false;
            }
            k = k + 1;
        }
        assert forall|a: int, k2: int|
            0 <= a < i + 1 && 0 <= k2 < entries@[a].value@.len() implies id_names_loan(
            loans@,
            #[trigger] entries@[a].value@[k2],
            entries@[a].key,
            own,
        ) by {
            if a == i {
                assert(entries@[a].value@[k2] == ids@[k2]);
            }
        }
        i = i + 1;
    }
    true
}

} // verus!
