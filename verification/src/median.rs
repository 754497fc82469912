//! Median of oracle price samples, so that a single manipulated provider
//! cannot skew the valuation of a collateral asset.
use vstd::prelude::*;
use vstd::multiset::Multiset;
use vstd::relations::{sorted_by, total_ordering};
use vstd::seq_lib::{lemma_multiset_commutative, lemma_sorted_unique};
use crate::rates::{fits_i128, trunc_div};
use crate::state::LendingContract;
use crate::types::LendingError;

verus! {

/// The order in which price samples are ranked.
pub open spec fn price_leq() -> spec_fn(i128, i128) -> bool {
    |a: i128, b: i128| a <= b
}

/// The price samples in ascending order.
pub open spec fn sorted_prices(prices: Seq<i128>) -> Seq<i128> {
    prices.sort_by(price_leq())
}

/// The median of a non-empty list of samples: the middle sample in
/// ascending order for an odd count, and for an even count the mean of the
/// two middle samples rounded toward zero (`None` if their sum leaves the
/// `i128` range).
pub open spec fn median_of(prices: Seq<i128>) -> Option<int> {
    let s = sorted_prices(prices);
    let mid = prices.len() / 2;
    if prices.len() % 2 == 1 {
        Some(s[mid as int] as int)
    } else {
        let sum = s[mid - 1] + s[mid as int];
        if fits_i128(sum) {
            Some(trunc_div(sum, 2))
        } else {
            None
        }
    }
}

/// `<=` on prices is a total order.
pub proof fn lemma_price_leq_total()
    ensures
        total_ordering(price_leq()),
{
}

/// The sorted samples are a rearrangement of the samples, in ascending order.
pub proof fn lemma_sorted_prices(prices: Seq<i128>)
    ensures
        sorted_prices(prices).to_multiset() == prices.to_multiset(),
        sorted_prices(prices).len() == prices.len(),
        sorted_by(sorted_prices(prices), price_leq()),
{
    lemma_price_leq_total();
    prices.lemma_sort_by_ensures(price_leq());
    broadcast use vstd::seq_lib::group_to_multiset_ensures;

    assert(sorted_prices(prices).len() == sorted_prices(prices).to_multiset().len());
}

/// If `taken` is sorted, no element of it exceeds an element of `rest`, and
/// together they hold exactly the samples, then `taken` is the start of the
/// sorted samples.
proof fn lemma_sorted_prefix(taken: Seq<i128>, rest: Seq<i128>, prices: Seq<i128>)
    requires
        sorted_by(taken, price_leq()),
        forall|i: int, j: int| 0 <= i < taken.len() && 0 <= j < rest.len() ==> taken[i] <= rest[j],
        taken.to_multiset().add(rest.to_multiset()) == prices.to_multiset(),
    ensures
        sorted_prices(prices).len() == prices.len(),
        forall|k: int| 0 <= k < taken.len() ==> #[trigger] sorted_prices(prices)[k] == taken[k],
{
    broadcast use vstd::seq_lib::group_to_multiset_ensures;

    lemma_price_leq_total();
    lemma_sorted_prices(prices);
    lemma_sorted_prices(rest);
    let r = sorted_prices(rest);
    let full = taken + r;
    assert forall|j: int| 0 <= j < r.len() implies rest.contains(#[trigger] r[j]) by {
        assert(r.contains(r[j]));
        assert(r.to_multiset().count(r[j]) > 0);
    }
    assert forall|i: int, j: int| 0 <= i < j < full.len() implies #[trigger] (price_leq())(
        full[i],
        full[j],
    ) by {
        if j < taken.len() {
        } else if i >= taken.len() {
            assert(full[i] == r[i - taken.len()]);
            assert(full[j] == r[j - taken.len()]);
        } else {
            let x = r[j - taken.len()];
            assert(rest.contains(x));
            let jj = choose|jj: int| 0 <= jj < rest.len() && rest[jj] == x;
            assert(taken[i] <= rest[jj]);
        }
    }
    lemma_multiset_commutative(taken, r);
    lemma_sorted_unique(full, sorted_prices(prices), price_leq());
}

impl LendingContract {
    /// The median of the oracle price samples (see `median_of`).
    ///
    /// The samples are ranked by repeatedly taking out the smallest remaining
    /// one, until the middle of the list is reached.
    pub fn median_price(prices: &Vec<i128>) -> (r: Result<i128, LendingError>)
        ensures
            prices@.len() == 0 ==> r == Err::<i128, LendingError>(LendingError::NoPriceSamples),
            prices@.len() > 0 ==> match r {
                Ok(v) => median_of(prices@) == Some(v as int),
                Err(e) => e == LendingError::ArithmeticOverflow && median_of(prices@) is None,
            },
    {
        broadcast use vstd::seq_lib::group_to_multiset_ensures;

        let len = prices.len();
        if len == 0 {
            return Err(LendingError::NoPriceSamples);
        }
        let mut remaining: Vec<i128> = Vec::new();
        let mut i: usize = 0;
        while i < len
            invariant
                len == prices@.len(),
                i <= len,
                remaining@ == prices@.subrange(0, i as int),
            decreases len - i,
        {
            remaining.push(prices[i]);
            i = i + 1;
        }
        assert(remaining@ == prices@);

        let midpoint = len / 2;
        let even = len % 2 == 0;
        let mut lower: i128 = 0;
        let ghost mut taken: Seq<i128> = Seq::empty();
        let mut step: usize = 0;
        while step <= midpoint
            invariant
                len == prices@.len(),
                len > 0,
                midpoint == len / 2,
                even == (len % 2 == 0),
                step <= midpoint,
                remaining@.len() == len - step,
                taken.len() == step,
                sorted_by(taken, price_leq()),
                forall|a: int, b: int|
                    0 <= a < taken.len() && 0 <= b < remaining@.len() ==> taken[a] <= remaining@[b],
                taken.to_multiset().add(remaining@.to_multiset()) == prices@.to_multiset(),
                even && step == midpoint ==> lower == taken[midpoint - 1],
            decreases midpoint - step,
        {
            let mut min_idx: usize = 0;
            let mut min_value: i128 = remaining[0];
            let mut idx: usize = 1;
            while idx < remaining.len()
                invariant
                    min_idx < idx <= remaining@.len(),
                    min_value == remaining@[min_idx as int],
                    forall|k: int| 0 <= k < idx ==> min_value <= remaining@[k],
                decreases remaining@.len() - idx,
            {
                let value = remaining[idx];
                if value < min_value {
                    min_value = value;
                    min_idx = idx;
                }
                idx = idx + 1;
            }
            let ghost before = remaining@;
            remaining.remove(min_idx);
            proof {
                let old_taken = taken;
                taken = taken.push(min_value);
                assert(before.remove(min_idx as int) == remaining@);
                assert(before.to_multiset() =~= remaining@.to_multiset().insert(min_value)) by {
                    broadcast use vstd::multiset::group_multiset_axioms;

                    before.to_multiset_ensures();
                    assert(before.contains(before[min_idx as int]));
                }
                old_taken.to_multiset_ensures();
                assert(old_taken.push(min_value).to_multiset() =~= old_taken.to_multiset().insert(min_value));
                assert(taken.to_multiset().add(remaining@.to_multiset()) =~= prices@.to_multiset()) by {
                    broadcast use vstd::multiset::group_multiset_axioms;

                }
                assert forall|a: int, b: int|
                    0 <= a < taken.len() && 0 <= b < remaining@.len() implies taken[a]
                    <= remaining@[b] by {
                    let bb = if b < min_idx { b } else { b + 1 };
                    assert(remaining@[b] == before[bb]);
                    if a < old_taken.len() {
                    } else {
                    }
                }
                assert forall|a: int, b: int| 0 <= a < b < taken.len() implies #[trigger] (price_leq())(
                    taken[a],
                    taken[b],
                ) by {
                    if b < old_taken.len() {
                        assert((price_leq())(old_taken[a], old_taken[b]));
                    } else {
                        assert(old_taken[a] <= before[min_idx as int]);
                    }
                }
                lemma_sorted_prefix(taken, remaining@, prices@);
            }
            if !even && step == midpoint {
                return Ok(min_value);
            }
            if even {
                if step == midpoint - 1 {
                    lower = min_value;
                }
                if step == midpoint {
                    return match lower.checked_add(min_value) {
                        Some(sum) => Ok(sum / 2),
                        None => Err(LendingError::ArithmeticOverflow),
                    };
                }
            }
            step = step + 1;
        }
        proof {
            assert(false);
        }
        Err(LendingError::NoPriceSamples)
    }
}

/// The mean of two ordered values, rounded toward zero, lies between them.
proof fn lemma_mean_between(a: int, b: int)
    requires
        a <= b,
    ensures
        a <= trunc_div(a + b, 2) <= b,
{
}

/// Law: the median depends only on which samples there are, not on their
/// order.
pub proof fn law_median_ignores_order(p: Seq<i128>, q: Seq<i128>)
    requires
        p.to_multiset() == q.to_multiset(),
    ensures
        median_of(p) == median_of(q),
{
    lemma_price_leq_total();
    lemma_sorted_prices(p);
    lemma_sorted_prices(q);
    lemma_sorted_unique(sorted_prices(p), sorted_prices(q), price_leq());
}

/// Each sorted sample is one of the samples.
proof fn lemma_sorted_element(p: Seq<i128>, t: int)
    requires
        0 <= t < p.len(),
    ensures
        exists|i: int| 0 <= i < p.len() && #[trigger] p[i] == sorted_prices(p)[t],
{
    broadcast use vstd::seq_lib::group_to_multiset_ensures;

    lemma_sorted_prices(p);
    let s = sorted_prices(p);
    assert(s.contains(s[t]));
    assert(s.to_multiset().count(s[t]) > 0);
    assert(p.contains(s[t]));
}

/// Law: the median lies between the smallest and the largest sample.
pub proof fn law_median_within_samples(p: Seq<i128>)
    requires
        p.len() > 0,
        median_of(p) is Some,
    ensures
        exists|i: int, j: int|
            0 <= i < p.len() && 0 <= j < p.len() && #[trigger] p[i] <= median_of(p).unwrap() <= #[trigger] p[j],
{
    lemma_sorted_prices(p);
    let s = sorted_prices(p);
    let n = p.len() as int;
    let m = median_of(p).unwrap();
    lemma_sorted_element(p, 0);
    lemma_sorted_element(p, n - 1);
    let i = choose|i: int| 0 <= i < p.len() && p[i] == sorted_prices(p)[0];
    let j = choose|j: int| 0 <= j < p.len() && p[j] == sorted_prices(p)[n - 1];
    let mid = n / 2;
    assert((price_leq())(s[0], s[mid]) || mid == 0);
    assert((price_leq())(s[mid], s[n - 1]) || mid == n - 1);
    if n % 2 == 0 {
        assert((price_leq())(s[0], s[mid - 1]) || mid - 1 == 0);
        assert((price_leq())(s[mid - 1], s[mid]));
        lemma_mean_between(s[mid - 1] as int, s[mid] as int);
    }
    assert(p[i] <= m <= p[j]);
}

/// `r` is a place in `h` where `x` can go: everything before it is smaller
/// than `x`, everything from it on at least `x`.
spec fn insert_position(h: Seq<i128>, x: i128, r: int) -> bool {
    0 <= r <= h.len() && (forall|i: int| 0 <= i < r ==> #[trigger] h[i] < x) && (forall|i: int|
        r <= i < h.len() ==> x <= #[trigger] h[i])
}

/// Sorted samples have a place where any value can go.
proof fn lemma_insert_position(h: Seq<i128>, x: i128)
    requires
        sorted_by(h, price_leq()),
    ensures
        exists|r: int| #[trigger] insert_position(h, x, r),
    decreases h.len(),
{
    if h.len() > 0 {
        let pre = h.drop_last();
        assert(sorted_by(pre, price_leq())) by {
            assert forall|i: int, j: int| 0 <= i < j < pre.len() implies #[trigger] (price_leq())(
                pre[i],
                pre[j],
            ) by {
                assert((price_leq())(h[i], h[j]));
            }
        }
        lemma_insert_position(pre, x);
        let r0 = choose|r: int| #[trigger] insert_position(pre, x, r);
        let last = h.len() - 1;
        if r0 < pre.len() {
            assert((price_leq())(h[r0], h[last]));
            assert(forall|i: int| 0 <= i < r0 ==> #[trigger] h[i] == pre[i]);
            assert forall|i: int| r0 <= i < h.len() implies x <= #[trigger] h[i] by {
                if i < last {
                    assert(h[i] == pre[i]);
                } else {
                    assert(pre[r0] == h[r0]);
                    assert(x <= pre[r0]);
                }
            }
            assert(insert_position(h, x, r0));
        } else if x <= h[last] {
            assert(forall|i: int| 0 <= i < last ==> #[trigger] h[i] == pre[i]);
            assert(insert_position(h, x, last));
        } else {
            assert(forall|i: int| 0 <= i < last ==> #[trigger] h[i] == pre[i]);
            assert(insert_position(h, x, h.len() as int));
        }
    } else {
        assert(insert_position(h, x, 0));
    }
}

/// Every sorted position other than the two ends of the samples holds a
/// value within the range of the samples other than the one at `k`.
proof fn lemma_inner_ranks_within_rest(q: Seq<i128>, k: int, t: int)
    requires
        q.len() >= 3,
        0 <= k < q.len(),
        1 <= t <= q.len() - 2,
    ensures
        exists|i: int, j: int|
            0 <= i < q.len() && 0 <= j < q.len() && i != k && j != k && #[trigger] q[i] <= sorted_prices(q)[t]
                <= #[trigger] q[j],
{
    broadcast use vstd::seq_lib::group_to_multiset_ensures;
    broadcast use vstd::multiset::group_multiset_axioms;

    lemma_price_leq_total();
    let x = q[k];
    let rest = q.remove(k);
    lemma_sorted_prices(rest);
    lemma_sorted_prices(q);
    let h = sorted_prices(rest);
    lemma_insert_position(h, x);
    let r = choose|r: int| #[trigger] insert_position(h, x, r);
    let full = h.subrange(0, r) + seq![x] + h.subrange(r, h.len() as int);
    assert(sorted_by(full, price_leq())) by {
        assert forall|a: int, b: int| 0 <= a < b < full.len() implies #[trigger] (price_leq())(
            full[a],
            full[b],
        ) by {
            if b < r {
                assert((price_leq())(h[a], h[b]));
            } else if b == r {
                assert(full[a] == h[a]);
            } else if a < r {
                assert(full[a] == h[a]);
                assert(full[b] == h[b - 1]);
                assert((price_leq())(h[a], h[b - 1]));
            } else if a == r {
                assert(full[b] == h[b - 1]);
            } else {
                assert(full[a] == h[a - 1]);
                assert(full[b] == h[b - 1]);
                assert((price_leq())(h[a - 1], h[b - 1]));
            }
        }
    }
    assert(full.to_multiset() == q.to_multiset()) by {
        let a = h.subrange(0, r);
        let b = h.subrange(r, h.len() as int);
        q.to_multiset_ensures();
        assert(rest.to_multiset() =~= q.to_multiset().remove(x));
        assert(h.to_multiset() == rest.to_multiset());
        assert(a + b == h);
        lemma_multiset_commutative(a, b);
        lemma_multiset_commutative(a + seq![x], b);
        lemma_multiset_commutative(a, seq![x]);
        assert(seq![x].to_multiset() =~= Multiset::<i128>::empty().insert(x)) by {
            assert(seq![x] == Seq::<i128>::empty().push(x));
            Seq::<i128>::empty().to_multiset_ensures();
        }
        assert(full.to_multiset() =~= h.to_multiset().insert(x));
        assert(q.contains(q[k]));
        assert(q.to_multiset().count(x) > 0);
        assert(q.to_multiset().remove(x).insert(x) =~= q.to_multiset());
    }
    lemma_sorted_unique(full, sorted_prices(q), price_leq());
    let s = sorted_prices(q);
    let hn = h.len() as int;
    assert(hn == q.len() - 1);
    // Both ends of `h` are samples other than the one at `k`.
    assert forall|u: int| #![trigger h[u]] 0 <= u < hn implies exists|i: int| 0 <= i < q.len() && i != k && #[trigger] q[i] == h[u] by {
        lemma_sorted_element(rest, u);
        let i = choose|i: int| 0 <= i < rest.len() && rest[i] == sorted_prices(rest)[u];
        if i < k {
            assert(q[i] == rest[i]);
        } else {
            assert(q[i + 1] == rest[i]);
        }
    }
    assert(exists|i: int| 0 <= i < q.len() && i != k && #[trigger] q[i] == h[0]);
    assert(exists|i: int| 0 <= i < q.len() && i != k && #[trigger] q[i] == h[hn - 1]);
    let i0 = choose|i: int| 0 <= i < q.len() && i != k && #[trigger] q[i] == h[0];
    let j0 = choose|i: int| 0 <= i < q.len() && i != k && #[trigger] q[i] == h[hn - 1];
    if t < r {
        assert(s[t] == h[t]);
        assert((price_leq())(h[0], h[t]) || t == 0);
        assert((price_leq())(h[t], h[hn - 1]) || t == hn - 1);
    } else if t == r {
        assert(s[t] == x);
        assert(h[t - 1] < x);
        assert(x <= h[t]);
        assert((price_leq())(h[0], h[t - 1]) || t - 1 == 0);
        assert((price_leq())(h[t], h[hn - 1]) || t == hn - 1);
    } else {
        assert(s[t] == h[t - 1]);
        assert((price_leq())(h[0], h[t - 1]) || t - 1 == 0);
        assert((price_leq())(h[t - 1], h[hn - 1]) || t - 1 == hn - 1);
    }
    assert(q[i0] <= s[t] <= q[j0]);
}

/// Law: with at least three samples, one manipulated sample cannot move the
/// median outside the range of the other samples.
pub proof fn law_median_resists_one_outlier(q: Seq<i128>, k: int)
    requires
        q.len() >= 3,
        0 <= k < q.len(),
        median_of(q) is Some,
    ensures
        exists|i: int, j: int|
            0 <= i < q.len() && 0 <= j < q.len() && i != k && j != k && #[trigger] q[i] <= median_of(q).unwrap()
                <= #[trigger] q[j],
{
    lemma_sorted_prices(q);
    let s = sorted_prices(q);
    let n = q.len() as int;
    let mid = n / 2;
    if n % 2 == 1 {
        lemma_inner_ranks_within_rest(q, k, mid);
    } else {
        lemma_inner_ranks_within_rest(q, k, mid - 1);
        lemma_inner_ranks_within_rest(q, k, mid);
        let (i, j1) = choose|i: int, j: int|
            0 <= i < q.len() && 0 <= j < q.len() && i != k && j != k && #[trigger] q[i] <= s[mid - 1]
                <= #[trigger] q[j];
        let (i2, j) = choose|i: int, j: int|
            0 <= i < q.len() && 0 <= j < q.len() && i != k && j != k && #[trigger] q[i] <= s[mid]
                <= #[trigger] q[j];
        assert((price_leq())(s[mid - 1], s[mid]));
        lemma_mean_between(s[mid - 1] as int, s[mid] as int);
        assert(q[i] <= median_of(q).unwrap() <= q[j]);
    }
}

/// Law: the median of samples listed in ascending order is the middle
/// sample for an odd count, and for an even count the mean of the two middle
/// samples, rounded toward zero (refused only when their sum overflows).
/// Together with `law_median_ignores_order` this fixes the median of any
/// list of samples.
pub proof fn law_median_of_ascending(p: Seq<i128>)
    requires
        p.len() > 0,
        forall|i: int, j: int| 0 <= i < j < p.len() ==> p[i] <= p[j],
    ensures
        p.len() % 2 == 1 ==> median_of(p) == Some(p[p.len() as int / 2] as int),
        p.len() % 2 == 0 && fits_i128(p[p.len() as int / 2 - 1] + p[p.len() as int / 2]) ==> median_of(p) == Some(
            trunc_div(p[p.len() as int / 2 - 1] + p[p.len() as int / 2], 2),
        ),
        p.len() % 2 == 0 && !fits_i128(p[p.len() as int / 2 - 1] + p[p.len() as int / 2]) ==> median_of(p) is None,
{
    lemma_price_leq_total();
    lemma_sorted_prices(p);
    assert(sorted_by(p, price_leq())) by {
        assert forall|i: int, j: int| 0 <= i < j < p.len() implies #[trigger] (price_leq())(p[i], p[j]) by {}
    }
    lemma_sorted_unique(sorted_prices(p), p, price_leq());
}

} // verus!
