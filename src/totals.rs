//! The stake held across the whole registry, as a sum over its records.

use vstd::prelude::*;
use vstd::set::fold::{is_fun_commutative, lemma_fold_insert};
use crate::staking::{StakeView, lemma_sum_nonneg};
use crate::types::AccountId;

verus! {

broadcast use vstd::set::group_set_axioms;

/// Sum of `total()` over the records of `m`.
pub open spec fn staked_sum(m: Map<AccountId, StakeView>) -> int {
    m.dom().fold(0int, |acc: int, k: AccountId| acc + m[k].total())
}

/// Folding two step functions that agree on every element gives one result.
proof fn lemma_fold_agree(
    s: Set<AccountId>,
    f1: spec_fn(int, AccountId) -> int,
    f2: spec_fn(int, AccountId) -> int,
)
    requires
        s.finite(),
        is_fun_commutative(f1),
        is_fun_commutative(f2),
        forall|acc: int, k: AccountId| s.contains(k) ==> #[trigger] f1(acc, k) == f2(acc, k),
    ensures
        s.fold(0int, f1) == s.fold(0int, f2),
    decreases s.len(),
{
    if s.len() == 0 {
        assert(s =~= Set::<AccountId>::empty());
        vstd::set::fold::lemma_fold_empty(0int, f1);
        vstd::set::fold::lemma_fold_empty(0int, f2);
    } else {
        let k = s.choose();
        let rest = s.remove(k);
        lemma_fold_agree(rest, f1, f2);
        assert(rest.insert(k) =~= s);
        lemma_fold_insert(rest, 0int, f1, k);
        lemma_fold_insert(rest, 0int, f2, k);
    }
}

/// The registry's sum splits into one record and the rest.
pub proof fn lemma_staked_sum_remove(m: Map<AccountId, StakeView>, k: AccountId)
    requires
        m.dom().finite(),
        m.dom().contains(k),
    ensures
        staked_sum(m) == staked_sum(m.remove(k)) + m[k].total(),
{
    let f = |acc: int, a: AccountId| acc + m[a].total();
    let r = m.remove(k);
    let g = |acc: int, a: AccountId| acc + r[a].total();
    assert(is_fun_commutative(f));
    assert(is_fun_commutative(g));
    assert(r.dom() =~= m.dom().remove(k));
    lemma_fold_agree(r.dom(), f, g);
    assert(r.dom().insert(k) =~= m.dom());
    lemma_fold_insert(r.dom(), 0int, f, k);
}

/// Storing `e` under `k` replaces what `k` held in the sum.
pub proof fn lemma_staked_sum_insert(m: Map<AccountId, StakeView>, k: AccountId, e: StakeView)
    requires
        m.dom().finite(),
    ensures
        staked_sum(m.insert(k, e)) == staked_sum(m.remove(k)) + e.total(),
{
    lemma_staked_sum_remove(m.insert(k, e), k);
    assert(m.insert(k, e).remove(k) =~= m.remove(k));
}

/// The registry's sum is not negative, and holds each record's stake.
pub proof fn lemma_staked_sum_bound(m: Map<AccountId, StakeView>, k: AccountId)
    requires
        m.dom().finite(),
        m.dom().contains(k),
    ensures
        0 <= m[k].total() <= staked_sum(m),
{
    lemma_staked_sum_nonneg(m.remove(k));
    lemma_staked_sum_remove(m, k);
    lemma_sum_nonneg(m[k].delegators);
}

/// The registry's sum is not negative.
pub proof fn lemma_staked_sum_nonneg(m: Map<AccountId, StakeView>)
    requires
        m.dom().finite(),
    ensures
        0 <= staked_sum(m),
    decreases m.dom().len(),
{
    if m.dom().len() == 0 {
        let f = |acc: int, a: AccountId| acc + m[a].total();
        assert(m.dom() =~= Set::<AccountId>::empty());
        vstd::set::fold::lemma_fold_empty(0int, f);
    } else {
        let k = m.dom().choose();
        lemma_staked_sum_remove(m, k);
        lemma_staked_sum_nonneg(m.remove(k));
        lemma_sum_nonneg(m[k].delegators);
    }
}

/// Sum of `total()` over the records of `m` under the accounts `ks`, in order.
pub open spec fn listed_sum(ks: Seq<AccountId>, m: Map<AccountId, StakeView>) -> int
    decreases ks.len(),
{
    if ks.len() == 0 {
        0
    } else {
        listed_sum(ks.drop_last(), m) + m[ks.last()].total()
    }
}

/// Listing every account of the registry once, in any order, gives the
/// registry's sum.
pub proof fn lemma_listed_sum(ks: Seq<AccountId>, m: Map<AccountId, StakeView>)
    requires
        ks.no_duplicates(),
        ks.to_set() == m.dom(),
    ensures
        listed_sum(ks, m) == staked_sum(m),
{
    let f = |acc: int, k: AccountId| acc + m[k].total();
    assert(is_fun_commutative(f));
    lemma_listed_fold(ks, m);
}

proof fn lemma_listed_fold(ks: Seq<AccountId>, m: Map<AccountId, StakeView>)
    requires
        ks.no_duplicates(),
    ensures
        listed_sum(ks, m) == ks.to_set().fold(0int, |acc: int, k: AccountId| acc + m[k].total()),
    decreases ks.len(),
{
    let f = |acc: int, k: AccountId| acc + m[k].total();
    assert(is_fun_commutative(f));
    if ks.len() == 0 {
        assert(ks.to_set() =~= Set::<AccountId>::empty());
        vstd::set::fold::lemma_fold_empty(0int, f);
    } else {
        let rest = ks.drop_last();
        let k = ks.last();
        assert(rest.no_duplicates()) by {
            assert forall|i: int, j: int| 0 <= i < rest.len() && 0 <= j < rest.len() && i != j
                implies rest[i] != rest[j] by {
                assert(ks[i] != ks[j]);
            }
        }
        lemma_listed_fold(rest, m);
        assert(ks.to_set() =~= rest.to_set().insert(k)) by {
            assert forall|a: AccountId| ks.to_set().contains(a) <==> rest.to_set().insert(k).contains(a) by {
                if ks.contains(a) && a != k {
                    let i = choose|i: int| 0 <= i < ks.len() && ks[i] == a;
                    assert(rest[i] == a);
                }
                if rest.contains(a) {
                    let i = choose|i: int| 0 <= i < rest.len() && rest[i] == a;
                    assert(ks[i] == a);
                }
                assert(ks[ks.len() - 1] == k);
            }
        }
        assert(!rest.to_set().contains(k)) by {
            if rest.contains(k) {
                let i = choose|i: int| 0 <= i < rest.len() && rest[i] == k;
                assert(ks[i] == ks[ks.len() - 1]);
            }
        }
        lemma_fold_insert(rest.to_set(), 0int, f, k);
    }
}

} // verus!
