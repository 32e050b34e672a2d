//! One validator's stake record: its self-stake, commission and the ordered
//! list of its delegators, with the rules for adding and removing stake.

use vstd::prelude::*;
use crate::types::{AccountId, Balance, MAX_BALANCE, sat_add};

verus! {

/// Stake record of one validator account.
#[derive(Clone, Debug, PartialEq, Eq)]
pub struct StakingInfo {
    /// Stake the validator placed on itself.
    pub staked: Balance,
    /// Accounts that delegated to this validator, with their amounts, in the
    /// order they first delegated.
    pub delegators: Vec<(AccountId, Balance)>,
    /// Share of each reward kept by the validator, in percent.
    pub commission: u8,
    /// Whether the account accepts stake.
    pub is_validator: bool,
}

/// Mathematical model of a `StakingInfo`.
pub struct StakeView {
    pub staked: Balance,
    pub delegators: Seq<(AccountId, Balance)>,
    pub commission: u8,
    pub is_validator: bool,
}

impl View for StakingInfo {
    type V = StakeView;

    open spec fn view(&self) -> StakeView {
        StakeView {
            staked: self.staked,
            delegators: self.delegators@,
            commission: self.commission,
            is_validator: self.is_validator,
        }
    }
}

/// Sum of the delegated amounts.
pub open spec fn delegated_sum(ds: Seq<(AccountId, Balance)>) -> int
    decreases ds.len(),
{
    if ds.len() == 0 {
        0
    } else {
        delegated_sum(ds.drop_last()) + ds.last().1
    }
}

/// Position of `who` among the delegators, or -1.
pub open spec fn index_of(ds: Seq<(AccountId, Balance)>, who: AccountId) -> int {
    if exists|i: int| 0 <= i < ds.len() && (#[trigger] ds[i]).0 == who {
        choose|i: int| 0 <= i < ds.len() && (#[trigger] ds[i]).0 == who
    } else {
        -1
    }
}

/// Well-formed delegator list of the validator `owner`: every amount is
/// positive, no account appears twice, and the owner does not appear.
pub open spec fn delegators_wf(ds: Seq<(AccountId, Balance)>, owner: AccountId) -> bool {
    &&& forall|i: int| 0 <= i < ds.len() ==> (#[trigger] ds[i]).1 > 0
    &&& forall|i: int| 0 <= i < ds.len() ==> (#[trigger] ds[i]).0 != owner
    &&& forall|i: int, j: int| 0 <= i < j < ds.len() ==> (#[trigger] ds[i]).0 != (#[trigger] ds[j]).0
}

impl StakeView {
    /// Well-formed record stored under the account `owner`.
    pub open spec fn wf(self, owner: AccountId) -> bool {
        &&& self.commission <= 100
        &&& delegators_wf(self.delegators, owner)
    }

    /// All stake held by the record: self-stake plus delegations.
    pub open spec fn total(self) -> int {
        self.staked + delegated_sum(self.delegators)
    }

    /// Delegator list after `who` delegates `amount` more: its amount grows
    /// (saturating), or it is appended.
    pub open spec fn delegate(self, who: AccountId, amount: Balance) -> Seq<(AccountId, Balance)> {
        let i = index_of(self.delegators, who);
        if i >= 0 {
            self.delegators.update(i, (who, sat_add(self.delegators[i].1 as int, amount as int)))
        } else {
            self.delegators.push((who, amount))
        }
    }

    /// Record after `who` stakes `amount` on the validator `validator` that
    /// owns it.
    pub open spec fn staked_by(self, who: AccountId, validator: AccountId, amount: Balance) -> StakeView {
        if who == validator {
            StakeView {
                staked: sat_add(self.staked as int, amount as int),
                delegators: self.delegators,
                commission: self.commission,
                is_validator: self.is_validator,
            }
        } else {
            StakeView {
                staked: self.staked,
                delegators: self.delegate(who, amount),
                commission: self.commission,
                is_validator: self.is_validator,
            }
        }
    }

    /// Whether `who` has at least `amount` staked in this record of `validator`.
    pub open spec fn can_unstake(self, who: AccountId, validator: AccountId, amount: Balance) -> bool {
        if who == validator {
            self.staked >= amount
        } else {
            let i = index_of(self.delegators, who);
            i >= 0 && self.delegators[i].1 >= amount
        }
    }

    /// Record after `who` takes `amount` back; a delegation that reaches zero
    /// is removed, keeping the order of the others.
    pub open spec fn unstaked_by(self, who: AccountId, validator: AccountId, amount: Balance) -> StakeView {
        if who == validator {
            StakeView {
                staked: (self.staked - amount) as Balance,
                delegators: self.delegators,
                commission: self.commission,
                is_validator: self.is_validator,
            }
        } else {
            let i = index_of(self.delegators, who);
            StakeView {
                staked: self.staked,
                delegators: if self.delegators[i].1 == amount {
                    self.delegators.remove(i)
                } else {
                    self.delegators.update(i, (who, (self.delegators[i].1 - amount) as Balance))
                },
                commission: self.commission,
                is_validator: self.is_validator,
            }
        }
    }
}

/// In a list without repeated accounts, the position of an account is the
/// one it is found at.
pub proof fn lemma_index_of_unique(ds: Seq<(AccountId, Balance)>, j: int)
    requires
        0 <= j < ds.len(),
        forall|a: int, b: int| 0 <= a < b < ds.len() ==> (#[trigger] ds[a]).0 != (#[trigger] ds[b]).0,
    ensures
        index_of(ds, ds[j].0) == j,
{
    let who = ds[j].0;
    assert(0 <= j < ds.len() && ds[j].0 == who);
    let i = index_of(ds, who);
    assert(0 <= i < ds.len() && ds[i].0 == who);
    if i < j {
        assert(ds[i].0 != ds[j].0);
    } else if j < i {
        assert(ds[j].0 != ds[i].0);
    }
}

/// An account not in the list has no position.
pub proof fn lemma_index_of_absent(ds: Seq<(AccountId, Balance)>, who: AccountId)
    requires
        forall|i: int| 0 <= i < ds.len() ==> (#[trigger] ds[i]).0 != who,
    ensures
        index_of(ds, who) == -1,
{
}

/// The sum grows by the appended amount.
pub proof fn lemma_sum_push(ds: Seq<(AccountId, Balance)>, x: (AccountId, Balance))
    ensures
        delegated_sum(ds.push(x)) == delegated_sum(ds) + x.1,
{
    assert(ds.push(x).drop_last() =~= ds);
}

/// The sum of a prefix one longer adds the next amount.
pub proof fn lemma_sum_take(ds: Seq<(AccountId, Balance)>, i: int)
    requires
        0 <= i < ds.len(),
    ensures
        delegated_sum(ds.take(i + 1)) == delegated_sum(ds.take(i)) + ds[i].1,
{
    assert(ds.take(i + 1).drop_last() =~= ds.take(i));
}

/// Replacing one amount changes the sum by the difference.
pub proof fn lemma_sum_update(ds: Seq<(AccountId, Balance)>, i: int, x: (AccountId, Balance))
    requires
        0 <= i < ds.len(),
    ensures
        delegated_sum(ds.update(i, x)) == delegated_sum(ds) - ds[i].1 + x.1,
    decreases ds.len(),
{
    if i == ds.len() - 1 {
        assert(ds.update(i, x).drop_last() =~= ds.drop_last());
    } else {
        lemma_sum_update(ds.drop_last(), i, x);
        assert(ds.update(i, x).drop_last() =~= ds.drop_last().update(i, x));
    }
}

/// Removing one entry takes its amount off the sum.
pub proof fn lemma_sum_remove(ds: Seq<(AccountId, Balance)>, i: int)
    requires
        0 <= i < ds.len(),
    ensures
        delegated_sum(ds.remove(i)) == delegated_sum(ds) - ds[i].1,
    decreases ds.len(),
{
    if i == ds.len() - 1 {
        assert(ds.remove(i) =~= ds.drop_last());
    } else {
        lemma_sum_remove(ds.drop_last(), i);
        assert(ds.remove(i).drop_last() =~= ds.drop_last().remove(i));
    }
}

/// Every amount is at most the sum, and the sum is not negative.
pub proof fn lemma_sum_bounds(ds: Seq<(AccountId, Balance)>, i: int)
    requires
        0 <= i < ds.len(),
    ensures
        0 <= ds[i].1 <= delegated_sum(ds),
    decreases ds.len(),
{
    lemma_sum_nonneg(ds.drop_last());
    if i < ds.len() - 1 {
        lemma_sum_bounds(ds.drop_last(), i);
    }
}

/// The sum of amounts is not negative.
pub proof fn lemma_sum_nonneg(ds: Seq<(AccountId, Balance)>)
    ensures
        0 <= delegated_sum(ds),
    decreases ds.len(),
{
    if ds.len() > 0 {
        lemma_sum_nonneg(ds.drop_last());
    }
}

/// Staking a positive amount keeps a record well formed; where no amount
/// saturates, the record's stake grows by exactly that amount.
pub proof fn lemma_staked_by(e: StakeView, owner: AccountId, who: AccountId, amount: Balance)
    requires
        e.wf(owner),
        amount > 0,
    ensures
        e.staked_by(who, owner, amount).wf(owner),
        e.staked_by(who, owner, amount).commission == e.commission,
        e.staked_by(who, owner, amount).is_validator == e.is_validator,
        e.total() + amount <= MAX_BALANCE ==> e.staked_by(who, owner, amount).total() == e.total()
            + amount,
{
    let ds = e.delegators;
    lemma_sum_nonneg(ds);
    if who != owner {
        let i = index_of(ds, who);
        if i >= 0 {
            assert(0 <= i < ds.len() && ds[i].0 == who);
            lemma_sum_bounds(ds, i);
            lemma_sum_update(ds, i, (who, sat_add(ds[i].1 as int, amount as int)));
            let nds = e.delegate(who, amount);
            assert forall|a: int, b: int| 0 <= a < b < nds.len() implies (#[trigger] nds[a]).0
                != (#[trigger] nds[b]).0 by {
                assert(ds[a].0 != ds[b].0);
            }
        } else {
            assert(forall|j: int| 0 <= j < ds.len() ==> (#[trigger] ds[j]).0 != who);
            lemma_sum_push(ds, (who, amount));
        }
    }
}

/// Unstaking keeps a record well formed and takes exactly the amount off
/// its stake.
pub proof fn lemma_unstaked_by(e: StakeView, owner: AccountId, who: AccountId, amount: Balance)
    requires
        e.wf(owner),
        e.can_unstake(who, owner, amount),
    ensures
        e.unstaked_by(who, owner, amount).wf(owner),
        e.unstaked_by(who, owner, amount).commission == e.commission,
        e.unstaked_by(who, owner, amount).is_validator == e.is_validator,
        e.unstaked_by(who, owner, amount).total() == e.total() - amount,
        amount <= e.total(),
{
    let ds = e.delegators;
    lemma_sum_nonneg(ds);
    if who != owner {
        let i = index_of(ds, who);
        assert(0 <= i < ds.len() && ds[i].0 == who);
        let nds = e.unstaked_by(who, owner, amount).delegators;
        lemma_sum_bounds(ds, i);
        if ds[i].1 == amount {
            lemma_sum_remove(ds, i);
            assert forall|a: int, b: int| 0 <= a < b < nds.len() implies (#[trigger] nds[a]).0
                != (#[trigger] nds[b]).0 by {
                if a < i {
                    if b < i {
                        assert(ds[a].0 != ds[b].0);
                    } else {
                        assert(ds[a].0 != ds[b + 1].0);
                    }
                } else {
                    assert(ds[a + 1].0 != ds[b + 1].0);
                }
            }
            assert forall|j: int| 0 <= j < nds.len() implies (#[trigger] nds[j]).1 > 0
                && nds[j].0 != owner by {
                if j >= i {
                    assert(nds[j] == ds[j + 1]);
                }
            }
        } else {
            lemma_sum_update(ds, i, (who, (ds[i].1 - amount) as Balance));
            assert forall|a: int, b: int| 0 <= a < b < nds.len() implies (#[trigger] nds[a]).0
                != (#[trigger] nds[b]).0 by {
                assert(ds[a].0 != ds[b].0);
            }
        }
    }
}

/// Position of `who` among `ds`, if it is there.
pub fn find_delegator(ds: &Vec<(AccountId, Balance)>, who: AccountId) -> (r: Option<usize>)
    ensures
        match r {
            Some(i) => i < ds@.len() && ds@[i as int].0 == who && forall|j: int|
                0 <= j < i ==> (#[trigger] ds@[j]).0 != who,
            None => forall|j: int| 0 <= j < ds@.len() ==> (#[trigger] ds@[j]).0 != who,
        },
{
    let mut i: usize = 0;
    while i < ds.len()
        invariant
            i <= ds@.len(),
            forall|j: int| 0 <= j < i ==> (#[trigger] ds@[j]).0 != who,
        decreases ds@.len() - i,
    {
        if ds[i].0 == who {
            return Some(i);
        }
        i = i + 1;
    }
    None
}

impl StakingInfo {
    /// A fresh validator record: no stake, no delegators.
    pub fn new_validator(commission: u8) -> (r: StakingInfo)
        ensures
            r@.staked == 0,
            r@.delegators == Seq::<(AccountId, Balance)>::empty(),
            r@.commission == commission,
            r@.is_validator,
    {
        StakingInfo { staked: 0, delegators: Vec::new(), commission, is_validator: true }
    }

    /// Adds `amount` staked by `who` to this record of `validator`.
    pub fn add_stake(&mut self, who: AccountId, validator: AccountId, amount: Balance)
        requires
            delegators_wf(old(self)@.delegators, validator),
        ensures
            final(self)@ == old(self)@.staked_by(who, validator, amount),
    {
        if who == validator {
            self.staked = self.staked.saturating_add(amount);
        } else {
            match find_delegator(&self.delegators, who) {
                Some(i) => {
                    proof {
                        lemma_index_of_unique(self.delegators@, i as int);
                    }
                    let cur = self.delegators[i].1;
                    self.delegators.set(i, (who, cur.saturating_add(amount)));
                },
                None => {
                    proof {
                        lemma_index_of_absent(self.delegators@, who);
                    }
                    self.delegators.push((who, amount));
                },
            }
        }
    }

    /// Whether `who` has at least `amount` staked in this record of `validator`.
    pub fn has_stake(&self, who: AccountId, validator: AccountId, amount: Balance) -> (r: bool)
        requires
            delegators_wf(self@.delegators, validator),
        ensures
            r == self@.can_unstake(who, validator, amount),
    {
        if who == validator {
            self.staked >= amount
        } else {
            match find_delegator(&self.delegators, who) {
                Some(i) => {
                    proof {
                        lemma_index_of_unique(self.delegators@, i as int);
                    }
                    self.delegators[i].1 >= amount
                },
                None => {
                    proof {
                        lemma_index_of_absent(self.delegators@, who);
                    }
                    false
                },
            }
        }
    }

    /// Takes `amount` staked by `who` off this record of `validator`.
    pub fn remove_stake(&mut self, who: AccountId, validator: AccountId, amount: Balance)
        requires
            delegators_wf(old(self)@.delegators, validator),
            old(self)@.can_unstake(who, validator, amount),
        ensures
            final(self)@ == old(self)@.unstaked_by(who, validator, amount),
    {
        if who == validator {
            self.staked = self.staked - amount;
        } else {
            match find_delegator(&self.delegators, who) {
                Some(i) => {
                    proof {
                        lemma_index_of_unique(self.delegators@, i as int);
                    }
                    let left = self.delegators[i].1 - amount;
                    if left == 0 {
                        self.delegators.remove(i);
                    } else {
                        self.delegators.set(i, (who, left));
                    }
                },
                None => {
                    proof {
                        lemma_index_of_absent(self.delegators@, who);
                    }
                },
            }
        }
    }
}

} // verus!
