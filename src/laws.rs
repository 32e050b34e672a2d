//! Properties that relate several operations of the ledger.

use vstd::prelude::*;
use crate::currency::Currency;
use crate::pallet::{LedgerView, distribute_step, stake_step, unstake_step};
use crate::rewards::payout;
use crate::staking::{StakeView, index_of, lemma_index_of_unique, lemma_staked_by};
use crate::types::{AccountId, Balance, MAX_BALANCE, sat_add};

verus! {

/// Staking `amount` on a record and then taking `amount` back, by the same
/// account, hands back what was staked: the record is as before when no
/// amount in it saturated.
pub proof fn lemma_record_round_trip(e: StakeView, who: AccountId, validator: AccountId, amount: Balance)
    requires
        e.wf(validator),
        amount > 0,
    ensures
        e.staked_by(who, validator, amount).can_unstake(who, validator, amount),
        who != validator && index_of(e.delegators, who) < 0 ==> e.staked_by(
            who,
            validator,
            amount,
        ).unstaked_by(who, validator, amount).delegators == e.delegators,
        e.total() + amount <= MAX_BALANCE ==> e.staked_by(who, validator, amount).unstaked_by(
            who,
            validator,
            amount,
        ) == e,
{
    lemma_staked_by(e, validator, who, amount);
    let e1 = e.staked_by(who, validator, amount);
    let ds = e.delegators;
    let ds1 = e1.delegators;
    if who != validator {
        let i = index_of(ds, who);
        if i >= 0 {
            assert(0 <= i < ds.len() && ds[i].0 == who);
            lemma_index_of_unique(ds1, i);
            if e.total() + amount <= MAX_BALANCE {
                crate::staking::lemma_sum_bounds(ds, i);
                assert(e1.unstaked_by(who, validator, amount).delegators =~= ds);
            }
        } else {
            lemma_index_of_unique(ds1, ds.len() as int);
            assert(ds1.remove(ds.len() as int) =~= ds);
        }
    } else {
        crate::staking::lemma_sum_nonneg(ds);
    }
}

/// Staking `amount` and at once unstaking `amount`, by the same account on
/// the same validator, succeeds and restores every account's spendable and
/// reserved balance. A first delegation leaves no entry behind; where the
/// additions did not saturate, the registry and the stake total are as
/// before.
pub proof fn lemma_stake_unstake_round_trip<C: Currency>(
    s0: LedgerView<C>,
    s1: LedgerView<C>,
    s2: LedgerView<C>,
    who: AccountId,
    validator: AccountId,
    amount: Balance,
    r1: Result<(), crate::types::DispatchError>,
    r2: Result<(), crate::types::DispatchError>,
)
    requires
        s0.wf(),
        stake_step(s0, s1, who, validator, amount, r1),
        r1 is Ok,
        unstake_step(s1, s2, who, validator, amount, r2),
    ensures
        r2 is Ok,
        forall|a: AccountId| #[trigger] s2.currency.free_of(a) == s0.currency.free_of(a),
        forall|a: AccountId| #[trigger] s2.currency.reserved_of(a) == s0.currency.reserved_of(a),
        s2 == s0.with_registry(s2.staking, s2.total_staked).with_currency(s2.currency),
        who != validator && index_of(s0.staking[validator].delegators, who) < 0 ==> index_of(
            s2.staking[validator].delegators,
            who,
        ) < 0,
        s0.total_staked + amount <= MAX_BALANCE ==> s2.total_staked == s0.total_staked,
        s0.staking[validator].total() + amount <= MAX_BALANCE ==> s2.staking == s0.staking,
{
    let e = s0.staking[validator];
    assert(s0.staking.contains_key(validator));
    lemma_record_round_trip(e, who, validator, amount);
    assert(s1.staking[validator] == e.staked_by(who, validator, amount));
    assert(s2.staking =~= s0.staking.insert(
        validator,
        e.staked_by(who, validator, amount).unstaked_by(who, validator, amount),
    ));
    if e.total() + amount <= MAX_BALANCE {
        assert(s2.staking =~= s0.staking);
    }
    if who != validator && index_of(e.delegators, who) < 0 {
        assert(forall|j: int|
            0 <= j < e.delegators.len() ==> (#[trigger] e.delegators[j]).0 != who);
    }
}

/// Distributing the same rewards twice pays every account twice: the
/// registry is left as it was, so the second call credits each account
/// the same payout again. Where no balance reaches the largest value, each
/// account's gain is exactly double that of one call.
pub proof fn lemma_distribute_twice<C: Currency>(
    s0: LedgerView<C>,
    s1: LedgerView<C>,
    s2: LedgerView<C>,
    validator: AccountId,
    rewards: Balance,
)
    requires
        distribute_step(s0, s1, validator, rewards),
        distribute_step(s1, s2, validator, rewards),
    ensures
        s2 == s0.with_currency(s2.currency),
        s0.staking.contains_key(validator) ==> forall|a: AccountId| #[trigger]
            s1.currency.free_of(a) == sat_add(
                s0.currency.free_of(a) as int,
                payout(s0.staking[validator], validator, rewards, a) as int,
            ) && s2.currency.free_of(a) == sat_add(
                s1.currency.free_of(a) as int,
                payout(s0.staking[validator], validator, rewards, a) as int,
            ),
        s0.staking.contains_key(validator) ==> forall|a: AccountId| #[trigger]
            s2.currency.free_of(a) == sat_add(
                sat_add(
                    s0.currency.free_of(a) as int,
                    payout(s0.staking[validator], validator, rewards, a) as int,
                ) as int,
                payout(s0.staking[validator], validator, rewards, a) as int,
            ),
        s0.staking.contains_key(validator) ==> forall|a: AccountId|
            s0.currency.free_of(a) + 2 * payout(s0.staking[validator], validator, rewards, a)
                <= MAX_BALANCE ==> #[trigger] s2.currency.free_of(a) - s0.currency.free_of(a) == 2
                * (s1.currency.free_of(a) - s0.currency.free_of(a)),
        !s0.staking.contains_key(validator) ==> s2 == s0,
{
    assert(s1.staking == s0.staking);
    if s0.staking.contains_key(validator) {
        assert forall|a: AccountId| #[trigger] s2.currency.free_of(a) == sat_add(
            sat_add(
                s0.currency.free_of(a) as int,
                payout(s0.staking[validator], validator, rewards, a) as int,
            ) as int,
            payout(s0.staking[validator], validator, rewards, a) as int,
        ) by {
            assert(s1.currency.free_of(a) == sat_add(
                s0.currency.free_of(a) as int,
                payout(s0.staking[validator], validator, rewards, a) as int,
            ));
        }
    }
}

} // verus!
