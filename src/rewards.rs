//! Splitting a reward between a validator's commission and its delegators.
//!
//! The commission is `floor(rewards * commission / 100)` with a saturating
//! product; what is left is shared among the delegators in proportion to
//! their stake, each share rounded down. The rounding remainder, and the
//! whole pool when nobody delegated, is paid to nobody; the validator's own
//! stake earns no share of the pool.

use vstd::prelude::*;
use crate::currency::Currency;
use crate::staking::{StakeView, StakingInfo, delegated_sum, delegators_wf, index_of,
    lemma_index_of_absent, lemma_index_of_unique, lemma_sum_nonneg, lemma_sum_take};
use crate::types::{AccountId, Balance, MAX_BALANCE, clamp, sat_add, sat_mul, sat_sub, saturating_mul};

verus! {

/// The validator's cut of `rewards` at `commission` percent.
pub open spec fn commission_of(rewards: Balance, commission: u8) -> Balance {
    (sat_mul(rewards as int, commission as int) / 100) as Balance
}

/// What is left of `rewards` for the delegators.
pub open spec fn pool_of(rewards: Balance, commission: u8) -> Balance {
    sat_sub(rewards as int, commission_of(rewards, commission) as int)
}

/// Share of `pool` earned by `stake` out of `total` delegated; nothing when
/// nobody delegated.
pub open spec fn share_of(pool: Balance, stake: Balance, total: Balance) -> Balance {
    if total == 0 {
        0
    } else {
        (sat_mul(pool as int, stake as int) / total) as Balance
    }
}

/// Delegated stake of a record, as the ledger counts it (clamped at the
/// largest balance).
pub open spec fn delegated_total_of(e: StakeView) -> Balance {
    clamp(delegated_sum(e.delegators))
}

/// What `account` receives when the validator `validator`, whose record is
/// `e`, distributes `rewards`.
pub open spec fn payout(e: StakeView, validator: AccountId, rewards: Balance, account: AccountId) -> Balance {
    if account == validator {
        commission_of(rewards, e.commission)
    } else {
        let i = index_of(e.delegators, account);
        if i >= 0 {
            share_of(pool_of(rewards, e.commission), e.delegators[i].1, delegated_total_of(e))
        } else {
            0
        }
    }
}

/// Share paid to `account` by the first `n` delegators of `ds`.
pub open spec fn paid_by_prefix(
    ds: Seq<(AccountId, Balance)>,
    n: int,
    account: AccountId,
    pool: Balance,
    total: Balance,
) -> Balance
    decreases n,
{
    if n <= 0 {
        0
    } else if ds[n - 1].0 == account {
        share_of(pool, ds[n - 1].1, total)
    } else {
        paid_by_prefix(ds, n - 1, account, pool, total)
    }
}

/// An account outside the first `n` delegators has been paid nothing.
proof fn lemma_prefix_unpaid(
    ds: Seq<(AccountId, Balance)>,
    n: int,
    account: AccountId,
    pool: Balance,
    total: Balance,
)
    requires
        n <= ds.len(),
        forall|j: int| 0 <= j < n ==> (#[trigger] ds[j]).0 != account,
    ensures
        paid_by_prefix(ds, n, account, pool, total) == 0,
    decreases n,
{
    if n > 0 {
        lemma_prefix_unpaid(ds, n - 1, account, pool, total);
    }
}

/// Over the whole list without repeats, the prefix payment is the share at
/// the account's position.
proof fn lemma_prefix_complete(
    ds: Seq<(AccountId, Balance)>,
    n: int,
    account: AccountId,
    pool: Balance,
    total: Balance,
)
    requires
        0 <= n <= ds.len(),
        forall|a: int, b: int| 0 <= a < b < ds.len() ==> (#[trigger] ds[a]).0 != (#[trigger] ds[b]).0,
    ensures
        paid_by_prefix(ds, n, account, pool, total) == (if 0 <= index_of(ds, account) < n {
            share_of(pool, ds[index_of(ds, account)].1, total)
        } else {
            0
        }),
    decreases n,
{
    if n > 0 {
        lemma_prefix_complete(ds, n - 1, account, pool, total);
        if ds[n - 1].0 == account {
            lemma_index_of_unique(ds, n - 1);
        }
    }
}

/// Sum of the shares of `pool` paid to the delegators of `ds`.
pub open spec fn shares_sum(ds: Seq<(AccountId, Balance)>, pool: Balance, total: Balance) -> int
    decreases ds.len(),
{
    if ds.len() == 0 {
        0
    } else {
        shares_sum(ds.drop_last(), pool, total) + share_of(pool, ds.last().1, total)
    }
}

proof fn lemma_shares_scaled(ds: Seq<(AccountId, Balance)>, pool: Balance, total: Balance)
    requires
        total > 0,
    ensures
        0 <= shares_sum(ds, pool, total),
        shares_sum(ds, pool, total) * total <= pool * delegated_sum(ds),
    decreases ds.len(),
{
    if ds.len() > 0 {
        let rest = ds.drop_last();
        let s = ds.last().1;
        lemma_shares_scaled(rest, pool, total);
        let x: int = sat_mul(pool as int, s as int) as int;
        let t: int = total as int;
        let q: int = share_of(pool, s, total) as int;
        assert(q == x / t);
        assert(q * t <= x) by (nonlinear_arith)
            requires
                q == x / t,
                t > 0,
                x >= 0,
        ;
        assert(x <= pool * s) by (nonlinear_arith)
            requires
                x == sat_mul(pool as int, s as int) as int,
                pool >= 0,
                s >= 0,
        ;
        assert(q >= 0);
        let a = shares_sum(rest, pool, total);
        assert((a + q) * total == a * total + q * total) by (nonlinear_arith);
        assert(pool * (delegated_sum(rest) + s) == pool * delegated_sum(rest) + pool * s)
            by (nonlinear_arith);
    }
}

/// Rounding never pays out more than the pool: where the delegated stake
/// fits in a balance, the delegators' shares together are at most the pool
/// left after commission, each delegator's payout being its share.
pub proof fn lemma_payouts_within_pool(e: StakeView, validator: AccountId, rewards: Balance)
    requires
        e.wf(validator),
        delegated_sum(e.delegators) <= MAX_BALANCE,
    ensures
        forall|i: int|
            0 <= i < e.delegators.len() ==> payout(e, validator, rewards, (#[trigger] e.delegators[i]).0)
                == share_of(pool_of(rewards, e.commission), e.delegators[i].1, delegated_total_of(e)),
        shares_sum(e.delegators, pool_of(rewards, e.commission), delegated_total_of(e)) <= pool_of(
            rewards,
            e.commission,
        ),
{
    let ds = e.delegators;
    let pool = pool_of(rewards, e.commission);
    let total = delegated_total_of(e);
    assert forall|i: int| 0 <= i < ds.len() implies payout(e, validator, rewards, (#[trigger] ds[i]).0)
        == share_of(pool, ds[i].1, total) by {
        lemma_index_of_unique(ds, i);
    }
    lemma_sum_nonneg(ds);
    if total > 0 {
        lemma_shares_scaled(ds, pool, total);
        let a = shares_sum(ds, pool, total);
        assert(a <= pool) by (nonlinear_arith)
            requires
                a * total <= pool * total,
                total > 0,
        ;
    } else {
        lemma_shares_zero(ds, pool);
    }
}

proof fn lemma_shares_zero(ds: Seq<(AccountId, Balance)>, pool: Balance)
    ensures
        shares_sum(ds, pool, 0) == 0,
    decreases ds.len(),
{
    if ds.len() > 0 {
        lemma_shares_zero(ds.drop_last(), pool);
    }
}

/// The validator's cut of `rewards` at `commission` percent.
pub fn commission_amount(rewards: Balance, commission: u8) -> (r: Balance)
    ensures
        r == commission_of(rewards, commission),
{
    saturating_mul(rewards, commission as u128) / 100
}

/// Share of `pool` earned by `stake` out of `total` delegated.
pub fn delegator_share(pool: Balance, stake: Balance, total: Balance) -> (r: Balance)
    ensures
        r == share_of(pool, stake, total),
{
    if total == 0 {
        0
    } else {
        saturating_mul(pool, stake) / total
    }
}

/// Sum of the delegated amounts, clamped at the largest balance.
pub fn delegated_total(ds: &Vec<(AccountId, Balance)>) -> (r: Balance)
    ensures
        r == clamp(delegated_sum(ds@)),
{
    let mut acc: Balance = 0;
    let mut i: usize = 0;
    while i < ds.len()
        invariant
            i <= ds@.len(),
            acc == clamp(delegated_sum(ds@.take(i as int))),
            delegated_sum(ds@.take(i as int)) >= 0,
        decreases ds@.len() - i,
    {
        proof {
            lemma_sum_take(ds@, i as int);
        }
        acc = acc.saturating_add(ds[i].1);
        i = i + 1;
    }
    assert(ds@.take(ds@.len() as int) =~= ds@);
    acc
}

/// Mints the rewards of one distribution: each delegator of `info` gets its
/// share of the pool, then the validator gets its commission. Only spendable
/// balances change, and each account by exactly its payout.
pub fn pay_rewards<C: Currency>(
    currency: &mut C,
    validator: AccountId,
    info: &StakingInfo,
    rewards: Balance,
)
    requires
        delegators_wf(info@.delegators, validator),
    ensures
        forall|a: AccountId| #[trigger]
            final(currency).free_of(a) == sat_add(
                old(currency).free_of(a) as int,
                payout(info@, validator, rewards, a) as int,
            ),
        forall|a: AccountId| #[trigger]
            final(currency).reserved_of(a) == old(currency).reserved_of(a),
{
    let ghost c0 = *currency;
    let ghost ds = info.delegators@;
    let commission = commission_amount(rewards, info.commission);
    let pool = rewards.saturating_sub(commission);
    let total = delegated_total(&info.delegators);
    let mut i: usize = 0;
    while i < info.delegators.len()
        invariant
            i <= ds.len(),
            ds == info.delegators@,
            delegators_wf(ds, validator),
            pool == pool_of(rewards, info.commission),
            total == delegated_total_of(info@),
            forall|a: AccountId| #[trigger]
                currency.free_of(a) == sat_add(
                    c0.free_of(a) as int,
                    (if total > 0 {
                        paid_by_prefix(ds, i as int, a, pool, total)
                    } else {
                        0
                    }) as int,
                ),
            forall|a: AccountId| #[trigger] currency.reserved_of(a) == c0.reserved_of(a),
        decreases ds.len() - i,
    {
        let (delegator, stake) = info.delegators[i];
        if total > 0 {
            let reward = delegator_share(pool, stake, total);
            proof {
                lemma_prefix_unpaid(ds, i as int, delegator, pool, total);
            }
            currency.deposit_creating(delegator, reward);
        }
        i = i + 1;
    }
    proof {
        assert forall|a: AccountId| a != validator implies #[trigger] currency.free_of(a)
            == sat_add(c0.free_of(a) as int, payout(info@, validator, rewards, a) as int) by {
            lemma_prefix_complete(ds, ds.len() as int, a, pool, total);
        }
        lemma_index_of_absent(ds, validator);
        lemma_prefix_complete(ds, ds.len() as int, validator, pool, total);
    }
    currency.deposit_creating(validator, commission);
}

} // verus!
