//! The balance interface the ledger moves funds through, and an in-memory
//! implementation of it.

use vstd::prelude::*;
use std::collections::HashMap;
use crate::types::{AccountId, Balance, BalanceError, MAX_BALANCE, sat_add};

verus! {

broadcast use vstd::std_specs::hash::group_hash_axioms;

/// `before` and `after` hold the same balances for every account but `who`.
pub open spec fn others_same<C: Currency>(before: C, after: C, who: AccountId) -> bool {
    &&& forall|a: AccountId| a != who ==> #[trigger] after.free_of(a) == before.free_of(a)
    &&& forall|a: AccountId| a != who ==> #[trigger] after.reserved_of(a) == before.reserved_of(a)
}

/// `after` is `before` with `amount` credited (saturating) to what `who` can spend.
pub open spec fn credited<C: Currency>(before: C, after: C, who: AccountId, amount: Balance) -> bool {
    &&& after.free_of(who) == sat_add(before.free_of(who) as int, amount as int)
    &&& after.reserved_of(who) == before.reserved_of(who)
    &&& others_same(before, after, who)
}

/// `after` is `before` with `amount` taken for good from what `who` can spend.
pub open spec fn debited<C: Currency>(before: C, after: C, who: AccountId, amount: Balance) -> bool {
    &&& after.free_of(who) == before.free_of(who) - amount
    &&& after.reserved_of(who) == before.reserved_of(who)
    &&& others_same(before, after, who)
}

/// `after` is `before` with `amount` of what `who` can spend locked.
pub open spec fn locked<C: Currency>(before: C, after: C, who: AccountId, amount: Balance) -> bool {
    &&& after.free_of(who) == before.free_of(who) - amount
    &&& after.reserved_of(who) == before.reserved_of(who) + amount
    &&& others_same(before, after, who)
}

/// `after` is `before` with `amount` of what `who` has locked released
/// (all of it, where less is locked).
pub open spec fn released<C: Currency>(before: C, after: C, who: AccountId, amount: Balance) -> bool {
    let moved = if amount <= before.reserved_of(who) {
        amount
    } else {
        before.reserved_of(who)
    };
    &&& after.free_of(who) == sat_add(before.free_of(who) as int, moved as int)
    &&& after.reserved_of(who) == before.reserved_of(who) - moved
    &&& others_same(before, after, who)
}

/// `after` is `before` with `amount` moved from what `from` can spend to
/// what `to` can spend.
pub open spec fn moved<C: Currency>(before: C, after: C, from: AccountId, to: AccountId, amount: Balance) -> bool {
    &&& forall|a: AccountId| #[trigger]
        after.free_of(a) == before.free_of(a) - (if a == from {
            amount as int
        } else {
            0
        }) + (if a == to {
            amount as int
        } else {
            0
        })
    &&& forall|a: AccountId| #[trigger] after.reserved_of(a) == before.reserved_of(a)
}

/// Balances of accounts, split into a spendable part and a reserved part
/// that is locked while staked. Every account starts with zero of both.
pub trait Currency: Sized {
    /// Spendable balance of `who`.
    spec fn free_of(&self, who: AccountId) -> Balance;

    /// Reserved balance of `who`.
    spec fn reserved_of(&self, who: AccountId) -> Balance;

    /// Moves `amount` from the spendable balance of `from` to that of `to`.
    /// Fails, changing nothing, when `from` cannot cover it, and otherwise
    /// only where the balance of `to` would overflow.
    fn transfer(&mut self, from: AccountId, to: AccountId, amount: Balance) -> (r: Result<
        (),
        BalanceError,
    >)
        ensures
            old(self).free_of(from) < amount ==> r is Err,
            old(self).free_of(from) >= amount && (from == to || old(self).free_of(to) + amount
                <= MAX_BALANCE) ==> r is Ok,
            r is Err ==> *final(self) == *old(self),
            r is Ok ==> forall|a: AccountId|
                #[trigger] final(self).free_of(a) == old(self).free_of(a) - (if a == from {
                    amount as int
                } else {
                    0
                }) + (if a == to {
                    amount as int
                } else {
                    0
                }),
            r is Ok ==> forall|a: AccountId| #[trigger]
                final(self).reserved_of(a) == old(self).reserved_of(a),
    ;

    /// Locks `amount` of the spendable balance of `who`.
    /// Fails, changing nothing, when the spendable balance is short, and
    /// otherwise only where the reserved balance would overflow.
    fn reserve(&mut self, who: AccountId, amount: Balance) -> (r: Result<(), BalanceError>)
        ensures
            old(self).free_of(who) < amount ==> r is Err,
            old(self).free_of(who) >= amount && old(self).reserved_of(who) + amount <= MAX_BALANCE
                ==> r is Ok,
            r is Err ==> *final(self) == *old(self),
            r is Ok ==> final(self).free_of(who) == old(self).free_of(who) - amount,
            r is Ok ==> final(self).reserved_of(who) == old(self).reserved_of(who) + amount,
            r is Ok ==> forall|a: AccountId|
                a != who ==> #[trigger] final(self).free_of(a) == old(self).free_of(a),
            r is Ok ==> forall|a: AccountId|
                a != who ==> #[trigger] final(self).reserved_of(a) == old(self).reserved_of(a),
    ;

    /// Releases `amount` of the reserved balance of `who` back to its
    /// spendable balance (all of it, where less is reserved); never fails.
    fn unreserve(&mut self, who: AccountId, amount: Balance)
        ensures
            amount <= old(self).reserved_of(who) ==> final(self).reserved_of(who)
                == old(self).reserved_of(who) - amount && final(self).free_of(who) == sat_add(
                old(self).free_of(who) as int,
                amount as int,
            ),
            amount > old(self).reserved_of(who) ==> final(self).reserved_of(who) == 0
                && final(self).free_of(who) == sat_add(
                old(self).free_of(who) as int,
                old(self).reserved_of(who) as int,
            ),
            forall|a: AccountId|
                a != who ==> #[trigger] final(self).free_of(a) == old(self).free_of(a),
            forall|a: AccountId|
                a != who ==> #[trigger] final(self).reserved_of(a) == old(self).reserved_of(a),
    ;

    /// Removes `amount` from the spendable balance of `who` for good.
    /// Fails, changing nothing, exactly when the spendable balance is short.
    fn withdraw(&mut self, who: AccountId, amount: Balance) -> (r: Result<(), BalanceError>)
        ensures
            old(self).free_of(who) < amount ==> r is Err,
            old(self).free_of(who) >= amount ==> r is Ok,
            r is Err ==> *final(self) == *old(self),
            r is Ok ==> final(self).free_of(who) == old(self).free_of(who) - amount,
            r is Ok ==> final(self).reserved_of(who) == old(self).reserved_of(who),
            r is Ok ==> forall|a: AccountId|
                a != who ==> #[trigger] final(self).free_of(a) == old(self).free_of(a),
            r is Ok ==> forall|a: AccountId|
                a != who ==> #[trigger] final(self).reserved_of(a) == old(self).reserved_of(a),
    ;

    /// Credits `amount` to the spendable balance of `who` (saturating);
    /// never fails.
    fn deposit_creating(&mut self, who: AccountId, amount: Balance)
        ensures
            final(self).free_of(who) == sat_add(old(self).free_of(who) as int, amount as int),
            final(self).reserved_of(who) == old(self).reserved_of(who),
            forall|a: AccountId|
                a != who ==> #[trigger] final(self).free_of(a) == old(self).free_of(a),
            forall|a: AccountId|
                a != who ==> #[trigger] final(self).reserved_of(a) == old(self).reserved_of(a),
    ;
}

/// Both balances of one account.
#[derive(Clone, Copy, Debug, PartialEq, Eq, Structural)]
pub struct AccountData {
    pub free: Balance,
    pub reserved: Balance,
}

/// A `Currency` kept in memory: each account that ever held funds has an
/// entry, the others hold nothing.
pub struct InMemoryBalances {
    accounts: HashMap<AccountId, AccountData>,
}

impl InMemoryBalances {
    /// Balances of `who`, zero for an unknown account.
    pub closed spec fn data_of(&self, who: AccountId) -> AccountData {
        if self.accounts@.contains_key(who) {
            self.accounts@[who]
        } else {
            AccountData { free: 0, reserved: 0 }
        }
    }

    /// No account holds anything.
    pub fn new() -> (r: InMemoryBalances)
        ensures
            forall|a: AccountId| #[trigger] r.free_of(a) == 0 && r.reserved_of(a) == 0,
    {
        InMemoryBalances { accounts: HashMap::new() }
    }

    fn account(&self, who: AccountId) -> (r: AccountData)
        ensures
            r == self.data_of(who),
    {
        match self.accounts.get(&who) {
            Some(d) => *d,
            None => AccountData { free: 0, reserved: 0 },
        }
    }

    fn set_account(&mut self, who: AccountId, d: AccountData)
        ensures
            final(self).data_of(who) == d,
            forall|a: AccountId| a != who ==> #[trigger] final(self).data_of(a) == old(self).data_of(a),
    {
        self.accounts.insert(who, d);
    }

    /// Spendable balance of `who`.
    pub fn free_balance(&self, who: AccountId) -> (r: Balance)
        ensures
            r == self.free_of(who),
    {
        self.account(who).free
    }

    /// Reserved balance of `who`.
    pub fn reserved_balance(&self, who: AccountId) -> (r: Balance)
        ensures
            r == self.reserved_of(who),
    {
        self.account(who).reserved
    }
}

impl Currency for InMemoryBalances {
    closed spec fn free_of(&self, who: AccountId) -> Balance {
        self.data_of(who).free
    }

    closed spec fn reserved_of(&self, who: AccountId) -> Balance {
        self.data_of(who).reserved
    }

    fn transfer(&mut self, from: AccountId, to: AccountId, amount: Balance) -> (r: Result<
        (),
        BalanceError,
    >) {
        let src = self.account(from);
        if src.free < amount {
            return Err(BalanceError::InsufficientBalance);
        }
        if from == to {
            return Ok(());
        }
        let dst = self.account(to);
        if dst.free > MAX_BALANCE - amount {
            return Err(BalanceError::Overflow);
        }
        self.set_account(from, AccountData { free: src.free - amount, reserved: src.reserved });
        self.set_account(to, AccountData { free: dst.free + amount, reserved: dst.reserved });
        Ok(())
    }

    fn reserve(&mut self, who: AccountId, amount: Balance) -> (r: Result<(), BalanceError>) {
        let d = self.account(who);
        if d.free < amount {
            return Err(BalanceError::InsufficientBalance);
        }
        if d.reserved > MAX_BALANCE - amount {
            return Err(BalanceError::Overflow);
        }
        self.set_account(who, AccountData { free: d.free - amount, reserved: d.reserved + amount });
        Ok(())
    }

    fn unreserve(&mut self, who: AccountId, amount: Balance) {
        let d = self.account(who);
        let moved = if amount <= d.reserved {
            amount
        } else {
            d.reserved
        };
        self.set_account(
            who,
            AccountData { free: d.free.saturating_add(moved), reserved: d.reserved - moved },
        );
    }

    fn withdraw(&mut self, who: AccountId, amount: Balance) -> (r: Result<(), BalanceError>) {
        let d = self.account(who);
        if d.free < amount {
            return Err(BalanceError::InsufficientBalance);
        }
        self.set_account(who, AccountData { free: d.free - amount, reserved: d.reserved });
        Ok(())
    }

    fn deposit_creating(&mut self, who: AccountId, amount: Balance) {
        let d = self.account(who);
        self.set_account(
            who,
            AccountData { free: d.free.saturating_add(amount), reserved: d.reserved },
        );
    }
}

} // verus!
