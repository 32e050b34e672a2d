//! The ledger: token record, stake registry, stake total and burn counter,
//! with the operations that change them.

use vstd::prelude::*;
use vstd::std_specs::hash::into_iter;
use vstd::std_specs::iter::IteratorSpec;
use std::collections::HashMap;
use crate::currency::{Currency, credited, debited, locked, moved, released};
use crate::rewards::{pay_rewards, payout};
use crate::staking::{StakeView, StakingInfo, lemma_staked_by, lemma_unstaked_by};
use crate::supply::{TokenInfo, TokenView};
use crate::totals::{lemma_listed_sum, lemma_staked_sum_bound, lemma_staked_sum_insert,
    lemma_staked_sum_remove, listed_sum, staked_sum};
use crate::staking::lemma_sum_nonneg;
use crate::rewards::delegated_total;
use crate::types::{
    AccountId,
    Balance,
    DispatchError,
    DispatchResult,
    Error,
    MAX_BALANCE,
    Origin,
    ensure_root,
    clamp,
    ensure_signed,
    sat_add,
    sat_sub,
};

verus! {

broadcast use vstd::std_specs::hash::group_hash_axioms;

/// Mathematical model of a `Pallet`.
pub struct LedgerView<C> {
    pub token: Option<TokenView>,
    pub staking: Map<AccountId, StakeView>,
    pub total_staked: Balance,
    pub burned_tokens: Balance,
    pub max_symbol_length: u32,
    pub currency: C,
}

impl<C> LedgerView<C> {
    /// Invariant of every reachable state: circulation within the total
    /// supply, every record well formed.
    pub open spec fn wf(self) -> bool {
        &&& self.staking.dom().finite()
        &&& match self.token {
            Some(t) => t.wf(),
            None => true,
        }
        &&& forall|k: AccountId| #[trigger] self.staking.contains_key(k) ==> self.staking[k].wf(k)
    }

    /// The stake total equals the stake held across all records.
    pub open spec fn stake_consistent(self) -> bool {
        self.total_staked == staked_sum(self.staking)
    }

    /// This state with another token record.
    pub open spec fn with_token(self, token: Option<TokenView>) -> LedgerView<C> {
        LedgerView { token, ..self }
    }

    /// This state with another registry and stake total.
    pub open spec fn with_registry(self, staking: Map<AccountId, StakeView>, total_staked: Balance) -> LedgerView<C> {
        LedgerView { staking, total_staked, ..self }
    }

    /// This state with another burn counter.
    pub open spec fn with_burned(self, burned_tokens: Balance) -> LedgerView<C> {
        LedgerView { burned_tokens, ..self }
    }

    /// This state with other balances.
    pub open spec fn with_currency(self, currency: C) -> LedgerView<C> {
        LedgerView { currency, ..self }
    }
}

/// The token record after `amount` is minted, if there is one.
pub open spec fn minted(token: Option<TokenView>, amount: Balance) -> Option<TokenView> {
    match token {
        Some(t) => Some(t.minted(amount)),
        None => None,
    }
}

/// The token record after `amount` is burned, if there is one.
pub open spec fn burnt(token: Option<TokenView>, amount: Balance) -> Option<TokenView> {
    match token {
        Some(t) => Some(t.burnt(amount)),
        None => None,
    }
}

/// The outcome `r` of `who` staking `amount` on `validator`, from `pre` to
/// `post`.
pub open spec fn stake_step<C: Currency>(
    pre: LedgerView<C>,
    post: LedgerView<C>,
    who: AccountId,
    validator: AccountId,
    amount: Balance,
    r: DispatchResult,
) -> bool {
    if amount == 0 {
        r == Err::<(), DispatchError>(DispatchError::Module(Error::ZeroAmount)) && post == pre
    } else if !pre.staking.contains_key(validator) || !pre.staking[validator].is_validator {
        r == Err::<(), DispatchError>(DispatchError::Module(Error::NotValidator)) && post == pre
    } else {
        &&& pre.currency.free_of(who) < amount ==> r is Err
        &&& pre.currency.free_of(who) >= amount && pre.currency.reserved_of(who) + amount
            <= MAX_BALANCE ==> r is Ok
        &&& r is Err ==> post == pre && (r matches Err(DispatchError::Balance(_)))
        &&& r is Ok ==> post == pre.with_registry(
            pre.staking.insert(validator, pre.staking[validator].staked_by(who, validator, amount)),
            sat_add(pre.total_staked as int, amount as int),
        ).with_currency(post.currency)
        &&& r is Ok ==> locked(pre.currency, post.currency, who, amount)
    }
}

/// The outcome `r` of `who` taking `amount` of its stake back from
/// `validator`, from `pre` to `post`.
pub open spec fn unstake_step<C: Currency>(
    pre: LedgerView<C>,
    post: LedgerView<C>,
    who: AccountId,
    validator: AccountId,
    amount: Balance,
    r: DispatchResult,
) -> bool {
    if amount == 0 {
        r == Err::<(), DispatchError>(DispatchError::Module(Error::ZeroAmount)) && post == pre
    } else if !pre.staking.contains_key(validator) {
        r == Err::<(), DispatchError>(DispatchError::Module(Error::NotValidator)) && post == pre
    } else if !pre.staking[validator].can_unstake(who, validator, amount) {
        r == Err::<(), DispatchError>(DispatchError::Module(Error::InsufficientStake)) && post
            == pre
    } else {
        &&& r == Ok::<(), DispatchError>(())
        &&& post == pre.with_registry(
            pre.staking.insert(validator, pre.staking[validator].unstaked_by(who, validator, amount)),
            sat_sub(pre.total_staked as int, amount as int),
        ).with_currency(post.currency)
        &&& released(pre.currency, post.currency, who, amount)
    }
}

/// The effect of `validator` distributing `rewards`, from `pre` to `post`:
/// only spendable balances change, each account's by its payout.
pub open spec fn distribute_step<C: Currency>(
    pre: LedgerView<C>,
    post: LedgerView<C>,
    validator: AccountId,
    rewards: Balance,
) -> bool {
    &&& post == pre.with_currency(post.currency)
    &&& !pre.staking.contains_key(validator) ==> post.currency == pre.currency
    &&& pre.staking.contains_key(validator) ==> forall|a: AccountId| #[trigger]
        post.currency.free_of(a) == sat_add(
            pre.currency.free_of(a) as int,
            payout(pre.staking[validator], validator, rewards, a) as int,
        )
    &&& pre.staking.contains_key(validator) ==> forall|a: AccountId| #[trigger]
        post.currency.reserved_of(a) == pre.currency.reserved_of(a)
}

/// The accounts of a walk over the registry, in the order visited.
pub open spec fn keys_of(ps: Seq<(AccountId, StakingInfo)>) -> Seq<AccountId> {
    ps.map_values(|p: (AccountId, StakingInfo)| p.0)
}

/// A walk that visits every entry of `hm` once sums to the registry's sum.
proof fn lemma_walk_sum(ps: Seq<(AccountId, StakingInfo)>, hm: Map<AccountId, StakingInfo>)
    requires
        ps.to_set() == hm.kv_pairs(),
        forall|i: int|
            0 <= i < ps.len() ==> hm.contains_key((#[trigger] ps[i]).0) && hm[ps[i].0] == ps[i].1,
        ps.len() == hm.dom().len(),
    ensures
        listed_sum(keys_of(ps), hm.map_values(|s: StakingInfo| s@)) == staked_sum(
            hm.map_values(|s: StakingInfo| s@),
        ),
{
    let m = hm.map_values(|s: StakingInfo| s@);
    let ks = keys_of(ps);
    assert(ks.to_set() =~= m.dom()) by {
        assert forall|a: AccountId| ks.to_set().contains(a) <==> m.dom().contains(a) by {
            if m.dom().contains(a) {
                assert(hm.kv_pairs().contains((a, hm[a])));
                assert(ps.to_set().contains((a, hm[a])));
                let i = choose|i: int| 0 <= i < ps.len() && ps[i] == (a, hm[a]);
                assert(ks[i] == a);
            }
            if ks.contains(a) {
                let i = choose|i: int| 0 <= i < ks.len() && ks[i] == a;
                assert(hm.contains_key(ps[i].0));
            }
        }
    }
    assert(m.dom() =~= hm.dom());
    ks.lemma_no_dup_set_cardinality();
    lemma_listed_sum(ks, m);
}

/// The token ledger over the balance interface `C`.
pub struct Pallet<C> {
    currency: C,
    max_symbol_length: u32,
    token_info: Option<TokenInfo>,
    staking: HashMap<AccountId, StakingInfo>,
    total_staked: Balance,
    burned_tokens: Balance,
}

impl<C> View for Pallet<C> {
    type V = LedgerView<C>;

    closed spec fn view(&self) -> LedgerView<C> {
        LedgerView {
            token: match self.token_info {
                Some(t) => Some(t@),
                None => None,
            },
            staking: self.staking@.map_values(|s: StakingInfo| s@),
            total_staked: self.total_staked,
            burned_tokens: self.burned_tokens,
            max_symbol_length: self.max_symbol_length,
            currency: self.currency,
        }
    }
}

impl<C: Currency> Pallet<C> {
    /// An empty ledger over `currency`, accepting symbols of at most
    /// `max_symbol_length` bytes.
    pub fn new(currency: C, max_symbol_length: u32) -> (r: Pallet<C>)
        ensures
            r@.token is None,
            r@.staking == Map::<AccountId, StakeView>::empty(),
            r@.total_staked == 0,
            r@.burned_tokens == 0,
            r@.max_symbol_length == max_symbol_length,
            r@.currency == currency,
            r@.wf(),
            r@.stake_consistent(),
    {
        let r = Pallet {
            currency,
            max_symbol_length,
            token_info: None,
            staking: HashMap::new(),
            total_staked: 0,
            burned_tokens: 0,
        };
        proof {
            assert(r@.staking =~= Map::<AccountId, StakeView>::empty());
            let f = |acc: int, k: AccountId| acc + r@.staking[k].total();
            vstd::set::fold::lemma_fold_empty(0int, f);
            assert(r@.staking.dom() =~= Set::<AccountId>::empty());
        }
        r
    }

    /// The token record, if the token was initialized.
    pub fn token_info(&self) -> (r: Option<&TokenInfo>)
        ensures
            match r {
                Some(t) => self@.token == Some(t@),
                None => self@.token is None,
            },
    {
        match &self.token_info {
            Some(t) => Some(t),
            None => None,
        }
    }

    /// The stake record of `who`, if it ever registered as a validator.
    pub fn staking_info(&self, who: AccountId) -> (r: Option<&StakingInfo>)
        ensures
            match r {
                Some(e) => self@.staking.contains_key(who) && self@.staking[who] == e@,
                None => !self@.staking.contains_key(who),
            },
    {
        self.staking.get(&who)
    }

    /// Stake held across the registry, as counted on each stake and unstake.
    pub fn total_staked(&self) -> (r: Balance)
        ensures
            r == self@.total_staked,
    {
        self.total_staked
    }

    /// Tokens burned so far.
    pub fn burned_tokens(&self) -> (r: Balance)
        ensures
            r == self@.burned_tokens,
    {
        self.burned_tokens
    }

    /// The balances the ledger moves funds through.
    pub fn currency(&self) -> (r: &C)
        ensures
            *r == self@.currency,
    {
        &self.currency
    }

    /// The longest symbol accepted, in bytes.
    pub fn max_symbol_length(&self) -> (r: u32)
        ensures
            r == self@.max_symbol_length,
    {
        self.max_symbol_length
    }

    /// Recomputes the stake held across the registry by walking every
    /// record (clamped at the largest balance). Meant for audits: the
    /// operations keep the running total instead.
    pub fn audit_total_staked(&self) -> (r: Balance)
        ensures
            r == clamp(staked_sum(self@.staking)),
            self@.stake_consistent() ==> r == self@.total_staked,
    {
        let ghost m = self@.staking;
        let mut acc: Balance = 0;
        let entries = self.staking.iter();
        let ghost walk = into_iter(entries);
        proof {
            assert(walk.len() == self.staking@.dom().len());
            assert(walk.to_set() == self.staking@.kv_pairs());
            assert(forall|i: int|
                0 <= i < walk.len() ==> self.staking@.contains_key((#[trigger] walk[i]).0)
                    && self.staking@[walk[i].0] == walk[i].1);
            lemma_walk_sum(walk, self.staking@);
            assert(walk.take(0) =~= Seq::empty());
        }
        for (k, info) in it: entries
            invariant
                m == self@.staking,
                it.seq().unref() == walk,
                forall|i: int|
                    0 <= i < walk.len() ==> self.staking@.contains_key((#[trigger] walk[i]).0)
                        && self.staking@[walk[i].0] == walk[i].1,
                listed_sum(keys_of(walk), m) == staked_sum(m),
                acc == clamp(listed_sum(keys_of(walk.take(it.index() as int)), m)),
                listed_sum(keys_of(walk.take(it.index() as int)), m) >= 0,
                it.index() == walk.len() ==> acc == clamp(staked_sum(m)),
        {
            let ghost idx = it.index() as int;
            let ghost ks0 = keys_of(walk.take(idx));
            let ghost ks1 = keys_of(walk.take(idx + 1));
            proof {
                assert(ks1.drop_last() =~= ks0);
                assert(walk[idx] == (*k, *info));
                assert(ks1.last() == *k);
                assert(m[*k] == info@);
                lemma_sum_nonneg(info.delegators@);
            }
            let entry = info.staked.saturating_add(delegated_total(&info.delegators));
            acc = acc.saturating_add(entry);
            proof {
                if idx + 1 == walk.len() {
                    assert(walk.take(idx + 1) =~= walk);
                }
            }
        }
        acc
    }

    /// Stores `info` as the record of `who`.
    fn put_entry(&mut self, who: AccountId, info: StakingInfo)
        ensures
            final(self)@ == old(self)@.with_registry(
                old(self)@.staking.insert(who, info@),
                old(self)@.total_staked,
            ),
    {
        self.staking.insert(who, info);
        proof {
            assert(self@.staking =~= old(self)@.staking.insert(who, info@));
        }
    }

    /// Takes the record of `who` out of the registry, to be put back.
    fn take_entry(&mut self, who: AccountId) -> (r: StakingInfo)
        requires
            old(self)@.staking.contains_key(who),
        ensures
            r@ == old(self)@.staking[who],
            final(self)@ == old(self)@.with_registry(
                old(self)@.staking.remove(who),
                old(self)@.total_staked,
            ),
    {
        let r = match self.staking.remove(&who) {
            Some(e) => e,
            None => StakingInfo::new_validator(0),
        };
        proof {
            assert(self@.staking =~= old(self)@.staking.remove(who));
        }
        r
    }

    /// Registers the caller as a validator taking `commission` percent of
    /// its rewards. Any earlier record of the caller is replaced by an empty
    /// one, without touching the stake total.
    pub fn register_validator(&mut self, origin: Origin, commission: u8) -> (r: DispatchResult)
        requires
            old(self)@.wf(),
        ensures
            final(self)@.wf(),
            match origin {
                Origin::Signed(who) => {
                    &&& commission > 100 ==> r == Err::<(), DispatchError>(
                        DispatchError::Module(Error::InvalidCommission),
                    ) && final(self)@ == old(self)@
                    &&& commission <= 100 ==> r == Ok::<(), DispatchError>(()) && final(self)@
                        == old(self)@.with_registry(
                        old(self)@.staking.insert(
                            who,
                            StakeView {
                                staked: 0,
                                delegators: Seq::empty(),
                                commission,
                                is_validator: true,
                            },
                        ),
                        old(self)@.total_staked,
                    )
                    &&& old(self)@.stake_consistent() && (!old(self)@.staking.contains_key(who)
                        || old(self)@.staking[who].total() == 0) ==> final(self)@.stake_consistent()
                },
                _ => r == Err::<(), DispatchError>(DispatchError::BadOrigin) && final(self)@ == old(
                    self,
                )@,
            },
    {
        let who = ensure_signed(origin)?;
        if commission > 100 {
            return Err(DispatchError::Module(Error::InvalidCommission));
        }
        let info = StakingInfo::new_validator(commission);
        let ghost pre = self@;
        self.put_entry(who, info);
        proof {
            assert(info@ =~= StakeView {
                staked: 0,
                delegators: Seq::empty(),
                commission,
                is_validator: true,
            });
            assert(info@.delegators.len() == 0);
            lemma_staked_sum_insert(pre.staking, who, info@);
            if pre.staking.contains_key(who) {
                lemma_staked_sum_remove(pre.staking, who);
            } else {
                assert(pre.staking.remove(who) =~= pre.staking);
            }
        }
        Ok(())
    }

    /// The caller stakes `amount` on `validator`: a self-stake when the caller
    /// is the validator, a delegation otherwise. The amount is locked in the
    /// caller's balance before anything else changes.
    pub fn stake(&mut self, origin: Origin, validator: AccountId, amount: Balance) -> (r: DispatchResult)
        requires
            old(self)@.wf(),
        ensures
            final(self)@.wf(),
            match origin {
                Origin::Signed(who) => stake_step(old(self)@, final(self)@, who, validator, amount, r),
                _ => r == Err::<(), DispatchError>(DispatchError::BadOrigin) && final(self)@ == old(
                    self,
                )@,
            },
            old(self)@.stake_consistent() && old(self)@.total_staked + amount <= MAX_BALANCE
                ==> final(self)@.stake_consistent(),
    {
        let who = ensure_signed(origin)?;
        if amount == 0 {
            return Err(DispatchError::Module(Error::ZeroAmount));
        }
        match self.staking.get(&validator) {
            None => {
                return Err(DispatchError::Module(Error::NotValidator));
            },
            Some(info) => {
                if !info.is_validator {
                    return Err(DispatchError::Module(Error::NotValidator));
                }
            },
        }
        if let Err(e) = self.currency.reserve(who, amount) {
            return Err(DispatchError::Balance(e));
        }
        let ghost pre = old(self)@;
        let ghost e = pre.staking[validator];
        proof {
            assert(pre.staking.contains_key(validator));
        }
        let mut info = self.take_entry(validator);
        info.add_stake(who, validator, amount);
        self.put_entry(validator, info);
        self.total_staked = self.total_staked.saturating_add(amount);
        proof {
            assert(self@.staking =~= pre.staking.insert(validator, e.staked_by(who, validator, amount)));
            lemma_staked_by(e, validator, who, amount);
            if pre.stake_consistent() && pre.total_staked + amount <= MAX_BALANCE {
                lemma_staked_sum_bound(pre.staking, validator);
                lemma_staked_sum_insert(pre.staking, validator, e.staked_by(who, validator, amount));
                lemma_staked_sum_remove(pre.staking, validator);
            }
        }
        Ok(())
    }

    /// The caller takes `amount` of its stake back from `validator`. Every
    /// check comes before the amount is released and the record changes.
    pub fn unstake(&mut self, origin: Origin, validator: AccountId, amount: Balance) -> (r: DispatchResult)
        requires
            old(self)@.wf(),
        ensures
            final(self)@.wf(),
            match origin {
                Origin::Signed(who) => unstake_step(old(self)@, final(self)@, who, validator, amount, r),
                _ => r == Err::<(), DispatchError>(DispatchError::BadOrigin) && final(self)@ == old(
                    self,
                )@,
            },
            old(self)@.stake_consistent() ==> final(self)@.stake_consistent(),
    {
        let who = ensure_signed(origin)?;
        if amount == 0 {
            return Err(DispatchError::Module(Error::ZeroAmount));
        }
        match self.staking.get(&validator) {
            None => {
                return Err(DispatchError::Module(Error::NotValidator));
            },
            Some(info) => {
                proof {
                    assert(self@.staking.contains_key(validator));
                }
                if !info.has_stake(who, validator, amount) {
                    return Err(DispatchError::Module(Error::InsufficientStake));
                }
            },
        }
        self.currency.unreserve(who, amount);
        let ghost pre = old(self)@;
        let ghost e = pre.staking[validator];
        let mut info = self.take_entry(validator);
        info.remove_stake(who, validator, amount);
        self.put_entry(validator, info);
        self.total_staked = self.total_staked.saturating_sub(amount);
        proof {
            assert(self@.staking =~= pre.staking.insert(
                validator,
                e.unstaked_by(who, validator, amount),
            ));
            lemma_unstaked_by(e, validator, who, amount);
            if pre.stake_consistent() {
                lemma_staked_sum_bound(pre.staking, validator);
                lemma_staked_sum_insert(pre.staking, validator, e.unstaked_by(who, validator, amount));
                lemma_staked_sum_remove(pre.staking, validator);
            }
        }
        Ok(())
    }

    /// Creates the token record; only the privileged origin may, and only
    /// once. The whole supply starts in circulation.
    pub fn initialize_token(
        &mut self,
        origin: Origin,
        symbol: Vec<u8>,
        name: Vec<u8>,
        decimals: u8,
        total_supply: Balance,
    ) -> (r: DispatchResult)
        requires
            old(self)@.wf(),
        ensures
            final(self)@.wf(),
            r == (if !(origin is Root) {
                Err::<(), DispatchError>(DispatchError::BadOrigin)
            } else if symbol@.len() > old(self)@.max_symbol_length {
                Err(DispatchError::Module(Error::SymbolTooLong))
            } else if old(self)@.token is Some {
                Err(DispatchError::Module(Error::AlreadyInitialized))
            } else {
                Ok(())
            }),
            r is Err ==> final(self)@ == old(self)@,
            r is Ok ==> final(self)@ == old(self)@.with_token(
                Some(
                    TokenView {
                        symbol: symbol@,
                        name: name@,
                        decimals,
                        total_supply,
                        circulating_supply: total_supply,
                    },
                ),
            ),
    {
        ensure_root(origin)?;
        if symbol.len() > self.max_symbol_length as usize {
            return Err(DispatchError::Module(Error::SymbolTooLong));
        }
        if self.token_info.is_some() {
            return Err(DispatchError::Module(Error::AlreadyInitialized));
        }
        self.token_info = Some(TokenInfo::new(symbol, name, decimals, total_supply));
        Ok(())
    }

    /// Moves `amount` from the caller to `to`.
    pub fn transfer(&mut self, origin: Origin, to: AccountId, amount: Balance) -> (r: DispatchResult)
        requires
            old(self)@.wf(),
        ensures
            final(self)@.wf(),
            match origin {
                Origin::Signed(from) => {
                    &&& amount == 0 ==> r == Err::<(), DispatchError>(
                        DispatchError::Module(Error::ZeroAmount),
                    ) && final(self)@ == old(self)@
                    &&& amount > 0 && old(self)@.currency.free_of(from) < amount ==> r is Err
                    &&& amount > 0 && old(self)@.currency.free_of(from) >= amount && (from == to
                        || old(self)@.currency.free_of(to) + amount <= MAX_BALANCE) ==> r is Ok
                    &&& amount > 0 && r is Err ==> final(self)@ == old(self)@ && (r matches Err(
                        DispatchError::Balance(_),
                    ))
                    &&& r is Ok ==> final(self)@ == old(self)@.with_currency(final(self)@.currency)
                        && moved(old(self)@.currency, final(self)@.currency, from, to, amount)
                },
                _ => r == Err::<(), DispatchError>(DispatchError::BadOrigin) && final(self)@ == old(
                    self,
                )@,
            },
    {
        let from = ensure_signed(origin)?;
        if amount == 0 {
            return Err(DispatchError::Module(Error::ZeroAmount));
        }
        match self.currency.transfer(from, to, amount) {
            Ok(()) => Ok(()),
            Err(e) => Err(DispatchError::Balance(e)),
        }
    }

    /// Mints `amount` to `to`; only the privileged origin may. Both supplies
    /// grow (saturating) when the token record exists; without one the
    /// amount is still credited.
    pub fn mint_tokens(&mut self, origin: Origin, to: AccountId, amount: Balance) -> (r: DispatchResult)
        requires
            old(self)@.wf(),
        ensures
            final(self)@.wf(),
            !(origin is Root) ==> r == Err::<(), DispatchError>(DispatchError::BadOrigin)
                && final(self)@ == old(self)@,
            origin is Root && amount == 0 ==> r == Err::<(), DispatchError>(
                DispatchError::Module(Error::ZeroAmount),
            ) && final(self)@ == old(self)@,
            origin is Root && amount > 0 ==> r == Ok::<(), DispatchError>(()) && final(self)@
                == old(self)@.with_token(minted(old(self)@.token, amount)).with_currency(
                final(self)@.currency,
            ) && credited(old(self)@.currency, final(self)@.currency, to, amount),
    {
        ensure_root(origin)?;
        if amount == 0 {
            return Err(DispatchError::Module(Error::ZeroAmount));
        }
        self.currency.deposit_creating(to, amount);
        if let Some(t) = &mut self.token_info {
            t.record_mint(amount);
        }
        Ok(())
    }

    /// The caller burns `amount` of its own balance: circulation shrinks
    /// (floored at zero) and the burn counter grows (saturating); the total
    /// supply stays.
    pub fn burn_tokens(&mut self, origin: Origin, amount: Balance) -> (r: DispatchResult)
        requires
            old(self)@.wf(),
        ensures
            final(self)@.wf(),
            match origin {
                Origin::Signed(who) => {
                    &&& amount == 0 ==> r == Err::<(), DispatchError>(
                        DispatchError::Module(Error::ZeroAmount),
                    ) && final(self)@ == old(self)@
                    &&& amount > 0 && old(self)@.currency.free_of(who) < amount ==> r is Err
                    &&& amount > 0 && old(self)@.currency.free_of(who) >= amount ==> r is Ok
                    &&& amount > 0 && r is Err ==> final(self)@ == old(self)@ && (r matches Err(
                        DispatchError::Balance(_),
                    ))
                    &&& r is Ok ==> final(self)@ == old(self)@.with_token(
                        burnt(old(self)@.token, amount),
                    ).with_burned(
                        sat_add(old(self)@.burned_tokens as int, amount as int),
                    ).with_currency(final(self)@.currency) && debited(
                        old(self)@.currency,
                        final(self)@.currency,
                        who,
                        amount,
                    )
                },
                _ => r == Err::<(), DispatchError>(DispatchError::BadOrigin) && final(self)@ == old(
                    self,
                )@,
            },
    {
        let who = ensure_signed(origin)?;
        if amount == 0 {
            return Err(DispatchError::Module(Error::ZeroAmount));
        }
        if let Err(e) = self.currency.withdraw(who, amount) {
            return Err(DispatchError::Balance(e));
        }
        if let Some(t) = &mut self.token_info {
            t.record_burn(amount);
        }
        self.burned_tokens = self.burned_tokens.saturating_add(amount);
        Ok(())
    }

    /// Pays out `rewards` earned by `validator`: its commission to the
    /// validator, the rest to its delegators in proportion to their stake.
    /// Nothing happens for an account without a record. Every call mints
    /// anew; nothing remembers earlier distributions.
    pub fn distribute_rewards(&mut self, validator: AccountId, rewards: Balance) -> (r: DispatchResult)
        requires
            old(self)@.wf(),
        ensures
            r == Ok::<(), DispatchError>(()),
            final(self)@.wf(),
            distribute_step(old(self)@, final(self)@, validator, rewards),
    {
        match self.staking.get(&validator) {
            Some(info) => {
                proof {
                    assert(self@.staking.contains_key(validator));
                }
                pay_rewards(&mut self.currency, validator, info, rewards);
            },
            None => {},
        }
        Ok(())
    }
}

} // verus!
