//! Accounts, origins, errors and the saturating arithmetic shared by the
//! ledger's components.

use vstd::prelude::*;

verus! {

/// Identifier of an account.
pub type AccountId = u64;

/// An amount of the token.
pub type Balance = u128;

/// Largest value a `Balance` can hold; saturating operations clamp here.
pub const MAX_BALANCE: u128 = 0xffff_ffff_ffff_ffff_ffff_ffff_ffff_ffff;

/// Who made a call: the privileged authority, an identified account, or nobody.
#[derive(Clone, Copy, Debug, PartialEq, Eq, Structural)]
pub enum Origin {
    Root,
    Signed(AccountId),
    Unsigned,
}

impl Origin {
    /// The privileged origin.
    pub fn root() -> (r: Origin)
        ensures
            r == Origin::Root,
    {
        Origin::Root
    }

    /// The origin of a call made by the account `who`.
    pub fn signed(who: AccountId) -> (r: Origin)
        ensures
            r == Origin::Signed(who),
    {
        Origin::Signed(who)
    }
}

/// Failures of the ledger's own rules.
#[derive(Clone, Copy, Debug, PartialEq, Eq, Structural)]
pub enum Error {
    /// The token record exists already.
    AlreadyInitialized,
    /// The token record does not exist yet (reserved; no operation returns it).
    NotInitialized,
    /// A commission rate above 100 percent.
    InvalidCommission,
    /// An unstake of more than the recorded stake.
    InsufficientStake,
    /// The target account is not a registered validator.
    NotValidator,
    /// The symbol is longer than the configured maximum.
    SymbolTooLong,
    /// An amount of zero where a positive amount is needed.
    ZeroAmount,
}

/// Failures of the balance interface.
#[derive(Clone, Copy, Debug, PartialEq, Eq, Structural)]
pub enum BalanceError {
    /// The spendable balance does not cover the amount.
    InsufficientBalance,
    /// The result would not fit in a `Balance`.
    Overflow,
}

/// Why an operation was refused.
#[derive(Clone, Copy, Debug, PartialEq, Eq, Structural)]
pub enum DispatchError {
    /// The caller does not have the identity the operation needs.
    BadOrigin,
    /// One of the ledger's rules refused the operation.
    Module(Error),
    /// The balance interface refused the operation; its error is passed on.
    Balance(BalanceError),
}

/// Outcome of an operation.
pub type DispatchResult = Result<(), DispatchError>;

/// Succeeds only for the privileged origin.
pub fn ensure_root(origin: Origin) -> (r: Result<(), DispatchError>)
    ensures
        r == (if origin is Root {
            Ok(())
        } else {
            Err(DispatchError::BadOrigin)
        }),
{
    match origin {
        Origin::Root => Ok(()),
        _ => Err(DispatchError::BadOrigin),
    }
}

/// Yields the calling account for a signed origin.
pub fn ensure_signed(origin: Origin) -> (r: Result<AccountId, DispatchError>)
    ensures
        r == (match origin {
            Origin::Signed(who) => Ok(who),
            _ => Err(DispatchError::BadOrigin),
        }),
{
    match origin {
        Origin::Signed(who) => Ok(who),
        _ => Err(DispatchError::BadOrigin),
    }
}

/// `a + b`, clamped at `MAX_BALANCE`.
pub open spec fn sat_add(a: int, b: int) -> u128 {
    if a + b > MAX_BALANCE {
        MAX_BALANCE
    } else {
        (a + b) as u128
    }
}

/// `a - b`, floored at zero.
pub open spec fn sat_sub(a: int, b: int) -> u128 {
    if a - b < 0 {
        0
    } else {
        (a - b) as u128
    }
}

/// `a * b`, clamped at `MAX_BALANCE`.
pub open spec fn sat_mul(a: int, b: int) -> u128 {
    if a * b > MAX_BALANCE {
        MAX_BALANCE
    } else {
        (a * b) as u128
    }
}

/// `a` clamped at `MAX_BALANCE`.
pub open spec fn clamp(a: int) -> u128 {
    if a > MAX_BALANCE {
        MAX_BALANCE
    } else if a < 0 {
        0
    } else {
        a as u128
    }
}

/// Saturating product of two balances.
pub fn saturating_mul(a: u128, b: u128) -> (r: u128)
    ensures
        r == sat_mul(a as int, b as int),
{
    match a.checked_mul(b) {
        Some(p) => p,
        None => MAX_BALANCE,
    }
}

} // verus!
