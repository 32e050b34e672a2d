//! Economic ledger of a proof-of-stake token: supply bookkeeping, a
//! validator/delegator stake registry and proportional reward distribution
//! with validator commission, all specified and proved with Verus.

pub mod types;
pub mod currency;
pub mod staking;
pub mod rewards;
pub mod totals;
pub mod supply;
pub mod pallet;
pub mod laws;

pub use currency::{Currency, InMemoryBalances};
pub use pallet::{LedgerView, Pallet};
pub use staking::StakingInfo;
pub use supply::TokenInfo;
pub use types::{AccountId, Balance, BalanceError, DispatchError, DispatchResult, Error, Origin};
