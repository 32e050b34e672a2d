//! The token record: metadata plus total and circulating supply.

use vstd::prelude::*;
use crate::types::{Balance, sat_add, sat_sub};

verus! {

/// Metadata and supply of the token.
#[derive(Clone, Debug, PartialEq, Eq)]
pub struct TokenInfo {
    /// Short ticker, such as "VED".
    pub symbol: Vec<u8>,
    /// Full name, such as "VedCoin".
    pub name: Vec<u8>,
    /// Number of decimal places.
    pub decimals: u8,
    /// Every token ever minted, burned ones included.
    pub total_supply: Balance,
    /// Tokens in circulation: total supply less what was burned.
    pub circulating_supply: Balance,
}

/// Mathematical model of a `TokenInfo`.
pub struct TokenView {
    pub symbol: Seq<u8>,
    pub name: Seq<u8>,
    pub decimals: u8,
    pub total_supply: Balance,
    pub circulating_supply: Balance,
}

impl View for TokenInfo {
    type V = TokenView;

    open spec fn view(&self) -> TokenView {
        TokenView {
            symbol: self.symbol@,
            name: self.name@,
            decimals: self.decimals,
            total_supply: self.total_supply,
            circulating_supply: self.circulating_supply,
        }
    }
}

impl TokenView {
    /// Circulation never exceeds the total supply.
    pub open spec fn wf(self) -> bool {
        self.circulating_supply <= self.total_supply
    }

    /// The record after `amount` is minted: both supplies grow (saturating).
    pub open spec fn minted(self, amount: Balance) -> TokenView {
        TokenView {
            symbol: self.symbol,
            name: self.name,
            decimals: self.decimals,
            total_supply: sat_add(self.total_supply as int, amount as int),
            circulating_supply: sat_add(self.circulating_supply as int, amount as int),
        }
    }

    /// The record after `amount` is burned: circulation shrinks (floored at
    /// zero), the total supply stays.
    pub open spec fn burnt(self, amount: Balance) -> TokenView {
        TokenView {
            symbol: self.symbol,
            name: self.name,
            decimals: self.decimals,
            total_supply: self.total_supply,
            circulating_supply: sat_sub(self.circulating_supply as int, amount as int),
        }
    }
}

impl TokenInfo {
    /// A new record whose whole supply circulates.
    pub fn new(symbol: Vec<u8>, name: Vec<u8>, decimals: u8, total_supply: Balance) -> (r: TokenInfo)
        ensures
            r@ == (TokenView {
                symbol: symbol@,
                name: name@,
                decimals,
                total_supply,
                circulating_supply: total_supply,
            }),
    {
        TokenInfo { symbol, name, decimals, total_supply, circulating_supply: total_supply }
    }

    /// Records the minting of `amount`.
    pub fn record_mint(&mut self, amount: Balance)
        ensures
            final(self)@ == old(self)@.minted(amount),
            old(self)@.wf() ==> final(self)@.wf(),
    {
        self.circulating_supply = self.circulating_supply.saturating_add(amount);
        self.total_supply = self.total_supply.saturating_add(amount);
    }

    /// Records the burning of `amount`.
    pub fn record_burn(&mut self, amount: Balance)
        ensures
            final(self)@ == old(self)@.burnt(amount),
            old(self)@.wf() ==> final(self)@.wf(),
    {
        self.circulating_supply = self.circulating_supply.saturating_sub(amount);
    }
}

} // verus!
