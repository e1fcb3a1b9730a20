//! The registry of the supported chains and coins.
use vstd::prelude::*;

verus! {

/// The supported chains.
#[derive(Debug, Clone, Copy, PartialEq, Eq, PartialOrd, Ord, Hash, Structural)]
pub enum Chain {
    /// Solana chain
    Solana,
    /// Zcash chain
    Zcash,
}

/// The number of bridge transactions one bundle may hold on `chain`.
pub open spec fn bundle_limit(chain: Chain) -> usize {
    match chain {
        Chain::Solana => 10,
        Chain::Zcash => 1,
    }
}

/// The name of `chain`, as its `Debug` form prints it.
pub open spec fn chain_name(chain: Chain) -> Seq<char> {
    match chain {
        Chain::Solana => "Solana"@,
        Chain::Zcash => "Zcash"@,
    }
}

impl Chain {
    /// The bundle limit of the chain.
    pub fn max_bundle_size(&self) -> (limit: usize)
        ensures
            limit == bundle_limit(*self),
    {
        match self {
            Chain::Solana => 10,
            Chain::Zcash => 1,
        }
    }

    /// The name of the chain, as its `Debug` form prints it.
    pub fn as_str(&self) -> (name: &'static str)
        ensures
            name@ == chain_name(*self),
    {
        match self {
            Chain::Solana => "Solana",
            Chain::Zcash => "Zcash",
        }
    }
}

/// The supported tokens.
#[derive(Debug, Clone, Copy, PartialEq, Eq, Structural)]
pub enum Coin {
    /// Zcash coin
    Zec,
}

/// The name of `coin`, as its `Debug` form prints it.
pub open spec fn coin_name(coin: Coin) -> Seq<char> {
    match coin {
        Coin::Zec => "Zec"@,
    }
}

/// The ticker symbol of `coin`.
pub open spec fn coin_symbol(coin: Coin) -> Seq<char> {
    match coin {
        Coin::Zec => "ZEC"@,
    }
}

impl Coin {
    /// The name of the coin, as its `Debug` form prints it.
    pub fn as_str(&self) -> (name: &'static str)
        ensures
            name@ == coin_name(*self),
    {
        match self {
            Coin::Zec => "Zec",
        }
    }

    /// The ticker symbol of the coin, its display form.
    pub fn to_string(&self) -> (symbol: String)
        ensures
            symbol@ == coin_symbol(*self),
    {
        match self {
            Coin::Zec => "ZEC".to_owned(),
        }
    }
}

} // verus!
