//! Types of the node and sync command line tools.
use vstd::prelude::*;

use crate::ex::Bridge;

verus! {

/// Network type wrapper
#[derive(Debug, Clone, Copy, PartialEq, Eq, Structural)]
pub enum Network {
    Mainnet,
    Testnet,
}

/// Solana command line interface
#[derive(Debug)]
pub enum Solana {
    /// Get the current bridge state
    State,
    /// Get the current zec balance for a recipient
    Balance {
        /// The address of the recipient
        address: Option<String>,
    },
    /// Burn sZEC to bridge back to Zcash
    Burn {
        /// The amount to burn
        amount: u64,
        /// The address of the recipient
        recipient: String,
    },
    /// Get or update the current metadata
    Metadata {
        /// The new name of the bridged ZEC
        name: String,
        /// The new symbol of the bridged ZEC
        symbol: String,
        /// The new URI of the bridged ZEC
        uri: String,
        /// Whether to update the metadata
        update: bool,
    },
}

/// The transaction structure of the node
pub struct Transaction {
    /// The bridge transactions
    pub bridge: Vec<Bridge>,
}

} // verus!
