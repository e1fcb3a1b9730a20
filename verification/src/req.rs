//! Requests from the sync clients.
use vstd::prelude::*;

use crate::registry::Chain;

verus! {

/// A bridge request
#[derive(Debug, Clone)]
pub struct Bridge {
    /// The recipient address
    pub recipient: Vec<u8>,
    /// The amount of the transaction
    pub amount: u64,
    /// The source of the transaction
    pub source: Chain,
    /// The target chain of the transaction
    pub target: Chain,
    /// The signature of the transaction
    pub txid: Vec<u8>,
}

/// The confirmation of the bridge transaction
#[derive(Debug, Clone)]
pub struct Receipt {
    /// The anchor signature of the source transaction
    pub anchor: Vec<u8>,
    /// The signature of the confirmation transaction
    pub signature: Vec<u8>,
    /// The source chain of the transaction
    pub source: Chain,
    /// The target chain of the transaction
    pub target: Chain,
}

} // verus!
