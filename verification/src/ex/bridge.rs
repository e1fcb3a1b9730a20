//! The bridge transactions.
use vstd::prelude::*;

use crate::registry::{Chain, Coin};

verus! {

/// The signed bridge transactions of one bundle.
#[derive(Debug, Clone)]
pub struct BridgeBundle {
    /// The chain the bundle is sent to.
    pub target: Chain,
    /// The bridge transactions
    pub bridge: Vec<Bridge>,
    /// The data we need for reconstructing the outer transaction
    pub data: Vec<u8>,
    /// The signatures for the upcoming outer transactions
    pub signatures: Vec<Vec<u8>>,
}

impl BridgeBundle {
    /// An empty bundle for `target`.
    pub fn new(target: Chain) -> (bundle: BridgeBundle)
        ensures
            bundle.target == target,
            bundle.bridge@.len() == 0,
            bundle.data@.len() == 0,
            bundle.signatures@.len() == 0,
    {
        BridgeBundle { target, bridge: Vec::new(), data: Vec::new(), signatures: Vec::new() }
    }
}

/// The bridge transaction
#[derive(Debug, Clone)]
pub struct Bridge {
    /// The token of the transaction
    pub coin: Coin,
    /// The recipient address
    pub recipient: Vec<u8>,
    /// The amount of the transaction
    pub amount: u64,
    /// The source of the transaction
    pub source: Chain,
    /// The target chain of the transaction
    pub target: Chain,
    /// The signature of the transaction
    pub txid: Vec<u8>,
}

/// The confirmation of the bridge transaction
#[derive(Debug, Clone)]
pub struct Receipt {
    /// The anchor signature of the source transaction
    pub anchor: Vec<u8>,
    /// The coin of the transaction
    pub coin: Coin,
    /// The signature of the confirmation transaction
    pub txid: Vec<u8>,
    /// The source chain of the transaction
    pub source: Chain,
    /// The target chain of the transaction
    pub target: Chain,
}

} // verus!
