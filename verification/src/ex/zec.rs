//! Zcash related transactions.
use vstd::prelude::*;

verus! {

/// The unlock bundle receipt
#[derive(Debug, Clone)]
pub struct UnlockBundleReceipt {
    /// The blake2b hash of the raw unlock bundle
    pub hash: [u8; 32],
    /// The transaction ids we processed on zcash
    pub txid: Vec<u8>,
}

} // verus!
