//! The transaction structure of the network.
pub mod sol;
pub mod sync;
pub mod zec;

pub use sol::{MintBundle, MintBundleReceipt};

use vstd::prelude::*;

verus! {

/// The transactions inside of a block
#[derive(Debug)]
pub struct Transaction {
    /// Solana mint bundle
    pub sol_mint: Option<MintBundle>,
    /// The receipts of mint bundles, could be async.
    pub sol_mint_receipts: Vec<MintBundleReceipt>,
}

/// The message trait of signed transactions
pub trait Message {
    /// The bytes to sign for the transaction.
    spec fn message_bytes(&self) -> Seq<u8>;

    /// The signatures collected so far.
    spec fn signature_list(&self) -> Seq<Seq<u8>>;

    /// Get the message need to sign for the transaction
    fn message(&self) -> (message: Vec<u8>)
        ensures
            message@ == self.message_bytes(),
    ;

    /// Append the signature to the message; the signed message stays the same.
    fn append_signature(&mut self, signature: [u8; 64])
        ensures
            final(self).signature_list() == old(self).signature_list().push(signature@),
            final(self).message_bytes() == old(self).message_bytes(),
    ;
}

} // verus!
