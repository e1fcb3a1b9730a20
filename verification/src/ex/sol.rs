//! Solana related transactions of a block.
use vstd::prelude::*;

use crate::bytes::{append_bytes, le_digits, lemma_u64_le_digits, push_u64_le, u64_le};
use crate::util::Message;

verus! {

/// The receipt of the mint bundle
///
/// This transaction is used to verify the mint bundle has
/// been finalized on the solana side.
#[derive(Debug, Clone)]
pub struct MintBundleReceipt {
    /// The hash of the mint bundle
    pub hash: [u8; 32],
    /// The signature of the receipt (solana side)
    pub signature: Vec<u8>,
    /// The nonce of the bundle
    pub nonce: u64,
}

/// `m` holds the nonce and then the signature: 8 bytes of the nonce, least
/// significant first, then the signature bytes in their stored order.
pub open spec fn receipt_layout(m: Seq<u8>, nonce: u64, signature: Seq<u8>) -> bool {
    &&& m.len() == 8 + signature.len()
    &&& m.subrange(0, 8) == le_digits(nonce)
    &&& forall|i: int| 0 <= i < signature.len() ==> m[8 + i] == #[trigger] signature[i]
}

/// The nonce in little-endian order followed by `signature`, laid out as
/// `receipt_layout` says.
pub proof fn lemma_receipt_bytes_layout(nonce: u64, signature: Seq<u8>)
    ensures
        receipt_layout(u64_le(nonce) + signature, nonce, signature),
{
    lemma_u64_le_digits(nonce);
    let m = u64_le(nonce) + signature;
    assert(m.subrange(0, 8) =~= u64_le(nonce));
}

/// The signed message of a mint receipt is its nonce followed by its
/// signature bytes in their stored order, nothing else.
pub proof fn lemma_receipt_message_layout(r: MintBundleReceipt)
    ensures
        receipt_layout(r.message_bytes(), r.nonce, r.signature@),
{
    lemma_receipt_bytes_layout(r.nonce, r.signature@);
}

impl Message for MintBundleReceipt {
    /// The nonce in little-endian order followed by the signature.
    open spec fn message_bytes(&self) -> Seq<u8> {
        u64_le(self.nonce) + self.signature@
    }

    fn message(&self) -> (message: Vec<u8>)
        ensures
            receipt_layout(message@, self.nonce, self.signature@),
    {
        let mut message: Vec<u8> = Vec::new();
        push_u64_le(&mut message, self.nonce);
        append_bytes(&mut message, self.signature.as_slice());
        assert(message@ =~= u64_le(self.nonce) + self.signature@);
        proof {
            lemma_receipt_bytes_layout(self.nonce, self.signature@);
        }
        message
    }
}

} // verus!
