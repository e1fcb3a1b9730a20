//! Solana related transactions.
use vstd::prelude::*;

use crate::bytes::{append_bytes, push_u64_le, to_vec, u64_le};
use crate::ex::sol::{lemma_receipt_bytes_layout, receipt_layout};
use crate::state::sol::{lemma_mint_message_layout, mint_layout, mint_message, mint_message_bytes};
use crate::tx::Message;

verus! {

/// The bridge bundle of the transaction
///
/// Note: one block can only contain one solana bridge
/// bundle at the moment due to the current design of nonce.
#[derive(Debug, Clone)]
pub struct MintBundle {
    /// The nonce of the bundle, also its unique id.
    pub nonce: u64,
    /// The mint entries: recipient and amount
    pub entries: Vec<([u8; 32], u64)>,
    /// The signatures of the bundle
    pub signatures: Vec<Vec<u8>>,
    /// The source txids of the bundle to verify the entries are valid (zcash side).
    pub source: Vec<Vec<u8>>,
}

/// The signed message of a mint bundle is its nonce followed by every entry
/// in order (see `mint_layout`).
pub proof fn lemma_mint_bundle_message_layout(b: MintBundle)
    ensures
        mint_layout(b.message_bytes(), b.nonce, b.entries@),
{
    lemma_mint_message_layout(b.nonce, b.entries@);
}

/// The signed message of a mint receipt is its nonce followed by its
/// signature bytes in their stored order (see `receipt_layout`).
pub proof fn lemma_mint_receipt_message_layout(r: MintBundleReceipt)
    ensures
        receipt_layout(r.message_bytes(), r.nonce, r.signature@),
{
    lemma_receipt_bytes_layout(r.nonce, r.signature@);
}

impl Message for MintBundle {
    open spec fn message_bytes(&self) -> Seq<u8> {
        mint_message(self.nonce, self.entries@)
    }

    open spec fn signature_list(&self) -> Seq<Seq<u8>> {
        self.signatures.deep_view()
    }

    fn message(&self) -> (message: Vec<u8>)
        ensures
            mint_layout(message@, self.nonce, self.entries@),
    {
        mint_message_bytes(self.nonce, &self.entries)
    }

    fn append_signature(&mut self, signature: [u8; 64])
        ensures
            final(self).nonce == old(self).nonce,
            final(self).entries == old(self).entries,
            final(self).source == old(self).source,
    {
        let sig = to_vec(signature.as_slice());
        let ghost before = self.signatures.deep_view();
        self.signatures.push(sig);
        assert(sig.deep_view() =~= signature@);
        assert(self.signatures.deep_view() =~= before.push(signature@));
    }
}

/// The receipt of the mint bundle
///
/// This transaction is used to verify the mint bundle has
/// been finalized on the solana side.
#[derive(Debug, Clone)]
pub struct MintBundleReceipt {
    /// The signature of the receipt (solana side)
    pub signature: Vec<u8>,
    /// The nonce of the bundle
    pub nonce: u64,
    /// Validators exceed the threshold should sign the receipt
    /// to make sure this transaction is valid.
    pub signatures: Vec<Vec<u8>>,
}

impl Message for MintBundleReceipt {
    /// The nonce in little-endian order followed by the signature.
    open spec fn message_bytes(&self) -> Seq<u8> {
        u64_le(self.nonce) + self.signature@
    }

    open spec fn signature_list(&self) -> Seq<Seq<u8>> {
        self.signatures.deep_view()
    }

    fn append_signature(&mut self, signature: [u8; 64])
        ensures
            final(self).nonce == old(self).nonce,
            final(self).signature == old(self).signature,
    {
        let sig = to_vec(signature.as_slice());
        let ghost before = self.signatures.deep_view();
        self.signatures.push(sig);
        assert(sig.deep_view() =~= signature@);
        assert(self.signatures.deep_view() =~= before.push(signature@));
    }

    fn message(&self) -> (message: Vec<u8>)
        ensures
            receipt_layout(message@, self.nonce, self.signature@),
    {
        let mut message: Vec<u8> = Vec::new();
        push_u64_le(&mut message, self.nonce);
        append_bytes(&mut message, self.signature.as_slice());
        assert(message@ =~= u64_le(self.nonce) + self.signature@);
        proof {
            lemma_receipt_bytes_layout(self.nonce, self.signature@);
        }
        message
    }
}

} // verus!
