//! The block structure of the zosh network.
//!
//! The votes of a header are kept as a list of `(validator key, signature)`
//! entries, one per validator.
use vstd::prelude::*;

use crate::bytes::{append_bytes, push_u32_le, u32_le};
use crate::crypto::{blake3, blake3_digest};
use crate::ex::{bundles_ordered, Extrinsic};
use crate::order::bytes_le;

verus! {

/// The block structure
#[derive(Debug, Clone)]
pub struct Block {
    /// The header of the block
    pub header: Header,
    /// The transactions of the block
    pub extrinsic: Extrinsic,
}

/// The header structure
#[derive(Debug, Clone)]
pub struct Header {
    /// The slot of the block
    pub slot: u32,
    /// The parent block hash
    pub parent: [u8; 32],
    /// The merkle root of the state
    pub state: [u8; 32],
    /// The accumulator of the history
    pub accumulator: [u8; 32],
    /// The merkle root of the extrinsic
    pub extrinsic: [u8; 32],
    /// The votes of the validators: public key and signature of the header hash
    pub votes: Vec<([u8; 32], Vec<u8>)>,
}

/// The head of a block: its slot and its hash
#[derive(Debug, Clone, Copy)]
pub struct Head {
    /// The slot of the block
    pub slot: u32,
    /// The hash of the block header
    pub hash: [u8; 32],
}

/// The validator keys of `votes` are strictly increasing, so each validator
/// votes at most once.
pub open spec fn votes_ordered(votes: Seq<([u8; 32], Vec<u8>)>) -> bool {
    forall|i: int, j: int|
        0 <= i < j < votes.len() ==> bytes_le(#[trigger] votes[i].0@, #[trigger] votes[j].0@)
            && votes[i].0@ != votes[j].0@
}

impl Header {
    /// The votes are keyed by validator, in key order.
    pub open spec fn well_formed(self) -> bool {
        votes_ordered(self.votes@)
    }

    /// The bytes a header hash commits to: the slot in little-endian order,
    /// then the parent, state, accumulator and extrinsic roots. The votes
    /// sign this hash and are not part of it.
    pub open spec fn preimage(self) -> Seq<u8> {
        u32_le(self.slot) + self.parent@ + self.state@ + self.accumulator@ + self.extrinsic@
    }

    /// The bytes the header hash commits to.
    pub fn encode(&self) -> (bytes: Vec<u8>)
        ensures
            bytes@ == self.preimage(),
    {
        let mut bytes: Vec<u8> = Vec::new();
        push_u32_le(&mut bytes, self.slot);
        append_bytes(&mut bytes, self.parent.as_slice());
        append_bytes(&mut bytes, self.state.as_slice());
        append_bytes(&mut bytes, self.accumulator.as_slice());
        append_bytes(&mut bytes, self.extrinsic.as_slice());
        assert(bytes@ =~= self.preimage());
        bytes
    }

    /// The BLAKE3 hash of the header.
    pub fn hash(&self) -> (hash: [u8; 32])
        ensures
            hash@ == blake3_digest(self.preimage()),
    {
        let bytes = self.encode();
        blake3(bytes.as_slice())
    }
}

impl Block {
    /// The votes are keyed by validator and the bundles by hash, each in key
    /// order.
    pub open spec fn well_formed(self) -> bool {
        self.header.well_formed() && bundles_ordered(self.extrinsic.bridge@)
    }

    /// The head of the block.
    pub fn head(&self) -> (head: Head)
        ensures
            head.slot == self.header.slot,
            head.hash@ == blake3_digest(self.header.preimage()),
    {
        Head { slot: self.header.slot, hash: self.header.hash() }
    }
}

} // verus!
