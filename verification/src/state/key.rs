//! The keys of the state trie.
use vstd::prelude::*;

verus! {

/// The id of the BFT state.
pub const BFT_KEY_ID: u8 = 0;

/// The id of the history state.
pub const HISTORY_KEY_ID: u8 = 1;

/// The id of the Solana state.
pub const SOL_KEY_ID: u8 = 2;

/// The id of the Zcash state.
pub const ZEC_KEY_ID: u8 = 3;

/// The trie key of the state with id `id`: the id followed by thirty zero bytes.
pub open spec fn state_key(id: u8) -> Seq<u8> {
    seq![id] + Seq::new(30, |i: int| 0u8)
}

/// The trie key of the state with id `id`.
pub fn to_key(id: u8) -> (key: [u8; 31])
    ensures
        key@ == state_key(id),
{
    let mut key = [0u8; 31];
    key[0] = id;
    assert(key@ =~= state_key(id));
    key
}

} // verus!
