//! The state of the network.
//!
//! The Solana and Zcash bundle maps are kept as lists of `(hash, value)`
//! entries.
pub mod key;
pub mod sol;

use vstd::prelude::*;

use crate::bft::Bft;
use crate::order::bytes_le;
use crate::history::History;

verus! {

/// The state of the network
#[derive(Debug, Clone)]
pub struct State {
    /// The BFT consensus state
    pub bft: Bft,
    /// The history of the network
    pub history: History,
    /// The solana mint bundles
    pub sol: Vec<([u8; 32], sol::MintBundle)>,
    /// The zcash unlock bundles
    pub zec: Vec<([u8; 32], Vec<u8>)>,
}

/// The hashes of `entries` are strictly increasing, so no hash occurs twice.
pub open spec fn keys_ordered<V>(entries: Seq<([u8; 32], V)>) -> bool {
    forall|i: int, j: int|
        0 <= i < j < entries.len() ==> bytes_le(#[trigger] entries[i].0@, #[trigger] entries[j].0@)
            && entries[i].0@ != entries[j].0@
}

impl Default for State {
    /// The empty state: the default BFT state, an empty history and no
    /// bundles.
    fn default() -> (state: State)
        ensures
            state.bft.validators@.len() == 0,
            state.bft.threshold == 0,
            state.bft.series@.len() == 0,
            state.history.blocks@.len() == 0,
            state.sol@.len() == 0,
            state.zec@.len() == 0,
    {
        State { bft: Bft::default(), history: History::new(), sol: Vec::new(), zec: Vec::new() }
    }
}

impl State {
    /// The bundle maps are keyed by hash, in hash order.
    pub open spec fn well_formed(self) -> bool {
        keys_ordered(self.sol@) && keys_ordered(self.zec@)
    }
}

} // verus!
