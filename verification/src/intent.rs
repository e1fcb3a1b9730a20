//! The intent for non-VM chains.
use vstd::prelude::*;

verus! {

/// The intent for non-VM chains
#[derive(Debug, Clone)]
pub enum Intent {
    /// The intent to bridge to the other chain
    Bridge {
        /// The recipient address on the other chain
        recipient: String,
    },
}

} // verus!
