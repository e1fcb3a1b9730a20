//! Core types, cryptographic primitives and explorer logic of the zosh bridge.

pub mod bft;
pub mod block;
pub mod bytes;
pub mod codec;
pub mod crypto;
pub mod error;
pub mod history;
pub mod intent;
pub mod node;
pub mod ex;
pub mod order;
pub mod registry;
pub mod req;
pub mod state;
pub mod tx;
pub mod ui;
pub mod util;

pub use block::{Block, Head, Header};
pub use error::CoreError;
pub use ex::Extrinsic;
pub use state::State;
pub use util::{FixedBytes, Message};

use vstd::prelude::*;

verus! {

/// Number of blocks kept in the history window.
pub const EPOCH_LENGTH: usize = 12;

/// An Ed25519 signature.
pub type Ed25519Signature = [u8; 64];

/// A key of the state trie.
pub type TrieKey = [u8; 31];

} // verus!
