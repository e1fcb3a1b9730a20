//! Errors of the core library.
use vstd::prelude::*;
use vstd::string::StringExecFns;

use crate::codec::{decimal, push_decimal};

verus! {

/// Errors raised by the core primitives.
#[derive(Debug, Clone, PartialEq, Eq, Structural)]
pub enum CoreError {
    /// A byte string did not have the required length.
    InvalidLength {
        /// The required number of bytes.
        expected: usize,
        /// The number of bytes found.
        got: usize,
    },
    /// A header carried fewer valid validator votes than the threshold.
    InsufficientVotes {
        /// The threshold of the BFT state.
        threshold: u8,
        /// The number of valid validator votes.
        votes: usize,
    },
}

/// The text of the error `e`.
pub open spec fn error_message(e: CoreError) -> Seq<char> {
    match e {
        CoreError::InvalidLength { expected, got } => "expected "@ + decimal(expected as nat) + " bytes, got "@
            + decimal(got as nat) + " bytes"@,
        CoreError::InsufficientVotes { threshold, votes } => "Insufficient votes, expected "@ + decimal(
            threshold as nat,
        ) + " votes, got "@ + decimal(votes as nat),
    }
}

impl CoreError {
    /// The text of the error.
    pub fn message(&self) -> (message: String)
        ensures
            message@ == error_message(*self),
    {
        match self {
            CoreError::InvalidLength { expected, got } => {
                let mut m = "expected ".to_owned();
                push_decimal(&mut m, *expected);
                m.append(" bytes, got ");
                push_decimal(&mut m, *got);
                m.append(" bytes");
                m
            },
            CoreError::InsufficientVotes { threshold, votes } => {
                let mut m = "Insufficient votes, expected ".to_owned();
                push_decimal(&mut m, *threshold as usize);
                m.append(" votes, got ");
                push_decimal(&mut m, *votes);
                m
            },
        }
    }
}

} // verus!
