//! Utility traits for the core library.
use vstd::prelude::*;

use crate::CoreError;

verus! {

/// The message trait
pub trait Message {
    /// The bytes to sign for the transaction.
    spec fn message_bytes(&self) -> Seq<u8>;

    /// Get the message need to sign for the transaction
    fn message(&self) -> (message: Vec<u8>)
        ensures
            message@ == self.message_bytes(),
    ;
}

/// The outcome of reading `bytes` as an array of `n` bytes.
pub open spec fn fixed_ok(bytes: Seq<u8>, n: usize, array: Seq<u8>) -> bool {
    bytes.len() == n && array == bytes
}

/// The error of reading `bytes` as an array of `n` bytes.
pub open spec fn fixed_err(bytes: Seq<u8>, n: usize, e: CoreError) -> bool {
    bytes.len() != n && e == (CoreError::InvalidLength { expected: n, got: bytes.len() as usize })
}

/// Copies `data` into an array of `N` bytes when it holds exactly `N` bytes.
///
/// Trusted: calls `<[u8; N]>::try_from(&[u8])`, which std documents to
/// succeed exactly when the slice has length `N`, copying it.
#[verifier::external_body]
fn array_from_slice<const N: usize>(data: &[u8]) -> (array: Option<[u8; N]>)
    ensures
        array is Some <==> data@.len() == N,
        array matches Some(a) ==> a@ == data@,
{
    <[u8; N]>::try_from(data).ok()
}

/// convert the bytes to a fixed size array
pub trait FixedBytes {
    /// The bytes held.
    spec fn byte_view(&self) -> Seq<u8>;

    /// Convert the bytes to a 32 byte array
    fn bytes32(&self) -> (r: Result<[u8; 32], CoreError>)
        ensures
            match r {
                Ok(a) => fixed_ok(self.byte_view(), 32, a@),
                Err(e) => fixed_err(self.byte_view(), 32, e),
            },
    ;

    /// Convert the bytes to a 64 byte array
    fn bytes64(&self) -> (r: Result<[u8; 64], CoreError>)
        ensures
            match r {
                Ok(a) => fixed_ok(self.byte_view(), 64, a@),
                Err(e) => fixed_err(self.byte_view(), 64, e),
            },
    ;

    /// Convert the bytes to a fixed size array
    fn bytes<const N: usize>(&self) -> (r: Result<[u8; N], CoreError>)
        ensures
            match r {
                Ok(a) => fixed_ok(self.byte_view(), N, a@),
                Err(e) => fixed_err(self.byte_view(), N, e),
            },
    ;
}

impl FixedBytes for [u8] {
    open spec fn byte_view(&self) -> Seq<u8> {
        self@
    }

    fn bytes32(&self) -> (r: Result<[u8; 32], CoreError>) {
        self.bytes::<32>()
    }

    fn bytes64(&self) -> (r: Result<[u8; 64], CoreError>) {
        self.bytes::<64>()
    }

    fn bytes<const N: usize>(&self) -> (r: Result<[u8; N], CoreError>) {
        match array_from_slice::<N>(self) {
            Some(a) => Ok(a),
            None => Err(CoreError::InvalidLength { expected: N, got: self.len() }),
        }
    }
}

impl FixedBytes for Vec<u8> {
    open spec fn byte_view(&self) -> Seq<u8> {
        self@
    }

    fn bytes32(&self) -> (r: Result<[u8; 32], CoreError>) {
        self.as_slice().bytes::<32>()
    }

    fn bytes64(&self) -> (r: Result<[u8; 64], CoreError>) {
        self.as_slice().bytes::<64>()
    }

    fn bytes<const N: usize>(&self) -> (r: Result<[u8; N], CoreError>) {
        self.as_slice().bytes::<N>()
    }
}

} // verus!
