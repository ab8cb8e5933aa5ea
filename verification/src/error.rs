//! The error of the one operation that takes bytes on trust from outside.

use vstd::prelude::*;

verus! {

/// Bytes that are not valid UTF-8: the bytes themselves, given back whole,
/// and the length of their longest prefix that is valid, which is the offset
/// of the first byte that is not.
#[derive(Debug, Clone, PartialEq, Eq)]
pub struct InvalidUtf8 {
    pub bytes: Vec<u8>,
    pub valid_up_to: usize,
}

impl InvalidUtf8 {
    /// The bytes that were refused.
    pub fn as_bytes(&self) -> (r: &[u8])
        ensures
            r@ == self.bytes@,
    {
        self.bytes.as_slice()
    }

    /// Gives the refused bytes back.
    pub fn into_bytes(self) -> (r: Vec<u8>)
        ensures
            r@ == self.bytes@,
    {
        self.bytes
    }

    /// The offset of the first byte that is not part of valid UTF-8.
    pub fn valid_up_to(&self) -> (n: usize)
        ensures
            n == self.valid_up_to,
    {
        self.valid_up_to
    }
}

} // verus!
