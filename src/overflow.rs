//! The error for a prefix that declares more extra bytes than a `u64` can use.
use vstd::prelude::*;

verus! {

/// A prefix declared `size` extra bytes, more than the eight that a `u64` fills.
#[derive(Clone, Copy, Debug, PartialEq, Eq, Structural)]
pub struct OverflowError {
    pub size: usize,
}

impl OverflowError {
    pub fn new(size: usize) -> (r: Self)
        ensures
            r.size == size,
    {
        Self { size }
    }

    /// The number of extra bytes that the prefix declared.
    pub fn size(&self) -> (r: usize)
        ensures
            r == self.size,
    {
        self.size
    }
}

} // verus!
