//! Sizes in bytes that cannot be zero.
use vstd::prelude::*;

verus! {

/// A number of bytes that is at least one.
#[derive(Clone, Copy, Debug, PartialEq, Eq)]
pub struct NonZeroSize {
    bytes: usize,
}

impl View for NonZeroSize {
    type V = usize;

    closed spec fn view(&self) -> usize {
        self.bytes
    }
}

impl NonZeroSize {
    #[verifier::type_invariant]
    spec fn is_positive(self) -> bool {
        self.bytes > 0
    }

    /// The size of `bytes` bytes, unless that is none.
    pub fn new(bytes: usize) -> (size: Option<NonZeroSize>)
        ensures
            size is Some <==> bytes > 0,
            size matches Some(s) ==> s@ == bytes,
    {
        if bytes > 0 {
            Some(NonZeroSize { bytes })
        } else {
            None
        }
    }

    /// The number of bytes.
    pub fn get(&self) -> (bytes: usize)
        ensures
            bytes == self@,
            bytes > 0,
    {
        proof {
            use_type_invariant(self);
        }
        self.bytes
    }
}

} // verus!
