//! Telling the kind of a representation from its final byte.
use vstd::prelude::*;

use super::HEAP_MASK;

verus! {

/// Where a representation keeps its bytes.
#[derive(Debug, Copy, Clone, PartialEq, Eq, Structural)]
pub enum Discriminant {
    Heap,
    Inline,
}

/// The final byte of a representation, which tells its kind: `HEAP_MASK` for a heap string,
/// anything else for an inline one. The value `u8::MAX` is never used, so that an empty `Option`
/// can take it.
#[derive(Debug, Copy, Clone)]
pub struct DiscriminantMask {
    padding: [u8; 23],
    val: u8,
}

impl DiscriminantMask {
    /// The final byte.
    pub closed spec fn spec_val(&self) -> u8 {
        self.val
    }

    /// The mask of a representation whose final byte is `val`.
    pub fn new(val: u8) -> (r: Self)
        ensures
            r.spec_val() == val,
    {
        DiscriminantMask { padding: [0u8; 23], val }
    }

    /// The kind the final byte stands for. The final byte must not be `u8::MAX`, the value
    /// reserved for an empty `Option`.
    pub fn discriminant(&self) -> (r: Discriminant)
        requires
            self.spec_val() != u8::MAX,
        ensures
            r == if self.spec_val() == HEAP_MASK {
                Discriminant::Heap
            } else {
                Discriminant::Inline
            },
    {
        if self.val == HEAP_MASK {
            Discriminant::Heap
        } else {
            Discriminant::Inline
        }
    }
}

} // verus!
