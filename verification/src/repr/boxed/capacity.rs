//! A capacity stored in the low bytes of a word whose final byte is `HEAP_MASK`.
//!
//! Seven bytes hold the value in little-endian order, so capacities up to `MAX_VALUE` fit. A
//! larger capacity is represented by a marker word, and the owner then keeps the capacity
//! alongside the buffer instead.
use vstd::prelude::*;

use crate::repr::HEAP_MASK;

verus! {

/// The largest capacity that fits in the word: `2^56 - 2`.
pub const MAX_VALUE: u64 = 72_057_594_037_927_934u64;

/// The number the first seven bytes of a word spell, least significant first.
pub open spec fn le_value(b: Seq<u8>) -> u64 {
    (b[0] as u64) | ((b[1] as u64) << 8u64) | ((b[2] as u64) << 16u64) | ((b[3] as u64)
        << 24u64) | ((b[4] as u64) << 32u64) | ((b[5] as u64) << 40u64) | ((b[6] as u64)
        << 48u64)
}

/// The marker word: seven bytes of `255` followed by `HEAP_MASK`.
pub open spec fn is_marker(b: Seq<u8>) -> bool {
    &&& b[0] == 255
    &&& b[1] == 255
    &&& b[2] == 255
    &&& b[3] == 255
    &&& b[4] == 255
    &&& b[5] == 255
    &&& b[6] == 255
    &&& b[7] == HEAP_MASK
}

proof fn lemma_le_bytes(v: u64)
    by (bit_vector)
    requires
        v <= 72_057_594_037_927_934u64,
    ensures
        ((v & 0xff) as u8 as u64) | ((((v >> 8u64) & 0xff) as u8 as u64) << 8u64) | ((((v
            >> 16u64) & 0xff) as u8 as u64) << 16u64) | ((((v >> 24u64) & 0xff) as u8 as u64)
            << 24u64) | ((((v >> 32u64) & 0xff) as u8 as u64) << 32u64) | ((((v >> 40u64)
            & 0xff) as u8 as u64) << 40u64) | ((((v >> 48u64) & 0xff) as u8 as u64) << 48u64)
            == v,
        !(((v & 0xff) as u8) == 255u8 && (((v >> 8u64) & 0xff) as u8) == 255u8 && (((v >> 16u64)
            & 0xff) as u8) == 255u8 && (((v >> 24u64) & 0xff) as u8) == 255u8 && (((v >> 32u64)
            & 0xff) as u8) == 255u8 && (((v >> 40u64) & 0xff) as u8) == 255u8 && (((v >> 48u64)
            & 0xff) as u8) == 255u8),
{
}

/// An integer that uses the low seven bytes of a word to store the capacity of a heap buffer.
#[derive(Copy, Clone, Debug, PartialEq, Eq)]
pub struct Capacity {
    buf: [u8; 8],
}

/// The word that says the capacity lives with the buffer.
fn capacity_is_on_the_heap() -> (r: [u8; 8])
    ensures
        is_marker(r@),
{
    [255u8, 255u8, 255u8, 255u8, 255u8, 255u8, 255u8, HEAP_MASK]
}

impl Capacity {
    /// The stored capacity, or `None` for the marker word.
    pub closed spec fn spec_value(&self) -> Option<u64> {
        if is_marker(self.buf@) {
            None
        } else {
            Some(le_value(self.buf@))
        }
    }

    /// Stores `capacity`; a capacity above `MAX_VALUE` gives the marker word as an error.
    pub fn new(capacity: usize) -> (r: Result<Self, Self>)
        ensures
            r is Err <==> capacity as u64 > MAX_VALUE,
            r matches Ok(c) ==> c.spec_value() == Some(capacity as u64),
            r matches Err(c) ==> c.spec_value() is None,
    {
        let v: u64 = capacity as u64;
        if v > MAX_VALUE {
            Err(Capacity { buf: capacity_is_on_the_heap() })
        } else {
            let mut bytes: [u8; 8] = [0u8; 8];
            bytes[0] = (v & 0xff) as u8;
            bytes[1] = ((v >> 8u64) & 0xff) as u8;
            bytes[2] = ((v >> 16u64) & 0xff) as u8;
            bytes[3] = ((v >> 24u64) & 0xff) as u8;
            bytes[4] = ((v >> 32u64) & 0xff) as u8;
            bytes[5] = ((v >> 40u64) & 0xff) as u8;
            bytes[6] = ((v >> 48u64) & 0xff) as u8;
            bytes[7] = HEAP_MASK;
            proof {
                lemma_le_bytes(v);
            }
            Ok(Capacity { buf: bytes })
        }
    }

    /// The capacity read back as a `usize`: `Err(())` for the marker word or a value too large
    /// for a `usize`.
    pub open spec fn read_back(&self) -> Result<usize, ()> {
        match self.spec_value() {
            Some(v) => if v <= usize::MAX {
                Ok::<usize, ()>(v as usize)
            } else {
                Err(())
            },
            None => Err(()),
        }
    }

    /// The stored capacity, or `Err(())` for the marker word.
    pub fn as_usize(self) -> (r: Result<usize, ()>)
        ensures
            r == self.read_back(),
    {
        if self.is_heap() {
            Err(())
        } else {
            let b = self.buf;
            let v: u64 = (b[0] as u64) | ((b[1] as u64) << 8u64) | ((b[2] as u64) << 16u64) | ((
            b[3] as u64) << 24u64) | ((b[4] as u64) << 32u64) | ((b[5] as u64) << 40u64) | ((
            b[6] as u64) << 48u64);
            if v > usize::MAX as u64 {
                Err(())
            } else {
                Ok(v as usize)
            }
        }
    }

    /// Whether this is the marker word.
    pub fn is_heap(self) -> (r: bool)
        ensures
            r == (self.spec_value() is None),
    {
        let b = self.buf;
        b[0] == 255 && b[1] == 255 && b[2] == 255 && b[3] == 255 && b[4] == 255 && b[5] == 255
            && b[6] == 255 && b[7] == HEAP_MASK
    }
}

} // verus!
