//! The allocation behind an [`super::ArcString`]: a header and a buffer.
use vstd::prelude::*;

use crate::buffer::{to_vec, write_bytes, zeroed};

verus! {

/// The header of a shared buffer. The count of the strings sharing it is the one kept by the
/// `Arc` that holds the buffer.
#[derive(Debug)]
pub struct ArcStringHeader {
    pub capacity: usize,
}

/// A buffer of `capacity` bytes behind its header.
#[derive(Debug)]
pub struct ArcStringPtr {
    header: ArcStringHeader,
    buf: Vec<u8>,
}

impl ArcStringPtr {
    /// The number of bytes the buffer holds.
    pub closed spec fn spec_capacity(&self) -> nat {
        self.header.capacity as nat
    }

    /// The bytes of the buffer, used or not.
    pub closed spec fn bytes(&self) -> Seq<u8> {
        self.buf@
    }

    /// The buffer is as long as the header says.
    pub open spec fn wf(&self) -> bool {
        self.bytes().len() == self.spec_capacity()
    }

    /// A zeroed buffer of `capacity` bytes.
    pub fn with_capacity(capacity: usize) -> (r: Self)
        ensures
            r.wf(),
            r.spec_capacity() == capacity,
            forall|j: int| 0 <= j < capacity ==> r.bytes()[j] == 0,
    {
        ArcStringPtr { header: ArcStringHeader { capacity }, buf: zeroed(capacity) }
    }

    /// The header.
    pub fn header(&self) -> (r: &ArcStringHeader)
        ensures
            r.capacity == self.spec_capacity(),
    {
        &self.header
    }

    /// All the bytes of the buffer.
    pub fn str_buf(&self) -> (r: &[u8])
        ensures
            r@ == self.bytes(),
    {
        self.buf.as_slice()
    }

    /// Copies `src` into the buffer at `at`.
    pub fn write(&mut self, at: usize, src: &[u8])
        requires
            old(self).wf(),
            at + src@.len() <= old(self).spec_capacity(),
        ensures
            final(self).wf(),
            final(self).spec_capacity() == old(self).spec_capacity(),
            final(self).bytes() == old(self).bytes().subrange(0, at as int) + src@ + old(self).bytes().subrange(at + src@.len(), old(self).bytes().len() as int),
    {
        write_bytes(&mut self.buf, at, src);
    }

    /// A buffer of its own with the same header and bytes.
    pub fn copy(&self) -> (r: Self)
        ensures
            r.bytes() == self.bytes(),
            r.spec_capacity() == self.spec_capacity(),
            self.wf() ==> r.wf(),
    {
        ArcStringPtr {
            header: ArcStringHeader { capacity: self.header.capacity },
            buf: to_vec(self.buf.as_slice()),
        }
    }
}

} // verus!
