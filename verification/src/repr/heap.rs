//! The heap variant of a compact string.
use vstd::prelude::*;
use vstd::string::StringSliceAdditionalSpecFns;
use vstd::utf8::*;

use super::boxed::{grown_capacity, BoxString, MIN_SIZE};

verus! {

/// A string whose bytes live in a heap buffer.
#[derive(Debug)]
pub struct HeapString {
    pub string: BoxString,
}

impl HeapString {
    /// The buffer is well formed.
    pub open spec fn wf(&self) -> bool {
        self.string.wf()
    }

    /// The bytes of the string.
    pub open spec fn content(&self) -> Seq<u8> {
        self.string.content()
    }

    /// The size of the buffer.
    pub open spec fn spec_capacity(&self) -> nat {
        self.string.spec_capacity()
    }

    /// A heap string holding `text`.
    pub fn new(text: &str) -> (r: Self)
        ensures
            r.wf(),
            r.content() == text.spec_bytes(),
            r.spec_capacity() == if text.spec_bytes().len() > MIN_SIZE {
                text.spec_bytes().len()
            } else {
                MIN_SIZE as nat
            },
    {
        HeapString { string: BoxString::new(text) }
    }

    /// A heap string holding `text`, with room for `additional` more bytes.
    pub fn with_additional(text: &str, additional: usize) -> (r: Self)
        requires
            text.spec_bytes().len() + additional <= usize::MAX,
        ensures
            r.wf(),
            r.content() == text.spec_bytes(),
            r.spec_capacity() == grown_capacity(text.spec_bytes().len(), additional as nat),
    {
        HeapString { string: BoxString::with_additional(text, additional) }
    }

    /// An empty heap string with at least `capacity` bytes of room.
    pub fn with_capacity(capacity: usize) -> (r: Self)
        ensures
            r.wf(),
            r.content() == Seq::<u8>::empty(),
            r.spec_capacity() == if capacity > MIN_SIZE {
                capacity as nat
            } else {
                MIN_SIZE as nat
            },
    {
        HeapString { string: BoxString::with_capacity(capacity) }
    }

    /// A heap string holding the contents of `s`.
    pub fn from_string(s: String) -> (r: Self)
        ensures
            r.wf(),
            decode_utf8(r.content()) == s@,
            r.content() == encode_utf8(s@),
            r.spec_capacity() >= r.content().len(),
    {
        HeapString { string: BoxString::from_string(s) }
    }

    /// Shortens the string to its first `length` bytes, which must form valid UTF-8.
    pub fn set_len(&mut self, length: usize)
        requires
            old(self).wf(),
            length <= old(self).content().len(),
            valid_utf8(old(self).content().subrange(0, length as int)),
        ensures
            final(self).wf(),
            final(self).content() == old(self).content().subrange(0, length as int),
            final(self).spec_capacity() == old(self).spec_capacity(),
    {
        self.string.set_len(length);
    }
}

} // verus!
