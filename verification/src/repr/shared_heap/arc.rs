//! A string in a buffer that its clones share, sized exactly for the text and the room asked for.
use std::sync::Arc;

use vstd::prelude::*;
use vstd::string::StringSliceAdditionalSpecFns;
use vstd::utf8::*;

use crate::buffer::{write_bytes, zeroed};
use crate::std_calls::{arc_share, str_from_utf8};

verus! {

broadcast use vstd::utf8::group_utf8_lib;

/// A buffer of `capacity` bytes. The count of the strings sharing it is kept by the `Arc`
/// holding it.
#[derive(Debug)]
pub struct ArcStringInner {
    capacity: usize,
    str_buffer: Vec<u8>,
}

impl ArcStringInner {
    /// The size of the buffer.
    pub closed spec fn spec_capacity(&self) -> nat {
        self.capacity as nat
    }

    /// The bytes of the buffer.
    pub closed spec fn bytes(&self) -> Seq<u8> {
        self.str_buffer@
    }

    /// The buffer is as long as its recorded capacity.
    pub open spec fn wf(&self) -> bool {
        self.bytes().len() == self.spec_capacity()
    }

    /// A zeroed buffer of `capacity` bytes.
    pub fn with_capacity(capacity: usize) -> (r: Self)
        ensures
            r.wf(),
            r.spec_capacity() == capacity,
            forall|j: int| 0 <= j < capacity ==> r.bytes()[j] == 0,
    {
        ArcStringInner { capacity, str_buffer: zeroed(capacity) }
    }

    /// All the bytes of the buffer.
    pub fn as_bytes(&self) -> (r: &[u8])
        ensures
            r@ == self.bytes(),
    {
        self.str_buffer.as_slice()
    }

    /// Copies `src` to the start of the buffer.
    fn write_front(&mut self, src: &[u8])
        requires
            old(self).wf(),
            src@.len() <= old(self).spec_capacity(),
        ensures
            final(self).wf(),
            final(self).spec_capacity() == old(self).spec_capacity(),
            final(self).bytes().subrange(0, src@.len() as int) == src@,
    {
        write_bytes(&mut self.str_buffer, 0, src);
        assert(self.str_buffer@.subrange(0, src@.len() as int) =~= src@);
    }
}

/// A string whose buffer is shared by its clones.
#[derive(Debug)]
pub struct ArcString {
    len: usize,
    ptr: Arc<ArcStringInner>,
}

impl ArcString {
    #[verifier::type_invariant]
    spec fn inv(&self) -> bool {
        &&& self.ptr.wf()
        &&& self.len <= self.ptr.spec_capacity()
        &&& valid_utf8(self.content())
    }

    /// The bytes of the string.
    pub closed spec fn content(&self) -> Seq<u8> {
        self.ptr.bytes().subrange(0, self.len as int)
    }

    /// The size of the buffer.
    pub closed spec fn spec_capacity(&self) -> nat {
        self.ptr.spec_capacity()
    }

    /// A string holding `text` in a buffer with room for exactly `additional` more bytes. The
    /// total must fit in a `usize`.
    pub fn new(text: &str, additional: usize) -> (r: Self)
        requires
            text.spec_bytes().len() + additional <= usize::MAX,
        ensures
            r.content() == text.spec_bytes(),
            r.spec_capacity() == text.spec_bytes().len() + additional,
    {
        let bytes: &[u8] = text.as_bytes();
        let len: usize = bytes.len();
        let mut inner = ArcStringInner::with_capacity(len + additional);
        inner.write_front(bytes);
        proof {
            encode_utf8_valid_utf8(text@);
        }
        ArcString { len, ptr: Arc::new(inner) }
    }

    /// The length in bytes.
    pub fn len(&self) -> (r: usize)
        ensures
            r == self.content().len(),
    {
        proof {
            use_type_invariant(self);
        }
        self.len
    }

    /// The size of the buffer.
    pub fn capacity(&self) -> (r: usize)
        ensures
            r == self.spec_capacity(),
    {
        self.ptr.capacity
    }

    /// The string as a `&str`.
    pub fn as_str(&self) -> (r: &str)
        ensures
            r.spec_bytes() == self.content(),
    {
        proof {
            use_type_invariant(self);
        }
        let all: &[u8] = self.ptr.as_bytes();
        match str_from_utf8(&all[0..self.len]) {
            Ok(s) => {
                proof {
                    decode_utf8_encode_utf8(self.content());
                }
                s
            },
            Err(_) => "",
        }
    }
}

impl Clone for ArcString {
    /// Another string sharing the same buffer.
    fn clone(&self) -> (r: Self)
        ensures
            r.content() == self.content(),
            r.spec_capacity() == self.spec_capacity(),
    {
        proof {
            use_type_invariant(self);
        }
        ArcString { len: self.len, ptr: arc_share(&self.ptr) }
    }
}

impl<'a> From<&'a str> for ArcString {
    /// A string holding `text` in a buffer of exactly its length.
    fn from(text: &'a str) -> (r: Self)
        ensures
            r.content() == text.spec_bytes(),
            r.spec_capacity() == text.spec_bytes().len(),
    {
        let n: usize = text.as_bytes().len();
        ArcString::new(text, 0)
    }
}

impl<'a> vstd::std_specs::convert::FromSpecImpl<&'a str> for ArcString {
    open spec fn obeys_from_spec() -> bool {
        false
    }

    open spec fn from_spec(v: &'a str) -> ArcString {
        arbitrary()
    }
}

} // verus!
