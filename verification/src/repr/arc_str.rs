//! An immutable string in a buffer that its clones share.
use std::sync::Arc;

use vstd::prelude::*;
use vstd::string::StringSliceAdditionalSpecFns;
use vstd::utf8::*;

use crate::buffer::{write_bytes, zeroed};
use crate::std_calls::{arc_share, str_from_utf8};
use crate::unicode::lemma_empty_valid;

verus! {

broadcast use vstd::utf8::group_utf8_lib;

/// A buffer of `capacity` bytes. The count of the strings sharing it is kept by the `Arc`
/// holding it.
#[derive(Debug)]
pub struct ArcStrInner {
    capacity: usize,
    str_buffer: Vec<u8>,
}

/// A pointer to a shared buffer.
#[derive(Debug)]
pub struct ArcStrPtr {
    ptr: Arc<ArcStrInner>,
}

impl ArcStrInner {
    /// A pointer to a new, empty buffer.
    pub fn new() -> (r: ArcStrPtr)
        ensures
            r.wf(),
            r.spec_capacity() == 0,
    {
        Self::with_capacity(0)
    }

    /// A pointer to a new zeroed buffer of `capacity` bytes.
    pub fn with_capacity(capacity: usize) -> (r: ArcStrPtr)
        ensures
            r.wf(),
            r.spec_capacity() == capacity,
            forall|j: int| 0 <= j < capacity ==> r.bytes()[j] == 0,
    {
        ArcStrPtr { ptr: Arc::new(ArcStrInner { capacity, str_buffer: zeroed(capacity) }) }
    }
}

impl ArcStrPtr {
    /// The size of the buffer.
    pub closed spec fn spec_capacity(&self) -> nat {
        self.ptr.capacity as nat
    }

    /// The bytes of the buffer.
    pub closed spec fn bytes(&self) -> Seq<u8> {
        self.ptr.str_buffer@
    }

    /// The buffer is as long as its recorded capacity.
    pub open spec fn wf(&self) -> bool {
        self.bytes().len() == self.spec_capacity()
    }

    /// All the bytes of the buffer.
    pub fn as_str_buffer(&self) -> (r: &[u8])
        ensures
            r@ == self.bytes(),
    {
        self.ptr.str_buffer.as_slice()
    }

    /// A pointer to a new buffer of exactly `text.len()` bytes holding `text`.
    fn from_text(text: &[u8]) -> (r: Self)
        ensures
            r.wf(),
            r.bytes() == text@,
            r.spec_capacity() == text@.len(),
    {
        let n: usize = text.len();
        let mut buf = zeroed(n);
        write_bytes(&mut buf, 0, text);
        assert(buf@ =~= text@);
        ArcStrPtr { ptr: Arc::new(ArcStrInner { capacity: n, str_buffer: buf }) }
    }
}

/// An immutable string whose buffer its clones share.
#[derive(Debug)]
pub struct ArcStr {
    len: usize,
    ptr: ArcStrPtr,
}

impl ArcStr {
    #[verifier::type_invariant]
    spec fn inv(&self) -> bool {
        &&& self.ptr.wf()
        &&& self.len <= self.ptr.spec_capacity()
        &&& valid_utf8(self.content())
    }

    /// The bytes of the string.
    pub closed spec fn content(&self) -> Seq<u8> {
        self.ptr.bytes().subrange(0, self.len as int)
    }

    /// The empty string, in a buffer of no bytes.
    pub fn new() -> (r: Self)
        ensures
            r.content() == Seq::<u8>::empty(),
    {
        let ptr = ArcStrInner::new();
        proof {
            lemma_empty_valid();
            assert(ptr.bytes().subrange(0, 0) =~= Seq::<u8>::empty());
        }
        ArcStr { len: 0, ptr }
    }

    /// The length in bytes.
    pub fn len(&self) -> (r: usize)
        ensures
            r == self.content().len(),
    {
        proof {
            use_type_invariant(self);
        }
        self.len
    }

    /// The string as a `&str`.
    pub fn as_str(&self) -> (r: &str)
        ensures
            r.spec_bytes() == self.content(),
    {
        proof {
            use_type_invariant(self);
        }
        let all: &[u8] = self.ptr.as_str_buffer();
        match str_from_utf8(&all[0..self.len]) {
            Ok(s) => {
                proof {
                    decode_utf8_encode_utf8(self.content());
                }
                s
            },
            Err(_) => "",
        }
    }
}

impl Clone for ArcStr {
    /// Another string sharing the same buffer.
    fn clone(&self) -> (r: Self)
        ensures
            r.content() == self.content(),
    {
        proof {
            use_type_invariant(self);
        }
        ArcStr { len: self.len, ptr: ArcStrPtr { ptr: arc_share(&self.ptr.ptr) } }
    }
}

impl<'a> From<&'a str> for ArcStr {
    /// A string holding `text` in a buffer of exactly its length.
    fn from(text: &'a str) -> (r: Self)
        ensures
            r.content() == text.spec_bytes(),
    {
        let bytes: &[u8] = text.as_bytes();
        let ptr = ArcStrPtr::from_text(bytes);
        proof {
            encode_utf8_valid_utf8(text@);
            assert(ptr.bytes().subrange(0, bytes@.len() as int) =~= bytes@);
        }
        ArcStr { len: bytes.len(), ptr }
    }
}

impl<'a> vstd::std_specs::convert::FromSpecImpl<&'a str> for ArcStr {
    open spec fn obeys_from_spec() -> bool {
        false
    }

    open spec fn from_spec(v: &'a str) -> ArcStr {
        arbitrary()
    }
}

} // verus!
