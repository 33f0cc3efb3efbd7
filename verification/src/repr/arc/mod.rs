//! A string in a buffer that clones share, copied before a write when it is shared.
use std::sync::Arc;

use vstd::prelude::*;
use vstd::string::StringSliceAdditionalSpecFns;
use vstd::utf8::*;

pub mod inner;
pub mod writer;

use self::inner::ArcStringPtr;
use self::writer::ArcStringWriter;
use super::iter::concat_strs;
use super::MAX_SIZE;
use crate::std_calls::{arc_share, arc_try_unwrap, str_from_utf8};
use crate::unicode::lemma_empty_valid;

verus! {

broadcast use vstd::utf8::group_utf8_lib;

/// A string whose buffer is shared by its clones.
#[derive(Debug)]
pub struct ArcString {
    ptr: Arc<ArcStringPtr>,
    len: usize,
}

/// The capacity a string of `len` bytes gets when it is copied with room for `additional` more:
/// half as much again as its length when that is more and can be computed without overflow.
pub open spec fn amortized_capacity(len: nat, additional: nat) -> nat {
    if 3 * len <= usize::MAX && 3 * len / 2 > len + additional {
        3 * len / 2
    } else {
        len + additional
    }
}

impl ArcString {
    /// The bytes of the string.
    pub closed spec fn content(&self) -> Seq<u8> {
        self.ptr.bytes().subrange(0, self.len as int)
    }

    /// The size of the buffer.
    pub closed spec fn spec_capacity(&self) -> nat {
        self.ptr.spec_capacity()
    }

    /// The buffer is sized as its header says and starts with the string's valid UTF-8.
    #[verifier::type_invariant]
    spec fn inv(&self) -> bool {
        &&& self.ptr.wf()
        &&& self.len <= self.ptr.spec_capacity()
        &&& valid_utf8(self.content())
    }

    /// The bytes of a string are valid UTF-8 that fits in its buffer.
    pub(crate) fn prove_valid(&self)
        ensures
            valid_utf8(self.content()),
            self.content().len() <= self.spec_capacity(),
    {
        proof {
            use_type_invariant(self);
        }
    }

    /// A string holding `text` in a new buffer with room for at least `additional` more bytes;
    /// the buffer grows by half of the length when that is more. The total length must fit
    /// in a `usize`; the half-again growth is left out for a length whose triple does not fit,
    /// which no `str` reaches in practice.
    pub fn new(text: &str, additional: usize) -> (r: Self)
        requires
            text.spec_bytes().len() + additional <= usize::MAX,
        ensures
            r.content() == text.spec_bytes(),
            r.spec_capacity() == amortized_capacity(text.spec_bytes().len(), additional as nat),
    {
        let bytes: &[u8] = text.as_bytes();
        let len: usize = bytes.len();
        let required: usize = len + additional;
        let amortized: usize = match len.checked_mul(3) {
            Some(t) => t / 2,
            None => 0,
        };
        let new_capacity: usize = if amortized > required {
            amortized
        } else {
            required
        };
        let mut ptr = ArcStringPtr::with_capacity(new_capacity);
        ptr.write(0, bytes);
        proof {
            encode_utf8_valid_utf8(text@);
            assert(ptr.bytes().subrange(0, len as int) =~= bytes@);
        }
        ArcString { ptr: Arc::new(ptr), len }
    }

    /// An empty string with a buffer of `capacity` bytes, which must be at least `MAX_SIZE`.
    pub fn with_capacity(capacity: usize) -> (r: Self)
        requires
            capacity >= MAX_SIZE,
        ensures
            r.content() == Seq::<u8>::empty(),
            r.spec_capacity() == capacity,
    {
        let ptr = ArcStringPtr::with_capacity(capacity);
        proof {
            lemma_empty_valid();
            assert(ptr.bytes().subrange(0, 0) =~= Seq::<u8>::empty());
        }
        ArcString { ptr: Arc::new(ptr), len: 0 }
    }

    /// The length in bytes.
    pub fn len(&self) -> (r: usize)
        ensures
            r == self.content().len(),
    {
        proof {
            use_type_invariant(self);
        }
        self.len
    }

    /// The size of the buffer.
    pub fn capacity(&self) -> (r: usize)
        ensures
            r == self.spec_capacity(),
    {
        self.ptr.header().capacity
    }

    /// The bytes of the string.
    pub fn as_slice(&self) -> (r: &[u8])
        ensures
            r@ == self.content(),
    {
        proof {
            use_type_invariant(self);
        }
        let all: &[u8] = self.ptr.str_buf();
        &all[0..self.len]
    }

    /// The string as a `&str`.
    pub fn as_str(&self) -> (r: &str)
        ensures
            r.spec_bytes() == self.content(),
            r@ == decode_utf8(self.content()),
    {
        proof {
            use_type_invariant(self);
        }
        match str_from_utf8(self.as_slice()) {
            Ok(s) => {
                proof {
                    decode_utf8_encode_utf8(self.content());
                }
                s
            },
            Err(_) => "",
        }
    }

    /// A writer for this string, which makes the buffer its own first.
    fn writer(&mut self) -> (r: ArcStringWriter<'_>)
        ensures
            r.target().content() == old(self).content(),
            r.target().spec_capacity() == old(self).spec_capacity(),
            mut_ref_future(r.arc_string) == *final(self),
    {
        ArcStringWriter::new(self)
    }

    /// Appends a character, copying the buffer first when it is shared or too small.
    pub fn push(&mut self, ch: char)
        requires
            old(self).content().len() + 4 <= usize::MAX,
        ensures
            final(self).content() == old(self).content() + encode_scalar(ch as u32),
    {
        let mut w = self.writer();
        w.push(ch);
    }

    /// Takes the buffer for writing: the same buffer when no clone shares it, else a copy.
    pub(crate) fn take_buffer(&mut self) -> (r: ArcStringPtr)
        ensures
            r.wf(),
            old(self).content().len() <= r.spec_capacity(),
            r.bytes().subrange(0, old(self).content().len() as int) == old(self).content(),
            r.spec_capacity() == old(self).spec_capacity(),
    {
        proof {
            use_type_invariant(&*self);
        }
        let mut taken = Arc::new(ArcStringPtr::with_capacity(0));
        self.len = 0;
        proof {
            assert(self.ptr.bytes().subrange(0, 0) =~= Seq::<u8>::empty());
            lemma_empty_valid();
        }
        core::mem::swap(&mut taken, &mut self.ptr);
        proof {
            assert(self.ptr.bytes().subrange(0, 0) =~= Seq::<u8>::empty());
        }
        match arc_try_unwrap(taken) {
            Ok(p) => p,
            Err(shared) => shared.copy(),
        }
    }

    /// Puts a buffer back, holding a string of `len` bytes.
    pub(crate) fn put_buffer(&mut self, ptr: ArcStringPtr, len: usize)
        requires
            ptr.wf(),
            len <= ptr.spec_capacity(),
            valid_utf8(ptr.bytes().subrange(0, len as int)),
        ensures
            final(self).content() == ptr.bytes().subrange(0, len as int),
            final(self).spec_capacity() == ptr.spec_capacity(),
    {
        let mut fresh = ArcString { ptr: Arc::new(ptr), len };
        core::mem::swap(self, &mut fresh);
    }

    /// Appends each character in turn.
    pub fn extend_chars(&mut self, chars: &[char])
        requires
            old(self).content().len() + 4 * chars@.len() <= usize::MAX,
        ensures
            final(self).content() == old(self).content() + encode_utf8(chars@),
    {
        let mut w = self.writer();
        w.extend_chars(chars);
    }

    /// Appends each string slice in turn.
    pub fn extend_strs(&mut self, strs: &[&str])
        requires
            old(self).content().len() + encode_utf8(concat_strs(strs@)).len() <= usize::MAX,
        ensures
            final(self).content() == old(self).content() + encode_utf8(concat_strs(strs@)),
    {
        let mut w = self.writer();
        w.extend_strs(strs);
    }
}

impl Clone for ArcString {
    /// Another string sharing the same buffer.
    fn clone(&self) -> (r: Self)
        ensures
            r == *self,
    {
        proof {
            use_type_invariant(self);
        }
        ArcString { ptr: arc_share(&self.ptr), len: self.len }
    }
}

impl<'a> From<&'a str> for ArcString {
    /// A string holding `text` in a buffer grown by half of its length.
    fn from(text: &'a str) -> (r: Self)
        ensures
            r.content() == text.spec_bytes(),
    {
        let n: usize = text.as_bytes().len();
        ArcString::new(text, 0)
    }
}

impl<'a> vstd::std_specs::convert::FromSpecImpl<&'a str> for ArcString {
    open spec fn obeys_from_spec() -> bool {
        false
    }

    open spec fn from_spec(v: &'a str) -> ArcString {
        arbitrary()
    }
}

} // verus!
