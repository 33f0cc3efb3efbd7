//! A string that fills all `MAX_SIZE` bytes of an inline buffer, with no room for a length.
use vstd::prelude::*;
use vstd::string::StringSliceAdditionalSpecFns;
use vstd::utf8::*;

use super::MAX_SIZE;
use crate::std_calls::str_from_utf8;

verus! {

broadcast use vstd::utf8::group_utf8_lib;

/// Exactly `MAX_SIZE` bytes of UTF-8 text whose first byte is ASCII.
#[derive(Debug, Copy, Clone)]
pub struct PackedString {
    buffer: [u8; MAX_SIZE],
}

impl PackedString {
    /// The bytes of the string.
    pub closed spec fn content(&self) -> Seq<u8> {
        self.buffer@
    }

    /// The buffer holds valid UTF-8 that starts with an ASCII byte.
    pub closed spec fn wf(&self) -> bool {
        valid_utf8(self.buffer@) && self.buffer@[0] <= 127
    }

    /// Copies `text` into the buffer; `text` must be exactly `MAX_SIZE` bytes long and start
    /// with an ASCII byte.
    pub fn new(text: &str) -> (r: Self)
        requires
            text.spec_bytes().len() == MAX_SIZE,
            text.spec_bytes()[0] <= 127,
        ensures
            r.wf(),
            r.content() == text.spec_bytes(),
    {
        let bytes: &[u8] = text.as_bytes();
        let mut buffer: [u8; MAX_SIZE] = [0u8; MAX_SIZE];
        let mut i: usize = 0;
        while i < MAX_SIZE
            invariant
                i <= MAX_SIZE,
                bytes@.len() == MAX_SIZE,
                forall|j: int| 0 <= j < i ==> buffer@[j] == bytes@[j],
            decreases MAX_SIZE - i,
        {
            buffer[i] = bytes[i];
            i = i + 1;
        }
        assert(buffer@ =~= bytes@);
        proof {
            encode_utf8_valid_utf8(text@);
        }
        PackedString { buffer }
    }

    /// The same as [`PackedString::new`], with the same demands on `text`.
    pub fn new_const(text: &str) -> (r: Self)
        requires
            text.spec_bytes().len() == MAX_SIZE,
            text.spec_bytes()[0] <= 127,
        ensures
            r.wf(),
            r.content() == text.spec_bytes(),
    {
        Self::new(text)
    }

    /// A packed string made from its buffer, which the caller knows to be UTF-8 starting with an
    /// ASCII byte; nothing is checked.
    pub fn from_parts(buffer: [u8; MAX_SIZE]) -> (r: Self)
        requires
            valid_utf8(buffer@),
            buffer@[0] <= 127,
        ensures
            r.wf(),
            r.content() == buffer@,
    {
        PackedString { buffer }
    }

    /// The length, always `MAX_SIZE`.
    pub fn len(&self) -> (r: usize)
        ensures
            r == MAX_SIZE,
            r == self.content().len(),
    {
        MAX_SIZE
    }

    /// The capacity, always `MAX_SIZE`.
    pub fn capacity(&self) -> (r: usize)
        ensures
            r == MAX_SIZE,
    {
        MAX_SIZE
    }

    /// The bytes of the string.
    pub fn as_slice(&self) -> (r: &[u8])
        ensures
            r@ == self.content(),
    {
        self.buffer.as_slice()
    }

    /// The string as a `&str`.
    pub fn as_str(&self) -> (r: &str)
        requires
            self.wf(),
        ensures
            r.spec_bytes() == self.content(),
    {
        match str_from_utf8(self.buffer.as_slice()) {
            Ok(s) => {
                proof {
                    decode_utf8_encode_utf8(self.buffer@);
                }
                s
            },
            Err(_) => "",
        }
    }
}

} // verus!
