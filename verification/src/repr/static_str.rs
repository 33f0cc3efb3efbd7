//! A compact string that borrows a `&'static str`.
//!
//! The text is never written to. Shortening the string records a shorter length beside the
//! text, so the capacity, the length of the whole text, stays as it was.
//!
//! The value ends in `DISCRIMINANT_SIZE` bytes that are zero but for the last, `STATIC_STR_MASK`,
//! so its final byte tells it apart from an inline or a heap string.
use vstd::prelude::*;
use vstd::string::StringSliceAdditionalSpecFns;
use vstd::utf8::*;

use super::STATIC_STR_MASK;
use crate::std_calls::str_from_utf8;

verus! {

broadcast use vstd::utf8::group_utf8_lib;

/// The number of bytes that follow the text reference and the length and end in the marker.
pub const DISCRIMINANT_SIZE: usize = 8;

/// The bytes that end a string referring to `'static` text: zeros, then `STATIC_STR_MASK`.
pub open spec fn static_discriminant() -> Seq<u8> {
    Seq::new(
        DISCRIMINANT_SIZE as nat,
        |i: int|
            if i < DISCRIMINANT_SIZE - 1 {
                0u8
            } else {
                STATIC_STR_MASK
            },
    )
}

/// A string that refers to text with a `'static` lifetime instead of copying it: its first `len`
/// bytes.
#[derive(Copy, Clone, Debug)]
pub struct StaticStr {
    text: &'static str,
    len: usize,
    discriminant: [u8; DISCRIMINANT_SIZE],
}

impl StaticStr {
    /// The bytes of the string.
    pub closed spec fn content(&self) -> Seq<u8> {
        self.text.spec_bytes().subrange(0, self.len as int)
    }

    /// The length of the whole referred text.
    pub closed spec fn spec_capacity(&self) -> nat {
        self.text.spec_bytes().len()
    }

    /// The bytes of the whole referred text.
    pub closed spec fn text_bytes(&self) -> Seq<u8> {
        self.text.spec_bytes()
    }

    /// The bytes that end the value.
    pub closed spec fn spec_discriminant(&self) -> Seq<u8> {
        self.discriminant@
    }

    /// The length is within the text and cuts it at a character boundary, and the value ends in
    /// the static marker.
    pub closed spec fn wf(&self) -> bool {
        &&& self.len <= self.text.spec_bytes().len()
        &&& valid_utf8(self.content())
        &&& self.discriminant@ == static_discriminant()
    }

    /// A well-formed string is valid UTF-8 that fits in the referred text.
    pub proof fn lemma_wf(&self)
        requires
            self.wf(),
        ensures
            valid_utf8(self.content()),
            self.content().len() <= self.spec_capacity(),
            self.spec_discriminant() == static_discriminant(),
            self.text_bytes().len() == self.spec_capacity(),
            self.content() == self.text_bytes().subrange(0, self.content().len() as int),
    {
    }

    /// Refers to the whole of `text`.
    pub fn new(text: &'static str) -> (r: Self)
        ensures
            r.wf(),
            r.content() == text.spec_bytes(),
            r.spec_capacity() == text.spec_bytes().len(),
            r.text_bytes() == text.spec_bytes(),
            r.spec_discriminant() == static_discriminant(),
    {
        let n: usize = text.as_bytes().len();
        let mut discriminant: [u8; DISCRIMINANT_SIZE] = [0u8; DISCRIMINANT_SIZE];
        discriminant[DISCRIMINANT_SIZE - 1] = STATIC_STR_MASK;
        proof {
            encode_utf8_valid_utf8(text@);
            assert(text.spec_bytes().subrange(0, n as int) =~= text.spec_bytes());
            assert(discriminant@ =~= static_discriminant());
        }
        StaticStr { text, len: n, discriminant }
    }

    /// The final byte of the value.
    pub fn last_byte(&self) -> (r: u8)
        ensures
            r == self.spec_discriminant()[DISCRIMINANT_SIZE - 1],
    {
        self.discriminant[DISCRIMINANT_SIZE - 1]
    }

    /// The bytes of the string.
    pub fn as_bytes(&self) -> (r: &'static [u8])
        requires
            self.wf(),
        ensures
            r@ == self.content(),
    {
        let all: &'static [u8] = self.text.as_bytes();
        &all[0..self.len]
    }

    /// The string as a `&'static str`.
    pub fn get_text(&self) -> (r: &'static str)
        requires
            self.wf(),
        ensures
            r.spec_bytes() == self.content(),
    {
        match str_from_utf8(self.as_bytes()) {
            Ok(s) => {
                proof {
                    decode_utf8_encode_utf8(self.content());
                }
                s
            },
            Err(_) => "",
        }
    }

    /// The length in bytes.
    pub fn len(&self) -> (r: usize)
        requires
            self.wf(),
        ensures
            r == self.content().len(),
    {
        self.len
    }

    /// The length of the whole referred text.
    pub fn capacity(&self) -> (r: usize)
        ensures
            r == self.spec_capacity(),
    {
        self.text.as_bytes().len()
    }

    /// Shortens the string to its first `len` bytes, which must form valid UTF-8; the referred
    /// text, and with it the capacity, stays.
    pub fn set_len(&mut self, len: usize)
        requires
            old(self).wf(),
            len <= old(self).content().len(),
            valid_utf8(old(self).content().subrange(0, len as int)),
        ensures
            final(self).wf(),
            final(self).content() == old(self).content().subrange(0, len as int),
            final(self).spec_capacity() == old(self).spec_capacity(),
    {
        self.len = len;
        assert(self.content() =~= old(self).content().subrange(0, len as int));
        assert(self.discriminant@ == old(self).discriminant@);
    }
}

} // verus!
