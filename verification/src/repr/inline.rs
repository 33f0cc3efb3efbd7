//! A string stored in a fixed buffer of `MAX_SIZE` bytes.
//!
//! The last byte of the buffer records the length as `len | LENGTH_MASK` while the string is
//! shorter than the buffer. A string that fills the whole buffer overwrites that byte with its own
//! last byte, which in valid UTF-8 is always below `LENGTH_MASK`, so the length can still be told.
use vstd::prelude::*;
use vstd::utf8::*;
use vstd::string::StringSliceAdditionalSpecFns;

use super::{LENGTH_MASK, MAX_SIZE};
use crate::std_calls::str_from_utf8;
use crate::unicode::{lemma_decode_concat, lemma_empty_valid, lemma_valid_last_byte, lemma_zeros_valid};

verus! {

broadcast use vstd::utf8::group_utf8_lib;

/// The length that a final byte of an inline buffer stands for.
pub open spec fn inline_len_of(last: u8) -> nat {
    if last >= LENGTH_MASK && last - LENGTH_MASK < MAX_SIZE {
        (last - LENGTH_MASK) as nat
    } else {
        MAX_SIZE as nat
    }
}

/// The marker byte written for a length shorter than the buffer.
proof fn lemma_length_marker(len: usize)
    requires
        len < MAX_SIZE,
    ensures
        (len as u8 | LENGTH_MASK) == len + LENGTH_MASK,
        inline_len_of(len as u8 | LENGTH_MASK) == len,
{
    assert(len < 64 ==> (len as u8 | 0xC0u8) == (len as u8) + 0xC0u8) by (bit_vector);
}

/// The `MAX_SIZE` bytes of a buffer built for text `t`: the text, then zeros, then, when the text
/// is shorter than the buffer, its length marker.
pub open spec fn inline_bytes(t: Seq<u8>) -> Seq<u8> {
    Seq::new(
        MAX_SIZE as nat,
        |i: int|
            if i < t.len() {
                t[i]
            } else if i < MAX_SIZE - 1 {
                0u8
            } else {
                (t.len() as u8) | LENGTH_MASK
            },
    )
}

/// A buffer of `MAX_SIZE` bytes stored in place.
#[derive(Debug)]
pub struct InlineBuffer(pub [u8; MAX_SIZE]);

impl InlineBuffer {
    /// The bytes of the string held by the buffer.
    pub open spec fn content(&self) -> Seq<u8> {
        self.0@.subrange(0, inline_len_of(self.0@[MAX_SIZE - 1]) as int)
    }

    /// The buffer holds valid UTF-8.
    pub open spec fn wf(&self) -> bool {
        valid_utf8(self.content())
    }

    /// Builds a buffer holding `text`, which must fit in the buffer.
    pub fn new(text: &str) -> (r: Self)
        requires
            text.spec_bytes().len() <= MAX_SIZE,
        ensures
            r.wf(),
            r.content() == text.spec_bytes(),
            decode_utf8(r.content()) == text@,
            forall|i: int| text.spec_bytes().len() <= i < MAX_SIZE - 1 ==> r.0@[i] == 0,
            text.spec_bytes().len() < MAX_SIZE ==> r.0@[MAX_SIZE - 1] == (text.spec_bytes().len() as u8 | LENGTH_MASK),
            r.0@ == inline_bytes(text.spec_bytes()),
    {
        let bytes: &[u8] = text.as_bytes();
        let len: usize = bytes.len();
        let mut buffer: [u8; MAX_SIZE] = [0u8; MAX_SIZE];
        if len < MAX_SIZE {
            buffer[MAX_SIZE - 1] = len as u8 | LENGTH_MASK;
            proof {
                lemma_length_marker(len);
            }
        }
        let mut i: usize = 0;
        while i < len
            invariant
                i <= len,
                len == bytes@.len(),
                len <= MAX_SIZE,
                forall|j: int| 0 <= j < i ==> buffer@[j] == bytes@[j],
                forall|j: int| len <= j < MAX_SIZE - 1 ==> buffer@[j] == 0,
                len < MAX_SIZE ==> buffer@[MAX_SIZE - 1] == len + LENGTH_MASK,
            decreases len - i,
        {
            buffer[i] = bytes[i];
            i = i + 1;
        }
        let r = InlineBuffer(buffer);
        proof {
            encode_utf8_valid_utf8(text@);
            if len == MAX_SIZE {
                lemma_valid_last_byte(bytes@);
                assert(buffer@[MAX_SIZE - 1] == bytes@[len - 1]);
            } else {
                lemma_length_marker(len);
            }
            assert(r.content() =~= bytes@);
            decode_utf8_encode_utf8(bytes@);
            encode_utf8_decode_utf8(text@);
            assert(r.0@ =~= inline_bytes(bytes@));
        }
        r
    }

    /// Builds a buffer holding `text`; the text must fit in the buffer.
    pub fn new_const(text: &str) -> (r: Self)
        requires
            text.spec_bytes().len() <= MAX_SIZE,
        ensures
            r.wf(),
            r.content() == text.spec_bytes(),
            decode_utf8(r.content()) == text@,
            forall|i: int| text.spec_bytes().len() <= i < MAX_SIZE - 1 ==> r.0@[i] == 0,
            text.spec_bytes().len() < MAX_SIZE ==> r.0@[MAX_SIZE - 1] == (text.spec_bytes().len() as u8 | LENGTH_MASK),
            r.0@ == inline_bytes(text.spec_bytes()),
    {
        Self::new(text)
    }

    /// A buffer holding the empty string.
    pub fn empty() -> (r: Self)
        ensures
            r.wf(),
            r.content() == Seq::<u8>::empty(),
            forall|i: int| 0 <= i < MAX_SIZE - 1 ==> r.0@[i] == 0,
            r.0@[MAX_SIZE - 1] == LENGTH_MASK,
    {
        let mut buffer: [u8; MAX_SIZE] = [0u8; MAX_SIZE];
        buffer[MAX_SIZE - 1] = LENGTH_MASK;
        let r = InlineBuffer(buffer);
        proof {
            lemma_length_marker(0);
            assert(r.content() =~= Seq::<u8>::empty());
            lemma_empty_valid();
        }
        r
    }

    /// The length in bytes of the held string.
    pub fn len(&self) -> (r: usize)
        ensures
            r == self.content().len(),
            r <= MAX_SIZE,
    {
        let last: u8 = self.0[MAX_SIZE - 1];
        if last >= LENGTH_MASK && ((last - LENGTH_MASK) as usize) < MAX_SIZE {
            (last - LENGTH_MASK) as usize
        } else {
            MAX_SIZE
        }
    }

    /// Sets the length of the held string to `len`; the first `len` bytes must be valid UTF-8.
    pub fn set_len(&mut self, len: usize)
        requires
            len <= MAX_SIZE,
            valid_utf8(old(self).0@.subrange(0, len as int)),
        ensures
            final(self).content() == old(self).0@.subrange(0, len as int),
            final(self).wf(),
            forall|j: int| 0 <= j < len ==> final(self).0@[j] == old(self).0@[j],
    {
        if len < MAX_SIZE {
            self.0[MAX_SIZE - 1] = len as u8 | LENGTH_MASK;
            proof {
                lemma_length_marker(len);
            }
        } else {
            proof {
                if len > 0 {
                    lemma_valid_last_byte(old(self).0@.subrange(0, len as int));
                }
            }
        }
        assert(self.content() =~= old(self).0@.subrange(0, len as int));
    }

    /// The bytes of the held string.
    pub fn as_slice(&self) -> (r: &[u8])
        ensures
            r@ == self.content(),
    {
        let len: usize = self.len();
        let s: &[u8] = self.0.as_slice();
        &s[0..len]
    }

    /// The held string.
    pub fn as_str(&self) -> (r: &str)
        requires
            self.wf(),
        ensures
            r@ == decode_utf8(self.content()),
    {
        match str_from_utf8(self.as_slice()) {
            Ok(s) => s,
            Err(_) => "",
        }
    }

    /// Appends valid UTF-8 bytes that fit in the buffer.
    pub fn append(&mut self, bytes: &[u8])
        requires
            old(self).wf(),
            valid_utf8(bytes@),
            old(self).content().len() + bytes@.len() <= MAX_SIZE,
        ensures
            final(self).wf(),
            final(self).content() == old(self).content() + bytes@,
    {
        let len: usize = self.len();
        let n: usize = bytes.len();
        let mut i: usize = 0;
        while i < n
            invariant
                i <= n,
                n == bytes@.len(),
                len == old(self).content().len(),
                len + n <= MAX_SIZE,
                forall|j: int| 0 <= j < len ==> self.0@[j] == old(self).0@[j],
                forall|j: int| 0 <= j < i ==> self.0@[len + j] == bytes@[j],
            decreases n - i,
        {
            self.0[len + i] = bytes[i];
            i = i + 1;
        }
        proof {
            assert(self.0@.subrange(0, (len + n) as int) =~= old(self).content() + bytes@);
            lemma_decode_concat(old(self).content(), bytes@);
        }
        self.set_len(len + n);
    }

    /// The bytes of the buffer that can hold text: all but the length marker while the string is
    /// shorter than the buffer, and all of them when it fills it.
    pub open spec fn storage(&self) -> Seq<u8> {
        if self.content().len() < MAX_SIZE {
            self.0@.subrange(0, MAX_SIZE - 1)
        } else {
            self.0@
        }
    }

    /// Overwrites every byte that can hold text with zero, the bytes past the end of the string
    /// included, keeping the length.
    pub fn zero_content(&mut self)
        requires
            old(self).wf(),
        ensures
            final(self).wf(),
            final(self).content().len() == old(self).content().len(),
            final(self).storage().len() == old(self).storage().len(),
            forall|j: int| 0 <= j < final(self).storage().len() ==> final(self).storage()[j] == 0,
            forall|j: int| 0 <= j < MAX_SIZE - 1 ==> final(self).0@[j] == 0,
            old(self).content().len() < MAX_SIZE ==> final(self).0@[MAX_SIZE - 1] == old(self).0@[MAX_SIZE - 1],
    {
        let len: usize = self.len();
        let mut i: usize = 0;
        while i < MAX_SIZE - 1
            invariant
                i <= MAX_SIZE - 1,
                len == old(self).content().len(),
                len <= MAX_SIZE,
                self.0@[MAX_SIZE - 1] == old(self).0@[MAX_SIZE - 1],
                forall|j: int| 0 <= j < i ==> self.0@[j] == 0,
            decreases MAX_SIZE - 1 - i,
        {
            self.0[i] = 0;
            i = i + 1;
        }
        if len == MAX_SIZE {
            self.0[MAX_SIZE - 1] = 0;
        }
        proof {
            assert(inline_len_of(self.0@[MAX_SIZE - 1]) == len);
            let z = self.0@.subrange(0, len as int);
            assert forall|j: int| 0 <= j < z.len() implies z[j] == 0 by {}
            assert forall|j: int| 0 <= j < z.len() implies is_leading_byte_width_1(z[j]) by {}
            lemma_zeros_valid(z);
        }
    }

    /// A bitwise copy of the buffer.
    pub fn copy(&self) -> (r: Self)
        ensures
            r == *self,
    {
        InlineBuffer(self.0)
    }
}

} // verus!
