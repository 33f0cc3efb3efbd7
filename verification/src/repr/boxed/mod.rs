//! A heap buffer that records its capacity beside it.
use vstd::prelude::*;
use vstd::string::StringSliceAdditionalSpecFns;
use vstd::utf8::*;

pub mod capacity;

use self::capacity::{Capacity, MAX_VALUE};
use crate::buffer::{write_bytes, zeroed};
use crate::std_calls::{str_from_utf8, string_capacity, string_from_utf8, string_into_bytes};
use crate::unicode::{
    encode_char, lemma_decode_concat, lemma_empty_valid, lemma_encode_single, lemma_zeros_valid,
};

verus! {

broadcast use vstd::utf8::group_utf8_lib;

/// The smallest buffer ever allocated.
pub const MIN_SIZE: usize = 4;

/// The capacity word that describes a buffer of `n` bytes.
pub open spec fn capacity_word_for(c: Capacity, n: nat) -> bool {
    if n <= MAX_VALUE {
        c.spec_value() == Some(n as u64)
    } else {
        c.spec_value() is None
    }
}

/// The capacity of a new buffer for `len` bytes that must have room for `additional` more.
pub open spec fn amortized_capacity(len: nat, additional: nat) -> nat {
    let amortized = len + len / 2;
    let required = len + additional;
    if amortized > required {
        amortized
    } else {
        required
    }
}

/// The capacity a buffer grows to for `len` bytes and `additional` more: the amortized
/// capacity, or `usize::MAX` when that does not fit, and never less than `MIN_SIZE`.
pub open spec fn grown_capacity(len: nat, additional: nat) -> nat {
    if amortized_capacity(len, additional) > usize::MAX {
        usize::MAX as nat
    } else if amortized_capacity(len, additional) < MIN_SIZE {
        MIN_SIZE as nat
    } else {
        amortized_capacity(len, additional)
    }
}

/// A string in a heap buffer of `buf.len()` bytes, of which the first `len` are in use.
#[derive(Debug)]
pub struct BoxString {
    buf: Vec<u8>,
    len: usize,
    cap: Capacity,
}

impl BoxString {
    /// The bytes of the string.
    pub closed spec fn content(&self) -> Seq<u8> {
        self.buf@.subrange(0, self.len as int)
    }

    /// The size of the buffer.
    pub closed spec fn spec_capacity(&self) -> nat {
        self.buf@.len()
    }

    /// Every byte of the buffer, the spare capacity past the string included.
    pub closed spec fn buffer(&self) -> Seq<u8> {
        self.buf@
    }

    /// The string is valid UTF-8 and the capacity word describes the buffer.
    pub closed spec fn wf(&self) -> bool {
        &&& self.len <= self.buf@.len()
        &&& valid_utf8(self.content())
        &&& capacity_word_for(self.cap, self.buf@.len())
    }

    /// A well-formed buffer holds valid UTF-8 within its capacity.
    pub proof fn lemma_wf(&self)
        requires
            self.wf(),
        ensures
            valid_utf8(self.content()),
            self.content().len() <= self.spec_capacity(),
            self.buffer().len() == self.spec_capacity(),
            self.content() == self.buffer().subrange(0, self.content().len() as int),
    {
    }

    /// A buffer of `capacity` zero bytes holding the empty string.
    fn zeroed_buffer(capacity: usize) -> (r: Self)
        ensures
            r.wf(),
            r.content() == Seq::<u8>::empty(),
            r.spec_capacity() == capacity,
    {
        let buf: Vec<u8> = zeroed(capacity);
        let cap = match Capacity::new(capacity) {
            Ok(c) => c,
            Err(c) => c,
        };
        let r = BoxString { buf, len: 0, cap };
        proof {
            assert(r.content() =~= Seq::<u8>::empty());
            lemma_empty_valid();
        }
        r
    }

    /// Appends bytes that fit in the spare capacity.
    pub fn append_in_place(&mut self, bytes: &[u8])
        requires
            old(self).wf(),
            valid_utf8(bytes@),
            old(self).content().len() + bytes@.len() <= old(self).spec_capacity(),
        ensures
            final(self).wf(),
            final(self).content() == old(self).content() + bytes@,
            final(self).spec_capacity() == old(self).spec_capacity(),
    {
        let len: usize = self.len;
        let total: usize = self.buf.len();
        write_bytes(&mut self.buf, len, bytes);
        self.len = len + bytes.len();
        proof {
            assert(self.content() =~= old(self).content() + bytes@);
            lemma_decode_concat(old(self).content(), bytes@);
        }
    }

    /// A buffer of `capacity` bytes, at least `len`, holding a copy of `bytes`.
    pub fn from_bytes(bytes: &[u8], capacity: usize) -> (r: Self)
        requires
            valid_utf8(bytes@),
            bytes@.len() <= capacity,
        ensures
            r.wf(),
            r.content() == bytes@,
            r.spec_capacity() == capacity,
    {
        let mut r = Self::zeroed_buffer(capacity);
        r.append_in_place(bytes);
        assert(r.content() =~= bytes@);
        r
    }

    /// A heap string holding `text`, with capacity `max(len, MIN_SIZE)`.
    pub fn new(text: &str) -> (r: Self)
        ensures
            r.wf(),
            r.content() == text.spec_bytes(),
            r@ == text@,
            r.spec_capacity() == if text.spec_bytes().len() > MIN_SIZE {
                text.spec_bytes().len()
            } else {
                MIN_SIZE as nat
            },
    {
        let bytes: &[u8] = text.as_bytes();
        let len: usize = bytes.len();
        let capacity: usize = if len > MIN_SIZE {
            len
        } else {
            MIN_SIZE
        };
        proof {
            encode_utf8_valid_utf8(text@);
        }
        Self::from_bytes(bytes, capacity)
    }

    /// An empty heap string with capacity `max(capacity, MIN_SIZE)`.
    pub fn with_capacity(capacity: usize) -> (r: Self)
        ensures
            r.wf(),
            r.content() == Seq::<u8>::empty(),
            r.spec_capacity() == if capacity > MIN_SIZE {
                capacity as nat
            } else {
                MIN_SIZE as nat
            },
    {
        let capacity: usize = if capacity > MIN_SIZE {
            capacity
        } else {
            MIN_SIZE
        };
        Self::zeroed_buffer(capacity)
    }

    /// A heap string holding `bytes`, with room for `additional` more bytes, at least half again
    /// as much room as the string takes, and never less than `MIN_SIZE` bytes.
    pub fn with_additional_bytes(bytes: &[u8], additional: usize) -> (r: Self)
        requires
            valid_utf8(bytes@),
            bytes@.len() + additional <= usize::MAX,
        ensures
            r.wf(),
            r.content() == bytes@,
            r.spec_capacity() == grown_capacity(bytes@.len(), additional as nat),
    {
        let len: usize = bytes.len();
        let required: usize = len + additional;
        let amortized: usize = len.saturating_add(len / 2);
        let grown: usize = if amortized > required {
            amortized
        } else {
            required
        };
        let new_capacity: usize = if grown > MIN_SIZE {
            grown
        } else {
            MIN_SIZE
        };
        Self::from_bytes(bytes, new_capacity)
    }

    /// A heap string holding `text`, with room for `additional` more bytes.
    pub fn with_additional(text: &str, additional: usize) -> (r: Self)
        requires
            text.spec_bytes().len() + additional <= usize::MAX,
        ensures
            r.wf(),
            r.content() == text.spec_bytes(),
            r@ == text@,
            r.spec_capacity() == grown_capacity(text.spec_bytes().len(), additional as nat),
    {
        proof {
            encode_utf8_valid_utf8(text@);
        }
        Self::with_additional_bytes(text.as_bytes(), additional)
    }

    /// A heap string holding the contents of `s`, in a buffer as large as the one `s` had.
    pub fn from_string(s: String) -> (r: Self)
        ensures
            r.wf(),
            r@ == s@,
            r.content() == encode_utf8(s@),
            r.spec_capacity() >= r.content().len(),
            r.spec_capacity() > 0,
    {
        let og_cap: usize = string_capacity(&s);
        Self::from_string_parts(s, og_cap)
    }

    /// A heap string holding the contents of `s`, whose buffer holds `og_cap` bytes: that buffer
    /// is kept, padded with zeros to its full size, unless it is empty, when a buffer of
    /// `MIN_SIZE` bytes is made instead.
    pub fn from_string_parts(s: String, og_cap: usize) -> (r: Self)
        requires
            og_cap >= encode_utf8(s@).len(),
        ensures
            r.wf(),
            r@ == s@,
            r.content() == encode_utf8(s@),
            og_cap == 0 ==> r.spec_capacity() == MIN_SIZE,
            og_cap > 0 ==> r.spec_capacity() == og_cap,
    {
        proof {
            encode_utf8_valid_utf8(s@);
            encode_utf8_decode_utf8(s@);
            reveal_strlit("");
            lemma_empty_valid();
        }
        if og_cap == 0 {
            proof {
                assert(s@ =~= ""@);
            }
            Self::new("")
        } else {
            let bytes = string_into_bytes(s);
            Self::from_vec(bytes, og_cap)
        }
    }

    /// A heap string that keeps `buf` as its buffer, padded with zeros to `capacity` bytes.
    fn from_vec(buf: Vec<u8>, capacity: usize) -> (r: Self)
        requires
            valid_utf8(buf@),
            buf@.len() <= capacity,
        ensures
            r.wf(),
            r.content() == buf@,
            r.spec_capacity() == capacity,
    {
        let mut buf = buf;
        let len: usize = buf.len();
        let ghost text = buf@;
        while buf.len() < capacity
            invariant
                len <= buf@.len() <= capacity,
                buf@.subrange(0, len as int) == text,
                len == text.len(),
            decreases capacity - buf@.len(),
        {
            buf.push(0u8);
            assert(buf@.subrange(0, len as int) =~= text);
        }
        let cap = match Capacity::new(capacity) {
            Ok(c) => c,
            Err(c) => c,
        };
        BoxString { buf, len, cap }
    }

    /// The string as a `String` that takes over the buffer, cut to the string's length.
    pub fn into_string(self) -> (r: String)
        requires
            self.wf(),
        ensures
            r@ == self@,
    {
        let BoxString { buf, len, cap: _ } = self;
        let mut buf = buf;
        buf.truncate(len);
        match string_from_utf8(buf) {
            Ok(s) => s,
            Err(_) => String::new(),
        }
    }

    /// A heap string holding the contents of `b`, in a buffer exactly as large as the string.
    pub fn from_box_str(b: Box<str>) -> (r: Self)
        ensures
            r.wf(),
            r@ == b@,
            r.content() == encode_utf8(b@),
            r.content().len() > 0 ==> r.spec_capacity() == r.content().len(),
    {
        let text: &str = &b;
        let bytes: &[u8] = text.as_bytes();
        let len: usize = bytes.len();
        proof {
            encode_utf8_valid_utf8(text@);
            encode_utf8_decode_utf8(text@);
            reveal_strlit("");
            if len == 0 {
                assert(text@ =~= ""@);
            }
        }
        if len == 0 {
            Self::new("")
        } else {
            Self::from_bytes(bytes, len)
        }
    }

    /// Ensures room for `additional` more bytes, moving to a larger buffer when needed.
    pub fn reserve(&mut self, additional: usize)
        requires
            old(self).wf(),
            old(self).content().len() + additional <= usize::MAX,
        ensures
            final(self).wf(),
            final(self).content() == old(self).content(),
            final(self).spec_capacity() >= old(self).content().len() + additional,
            old(self).spec_capacity() >= old(self).content().len() + additional ==> final(self).spec_capacity() == old(self).spec_capacity(),
            old(self).spec_capacity() < old(self).content().len() + additional ==> final(self).spec_capacity() == grown_capacity(old(self).content().len(), additional as nat),
    {
        let len: usize = self.len;
        let required: usize = len + additional;
        if self.capacity() >= required {
            return ;
        }
        let new = Self::with_additional_bytes(self.as_slice(), additional);
        *self = new;
    }

    /// The length of the string in bytes.
    pub fn len(&self) -> (r: usize)
        requires
            self.wf(),
        ensures
            r == self.content().len(),
    {
        self.len
    }

    /// The size of the buffer in bytes.
    pub fn capacity(&self) -> (r: usize)
        requires
            self.wf(),
        ensures
            r == self.spec_capacity(),
    {
        match self.cap.as_usize() {
            Ok(c) => c,
            Err(_) => self.buf.len(),
        }
    }

    /// Appends a character.
    pub fn push(&mut self, ch: char)
        requires
            old(self).wf(),
            old(self).content().len() + 4 <= usize::MAX,
        ensures
            final(self).wf(),
            final(self)@ == old(self)@.push(ch),
            final(self).content() == old(self).content() + encode_scalar(ch as u32),
            old(self).spec_capacity() >= old(self).content().len() + encode_scalar(ch as u32).len() ==> final(self).spec_capacity() == old(self).spec_capacity(),
            old(self).spec_capacity() < old(self).content().len() + encode_scalar(ch as u32).len() ==> final(self).spec_capacity() == grown_capacity(old(self).content().len(), encode_scalar(ch as u32).len()),
    {
        let (buf, n) = encode_char(ch);
        let bytes: &[u8] = buf.as_slice();
        let enc: &[u8] = &bytes[0..n];
        proof {
            lemma_encode_single(ch);
            encode_utf8_valid_utf8(seq![ch]);
        }
        self.push_bytes(enc);
        proof {
            encode_utf8_decode_utf8(seq![ch]);
            assert(old(self)@ + seq![ch] =~= old(self)@.push(ch));
        }
    }

    /// Appends valid UTF-8 bytes, growing the buffer when needed.
    pub fn push_bytes(&mut self, bytes: &[u8])
        requires
            old(self).wf(),
            valid_utf8(bytes@),
            old(self).content().len() + bytes@.len() <= usize::MAX,
        ensures
            final(self).wf(),
            final(self).content() == old(self).content() + bytes@,
            final(self)@ == old(self)@ + decode_utf8(bytes@),
            old(self).spec_capacity() >= old(self).content().len() + bytes@.len() ==> final(self).spec_capacity() == old(self).spec_capacity(),
            old(self).spec_capacity() < old(self).content().len() + bytes@.len() ==> final(self).spec_capacity() == grown_capacity(old(self).content().len(), bytes@.len()),
    {
        self.reserve(bytes.len());
        self.append_in_place(bytes);
        proof {
            lemma_decode_concat(old(self).content(), bytes@);
        }
    }

    /// Appends a string.
    pub fn push_str(&mut self, s: &str)
        requires
            old(self).wf(),
            old(self).content().len() + s.spec_bytes().len() <= usize::MAX,
        ensures
            final(self).wf(),
            final(self)@ == old(self)@ + s@,
            final(self).content() == old(self).content() + s.spec_bytes(),
            old(self).spec_capacity() >= old(self).content().len() + s.spec_bytes().len() ==> final(self).spec_capacity() == old(self).spec_capacity(),
            old(self).spec_capacity() < old(self).content().len() + s.spec_bytes().len() ==> final(self).spec_capacity() == grown_capacity(old(self).content().len(), s.spec_bytes().len()),
    {
        proof {
            encode_utf8_valid_utf8(s@);
            encode_utf8_decode_utf8(s@);
        }
        self.push_bytes(s.as_bytes());
    }

    /// The string.
    pub fn as_str(&self) -> (r: &str)
        requires
            self.wf(),
        ensures
            r@ == self@,
    {
        match str_from_utf8(self.as_slice()) {
            Ok(s) => s,
            Err(_) => "",
        }
    }

    /// The bytes of the string.
    pub fn as_slice(&self) -> (r: &[u8])
        requires
            self.wf(),
        ensures
            r@ == self.content(),
    {
        let s: &[u8] = self.buf.as_slice();
        &s[0..self.len]
    }

    /// Shortens the string to its first `length` bytes, which must end on a character boundary.
    pub fn set_len(&mut self, length: usize)
        requires
            old(self).wf(),
            length <= old(self).content().len(),
            valid_utf8(old(self).content().subrange(0, length as int)),
        ensures
            final(self).wf(),
            final(self).content() == old(self).content().subrange(0, length as int),
            final(self).spec_capacity() == old(self).spec_capacity(),
    {
        self.len = length;
        assert(self.content() =~= old(self).content().subrange(0, length as int));
    }

    /// Overwrites every byte of the buffer with zero, the spare capacity included, keeping the
    /// length.
    pub fn zero_content(&mut self)
        requires
            old(self).wf(),
        ensures
            final(self).wf(),
            final(self).content().len() == old(self).content().len(),
            final(self).spec_capacity() == old(self).spec_capacity(),
            forall|j: int| 0 <= j < final(self).buffer().len() ==> final(self).buffer()[j] == 0,
    {
        let n: usize = self.buf.len();
        let mut i: usize = 0;
        while i < n
            invariant
                i <= n,
                n == self.buf@.len(),
                self.len <= n,
                self.len == old(self).len,
                capacity_word_for(self.cap, n as nat),
                forall|j: int| 0 <= j < i ==> self.buf@[j] == 0,
            decreases n - i,
        {
            self.buf.set(i, 0u8);
            i = i + 1;
        }
        proof {
            let z = self.content();
            assert forall|j: int| 0 <= j < z.len() implies is_leading_byte_width_1(z[j]) by {}
            lemma_zeros_valid(z);
        }
    }

    /// Replaces the whole string with `bytes`, growing the buffer when needed.
    pub fn overwrite(&mut self, bytes: &[u8])
        requires
            old(self).wf(),
            valid_utf8(bytes@),
        ensures
            final(self).wf(),
            final(self).content() == bytes@,
            bytes@.len() <= old(self).spec_capacity() ==> final(self).spec_capacity() == old(self).spec_capacity(),
            final(self).spec_capacity() >= bytes@.len(),
    {
        proof {
            lemma_empty_valid();
            assert(old(self).content().subrange(0, 0) =~= Seq::<u8>::empty());
        }
        self.set_len(0);
        if bytes.len() > self.capacity() {
            self.reserve(bytes.len());
        }
        self.append_in_place(bytes);
        assert(self.content() =~= bytes@);
    }
}

impl View for BoxString {
    type V = Seq<char>;

    open spec fn view(&self) -> Seq<char> {
        decode_utf8(self.content())
    }
}

impl Clone for BoxString {
    /// A copy with the same contents in a buffer of the same size.
    fn clone(&self) -> (r: Self)
        ensures
            self.wf() ==> r.wf() && r.content() == self.content() && r.spec_capacity()
                == self.spec_capacity(),
    {
        let mut new = BoxString { buf: zeroed(self.buf.len()), len: 0, cap: self.cap };
        if self.len <= self.buf.len() {
            let all: &[u8] = self.buf.as_slice();
            write_bytes(&mut new.buf, 0, &all[0..self.len]);
            new.len = self.len;
            assert(self.wf() ==> new.content() =~= self.content());
        }
        new
    }
}

impl<'a> From<&'a str> for BoxString {
    /// The same as [`BoxString::new`].
    fn from(text: &'a str) -> (r: Self)
        ensures
            r.wf(),
            r@ == text@,
            r.content() == text.spec_bytes(),
            r.spec_capacity() == if text.spec_bytes().len() > MIN_SIZE {
                text.spec_bytes().len()
            } else {
                MIN_SIZE as nat
            },
    {
        BoxString::new(text)
    }
}

impl<'a> vstd::std_specs::convert::FromSpecImpl<&'a str> for BoxString {
    open spec fn obeys_from_spec() -> bool {
        false
    }

    open spec fn from_spec(v: &'a str) -> BoxString {
        arbitrary()
    }
}

} // verus!
