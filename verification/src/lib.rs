//! A string type that stores short strings inline and longer ones in a heap buffer.
//!
//! A [`CompactString`] holds up to `MAX_SIZE` (24) bytes in place, in a fixed buffer inside the
//! value itself, and moves to a heap buffer when it grows past that; it can also refer to
//! `'static` text without copying it. Its contents are always valid UTF-8; its view is the
//! sequence of characters those bytes encode.
use vstd::prelude::*;
use vstd::string::StringSliceAdditionalSpecFns;
use vstd::utf8::*;

pub mod buffer;
pub mod features;
pub mod impls;
pub mod laws;
pub mod modify;
pub mod ordering;
pub mod repr;
pub mod repr2;
pub mod std_calls;
pub mod unicode;
pub mod utf16;

pub use repr::{ReserveError, MAX_SIZE};

use buffer::append_bytes;
use repr::bytes::{buf_on_heap, concat_chunks};
use repr::iter::{concat_strs, encode_chars, encode_strs};
use repr::traits::IntoRepr;
use repr::boxed::grown_capacity;
use repr::Repr;
use std_calls::{char_from_u32, from_utf8_error, str_from_utf8};
use unicode::{
    decode_at, decode_last, encode_char, lemma_decode_concat, lemma_encode_concat, lemma_empty_valid, lemma_encode_single,
    lemma_split_at_boundary, lemma_valid_prefix_boundary, lemma_valid_roundtrip,
};
use utf16::{decode_utf16, encode_utf16, law_decode_encode, is_high_surrogate, is_low_surrogate, surrogate_pair_value};

verus! {

broadcast use vstd::utf8::group_utf8_lib;

/// A compact string type that can be used almost anywhere a `String` or `str` can be used.
///
/// Strings of up to `MAX_SIZE` bytes are stored inline; longer ones live on the heap.
#[derive(Debug)]
pub struct CompactString {
    repr: Repr,
}

/// A compact string holding the text `value` displays as, built without a formatter.
pub fn to_compact_string<T: IntoRepr>(value: T) -> (r: CompactString)
    ensures
        r.bytes_view() == value.text(),
{
    CompactString::from_repr(value.into_repr())
}

/// Another name for [`CompactString`].
pub type CompactStr = CompactString;

/// One end of a byte range, as in `core::ops::Bound<usize>`.
#[derive(Copy, Clone, Debug, PartialEq, Eq)]
pub enum ByteBound {
    Included(usize),
    Excluded(usize),
    Unbounded,
}

/// The first byte index a start bound takes in, or `None` when it overflows.
pub open spec fn resolve_start(b: ByteBound) -> Option<int> {
    match b {
        ByteBound::Included(n) => Some(n as int),
        ByteBound::Excluded(n) => if n < usize::MAX {
            Some(n + 1)
        } else {
            None
        },
        ByteBound::Unbounded => Some(0),
    }
}

/// The byte index just past an end bound, or `None` when it overflows.
pub open spec fn resolve_end(b: ByteBound, len: int) -> Option<int> {
    match b {
        ByteBound::Included(n) => if n < usize::MAX {
            Some(n + 1)
        } else {
            None
        },
        ByteBound::Excluded(n) => Some(n as int),
        ByteBound::Unbounded => Some(len),
    }
}

/// The bounds give a range whose ends both fall on character boundaries of `bytes`.
pub open spec fn valid_range(bytes: Seq<u8>, start: ByteBound, end: ByteBound) -> bool {
    &&& resolve_start(start) is Some
    &&& resolve_end(end, bytes.len() as int) is Some
    &&& resolve_start(start).unwrap() <= resolve_end(end, bytes.len() as int).unwrap()
    &&& is_char_boundary(bytes, resolve_start(start).unwrap())
    &&& is_char_boundary(bytes, resolve_end(end, bytes.len() as int).unwrap())
}

/// The number of characters encoded by the first `i` bytes.
pub open spec fn char_count(bytes: Seq<u8>, i: int) -> int {
    decode_utf8(bytes.subrange(0, i)).len() as int
}

/// Splitting at a character boundary splits the characters at `char_count`.
pub proof fn lemma_char_count(bytes: Seq<u8>, i: int)
    requires
        valid_utf8(bytes),
        is_char_boundary(bytes, i),
    ensures
        0 <= i <= bytes.len(),
        0 <= char_count(bytes, i) <= decode_utf8(bytes).len(),
        valid_utf8(bytes.subrange(0, i)),
        valid_utf8(bytes.subrange(i, bytes.len() as int)),
        decode_utf8(bytes.subrange(0, i)) == decode_utf8(bytes).take(char_count(bytes, i)),
        decode_utf8(bytes.subrange(i, bytes.len() as int)) == decode_utf8(bytes).skip(
            char_count(bytes, i),
        ),
{
    lemma_split_at_boundary(bytes, i);
    let _ = unicode::lemma_boundary_is_prefix(bytes, i);
}

/// The characters of `chars` whose entry in `keep` is `true`, in order.
pub open spec fn kept(chars: Seq<char>, keep: Seq<bool>) -> Seq<char>
    decreases chars.len(),
{
    if chars.len() == 0 {
        Seq::<char>::empty()
    } else {
        kept(chars.drop_last(), keep.drop_last()) + if keep.last() {
            seq![chars.last()]
        } else {
            Seq::<char>::empty()
        }
    }
}

/// `p` followed by the characters in `o`, when there are any.
pub open spec fn prefixed(p: Seq<char>, o: Option<Seq<char>>) -> Option<Seq<char>> {
    match o {
        Some(rest) => Some(p + rest),
        None => None,
    }
}

proof fn lemma_prefixed_empty(o: Option<Seq<char>>)
    ensures
        prefixed(Seq::<char>::empty(), o) == o,
{
    if let Some(r) = o {
        assert(Seq::<char>::empty() + r =~= r);
    }
}

proof fn lemma_prefixed_step(p: Seq<char>, c: char, o: Option<Seq<char>>)
    ensures
        prefixed(p, prefixed(seq![c], o)) == prefixed(p.push(c), o),
{
    if let Some(r) = o {
        assert(p + (seq![c] + r) =~= p.push(c) + r);
    }
}

/// The error returned when a UTF-16 slice holds a lone surrogate.
#[derive(Copy, Clone, Debug)]
pub struct Utf16Error(pub ());

impl CompactString {
    #[verifier::type_invariant]
    spec fn inv(&self) -> bool {
        &&& self.repr.wf()
        &&& self.repr.spec_capacity() >= MAX_SIZE
    }

    /// The UTF-8 bytes of the string.
    pub closed spec fn bytes_view(&self) -> Seq<u8> {
        self.repr.content()
    }

    /// Whether the string lives in a heap buffer.
    pub closed spec fn spec_heap(&self) -> bool {
        self.repr is Heap
    }

    /// Whether the string refers to `'static` text it has never written to.
    pub closed spec fn spec_static(&self) -> bool {
        self.repr is Static
    }

    /// The number of bytes the string can hold without growing.
    pub closed spec fn spec_capacity(&self) -> nat {
        self.repr.spec_capacity()
    }

    /// The bytes that back the string: the inline bytes that can hold text, the whole heap
    /// buffer, or the whole referred `'static` text.
    pub closed spec fn storage(&self) -> Seq<u8> {
        self.repr.storage()
    }

    fn from_repr(repr: Repr) -> (r: Self)
        requires
            repr.wf(),
            repr.spec_capacity() >= MAX_SIZE,
        ensures
            r.bytes_view() == repr.content(),
            r.spec_heap() == (repr is Heap),
            r.spec_static() == (repr is Static),
            r.spec_capacity() == repr.spec_capacity(),
            r@ == decode_utf8(repr.content()),
            valid_utf8(r.bytes_view()),
    {
        proof {
            repr.lemma_valid();
        }
        CompactString { repr }
    }

    /// The bytes of a compact string are valid UTF-8 and encode its characters.
    pub(crate) fn prove_valid(&self)
        ensures
            valid_utf8(self.bytes_view()),
            encode_utf8(self@) == self.bytes_view(),
            self.bytes_view().len() <= self.spec_capacity(),
    {
        proof {
            use_type_invariant(self);
            self.repr.lemma_valid();
            lemma_valid_roundtrip(self.repr.content());
        }
    }

    /// Creates a compact string holding `text`, inline when it is at most `MAX_SIZE` bytes long.
    pub fn new(text: &str) -> (r: Self)
        ensures
            r@ == text@,
            r.bytes_view() == text.spec_bytes(),
            r.spec_heap() <==> text.spec_bytes().len() > MAX_SIZE,
            r.spec_heap() ==> r.spec_capacity() == text.spec_bytes().len(),
            !r.spec_heap() ==> r.spec_capacity() == MAX_SIZE,
            !r.spec_static(),
    {
        proof {
            encode_utf8_decode_utf8(text@);
        }
        Self::from_repr(Repr::new(text))
    }

    /// Creates an inline compact string; `text` must be at most `MAX_SIZE` bytes long.
    pub fn new_inline(text: &str) -> (r: Self)
        requires
            text.spec_bytes().len() <= MAX_SIZE,
        ensures
            r@ == text@,
            r.bytes_view() == text.spec_bytes(),
            !r.spec_heap(),
    {
        Self::new(text)
    }

    /// Creates a compact string that refers to `text` when it is too long to inline.
    pub fn const_new(text: &'static str) -> (r: Self)
        ensures
            r@ == text@,
            r.bytes_view() == text.spec_bytes(),
            !r.spec_heap(),
    {
        proof {
            encode_utf8_decode_utf8(text@);
        }
        Self::from_repr(Repr::const_new(text))
    }

    /// Creates an empty compact string with room for at least `capacity` bytes; the capacity is
    /// never below `MAX_SIZE`.
    pub fn with_capacity(capacity: usize) -> (r: Self)
        ensures
            r@ == Seq::<char>::empty(),
            r.bytes_view() == Seq::<u8>::empty(),
            r.spec_heap() <==> capacity > MAX_SIZE,
            r.spec_capacity() == if capacity > MAX_SIZE {
                capacity as nat
            } else {
                MAX_SIZE as nat
            },
    {
        proof {
            lemma_empty_valid();
        }
        Self::from_repr(Repr::with_capacity(capacity))
    }

    /// Converts a slice of bytes into a compact string, failing when they are not UTF-8.
    pub fn from_utf8(buf: &[u8]) -> (r: Result<Self, core::str::Utf8Error>)
        ensures
            r is Ok <==> valid_utf8(buf@),
            r matches Ok(s) ==> s.bytes_view() == buf@ && s@ == decode_utf8(buf@) && (s.spec_heap()
                <==> buf@.len() > MAX_SIZE),
            r matches Err(e) ==> e == from_utf8_error(buf@),
    {
        match Repr::from_utf8(buf) {
            Ok(repr) => Ok(Self::from_repr(repr)),
            Err(e) => Err(e),
        }
    }

    /// Decodes UTF-16 code units into a compact string, failing on a lone surrogate. A slice
    /// of `u16` never holds more than a third of `usize::MAX` units, which the contract states.
    pub fn from_utf16(buf: &[u16]) -> (r: Result<Self, Utf16Error>)
        requires
            3 * buf@.len() <= usize::MAX,
        ensures
            r is Ok <==> decode_utf16(buf@) is Some,
            r matches Ok(s) ==> s@ == decode_utf16(buf@).unwrap(),
            forall|chars: Seq<char>| buf@ == #[trigger] encode_utf16(chars) ==> (r matches Ok(s) && s@ == chars),
    {
        proof {
            assert forall|chars: Seq<char>| buf@ == #[trigger] encode_utf16(chars) implies decode_utf16(buf@)
                == Some(chars) by {
                law_decode_encode(chars);
            }
        }
        let n: usize = buf.len();
        let mut ret = CompactString::with_capacity(n);
        let mut i: usize = 0;
        assert(buf@.subrange(0, n as int) =~= buf@);
        proof {
            lemma_prefixed_empty(decode_utf16(buf@));
        }
        while i < n
            invariant
                i <= n,
                n == buf@.len(),
                3 * n <= usize::MAX,
                ret.bytes_view().len() <= 3 * i,
                decode_utf16(buf@) == prefixed(ret@, decode_utf16(buf@.subrange(i as int, n as int))),
                forall|chars: Seq<char>| buf@ == #[trigger] encode_utf16(chars) ==> decode_utf16(buf@) == Some(chars),
            decreases n - i,
        {
            let ghost rest = buf@.subrange(i as int, n as int);
            let u: u16 = buf[i];
            if u < 0xD800 || u > 0xDFFF {
                assert(rest.subrange(1, rest.len() as int) =~= buf@.subrange(i + 1, n as int));
                let v: u32 = u as u32;
                let ch = match char_from_u32(v) {
                    Some(c) => c,
                    None => return Err(Utf16Error(())),
                };
                proof {
                    lemma_prefixed_step(ret@, ch, decode_utf16(buf@.subrange(i + 1, n as int)));
                }
                ret.push(ch);
                i = i + 1;
            } else if u <= 0xDBFF && i + 1 < n && buf[i + 1] >= 0xDC00 && buf[i + 1] <= 0xDFFF {
                let lo: u16 = buf[i + 1];
                assert(rest[1] == lo);
                assert(rest.subrange(2, rest.len() as int) =~= buf@.subrange(i + 2, n as int));
                let v: u32 = 0x10000 + (u as u32 - 0xD800) * 0x400 + (lo as u32 - 0xDC00);
                assert(v == surrogate_pair_value(u, lo));
                let ch = match char_from_u32(v) {
                    Some(c) => c,
                    None => return Err(Utf16Error(())),
                };
                proof {
                    lemma_prefixed_step(ret@, ch, decode_utf16(buf@.subrange(i + 2, n as int)));
                }
                ret.push(ch);
                i = i + 2;
            } else {
                return Err(Utf16Error(()));
            }
        }
        assert(buf@.subrange(i as int, n as int) =~= Seq::<u16>::empty());
        assert(ret@ + Seq::<char>::empty() =~= ret@);
        Ok(ret)
    }

    /// Converts bytes that the caller knows to be UTF-8 into a compact string without checking
    /// them; the bytes must be valid UTF-8.
    pub fn from_utf8_unchecked(buf: &[u8]) -> (r: Self)
        requires
            valid_utf8(buf@),
        ensures
            r.bytes_view() == buf@,
            r@ == decode_utf8(buf@),
            r.spec_heap() <==> buf@.len() > MAX_SIZE,
    {
        Self::from_repr(Repr::from_valid_bytes(buf))
    }

    /// Converts the chunks of a buffer that the caller knows to be UTF-8 into a compact string
    /// without checking them; the bytes must be valid UTF-8.
    pub fn from_utf8_buf_unchecked(chunks: &[&[u8]]) -> (r: Self)
        requires
            valid_utf8(concat_chunks(chunks@)),
        ensures
            r.bytes_view() == concat_chunks(chunks@),
            r.spec_heap() <==> buf_on_heap(concat_chunks(chunks@)),
    {
        Self::from_repr(Repr::from_utf8_buf_unchecked(chunks))
    }

    /// Converts the bytes of a buffer, handed out in chunks, into a compact string, failing when
    /// they are not UTF-8.
    pub fn from_utf8_buf(chunks: &[&[u8]]) -> (r: Result<Self, core::str::Utf8Error>)
        ensures
            r is Ok <==> valid_utf8(concat_chunks(chunks@)),
            r matches Ok(s) ==> s.bytes_view() == concat_chunks(chunks@) && s@ == decode_utf8(
                concat_chunks(chunks@),
            ) && (s.spec_heap() <==> buf_on_heap(concat_chunks(chunks@))),
            r matches Err(e) ==> e == from_utf8_error(concat_chunks(chunks@)),
    {
        match Repr::from_utf8_buf(chunks) {
            Ok(repr) => Ok(Self::from_repr(repr)),
            Err(e) => Err(e),
        }
    }

    /// The length of the string in bytes.
    pub fn len(&self) -> (r: usize)
        ensures
            r == self.bytes_view().len(),
            r == encode_utf8(self@).len(),
    {
        proof {
            use_type_invariant(self);
        }
        self.prove_valid();
        self.repr.len()
    }

    /// Whether the string is empty.
    pub fn is_empty(&self) -> (r: bool)
        ensures
            r == (self@.len() == 0),
            r == (self.bytes_view().len() == 0),
    {
        self.prove_valid();
        proof {
            lemma_valid_roundtrip(self.bytes_view());
        }
        self.len() == 0
    }

    /// The number of bytes the string can hold without growing, never less than `MAX_SIZE`,
    /// the size of a `String`.
    pub fn capacity(&self) -> (r: usize)
        ensures
            r == self.spec_capacity(),
            r >= MAX_SIZE,
            r >= self.bytes_view().len(),
    {
        proof {
            use_type_invariant(self);
            self.repr.lemma_valid();
        }
        self.repr.capacity()
    }

    /// Whether the string lives in a heap buffer.
    pub fn is_heap_allocated(&self) -> (r: bool)
        ensures
            r == self.spec_heap(),
    {
        self.repr.is_heap_allocated()
    }

    /// The string as a `&str`.
    pub fn as_str(&self) -> (r: &str)
        ensures
            r@ == self@,
            r.spec_bytes() == self.bytes_view(),
    {
        proof {
            use_type_invariant(self);
        }
        self.repr.as_str()
    }

    /// The UTF-8 bytes of the string.
    pub fn as_bytes(&self) -> (r: &[u8])
        ensures
            r@ == self.bytes_view(),
            valid_utf8(r@),
    {
        proof {
            use_type_invariant(self);
            self.repr.lemma_valid();
        }
        self.repr.as_slice()
    }

    /// Ensures room for `additional` more bytes; the total length must fit in a `usize`.
    pub fn reserve(&mut self, additional: usize)
        requires
            old(self).bytes_view().len() + additional <= usize::MAX,
        ensures
            final(self).bytes_view() == old(self).bytes_view(),
            final(self)@ == old(self)@,
            final(self).spec_capacity() >= old(self).bytes_view().len() + additional,
            !final(self).spec_static(),
            !old(self).spec_static() && old(self).bytes_view().len() + additional <= old(self).spec_capacity() ==> final(self).spec_capacity() == old(self).spec_capacity()
                && final(self).spec_heap() == old(self).spec_heap(),
            old(self).spec_static() || old(self).bytes_view().len() + additional > old(self).spec_capacity() ==> (final(self).spec_heap() <==> old(self).bytes_view().len()
                + additional > MAX_SIZE),
            (old(self).spec_static() || old(self).bytes_view().len() + additional > old(self).spec_capacity())
                && old(self).bytes_view().len() + additional > MAX_SIZE ==> final(self).spec_capacity()
                == grown_capacity(old(self).bytes_view().len(), additional as nat),
    {
        proof {
            use_type_invariant(&*self);
        }
        let mut repr = Repr::empty();
        core::mem::swap(&mut repr, &mut self.repr);
        let _ = repr.reserve(additional);
        self.repr = repr;
    }

    /// Appends a string slice.
    pub fn push_str(&mut self, s: &str)
        requires
            old(self).bytes_view().len() + s.spec_bytes().len() <= usize::MAX,
        ensures
            final(self).bytes_view() == old(self).bytes_view() + s.spec_bytes(),
            final(self)@ == old(self)@ + s@,
            s.spec_bytes().len() == 0 ==> final(self).spec_heap() == old(self).spec_heap()
                && final(self).spec_capacity() == old(self).spec_capacity(),
            s.spec_bytes().len() > 0 && !old(self).spec_static() && old(self).bytes_view().len()
                + s.spec_bytes().len() <= old(self).spec_capacity() ==> final(self).spec_capacity()
                == old(self).spec_capacity() && final(self).spec_heap() == old(self).spec_heap(),
            s.spec_bytes().len() > 0 && (old(self).spec_static() || old(self).bytes_view().len()
                + s.spec_bytes().len() > old(self).spec_capacity()) ==> (final(self).spec_heap()
                <==> old(self).bytes_view().len() + s.spec_bytes().len() > MAX_SIZE),
    {
        proof {
            use_type_invariant(&*self);
        }
        let mut repr = Repr::empty();
        core::mem::swap(&mut repr, &mut self.repr);
        repr.push_str(s);
        self.repr = repr;
        proof {
            old(self).repr.lemma_valid();
            encode_utf8_valid_utf8(s@);
            encode_utf8_decode_utf8(s@);
            lemma_decode_concat(old(self).bytes_view(), s.spec_bytes());
        }
    }

    /// Appends a character.
    pub fn push(&mut self, ch: char)
        requires
            old(self).bytes_view().len() + encode_scalar(ch as u32).len() <= usize::MAX,
        ensures
            final(self)@ == old(self)@.push(ch),
            final(self).bytes_view() == old(self).bytes_view() + encode_scalar(ch as u32),
    {
        proof {
            use_type_invariant(&*self);
        }
        let (buf, n) = encode_char(ch);
        let all: &[u8] = buf.as_slice();
        let enc: &[u8] = &all[0..n];
        proof {
            encode_utf8_valid_utf8(seq![ch]);
            encode_utf8_decode_utf8(seq![ch]);
        }
        let mut repr = Repr::empty();
        core::mem::swap(&mut repr, &mut self.repr);
        repr.push_bytes(enc);
        self.repr = repr;
        proof {
            old(self).repr.lemma_valid();
            lemma_decode_concat(old(self).bytes_view(), enc@);
            assert(old(self)@ + seq![ch] =~= old(self)@.push(ch));
        }
    }

    /// Removes the last character and returns it, or returns `None` when the string is empty.
    pub fn pop(&mut self) -> (r: Option<char>)
        ensures
            old(self)@.len() == 0 ==> r is None && final(self)@ == old(self)@,
            old(self)@.len() > 0 ==> r == Some(old(self)@.last()) && final(self)@ == old(self)@.drop_last(),
            final(self).spec_heap() == old(self).spec_heap(),
            final(self).spec_capacity() == old(self).spec_capacity(),
    {
        proof {
            use_type_invariant(&*self);
            self.repr.lemma_valid();
            lemma_valid_roundtrip(self.repr.content());
        }
        let mut repr = Repr::empty();
        core::mem::swap(&mut repr, &mut self.repr);
        let r = repr.pop();
        self.repr = repr;
        r
    }

    /// Replaces the whole contents with `bytes`, keeping the storage when they fit.
    fn overwrite(&mut self, bytes: &[u8])
        requires
            valid_utf8(bytes@),
        ensures
            final(self).bytes_view() == bytes@,
            !final(self).spec_static(),
            final(self).spec_capacity() >= bytes@.len(),
            !old(self).spec_static() && bytes@.len() <= old(self).spec_capacity() ==> final(self).spec_capacity() == old(self).spec_capacity() && final(self).spec_heap() == old(self).spec_heap(),
            old(self).spec_static() && bytes@.len() <= old(self).spec_capacity() ==> final(self).spec_capacity() == old(self).spec_capacity() && final(self).spec_heap(),
    {
        proof {
            use_type_invariant(&*self);
        }
        let mut repr = Repr::empty();
        core::mem::swap(&mut repr, &mut self.repr);
        repr.overwrite(bytes);
        self.repr = repr;
    }

    /// Removes the character that starts at byte `idx` and returns it; `idx` must be below the
    /// length and on a character boundary.
    pub fn remove(&mut self, idx: usize) -> (r: char)
        requires
            idx < old(self).bytes_view().len(),
            is_char_boundary(old(self).bytes_view(), idx as int),
        ensures
            r == old(self)@[char_count(old(self).bytes_view(), idx as int)],
            final(self)@ == old(self)@.remove(char_count(old(self).bytes_view(), idx as int)),
            final(self).bytes_view() == old(self).bytes_view().subrange(0, idx as int) + old(self).bytes_view().subrange(idx + encode_scalar(r as u32).len(), old(self).bytes_view().len() as int),
            final(self).spec_capacity() == old(self).spec_capacity(),
    {
        self.prove_valid();
        let ghost b = self.bytes_view();
        proof {
            lemma_char_count(b, idx as int);
        }
        let bytes: &[u8] = self.as_bytes();
        let (ch, k) = decode_at(bytes, idx);
        assert(idx + k <= bytes.len());
        let new = buffer::splice(bytes, idx, idx + k, &[]);
        proof {
            let pre = b.subrange(0, idx as int);
            let post = b.subrange(idx + k, b.len() as int);
            assert(new@ =~= pre + post);
            lemma_decode_concat(pre, post);
            let ci = char_count(b, idx as int);
            let chars = decode_utf8(b);
            assert(chars.skip(ci) == seq![ch] + decode_utf8(post));
            assert(chars[ci] == chars.skip(ci)[0]);
            assert(decode_utf8(post) =~= chars.skip(ci + 1));
            assert(chars.remove(ci) =~= chars.take(ci) + chars.skip(ci + 1));
        }
        self.overwrite(new.as_slice());
        ch
    }

    /// Shortens the string to `new_len` bytes; nothing happens when it is not longer than that.
    /// A shorter `new_len` must be on a character boundary.
    pub fn truncate(&mut self, new_len: usize)
        requires
            new_len >= old(self).bytes_view().len() || is_char_boundary(old(self).bytes_view(), new_len as int),
        ensures
            new_len >= old(self).bytes_view().len() ==> final(self).bytes_view() == old(self).bytes_view(),
            new_len < old(self).bytes_view().len() ==> final(self).bytes_view() == old(self).bytes_view().subrange(0, new_len as int) && final(self)@ == old(self)@.take(
                char_count(old(self).bytes_view(), new_len as int),
            ),
            final(self).spec_heap() == old(self).spec_heap(),
            final(self).spec_capacity() == old(self).spec_capacity(),
    {
        proof {
            use_type_invariant(&*self);
            self.repr.lemma_valid();
        }
        if new_len >= self.len() {
            return ;
        }
        proof {
            lemma_char_count(self.repr.content(), new_len as int);
        }
        let mut repr = Repr::empty();
        core::mem::swap(&mut repr, &mut self.repr);
        repr.set_len(new_len);
        self.repr = repr;
    }

    /// Empties the string, keeping its capacity.
    pub fn clear(&mut self)
        ensures
            final(self)@ == Seq::<char>::empty(),
            final(self).bytes_view() == Seq::<u8>::empty(),
            final(self).spec_heap() == old(self).spec_heap(),
            final(self).spec_capacity() == old(self).spec_capacity(),
    {
        proof {
            use_type_invariant(&*self);
            self.repr.lemma_valid();
            lemma_valid_prefix_boundary(self.repr.content(), 0);
            lemma_empty_valid();
        }
        let mut repr = Repr::empty();
        core::mem::swap(&mut repr, &mut self.repr);
        repr.set_len(0);
        self.repr = repr;
        assert(self.bytes_view() =~= Seq::<u8>::empty());
    }

    /// Inserts a string slice at byte `idx`, which must be on a character boundary.
    pub fn insert_str(&mut self, idx: usize, string: &str)
        requires
            is_char_boundary(old(self).bytes_view(), idx as int),
            old(self).bytes_view().len() + string.spec_bytes().len() <= usize::MAX,
        ensures
            final(self).bytes_view() == old(self).bytes_view().subrange(0, idx as int)
                + string.spec_bytes() + old(self).bytes_view().subrange(idx as int, old(self).bytes_view().len() as int),
            final(self)@ == old(self)@.take(char_count(old(self).bytes_view(), idx as int))
                + string@ + old(self)@.skip(char_count(old(self).bytes_view(), idx as int)),
    {
        self.prove_valid();
        let ghost b = self.bytes_view();
        proof {
            lemma_char_count(b, idx as int);
            encode_utf8_valid_utf8(string@);
            encode_utf8_decode_utf8(string@);
        }
        let bytes: &[u8] = self.as_bytes();
        let new = buffer::splice(bytes, idx, idx, string.as_bytes());
        proof {
            let pre = b.subrange(0, idx as int);
            let post = b.subrange(idx as int, b.len() as int);
            lemma_decode_concat(pre, string.spec_bytes());
            lemma_decode_concat(pre + string.spec_bytes(), post);
        }
        self.overwrite(new.as_slice());
    }

    /// Inserts a character at byte `idx`, which must be on a character boundary.
    pub fn insert(&mut self, idx: usize, ch: char)
        requires
            is_char_boundary(old(self).bytes_view(), idx as int),
            old(self).bytes_view().len() + encode_scalar(ch as u32).len() <= usize::MAX,
        ensures
            final(self)@ == old(self)@.insert(char_count(old(self).bytes_view(), idx as int), ch),
            final(self).bytes_view() == old(self).bytes_view().subrange(0, idx as int)
                + encode_scalar(ch as u32) + old(self).bytes_view().subrange(idx as int, old(self).bytes_view().len() as int),
    {
        self.prove_valid();
        let ghost b = self.bytes_view();
        proof {
            lemma_char_count(b, idx as int);
            encode_utf8_valid_utf8(seq![ch]);
            encode_utf8_decode_utf8(seq![ch]);
        }
        let (buf, n) = encode_char(ch);
        let all: &[u8] = buf.as_slice();
        let enc: &[u8] = &all[0..n];
        let bytes: &[u8] = self.as_bytes();
        let new = buffer::splice(bytes, idx, idx, enc);
        proof {
            let pre = b.subrange(0, idx as int);
            let post = b.subrange(idx as int, b.len() as int);
            lemma_decode_concat(pre, enc@);
            lemma_decode_concat(pre + enc@, post);
            let ci = char_count(b, idx as int);
            let chars = decode_utf8(b);
            assert(chars.insert(ci, ch) =~= chars.take(ci) + seq![ch] + chars.skip(ci));
        }
        self.overwrite(new.as_slice());
    }

    /// Splits the string at byte `at`, keeping the front and returning the back; `at` must be on
    /// a character boundary.
    pub fn split_off(&mut self, at: usize) -> (r: Self)
        requires
            is_char_boundary(old(self).bytes_view(), at as int),
        ensures
            r.bytes_view() == old(self).bytes_view().subrange(at as int, old(self).bytes_view().len() as int),
            final(self).bytes_view() == old(self).bytes_view().subrange(0, at as int),
            r@ == old(self)@.skip(char_count(old(self).bytes_view(), at as int)),
            final(self)@ == old(self)@.take(char_count(old(self).bytes_view(), at as int)),
            final(self).spec_heap() == old(self).spec_heap(),
            final(self).spec_capacity() == old(self).spec_capacity(),
    {
        proof {
            use_type_invariant(&*self);
            self.repr.lemma_valid();
            lemma_char_count(self.repr.content(), at as int);
        }
        let bytes: &[u8] = self.as_bytes();
        let n: usize = bytes.len();
        let tail: &[u8] = &bytes[at..n];
        let result = Self::from_repr(Repr::from_valid_bytes(tail));
        let mut repr = Repr::empty();
        core::mem::swap(&mut repr, &mut self.repr);
        repr.set_len(at);
        self.repr = repr;
        result
    }

    /// The byte range that a pair of bounds describes.
    fn ensure_range(&self, start: ByteBound, end: ByteBound) -> (r: (usize, usize))
        requires
            valid_range(self.bytes_view(), start, end),
        ensures
            r.0 == resolve_start(start).unwrap(),
            r.1 == resolve_end(end, self.bytes_view().len() as int).unwrap(),
    {
        let s: usize = match start {
            ByteBound::Included(n) => n,
            ByteBound::Excluded(n) => n + 1,
            ByteBound::Unbounded => 0,
        };
        let e: usize = match end {
            ByteBound::Included(n) => n + 1,
            ByteBound::Excluded(n) => n,
            ByteBound::Unbounded => self.len(),
        };
        (s, e)
    }

    /// Replaces a byte range with `replace_with`. The bounds must not overflow, must not be
    /// reversed, and must fall on character boundaries.
    pub fn replace_range(&mut self, start: ByteBound, end: ByteBound, replace_with: &str)
        requires
            valid_range(old(self).bytes_view(), start, end),
            old(self).bytes_view().len() + replace_with.spec_bytes().len() <= usize::MAX,
        ensures
            ({
                let b = old(self).bytes_view();
                let s = resolve_start(start).unwrap();
                let e = resolve_end(end, b.len() as int).unwrap();
                &&& final(self).bytes_view() == b.subrange(0, s) + replace_with.spec_bytes()
                    + b.subrange(e, b.len() as int)
                &&& final(self)@ == old(self)@.take(char_count(b, s)) + replace_with@ + old(self)@.skip(char_count(b, e))
            }),
    {
        self.prove_valid();
        let ghost b = self.bytes_view();
        let (s, e) = self.ensure_range(start, end);
        proof {
            lemma_char_count(b, s as int);
            lemma_char_count(b, e as int);
            encode_utf8_valid_utf8(replace_with@);
            encode_utf8_decode_utf8(replace_with@);
        }
        let bytes: &[u8] = self.as_bytes();
        let new = buffer::splice(bytes, s, e, replace_with.as_bytes());
        proof {
            let pre = b.subrange(0, s as int);
            let post = b.subrange(e as int, b.len() as int);
            lemma_decode_concat(pre, replace_with.spec_bytes());
            lemma_decode_concat(pre + replace_with.spec_bytes(), post);
        }
        self.overwrite(new.as_slice());
    }

    /// Removes a byte range and returns an iterator over the removed characters. The bounds must
    /// not overflow, must not be reversed, and must fall on character boundaries.
    pub fn drain(&mut self, start: ByteBound, end: ByteBound) -> (r: Drain)
        requires
            valid_range(old(self).bytes_view(), start, end),
        ensures
            ({
                let b = old(self).bytes_view();
                let s = resolve_start(start).unwrap();
                let e = resolve_end(end, b.len() as int).unwrap();
                &&& final(self).bytes_view() == b.subrange(0, s) + b.subrange(e, b.len() as int)
                &&& final(self)@ == old(self)@.take(char_count(b, s)) + old(self)@.skip(
                    char_count(b, e),
                )
                &&& r@ == old(self)@.subrange(char_count(b, s), char_count(b, e))
            }),
            !old(self).spec_static() ==> final(self).spec_heap() == old(self).spec_heap(),
            old(self).spec_static() ==> final(self).spec_heap(),
            final(self).spec_capacity() == old(self).spec_capacity(),
    {
        self.prove_valid();
        let ghost b = self.bytes_view();
        let (s, e) = self.ensure_range(start, end);
        proof {
            lemma_char_count(b, s as int);
            lemma_char_count(b, e as int);
        }
        let bytes: &[u8] = self.as_bytes();
        let drained = buffer::to_vec(&bytes[s..e]);
        let new = buffer::splice(bytes, s, e, &[]);
        let ghost pre = b.subrange(0, s as int);
        let ghost mid = b.subrange(s as int, e as int);
        let ghost post = b.subrange(e as int, b.len() as int);
        proof {
            let bs = b.subrange(s as int, b.len() as int);
            let cs = char_count(b, s as int);
            let ce = char_count(b, e as int);
            let chars = decode_utf8(b);
            assert(new@ =~= pre + post);
            lemma_decode_concat(pre, post);
            lemma_split_at_boundary(bs, 0);
            assert(b.subrange(0, e as int) == pre + mid);
            assert(bs =~= mid + post);
            assert(decode_utf8(b.subrange(0, e as int)) == chars.take(ce));
            assert(b.subrange(0, e as int).subrange(0, s as int) =~= pre);
            assert(b.subrange(0, e as int).subrange(s as int, e as int) =~= mid);
            lemma_valid_prefix_boundary(b.subrange(0, e as int), s as int);
            lemma_split_at_boundary(b.subrange(0, e as int), s as int);
            assert(decode_utf8(mid) =~= chars.subrange(cs, ce)) by {
                assert(chars.take(ce) =~= chars.take(cs) + chars.subrange(cs, ce));
            }
            assert(drained@ =~= mid);
            assert(drained@.subrange(0, e - s) =~= mid);
        }
        self.overwrite(new.as_slice());
        Drain { bytes: drained, front: 0, back: e - s }
    }

    /// Shrinks the capacity to the larger of the length and `min_capacity`; a string that then
    /// fits inline moves inline, so the capacity never drops below `MAX_SIZE`.
    pub fn shrink_to(&mut self, min_capacity: usize)
        ensures
            final(self).bytes_view() == old(self).bytes_view(),
            final(self)@ == old(self)@,
            ({
                let len = old(self).bytes_view().len();
                let target = if len > min_capacity { len } else { min_capacity as nat };
                if !old(self).spec_heap() {
                    final(self).spec_capacity() == old(self).spec_capacity() && final(self).spec_heap() == old(self).spec_heap()
                } else if target <= MAX_SIZE {
                    !final(self).spec_heap() && final(self).spec_capacity() == MAX_SIZE
                } else if target >= old(self).spec_capacity() {
                    final(self).spec_capacity() == old(self).spec_capacity() && final(self).spec_heap()
                } else {
                    final(self).spec_heap() && final(self).spec_capacity() == target
                }
            }),
    {
        proof {
            use_type_invariant(&*self);
        }
        let mut repr = Repr::empty();
        core::mem::swap(&mut repr, &mut self.repr);
        repr.shrink_to(min_capacity);
        self.repr = repr;
    }

    /// Shrinks the capacity to the length, or to `MAX_SIZE` when the string fits inline.
    pub fn shrink_to_fit(&mut self)
        ensures
            final(self).bytes_view() == old(self).bytes_view(),
            final(self)@ == old(self)@,
            old(self).spec_heap() && old(self).bytes_view().len() <= MAX_SIZE ==> !final(self).spec_heap()
                && final(self).spec_capacity() == MAX_SIZE,
            old(self).spec_heap() && old(self).bytes_view().len() > MAX_SIZE ==> final(self).spec_heap()
                && final(self).spec_capacity() == if old(self).bytes_view().len() < old(self).spec_capacity() {
                    old(self).bytes_view().len()
                } else {
                    old(self).spec_capacity()
                },
            !old(self).spec_heap() ==> final(self).spec_capacity() == old(self).spec_capacity()
                && !final(self).spec_heap(),
    {
        self.shrink_to(0);
    }

    /// Collects characters into a compact string, inline when their text is shorter than
    /// `MAX_SIZE` bytes and on the heap otherwise.
    pub fn from_chars(chars: &[char]) -> (r: Self)
        ensures
            r@ == chars@,
            r.bytes_view() == encode_utf8(chars@),
            r.spec_heap() <==> encode_utf8(chars@).len() >= MAX_SIZE,
            r.spec_heap() ==> r.spec_capacity() >= encode_utf8(chars@).len(),
            !r.spec_heap() ==> r.spec_capacity() == MAX_SIZE,
    {
        Self::from_repr(Repr::from_chars(chars))
    }

    /// Collects string slices, one after another, into a compact string, inline when their text
    /// is shorter than `MAX_SIZE` bytes and on the heap otherwise.
    pub fn from_strs(strs: &[&str]) -> (r: Self)
        ensures
            r@ == concat_strs(strs@),
            r.bytes_view() == encode_utf8(concat_strs(strs@)),
            r.spec_heap() <==> encode_utf8(concat_strs(strs@)).len() >= MAX_SIZE,
            r.spec_heap() ==> r.spec_capacity() >= encode_utf8(concat_strs(strs@)).len(),
            !r.spec_heap() ==> r.spec_capacity() == MAX_SIZE,
    {
        Self::from_repr(Repr::from_strs(strs))
    }

    /// Appends valid UTF-8 bytes.
    fn push_valid_bytes(&mut self, bytes: &[u8])
        requires
            valid_utf8(bytes@),
            old(self).bytes_view().len() + bytes@.len() <= usize::MAX,
        ensures
            final(self).bytes_view() == old(self).bytes_view() + bytes@,
            final(self)@ == old(self)@ + decode_utf8(bytes@),
    {
        proof {
            use_type_invariant(&*self);
        }
        let mut repr = Repr::empty();
        core::mem::swap(&mut repr, &mut self.repr);
        repr.push_bytes(bytes);
        self.repr = repr;
        proof {
            old(self).repr.lemma_valid();
            lemma_decode_concat(old(self).bytes_view(), bytes@);
        }
    }

    /// Appends each character in turn.
    pub fn extend_chars(&mut self, chars: &[char])
        requires
            old(self).bytes_view().len() + encode_utf8(chars@).len() <= usize::MAX,
        ensures
            final(self)@ == old(self)@ + chars@,
            final(self).bytes_view() == old(self).bytes_view() + encode_utf8(chars@),
    {
        let bytes = encode_chars(chars);
        proof {
            encode_utf8_valid_utf8(chars@);
            encode_utf8_decode_utf8(chars@);
        }
        self.push_valid_bytes(bytes.as_slice());
    }

    /// Appends each string slice in turn.
    pub fn extend_strs(&mut self, strs: &[&str])
        requires
            old(self).bytes_view().len() + encode_utf8(concat_strs(strs@)).len() <= usize::MAX,
        ensures
            final(self)@ == old(self)@ + concat_strs(strs@),
            final(self).bytes_view() == old(self).bytes_view() + encode_utf8(concat_strs(strs@)),
    {
        let bytes = encode_strs(strs);
        proof {
            encode_utf8_valid_utf8(concat_strs(strs@));
            encode_utf8_decode_utf8(concat_strs(strs@));
        }
        self.push_valid_bytes(bytes.as_slice());
    }

    /// Keeps only the characters for which `predicate` returns `true`, in order, and asks the
    /// predicate about each character exactly once, from first to last.
    pub fn retain(&mut self, predicate: impl Fn(char) -> bool)
        requires
            forall|c: char| call_requires(predicate, (c,)),
        ensures
            exists|keep: Seq<bool>|
                {
                    &&& keep.len() == old(self)@.len()
                    &&& forall|i: int|
                        0 <= i < keep.len() ==> call_ensures(predicate, (old(self)@[i],), #[trigger] keep[i])
                    &&& final(self)@ == kept(old(self)@, keep)
                },
    {
        self.prove_valid();
        let ghost b = self.bytes_view();
        let ghost chars = self@;
        let bytes: &[u8] = self.as_bytes();
        let n: usize = bytes.len();
        let mut out: Vec<u8> = Vec::new();
        let mut src: usize = 0;
        let ghost mut k: int = 0;
        let ghost mut keep: Seq<bool> = Seq::empty();
        proof {
            lemma_empty_valid();
            assert(b.subrange(0, n as int) =~= b);
            assert(chars.take(0) =~= Seq::<char>::empty());
            assert(chars.skip(0) =~= chars);
        }
        while src < n
            invariant
                0 <= src <= n,
                n == b.len(),
                bytes@ == b,
                chars == decode_utf8(b),
                0 <= k <= chars.len(),
                valid_utf8(b.subrange(src as int, n as int)),
                decode_utf8(b.subrange(src as int, n as int)) == chars.skip(k),
                keep.len() == k,
                forall|i: int| 0 <= i < k ==> call_ensures(predicate, (chars[i],), #[trigger] keep[i]),
                forall|c: char| call_requires(predicate, (c,)),
                out@ == encode_utf8(kept(chars.take(k), keep)),
            decreases n - src,
        {
            proof {
                lemma_valid_roundtrip(b.subrange(src as int, n as int));
            }
            let (ch, len) = decode_at(bytes, src);
            proof {
                assert(chars.skip(k)[0] == chars[k]);
                let rest = decode_utf8(b.subrange(src + len, n as int));
                assert((seq![ch] + rest).drop_first() =~= rest);
                assert(chars.skip(k + 1) =~= chars.skip(k).drop_first());
            }
            let keep_it = predicate(ch);
            if keep_it {
                let (buf, m) = encode_char(ch);
                let all: &[u8] = buf.as_slice();
                append_bytes(&mut out, &all[0..m]);
                proof {
                    lemma_encode_concat(kept(chars.take(k), keep), seq![ch]);
                }
            }
            proof {
                let nk = keep.push(keep_it);
                assert(chars.take(k + 1).drop_last() =~= chars.take(k));
                assert(nk.drop_last() =~= keep);
                assert(chars.take(k + 1).last() == ch);
                if !keep_it {
                    assert(kept(chars.take(k), keep) + Seq::<char>::empty() =~= kept(chars.take(k), keep));
                }
                keep = nk;
                k = k + 1;
            }
            src = src + len;
        }
        proof {
            assert(b.subrange(n as int, n as int) =~= Seq::<u8>::empty());
            assert(chars.take(k) =~= chars);
            encode_utf8_valid_utf8(kept(chars, keep));
            encode_utf8_decode_utf8(kept(chars, keep));
        }
        self.overwrite(out.as_slice());
    }

    /// Overwrites every byte of the storage with zero, the bytes past the end of the string and
    /// the spare heap capacity included, keeping the length and the storage; a string that refers
    /// to `'static` text, which cannot be written, becomes the empty string instead.
    pub fn zeroize(&mut self)
        ensures
            old(self).spec_static() ==> final(self).bytes_view().len() == 0 && !final(self).spec_heap()
                && !final(self).spec_static(),
            !old(self).spec_static() ==> final(self).bytes_view().len() == old(self).bytes_view().len()
                && final(self).spec_heap() == old(self).spec_heap()
                && final(self).spec_capacity() == old(self).spec_capacity()
                && final(self).storage().len() == old(self).storage().len(),
            forall|j: int| 0 <= j < final(self).storage().len() ==> final(self).storage()[j] == 0,
            forall|j: int| 0 <= j < final(self).bytes_view().len() ==> final(self).bytes_view()[j] == 0,
            final(self).bytes_view() == final(self).storage().subrange(0, final(self).bytes_view().len() as int),
            final(self).spec_heap() ==> final(self).storage().len() == final(self).spec_capacity(),
            !final(self).spec_heap() ==> final(self).storage().len() == (
            if final(self).bytes_view().len() < MAX_SIZE {
                MAX_SIZE - 1
            } else {
                MAX_SIZE as int
            }),
    {
        proof {
            use_type_invariant(&*self);
        }
        let mut repr = Repr::empty();
        core::mem::swap(&mut repr, &mut self.repr);
        repr.zeroize();
        proof {
            repr.lemma_storage();
        }
        self.repr = repr;
    }

    /// A copy of the string; a heap string is copied into storage fitted to its length.
    fn clone_string(&self) -> (r: Self)
        ensures
            r@ == self@,
            r.bytes_view() == self.bytes_view(),
            !self.spec_heap() ==> r.spec_heap() == self.spec_heap() && r.spec_capacity()
                == self.spec_capacity(),
            self.spec_heap() ==> (r.spec_heap() <==> self.bytes_view().len() > MAX_SIZE),
    {
        proof {
            use_type_invariant(self);
        }
        Self::from_repr(self.repr.clone_repr())
    }

    /// Converts the string into a `String`; a heap string hands over its buffer.
    pub fn into_string(self) -> (r: String)
        ensures
            r@ == self@,
    {
        proof {
            use_type_invariant(&self);
        }
        let CompactString { repr } = self;
        repr.into_string()
    }
}

/// An iterator over the characters removed by [`CompactString::drain`].
pub struct Drain {
    bytes: Vec<u8>,
    front: usize,
    back: usize,
}

impl Drain {
    #[verifier::type_invariant]
    spec fn inv(&self) -> bool {
        &&& self.front <= self.back <= self.bytes@.len()
        &&& valid_utf8(self.bytes@.subrange(self.front as int, self.back as int))
    }

    /// The bytes not yet yielded.
    pub closed spec fn remaining_bytes(&self) -> Seq<u8> {
        self.bytes@.subrange(self.front as int, self.back as int)
    }

    /// The remaining characters as a string slice.
    pub fn as_str(&self) -> (r: &str)
        ensures
            r@ == self@,
    {
        proof {
            use_type_invariant(self);
        }
        let all: &[u8] = self.bytes.as_slice();
        match str_from_utf8(&all[self.front..self.back]) {
            Ok(s) => s,
            Err(_) => "",
        }
    }

    /// The next character from the front.
    pub fn next(&mut self) -> (r: Option<char>)
        ensures
            old(self)@.len() == 0 ==> r is None && final(self)@ == old(self)@,
            old(self)@.len() > 0 ==> r == Some(old(self)@[0]) && final(self)@ == old(self)@.drop_first(),
    {
        proof {
            use_type_invariant(&*self);
            lemma_valid_roundtrip(self.remaining_bytes());
        }
        if self.front == self.back {
            assert(self.remaining_bytes() =~= Seq::<u8>::empty());
            return None;
        }
        let all: &[u8] = self.bytes.as_slice();
        let upto: &[u8] = &all[0..self.back];
        assert(upto@.subrange(self.front as int, upto@.len() as int) =~= self.remaining_bytes());
        let (ch, k) = decode_at(upto, self.front);
        let ghost rest = upto@.subrange(self.front + k, upto@.len() as int);
        assert(self.bytes@.subrange(self.front + k, self.back as int) =~= rest);
        self.front = self.front + k;
        Some(ch)
    }

    /// The next character from the back.
    pub fn next_back(&mut self) -> (r: Option<char>)
        ensures
            old(self)@.len() == 0 ==> r is None && final(self)@ == old(self)@,
            old(self)@.len() > 0 ==> r == Some(old(self)@.last()) && final(self)@ == old(self)@.drop_last(),
    {
        proof {
            use_type_invariant(&*self);
            lemma_valid_roundtrip(self.remaining_bytes());
        }
        if self.front == self.back {
            assert(self.remaining_bytes() =~= Seq::<u8>::empty());
            return None;
        }
        let all: &[u8] = self.bytes.as_slice();
        let mid: &[u8] = &all[self.front..self.back];
        let (ch, k) = decode_last(mid);
        let ghost rest = mid@.subrange(0, mid@.len() - k);
        assert(self.bytes@.subrange(self.front as int, self.back - k) =~= rest);
        self.back = self.back - k;
        Some(ch)
    }
}

impl View for Drain {
    type V = Seq<char>;

    closed spec fn view(&self) -> Seq<char> {
        decode_utf8(self.remaining_bytes())
    }
}

impl View for CompactString {
    type V = Seq<char>;

    open spec fn view(&self) -> Seq<char> {
        decode_utf8(self.bytes_view())
    }
}

} // verus!
