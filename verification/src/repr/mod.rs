//! The representation behind a compact string: inline, heap or static.
use vstd::prelude::*;
use vstd::string::StringSliceAdditionalSpecFns;
use vstd::utf8::*;

pub mod arc;
pub mod arc_str;
pub mod boxed;
pub mod bytes;
pub mod discriminant;
pub mod heap;
pub mod inline;
pub mod iter;
pub mod num;
pub mod packed;
pub mod shared_heap;
pub mod static_str;
pub mod traits;

use self::boxed::capacity::MAX_VALUE;
use self::boxed::{grown_capacity, BoxString, MIN_SIZE};
use self::heap::HeapString;
use self::inline::InlineBuffer;
use self::static_str::{StaticStr, DISCRIMINANT_SIZE};
use crate::std_calls::{from_utf8_error, str_from_utf8, string_capacity};
use crate::unicode::{
    decode_last, lemma_decode_concat, lemma_empty_valid, lemma_split_at_boundary,
    lemma_valid_prefix_boundary, lemma_valid_roundtrip,
};

verus! {

broadcast use vstd::utf8::group_utf8_lib;

/// The largest string that can be stored inline: 24 bytes, as many as a `String` value takes on
/// 64-bit targets.
pub const MAX_SIZE: usize = 24;

/// Marks the final byte of an inline buffer as a length: `len | LENGTH_MASK`.
pub const LENGTH_MASK: u8 = 0b1100_0000;

/// The final byte of a capacity word stored beside a heap buffer.
pub const HEAP_MASK: u8 = 0b1111_1110;

/// The final byte of a string that refers to `'static` text.
pub const STATIC_STR_MASK: u8 = 0b1111_1101;

/// The error returned when the requested capacity does not fit in a `usize`.
#[derive(Copy, Clone, Debug, PartialEq, Eq)]
pub struct ReserveError(pub ());

/// Where the bytes of a compact string live.
#[derive(Debug)]
pub enum Repr {
    /// In place, in a buffer of `MAX_SIZE` bytes.
    Inline(InlineBuffer),
    /// In a heap buffer.
    Heap(HeapString),
    /// In text with a `'static` lifetime that is never written to.
    Static(StaticStr),
}

/// Whether an operation that needs `needed` bytes can keep the current storage.
pub open spec fn keeps_storage(r: Repr, needed: int) -> bool {
    !(r is Static) && needed <= r.spec_capacity()
}

impl Repr {
    /// The bytes of the string.
    pub open spec fn content(&self) -> Seq<u8> {
        match self {
            Repr::Inline(b) => b.content(),
            Repr::Heap(h) => h.content(),
            Repr::Static(s) => s.content(),
        }
    }

    /// The storage is well formed.
    pub open spec fn wf(&self) -> bool {
        match self {
            Repr::Inline(b) => b.wf(),
            Repr::Heap(h) => h.wf(),
            Repr::Static(s) => s.wf() && s.spec_capacity() > MAX_SIZE,
        }
    }

    /// The number of bytes the storage can hold without growing.
    pub open spec fn spec_capacity(&self) -> nat {
        match self {
            Repr::Inline(_) => MAX_SIZE as nat,
            Repr::Heap(h) => h.spec_capacity(),
            Repr::Static(s) => s.spec_capacity(),
        }
    }

    /// The empty string, stored inline.
    pub fn empty() -> (r: Self)
        ensures
            r.wf(),
            r.content() == Seq::<u8>::empty(),
            r is Inline,
            r.storage().len() == MAX_SIZE - 1,
            forall|j: int| 0 <= j < r.storage().len() ==> r.storage()[j] == 0,
    {
        Repr::Inline(InlineBuffer::empty())
    }

    /// A string holding `bytes`, inline when it fits and otherwise in an exactly sized buffer.
    pub fn from_valid_bytes(bytes: &[u8]) -> (r: Self)
        requires
            valid_utf8(bytes@),
        ensures
            r.wf(),
            r.content() == bytes@,
            r is Heap <==> bytes@.len() > MAX_SIZE,
            !(r is Static),
            r is Heap ==> r.spec_capacity() == bytes@.len(),
    {
        if bytes.len() <= MAX_SIZE {
            let mut inline = InlineBuffer::empty();
            inline.append(bytes);
            assert(Seq::<u8>::empty() + bytes@ =~= bytes@);
            Repr::Inline(inline)
        } else {
            Repr::Heap(HeapString { string: BoxString::from_bytes(bytes, bytes.len()) })
        }
    }

    /// A string holding `text`, inline when it fits and otherwise on the heap.
    pub fn new(text: &str) -> (r: Self)
        ensures
            r.wf(),
            r.content() == text.spec_bytes(),
            r is Heap <==> text.spec_bytes().len() > MAX_SIZE,
            !(r is Static),
            r is Heap ==> r.spec_capacity() == text.spec_bytes().len(),
    {
        let len: usize = text.as_bytes().len();
        if len == 0 {
            let r = Self::empty();
            assert(r.content() =~= text.spec_bytes());
            r
        } else if len <= MAX_SIZE {
            Repr::Inline(InlineBuffer::new(text))
        } else {
            Repr::Heap(HeapString::new(text))
        }
    }

    /// A string referring to `text`: inline when it fits, otherwise the text itself.
    pub fn const_new(text: &'static str) -> (r: Self)
        ensures
            r.wf(),
            r.content() == text.spec_bytes(),
            text.spec_bytes().len() <= MAX_SIZE ==> r is Inline,
            text.spec_bytes().len() > MAX_SIZE ==> r is Static,
    {
        if text.as_bytes().len() <= MAX_SIZE {
            Repr::Inline(InlineBuffer::new_const(text))
        } else {
            Repr::Static(StaticStr::new(text))
        }
    }

    /// An empty string with room for `capacity` bytes.
    pub fn with_capacity(capacity: usize) -> (r: Self)
        ensures
            r.wf(),
            r.content() == Seq::<u8>::empty(),
            r is Heap <==> capacity > MAX_SIZE,
            r is Heap ==> r.spec_capacity() == capacity,
            !(r is Static),
    {
        if capacity <= MAX_SIZE {
            Self::empty()
        } else {
            Repr::Heap(HeapString::with_capacity(capacity))
        }
    }

    /// The bytes as a string, or the error from `core::str::from_utf8` when they are not UTF-8.
    pub fn from_utf8(buf: &[u8]) -> (r: Result<Self, core::str::Utf8Error>)
        ensures
            r is Ok <==> valid_utf8(buf@),
            r matches Ok(repr) ==> repr.wf() && repr.content() == buf@ && !(repr is Static) && (
            repr is Heap <==> buf@.len() > MAX_SIZE) && repr.spec_capacity() >= MAX_SIZE,
            r matches Err(e) ==> e == from_utf8_error(buf@),
    {
        match str_from_utf8(buf) {
            Ok(_) => Ok(Self::from_valid_bytes(buf)),
            Err(e) => Err(e),
        }
    }

    /// A string holding the contents of `s`, keeping its buffer. It is inlined when
    /// `should_inline` is set and it fits, and is the empty inline string when `s` has no buffer.
    pub fn from_string(s: String, should_inline: bool) -> (r: Self)
        ensures
            r.wf(),
            decode_utf8(r.content()) == s@,
            r.content() == encode_utf8(s@),
            !(r is Static),
            should_inline && encode_utf8(s@).len() <= MAX_SIZE ==> r is Inline,
            encode_utf8(s@).len() > 0 && !(should_inline && encode_utf8(s@).len() <= MAX_SIZE)
                ==> r is Heap,
            encode_utf8(s@).len() > MAX_SIZE ==> r is Heap,
            r is Heap ==> r.spec_capacity() >= encode_utf8(s@).len(),
    {
        let og_cap: usize = string_capacity(&s);
        Self::from_string_parts(s, og_cap, should_inline)
    }

    /// A string holding the contents of `s`, whose buffer holds `og_cap` bytes. No buffer gives
    /// the empty inline string; a string that fits is inlined when `should_inline` is set;
    /// otherwise the buffer is kept, unless its capacity is too large for the capacity word, when
    /// the string is copied to a heap buffer of its own length.
    pub fn from_string_parts(s: String, og_cap: usize, should_inline: bool) -> (r: Self)
        requires
            og_cap >= encode_utf8(s@).len(),
        ensures
            r.wf(),
            decode_utf8(r.content()) == s@,
            r.content() == encode_utf8(s@),
            !(r is Static),
            og_cap == 0 ==> r is Inline,
            og_cap > 0 && should_inline && encode_utf8(s@).len() <= MAX_SIZE ==> r is Inline,
            og_cap > 0 && !(should_inline && encode_utf8(s@).len() <= MAX_SIZE) ==> r is Heap,
            og_cap > 0 && !(should_inline && encode_utf8(s@).len() <= MAX_SIZE) && og_cap
                <= MAX_VALUE ==> r.spec_capacity() == og_cap,
            og_cap > 0 && !(should_inline && encode_utf8(s@).len() <= MAX_SIZE) && og_cap
                > MAX_VALUE ==> r.spec_capacity() == if encode_utf8(s@).len() > MIN_SIZE {
                encode_utf8(s@).len()
            } else {
                MIN_SIZE as nat
            },
    {
        let cap = boxed::capacity::Capacity::new(og_cap);
        let text: &str = s.as_str();
        let len: usize = text.as_bytes().len();
        proof {
            encode_utf8_decode_utf8(text@);
            encode_utf8_valid_utf8(text@);
        }
        if og_cap == 0 {
            proof {
                lemma_empty_valid();
                assert(text.spec_bytes() =~= Seq::<u8>::empty());
            }
            Self::empty()
        } else if should_inline && len <= MAX_SIZE {
            Repr::Inline(InlineBuffer::new(text))
        } else if cap.is_err() {
            Repr::Heap(HeapString::new(text))
        } else {
            Repr::Heap(HeapString { string: BoxString::from_string_parts(s, og_cap) })
        }
    }

    /// A string holding the contents of `b`, inlined when it fits.
    pub fn from_box_str(b: Box<str>) -> (r: Self)
        ensures
            r.wf(),
            decode_utf8(r.content()) == b@,
            r.content() == encode_utf8(b@),
            !(r is Static),
            r is Heap <==> encode_utf8(b@).len() > MAX_SIZE,
            r is Heap ==> r.spec_capacity() == encode_utf8(b@).len(),
    {
        let text: &str = &b;
        let len: usize = text.as_bytes().len();
        proof {
            encode_utf8_decode_utf8(text@);
        }
        if len <= MAX_SIZE {
            Self::new(text)
        } else {
            Repr::Heap(HeapString { string: BoxString::from_box_str(b) })
        }
    }

    /// The string as a `String`: a heap string hands over its buffer, any other is copied.
    pub fn into_string(self) -> (r: String)
        requires
            self.wf(),
        ensures
            r@ == decode_utf8(self.content()),
    {
        match self {
            Repr::Heap(h) => h.string.into_string(),
            other => other.as_str().to_owned(),
        }
    }

    /// Ensures room for `additional` more bytes. Fails, changing nothing, when the total length
    /// would not fit in a `usize`.
    pub fn reserve(&mut self, additional: usize) -> (r: Result<(), ReserveError>)
        requires
            old(self).wf(),
        ensures
            old(self).spec_capacity() >= MAX_SIZE ==> final(self).spec_capacity() >= MAX_SIZE,
            final(self).wf(),
            final(self).content() == old(self).content(),
            r is Ok <==> old(self).content().len() + additional <= usize::MAX,
            r is Err ==> *final(self) == *old(self),
            r is Ok ==> final(self).spec_capacity() >= old(self).content().len() + additional,
            r is Ok ==> !((*final(self)) is Static),
            r is Ok && keeps_storage(*old(self), (old(self).content().len() + additional) as int) ==> *final(self) == *old(self),
            r is Ok && !keeps_storage(*old(self), (old(self).content().len() + additional) as int) ==> ((*final(self)) is Heap <==> old(self).content().len() + additional > MAX_SIZE),
            r is Ok && !keeps_storage(*old(self), (old(self).content().len() + additional) as int)
                && old(self).content().len() + additional > MAX_SIZE ==> final(self).spec_capacity()
                == grown_capacity(old(self).content().len(), additional as nat),
    {
        let len: usize = self.len();
        let needed: usize = match len.checked_add(additional) {
            Some(n) => n,
            None => return Err(ReserveError(())),
        };
        if !self.is_static_str() && needed <= self.capacity() {
            return Ok(());
        }
        proof {
            self.lemma_valid();
        }
        if needed <= MAX_SIZE {
            let mut inline = InlineBuffer::empty();
            inline.append(self.as_slice());
            assert(Seq::<u8>::empty() + old(self).content() =~= old(self).content());
            *self = Repr::Inline(inline);
        } else if !self.is_heap_allocated() {
            let heap = BoxString::with_additional_bytes(self.as_slice(), additional);
            *self = Repr::Heap(HeapString { string: heap });
        } else {
            if let Repr::Heap(h) = self {
                h.string.reserve(additional);
            }
        }
        Ok(())
    }

    /// Shrinks a heap buffer to `max(len, min_capacity)`, moving the string inline when that fits.
    pub fn shrink_to(&mut self, min_capacity: usize)
        requires
            old(self).wf(),
        ensures
            old(self).spec_capacity() >= MAX_SIZE ==> final(self).spec_capacity() >= MAX_SIZE,
            final(self).wf(),
            final(self).content() == old(self).content(),
            ({
                let len = old(self).content().len();
                let target = if len > min_capacity { len } else { min_capacity as nat };
                if !((*old(self)) is Heap) {
                    *final(self) == *old(self)
                } else if target <= MAX_SIZE {
                    (*final(self)) is Inline
                } else if target >= old(self).spec_capacity() {
                    *final(self) == *old(self)
                } else {
                    (*final(self)) is Heap && final(self).spec_capacity() == target
                }
            }),
    {
        if !self.is_heap_allocated() {
            return ;
        }
        proof {
            self.lemma_valid();
        }
        let len: usize = self.len();
        let old_capacity: usize = self.capacity();
        let new_capacity: usize = if len > min_capacity {
            len
        } else {
            min_capacity
        };
        if new_capacity <= MAX_SIZE {
            let mut inline = InlineBuffer::empty();
            inline.append(self.as_slice());
            assert(Seq::<u8>::empty() + old(self).content() =~= old(self).content());
            *self = Repr::Inline(inline);
            return ;
        }
        if new_capacity >= old_capacity {
            return ;
        }
        let heap = BoxString::from_bytes(self.as_slice(), new_capacity);
        *self = Repr::Heap(HeapString { string: heap });
    }

    /// Appends bytes that fit in the current storage.
    fn append_in_place(&mut self, bytes: &[u8])
        requires
            old(self).wf(),
            valid_utf8(bytes@),
            !((*old(self)) is Static),
            old(self).content().len() + bytes@.len() <= old(self).spec_capacity(),
        ensures
            final(self).wf(),
            final(self).content() == old(self).content() + bytes@,
            final(self).spec_capacity() == old(self).spec_capacity(),
            (*final(self)) is Inline <==> (*old(self)) is Inline,
            (*final(self)) is Heap <==> (*old(self)) is Heap,
    {
        match self {
            Repr::Inline(b) => b.append(bytes),
            Repr::Heap(h) => h.string.append_in_place(bytes),
            Repr::Static(_) => {},
        }
    }

    /// Appends valid UTF-8 bytes, growing the storage when needed.
    pub fn push_bytes(&mut self, bytes: &[u8])
        requires
            old(self).wf(),
            valid_utf8(bytes@),
            old(self).content().len() + bytes@.len() <= usize::MAX,
        ensures
            old(self).spec_capacity() >= MAX_SIZE ==> final(self).spec_capacity() >= MAX_SIZE,
            final(self).wf(),
            final(self).content() == old(self).content() + bytes@,
            bytes@.len() == 0 ==> *final(self) == *old(self),
            bytes@.len() > 0 && keeps_storage(*old(self), (old(self).content().len() + bytes@.len()) as int)
                ==> final(self).spec_capacity() == old(self).spec_capacity() && ((*final(self)) is Heap
                <==> (*old(self)) is Heap),
            bytes@.len() > 0 && !keeps_storage(*old(self), (old(self).content().len() + bytes@.len()) as int)
                ==> ((*final(self)) is Heap <==> old(self).content().len() + bytes@.len() > MAX_SIZE),
            bytes@.len() > 0 ==> !((*final(self)) is Static),
    {
        if bytes.len() == 0 {
            assert(old(self).content() + bytes@ =~= old(self).content());
            return ;
        }
        let len: usize = self.len();
        if self.is_static_str() || len + bytes.len() > self.capacity() {
            let _ = self.reserve(bytes.len());
        }
        self.append_in_place(bytes);
    }

    /// Appends a string.
    pub fn push_str(&mut self, s: &str)
        requires
            old(self).wf(),
            old(self).content().len() + s.spec_bytes().len() <= usize::MAX,
        ensures
            old(self).spec_capacity() >= MAX_SIZE ==> final(self).spec_capacity() >= MAX_SIZE,
            final(self).wf(),
            final(self).content() == old(self).content() + s.spec_bytes(),
            s.spec_bytes().len() == 0 ==> *final(self) == *old(self),
            s.spec_bytes().len() > 0 && keeps_storage(*old(self), (old(self).content().len() + s.spec_bytes().len()) as int)
                ==> final(self).spec_capacity() == old(self).spec_capacity() && ((*final(self)) is Heap
                <==> (*old(self)) is Heap),
            s.spec_bytes().len() > 0 && !keeps_storage(*old(self), (old(self).content().len() + s.spec_bytes().len()) as int)
                ==> ((*final(self)) is Heap <==> old(self).content().len() + s.spec_bytes().len() > MAX_SIZE),
    {
        proof {
            encode_utf8_valid_utf8(s@);
        }
        self.push_bytes(s.as_bytes());
    }

    /// Removes and returns the last character, or returns `None` for the empty string.
    pub fn pop(&mut self) -> (r: Option<char>)
        requires
            old(self).wf(),
        ensures
            final(self).wf(),
            old(self).content().len() == 0 ==> r is None && *final(self) == *old(self),
            old(self).content().len() > 0 ==> r == Some(decode_utf8(old(self).content()).last())
                && final(self).content() == old(self).content().subrange(
                0,
                old(self).content().len() - encode_scalar(r.unwrap() as u32).len(),
            ) && decode_utf8(final(self).content()) == decode_utf8(
                old(self).content(),
            ).drop_last(),
            (*final(self)) is Heap <==> (*old(self)) is Heap,
            (*final(self)) is Inline <==> (*old(self)) is Inline,
            final(self).spec_capacity() == old(self).spec_capacity(),
    {
        proof {
            self.lemma_valid();
        }
        let n: usize = self.len();
        if n == 0 {
            return None;
        }
        let (ch, k) = decode_last(self.as_slice());
        proof {
            let c = old(self).content();
            lemma_valid_prefix_boundary(c, n - k);
            assert(decode_utf8(c).drop_last() =~= decode_utf8(c.subrange(0, n - k)));
        }
        self.set_len(n - k);
        Some(ch)
    }

    /// The bytes of the string.
    pub fn as_slice(&self) -> (r: &[u8])
        requires
            self.wf(),
        ensures
            r@ == self.content(),
    {
        match self {
            Repr::Inline(b) => b.as_slice(),
            Repr::Heap(h) => h.string.as_slice(),
            Repr::Static(s) => s.as_bytes(),
        }
    }

    /// The string.
    pub fn as_str(&self) -> (r: &str)
        requires
            self.wf(),
        ensures
            r@ == decode_utf8(self.content()),
            r.spec_bytes() == self.content(),
    {
        proof {
            self.lemma_valid();
        }
        let r: &str = match str_from_utf8(self.as_slice()) {
            Ok(s) => s,
            Err(_) => "",
        };
        proof {
            lemma_valid_roundtrip(self.content());
        }
        r
    }

    /// The length of the string in bytes.
    pub fn len(&self) -> (r: usize)
        requires
            self.wf(),
        ensures
            r == self.content().len(),
    {
        match self {
            Repr::Inline(b) => b.len(),
            Repr::Heap(h) => h.string.len(),
            Repr::Static(s) => s.len(),
        }
    }

    /// Whether the string is empty.
    pub fn is_empty(&self) -> (r: bool)
        requires
            self.wf(),
        ensures
            r == (self.content().len() == 0),
    {
        self.len() == 0
    }

    /// The number of bytes the storage can hold without growing.
    pub fn capacity(&self) -> (r: usize)
        requires
            self.wf(),
        ensures
            r == self.spec_capacity(),
    {
        match self {
            Repr::Inline(_) => MAX_SIZE,
            Repr::Heap(h) => h.string.capacity(),
            Repr::Static(s) => s.capacity(),
        }
    }

    /// Whether the string is stored in a heap buffer.
    pub fn is_heap_allocated(&self) -> (r: bool)
        ensures
            r == (self is Heap),
    {
        match self {
            Repr::Heap(_) => true,
            _ => false,
        }
    }

    /// Whether the string refers to `'static` text.
    pub fn is_static_str(&self) -> (r: bool)
        ensures
            r == (self is Static),
    {
        match self {
            Repr::Static(_) => true,
            _ => false,
        }
    }

    /// The referred text, when the string refers to `'static` text.
    pub fn as_static_str(&self) -> (r: Option<&'static str>)
        requires
            self.wf(),
        ensures
            r is Some <==> self is Static,
            r matches Some(t) ==> t.spec_bytes() == self.content(),
    {
        match self {
            Repr::Static(s) => Some(s.get_text()),
            _ => None,
        }
    }

    /// Shortens the string to its first `len` bytes; `len` must be a character boundary.
    pub fn set_len(&mut self, len: usize)
        requires
            old(self).wf(),
            is_char_boundary(old(self).content(), len as int),
        ensures
            final(self).wf(),
            final(self).content() == old(self).content().subrange(0, len as int),
            (*final(self)) is Heap <==> (*old(self)) is Heap,
            (*final(self)) is Inline <==> (*old(self)) is Inline,
            final(self).spec_capacity() == old(self).spec_capacity(),
    {
        proof {
            self.lemma_valid();
            lemma_split_at_boundary(old(self).content(), len as int);
        }
        match self {
            Repr::Inline(b) => {
                assert(b.0@.subrange(0, len as int) =~= b.content().subrange(0, len as int));
                b.set_len(len);
            },
            Repr::Heap(h) => h.set_len(len),
            Repr::Static(s) => s.set_len(len),
        }
    }

    /// Replaces the whole string with `bytes`, keeping the storage when they fit in it; `'static`
    /// text moves to a heap buffer as large as the text.
    pub fn overwrite(&mut self, bytes: &[u8])
        requires
            old(self).wf(),
            valid_utf8(bytes@),
        ensures
            old(self).spec_capacity() >= MAX_SIZE ==> final(self).spec_capacity() >= MAX_SIZE,
            final(self).wf(),
            final(self).content() == bytes@,
            !((*final(self)) is Static),
            final(self).spec_capacity() >= bytes@.len(),
            keeps_storage(*old(self), (bytes@.len()) as int) ==> final(self).spec_capacity() == old(self).spec_capacity()
                && ((*final(self)) is Heap <==> (*old(self)) is Heap),
            !keeps_storage(*old(self), (bytes@.len()) as int) && !((*old(self)) is Static) ==> ((*final(self)) is Heap
                <==> bytes@.len() > MAX_SIZE),
            (*old(self)) is Static && bytes@.len() <= old(self).spec_capacity() ==> (*final(self)) is Heap
                && final(self).spec_capacity() == old(self).spec_capacity(),
    {
        proof {
            self.lemma_valid();
        }
        if self.is_static_str() {
            let cap: usize = self.capacity();
            let owned = Repr::Heap(HeapString { string: BoxString::from_bytes(self.as_slice(), cap) });
            *self = owned;
        }
        let len: usize = self.len();
        if bytes.len() > self.capacity() {
            let _ = self.reserve(bytes.len() - len);
        }
        proof {
            lemma_empty_valid();
            assert(self.content().subrange(0, 0) =~= Seq::<u8>::empty());
            lemma_valid_prefix_boundary(self.content(), 0);
        }
        self.set_len(0);
        self.append_in_place(bytes);
        assert(Seq::<u8>::empty() + bytes@ =~= bytes@);
    }

    /// The bytes that back the string: the inline bytes that can hold text, the whole heap
    /// buffer, or the whole referred `'static` text.
    pub open spec fn storage(&self) -> Seq<u8> {
        match self {
            Repr::Inline(b) => b.storage(),
            Repr::Heap(h) => h.string.buffer(),
            Repr::Static(s) => s.text_bytes(),
        }
    }

    /// The string is the start of its storage; a heap buffer is as long as the capacity, and the
    /// inline storage is every byte but the length marker, or all of them for a full buffer.
    pub proof fn lemma_storage(&self)
        requires
            self.wf(),
        ensures
            self.content().len() <= self.storage().len(),
            self.content() == self.storage().subrange(0, self.content().len() as int),
            !(self is Inline) ==> self.storage().len() == self.spec_capacity(),
            self is Inline ==> self.storage().len() == (if self.content().len() < MAX_SIZE {
                MAX_SIZE - 1
            } else {
                MAX_SIZE as int
            }),
    {
        match self {
            Repr::Inline(b) => {
                assert(b.content() =~= b.storage().subrange(0, b.content().len() as int));
            },
            Repr::Heap(h) => h.string.lemma_wf(),
            Repr::Static(s) => s.lemma_wf(),
        }
    }

    /// Overwrites every byte of the storage with zero, the bytes past the end of the string
    /// included, keeping the length; `'static` text, which cannot be written, is replaced by the
    /// empty string.
    pub fn zeroize(&mut self)
        requires
            old(self).wf(),
        ensures
            old(self).spec_capacity() >= MAX_SIZE ==> final(self).spec_capacity() >= MAX_SIZE,
            final(self).wf(),
            (*old(self)) is Static ==> final(self).content().len() == 0 && (*final(self)) is Inline,
            !((*old(self)) is Static) ==> final(self).content().len() == old(self).content().len()
                && ((*final(self)) is Heap <==> (*old(self)) is Heap)
                && final(self).spec_capacity() == old(self).spec_capacity()
                && final(self).storage().len() == old(self).storage().len(),
            forall|j: int| 0 <= j < final(self).storage().len() ==> final(self).storage()[j] == 0,
            forall|j: int| 0 <= j < final(self).content().len() ==> final(self).content()[j] == 0,
    {
        if self.is_static_str() {
            *self = Self::empty();
            return ;
        }
        proof {
            self.lemma_storage();
        }
        match self {
            Repr::Inline(b) => b.zero_content(),
            Repr::Heap(h) => h.string.zero_content(),
            Repr::Static(_) => {},
        }
        proof {
            self.lemma_storage();
        }
    }

    /// A copy of the string: inline and static strings are copied as they are, and a heap string
    /// is copied as `Repr::new` would store it.
    pub fn clone_repr(&self) -> (r: Self)
        requires
            self.wf(),
        ensures
            self.spec_capacity() >= MAX_SIZE ==> r.spec_capacity() >= MAX_SIZE,
            r.wf(),
            r.content() == self.content(),
            self is Heap ==> (r is Heap <==> self.content().len() > MAX_SIZE),
            !(self is Heap) ==> r == *self,
    {
        match self {
            Repr::Inline(b) => Repr::Inline(b.copy()),
            Repr::Static(s) => Repr::Static(*s),
            Repr::Heap(h) => {
                proof {
                    self.lemma_valid();
                }
                Self::from_valid_bytes(h.string.as_slice())
            },
        }
    }

    /// The final byte of the representation's `MAX_SIZE` bytes, which tells its kind.
    pub open spec fn spec_last_byte(&self) -> u8 {
        match self {
            Repr::Inline(b) => b.0@[MAX_SIZE - 1],
            Repr::Heap(_) => HEAP_MASK,
            Repr::Static(s) => s.spec_discriminant()[DISCRIMINANT_SIZE - 1],
        }
    }

    /// The final byte of the representation's `MAX_SIZE` bytes.
    pub fn last_byte(&self) -> (r: u8)
        ensures
            r == self.spec_last_byte(),
    {
        match self {
            Repr::Inline(b) => b.0[MAX_SIZE - 1],
            Repr::Heap(_) => HEAP_MASK,
            Repr::Static(s) => s.last_byte(),
        }
    }

    /// Makes this string a copy of `source`: a heap string's bytes are copied into the storage
    /// already here, any other string is copied as it is.
    pub fn clone_from(&mut self, source: &Self)
        requires
            old(self).wf(),
            source.wf(),
        ensures
            old(self).spec_capacity() >= MAX_SIZE && source.spec_capacity() >= MAX_SIZE ==> final(self).spec_capacity() >= MAX_SIZE,
            final(self).wf(),
            final(self).content() == source.content(),
            !(source is Heap) ==> *final(self) == *source,
    {
        if source.is_heap_allocated() {
            proof {
                self.lemma_valid();
                source.lemma_valid();
                is_char_boundary_start_end_of_seq(self.content());
            }
            self.set_len(0);
            proof {
                assert(self.content() =~= Seq::<u8>::empty());
            }
            let src: &[u8] = source.as_slice();
            assert(src@.len() == src.len());
            self.push_bytes(src);
            assert(Seq::<u8>::empty() + source.content() =~= source.content());
        } else {
            *self = source.clone_repr();
        }
    }

    /// Appends each character in turn, first reserving room for all of them; when that
    /// reservation fails the string grows as the characters come.
    pub fn extend_chars(&mut self, chars: &[char])
        requires
            old(self).wf(),
            old(self).content().len() + encode_utf8(chars@).len() <= usize::MAX,
        ensures
            old(self).spec_capacity() >= MAX_SIZE ==> final(self).spec_capacity() >= MAX_SIZE,
            final(self).wf(),
            final(self).content() == old(self).content() + encode_utf8(chars@),
    {
        if chars.len() > 0 {
            let _ = self.reserve(chars.len());
        }
        let bytes = iter::encode_chars(chars);
        proof {
            encode_utf8_valid_utf8(chars@);
        }
        self.push_bytes(bytes.as_slice());
    }

    /// The stored bytes are valid UTF-8.
    pub proof fn lemma_valid(&self)
        requires
            self.wf(),
        ensures
            valid_utf8(self.content()),
            self.content().len() <= self.spec_capacity(),
    {
        match self {
            Repr::Static(s) => {
                s.lemma_wf();
            },
            Repr::Heap(h) => {
                h.string.lemma_wf();
            },
            Repr::Inline(_) => {},
        }
    }
}

} // verus!
