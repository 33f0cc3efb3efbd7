//! A heap string kept in a shared buffer, beside padding bytes that mark it as a heap string.
use vstd::prelude::*;
use vstd::string::StringSliceAdditionalSpecFns;
use vstd::utf8::*;

pub mod arc;

use self::arc::ArcString;
use super::HEAP_MASK;

verus! {

broadcast use vstd::utf8::group_utf8_lib;

/// The bytes in front of the shared string: `MAX_SIZE` less the two words of an `ArcString`.
pub const PADDING_SIZE: usize = 8;

/// A heap string: padding that marks it, then a shared string.
#[derive(Debug, Clone)]
pub struct HeapString {
    padding: [u8; 8],
    pub string: ArcString,
}

impl HeapString {
    /// The padding bytes, all `HEAP_MASK`.
    pub closed spec fn spec_padding(&self) -> Seq<u8> {
        self.padding@
    }

    /// The bytes of the string.
    pub closed spec fn content(&self) -> Seq<u8> {
        self.string.content()
    }

    /// The size of the shared buffer.
    pub closed spec fn spec_capacity(&self) -> nat {
        self.string.spec_capacity()
    }

    /// A heap string holding `text` in a buffer of exactly its length.
    pub fn new(text: &str) -> (r: Self)
        ensures
            r.content() == text.spec_bytes(),
            r.spec_capacity() == text.spec_bytes().len(),
            forall|j: int| 0 <= j < PADDING_SIZE ==> r.spec_padding()[j] == HEAP_MASK,
    {
        let string = ArcString::from(text);
        HeapString { padding: [HEAP_MASK; 8], string }
    }

    /// A heap string holding `text` with room for exactly `additional` more bytes; the total
    /// must fit in a `usize`.
    pub fn with_additional(text: &str, additional: usize) -> (r: Self)
        requires
            text.spec_bytes().len() + additional <= usize::MAX,
        ensures
            r.content() == text.spec_bytes(),
            r.spec_capacity() == text.spec_bytes().len() + additional,
            forall|j: int| 0 <= j < PADDING_SIZE ==> r.spec_padding()[j] == HEAP_MASK,
    {
        let string = ArcString::new(text, additional);
        HeapString { padding: [HEAP_MASK; 8], string }
    }
}

impl From<String> for HeapString {
    /// A heap string holding the characters of `s`, in a buffer of exactly their length.
    fn from(s: String) -> (r: Self)
        ensures
            r.content() == encode_utf8(s@),
    {
        HeapString::new(s.as_str())
    }
}

impl vstd::std_specs::convert::FromSpecImpl<String> for HeapString {
    open spec fn obeys_from_spec() -> bool {
        false
    }

    open spec fn from_spec(v: String) -> HeapString {
        arbitrary()
    }
}

} // verus!
