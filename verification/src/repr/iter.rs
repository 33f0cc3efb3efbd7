//! Building a representation from a run of characters or string slices.
//!
//! The result is stored inline when the collected text fits in `MAX_SIZE` bytes, and on the heap
//! otherwise.
use vstd::prelude::*;
use vstd::string::StringSliceAdditionalSpecFns;
use vstd::utf8::*;

use super::{Repr, MAX_SIZE};
use super::heap::HeapString;
use crate::buffer::append_bytes;
use crate::std_calls::string_push;
use crate::unicode::{encode_char, lemma_empty_valid, lemma_encode_concat, lemma_encode_len};

verus! {

broadcast use vstd::utf8::group_utf8_lib;

/// The characters of a run of string slices, one after another.
pub open spec fn concat_strs(strs: Seq<&str>) -> Seq<char>
    decreases strs.len(),
{
    if strs.len() == 0 {
        Seq::<char>::empty()
    } else {
        concat_strs(strs.drop_last()) + strs.last()@
    }
}

/// The UTF-8 encoding of `chars`, built one character at a time.
pub fn encode_chars(chars: &[char]) -> (r: Vec<u8>)
    ensures
        r@ == encode_utf8(chars@),
{
    let n: usize = chars.len();
    let mut out: Vec<u8> = Vec::new();
    let mut i: usize = 0;
    proof {
        lemma_empty_valid();
    }
    while i < n
        invariant
            i <= n,
            n == chars@.len(),
            out@ == encode_utf8(chars@.subrange(0, i as int)),
        decreases n - i,
    {
        let c: char = chars[i];
        let (buf, k) = encode_char(c);
        let all: &[u8] = buf.as_slice();
        append_bytes(&mut out, &all[0..k]);
        proof {
            lemma_encode_concat(chars@.subrange(0, i as int), seq![c]);
            assert(chars@.subrange(0, i + 1) =~= chars@.subrange(0, i as int) + seq![c]);
        }
        i = i + 1;
    }
    assert(chars@.subrange(0, n as int) =~= chars@);
    out
}

/// The UTF-8 encoding of a run of string slices, one after another.
pub fn encode_strs(strs: &[&str]) -> (r: Vec<u8>)
    ensures
        r@ == encode_utf8(concat_strs(strs@)),
{
    let n: usize = strs.len();
    let mut out: Vec<u8> = Vec::new();
    let mut i: usize = 0;
    proof {
        lemma_empty_valid();
    }
    while i < n
        invariant
            i <= n,
            n == strs@.len(),
            out@ == encode_utf8(concat_strs(strs@.subrange(0, i as int))),
        decreases n - i,
    {
        let s: &str = strs[i];
        append_bytes(&mut out, s.as_bytes());
        proof {
            let pre = strs@.subrange(0, i as int);
            let next = strs@.subrange(0, i + 1);
            assert(next.drop_last() =~= pre);
            lemma_encode_concat(concat_strs(pre), s@);
        }
        i = i + 1;
    }
    assert(strs@.subrange(0, n as int) =~= strs@);
    out
}

/// The characters collected into a `String`, one at a time.
fn collect_chars(chars: &[char]) -> (r: String)
    ensures
        r@ == chars@,
{
    let n: usize = chars.len();
    let mut out = String::new();
    let mut i: usize = 0;
    while i < n
        invariant
            i <= n,
            n == chars@.len(),
            out@ == chars@.subrange(0, i as int),
        decreases n - i,
    {
        string_push(&mut out, chars[i]);
        assert(out@ =~= chars@.subrange(0, i + 1));
        i = i + 1;
    }
    assert(chars@.subrange(0, n as int) =~= chars@);
    out
}

/// The string slices collected into a `String`, one after another.
fn collect_strs(strs: &[&str]) -> (r: String)
    ensures
        r@ == concat_strs(strs@),
{
    let n: usize = strs.len();
    let mut out = String::new();
    let mut i: usize = 0;
    while i < n
        invariant
            i <= n,
            n == strs@.len(),
            out@ == concat_strs(strs@.subrange(0, i as int)),
        decreases n - i,
    {
        out.append(strs[i]);
        assert(strs@.subrange(0, i + 1).drop_last() =~= strs@.subrange(0, i as int));
        i = i + 1;
    }
    assert(strs@.subrange(0, n as int) =~= strs@);
    out
}

impl Repr {
    /// The characters collected into one string: inline when their text is shorter than
    /// `MAX_SIZE` bytes, otherwise collected into a `String` whose buffer the string keeps. As
    /// many characters as `MAX_SIZE` or more go to the heap without being measured.
    pub fn from_chars(chars: &[char]) -> (r: Self)
        ensures
            r.wf(),
            decode_utf8(r.content()) == chars@,
            r.content() == encode_utf8(chars@),
            r is Heap <==> encode_utf8(chars@).len() >= MAX_SIZE,
            r is Heap ==> r.spec_capacity() >= r.content().len(),
            r.spec_capacity() >= MAX_SIZE,
            !(r is Static),
    {
        proof {
            encode_utf8_valid_utf8(chars@);
            encode_utf8_decode_utf8(chars@);
            lemma_encode_len(chars@);
        }
        if chars.len() >= MAX_SIZE {
            return Repr::Heap(HeapString::from_string(collect_chars(chars)));
        }
        let bytes = encode_chars(chars);
        if bytes.len() < MAX_SIZE {
            Self::from_valid_bytes(bytes.as_slice())
        } else {
            Repr::Heap(HeapString::from_string(collect_chars(chars)))
        }
    }

    /// The string slices collected into one string: inline when their text is shorter than
    /// `MAX_SIZE` bytes, otherwise collected into a `String` whose buffer the string keeps.
    pub fn from_strs(strs: &[&str]) -> (r: Self)
        ensures
            r.wf(),
            decode_utf8(r.content()) == concat_strs(strs@),
            r.content() == encode_utf8(concat_strs(strs@)),
            r is Heap <==> encode_utf8(concat_strs(strs@)).len() >= MAX_SIZE,
            r is Heap ==> r.spec_capacity() >= r.content().len(),
            r.spec_capacity() >= MAX_SIZE,
            !(r is Static),
    {
        proof {
            encode_utf8_valid_utf8(concat_strs(strs@));
            encode_utf8_decode_utf8(concat_strs(strs@));
        }
        let bytes = encode_strs(strs);
        if bytes.len() < MAX_SIZE {
            Self::from_valid_bytes(bytes.as_slice())
        } else {
            Repr::Heap(HeapString::from_string(collect_strs(strs)))
        }
    }
}

} // verus!
