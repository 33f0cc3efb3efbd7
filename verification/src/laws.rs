//! Properties that hold across the operations of the library.
use vstd::prelude::*;
use vstd::std_specs::cmp::PartialEqSpec;
use vstd::string::StringSliceAdditionalSpecFns;
use vstd::utf8::*;

use crate::repr::boxed::capacity::{Capacity, MAX_VALUE};
use crate::repr::{Repr, HEAP_MASK, LENGTH_MASK, MAX_SIZE, STATIC_STR_MASK};
use crate::unicode::{
    lemma_decode_concat, lemma_encode_single, lemma_split_at_boundary, lemma_valid_last_byte,
    lemma_valid_prefix_boundary,
};
use crate::{char_count, kept, lemma_char_count, CompactString};

verus! {

broadcast use vstd::utf8::group_utf8_lib;

/// An inline string marks its kind and length in its final byte: the byte is below
/// `HEAP_MASK`; for a string shorter than `MAX_SIZE` it is `len | LENGTH_MASK`, and for a
/// string of exactly `MAX_SIZE` bytes it is the string's own last byte, which stays below
/// `LENGTH_MASK`.
pub proof fn law_inline_last_byte(r: Repr)
    requires
        r.wf(),
        r is Inline,
    ensures
        r.spec_last_byte() < HEAP_MASK,
        r.content().len() < MAX_SIZE ==> r.spec_last_byte() == (r.content().len() as u8
            | LENGTH_MASK),
        r.content().len() == MAX_SIZE ==> r.spec_last_byte() == r.content().last()
            && r.spec_last_byte() < LENGTH_MASK,
{
    let b = r->Inline_0;
    let len = r.content().len();
    let last = r.spec_last_byte();
    if len < MAX_SIZE {
        let l = len as u8;
        assert(l < 64 ==> (l | 0xC0u8) == l + 0xC0u8) by (bit_vector);
    } else {
        lemma_valid_last_byte(r.content());
        assert(r.content().last() == b.0@[MAX_SIZE - 1]);
    }
}

/// The final byte tells the three kinds of string apart: it is `HEAP_MASK` exactly for a heap
/// string, `STATIC_STR_MASK` exactly for a string referring to `'static` text, and below both for
/// an inline string.
pub proof fn law_last_byte_kind(r: Repr)
    requires
        r.wf(),
    ensures
        r.spec_last_byte() == HEAP_MASK <==> r is Heap,
        r.spec_last_byte() == STATIC_STR_MASK <==> r is Static,
        r is Inline ==> r.spec_last_byte() < STATIC_STR_MASK,
{
    match r {
        Repr::Inline(_) => {
            law_inline_last_byte(r);
            let len = r.content().len();
            if len < MAX_SIZE {
                let l = len as u8;
                assert(l < 24 ==> (l | 0xC0u8) < 0xFDu8) by (bit_vector);
            }
        },
        Repr::Heap(_) => {},
        Repr::Static(s) => {
            s.lemma_wf();
        },
    }
}

/// Every capacity up to `MAX_VALUE` that a `Capacity` stores reads back unchanged, and such a
/// capacity is never the marker that says the capacity lives on the heap.
pub proof fn law_capacity_roundtrip(capacity: usize, c: Capacity)
    requires
        capacity <= MAX_VALUE,
        c.spec_value() == Some(capacity as u64),
    ensures
        c.read_back() == Ok::<usize, ()>(capacity),
        c.spec_value() is Some,
{
}

/// Pushing a character and then popping gives the character back and leaves the string as it
/// was.
pub proof fn law_push_pop(s: Seq<char>, c: char)
    ensures
        s.push(c).len() > 0,
        s.push(c).last() == c,
        s.push(c).drop_last() == s,
{
    assert(s.push(c).drop_last() =~= s);
}

/// Inserting a character at a character boundary and then removing the character at the same
/// byte index gives the character back and restores both the bytes and the characters.
pub proof fn law_insert_remove(b: Seq<u8>, idx: int, ch: char)
    requires
        valid_utf8(b),
        is_char_boundary(b, idx),
    ensures
        ({
            let e = encode_scalar(ch as u32);
            let nb = b.subrange(0, idx) + e + b.subrange(idx, b.len() as int);
            let k = char_count(b, idx);
            &&& valid_utf8(nb)
            &&& is_char_boundary(nb, idx)
            &&& idx < nb.len()
            &&& char_count(nb, idx) == k
            &&& decode_utf8(nb) == decode_utf8(b).insert(k, ch)
            &&& decode_utf8(nb)[k] == ch
            &&& decode_utf8(nb).remove(k) == decode_utf8(b)
            &&& nb.subrange(0, idx) + nb.subrange(idx + e.len(), nb.len() as int) == b
        }),
{
    lemma_char_count(b, idx);
    let e = encode_scalar(ch as u32);
    let pre = b.subrange(0, idx);
    let post = b.subrange(idx, b.len() as int);
    let nb = pre + e + post;
    lemma_encode_single(ch);
    encode_utf8_valid_utf8(seq![ch]);
    encode_utf8_decode_utf8(seq![ch]);
    lemma_decode_concat(pre, e);
    lemma_decode_concat(pre + e, post);
    assert(nb.subrange(0, idx) =~= pre);
    lemma_valid_prefix_boundary(nb, idx);
    let k = char_count(b, idx);
    let chars = decode_utf8(b);
    assert(decode_utf8(b) == decode_utf8(pre) + decode_utf8(post)) by {
        lemma_split_at_boundary(b, idx);
    }
    assert(decode_utf8(nb) =~= chars.insert(k, ch));
    assert(chars.insert(k, ch).remove(k) =~= chars);
    assert(nb.subrange(0, idx) + nb.subrange(idx + e.len(), nb.len() as int) =~= b);
}

/// Splitting a string at a character boundary and appending the back part to the front part
/// gives the string back, in bytes and in characters.
pub proof fn law_split_rejoin(b: Seq<u8>, at: int)
    requires
        valid_utf8(b),
        is_char_boundary(b, at),
    ensures
        b.subrange(0, at) + b.subrange(at, b.len() as int) == b,
        decode_utf8(b).take(char_count(b, at)) + decode_utf8(b).skip(char_count(b, at))
            == decode_utf8(b),
        decode_utf8(b.subrange(0, at)) + decode_utf8(b.subrange(at, b.len() as int)) == decode_utf8(b),
{
    lemma_char_count(b, at);
    lemma_split_at_boundary(b, at);
    assert(b.subrange(0, at) + b.subrange(at, b.len() as int) =~= b);
    let k = char_count(b, at);
    assert(decode_utf8(b).take(k) + decode_utf8(b).skip(k) =~= decode_utf8(b));
}

/// Draining a range and putting the drained characters back between what is left before and
/// after it gives the string back.
pub proof fn law_drain_rejoin(b: Seq<u8>, s: int, e: int)
    requires
        valid_utf8(b),
        s <= e,
        is_char_boundary(b, s),
        is_char_boundary(b, e),
    ensures
        ({
            let chars = decode_utf8(b);
            let cs = char_count(b, s);
            let ce = char_count(b, e);
            chars.take(cs) + chars.subrange(cs, ce) + chars.skip(ce) == chars
        }),
{
    lemma_char_count(b, s);
    lemma_char_count(b, e);
    let chars = decode_utf8(b);
    let cs = char_count(b, s);
    let ce = char_count(b, e);
    assert(cs <= ce) by {
        lemma_split_at_boundary(b, e);
        assert(b.subrange(0, e).subrange(0, s) =~= b.subrange(0, s));
        lemma_valid_prefix_boundary(b.subrange(0, e), s);
        lemma_split_at_boundary(b.subrange(0, e), s);
    }
    assert(chars.take(cs) + chars.subrange(cs, ce) + chars.skip(ce) =~= chars);
}

/// Each character paired with the predicate's answer for it.
pub open spec fn answered(chars: Seq<char>, keep: Seq<bool>) -> Seq<(char, bool)> {
    Seq::new(chars.len(), |i: int| (chars[i], keep[i]))
}

/// Retaining keeps exactly the characters whose own answer is `true`, in order: the result is
/// the characters paired with their answers, filtered by the answer, with the answers dropped. So
/// no rejected character survives, whatever precedes it, and every accepted one does.
pub proof fn law_kept_filters(chars: Seq<char>, keep: Seq<bool>)
    requires
        keep.len() == chars.len(),
    ensures
        kept(chars, keep) == answered(chars, keep).filter(|p: (char, bool)| p.1).map_values(
            |p: (char, bool)| p.0,
        ),
        kept(chars, keep).len() == keep.filter(|b: bool| b).len(),
    decreases chars.len(),
{
    reveal(Seq::filter);
    let f = |p: (char, bool)| p.1;
    let g = |p: (char, bool)| p.0;
    let h = |b: bool| b;
    let pairs = answered(chars, keep);
    if chars.len() == 0 {
        assert(pairs.filter(f) =~= Seq::<(char, bool)>::empty());
        assert(pairs.filter(f).map_values(g) =~= Seq::<char>::empty());
        assert(keep.filter(h) =~= Seq::<bool>::empty());
    } else {
        let ci = chars.drop_last();
        let ki = keep.drop_last();
        law_kept_filters(ci, ki);
        assert(pairs.drop_last() =~= answered(ci, ki));
        assert(pairs.last() == (chars.last(), keep.last()));
        let sub = answered(ci, ki).filter(f);
        if keep.last() {
            assert(pairs.filter(f) == sub.push(pairs.last()));
            assert(sub.push(pairs.last()).map_values(g) =~= sub.map_values(g).push(chars.last()));
            assert(kept(chars, keep) =~= kept(ci, ki) + seq![chars.last()]);
        } else {
            assert(pairs.filter(f) == sub);
            assert(kept(chars, keep) =~= kept(ci, ki));
        }
    }
}

/// A predicate that rejects every character leaves nothing, and one that accepts every character
/// leaves the string as it was.
pub proof fn law_kept_extremes(chars: Seq<char>, keep: Seq<bool>)
    requires
        keep.len() == chars.len(),
    ensures
        (forall|i: int| 0 <= i < keep.len() ==> !keep[i]) ==> kept(chars, keep).len() == 0,
        (forall|i: int| 0 <= i < keep.len() ==> keep[i]) ==> kept(chars, keep) == chars,
    decreases chars.len(),
{
    if chars.len() > 0 {
        let ci = chars.drop_last();
        let ki = keep.drop_last();
        law_kept_extremes(ci, ki);
        if forall|i: int| 0 <= i < keep.len() ==> !keep[i] {
            assert(forall|i: int| 0 <= i < ki.len() ==> ki[i] == keep[i]);
            assert(!keep[keep.len() - 1]);
        }
        if forall|i: int| 0 <= i < keep.len() ==> keep[i] {
            assert(forall|i: int| 0 <= i < ki.len() ==> ki[i] == keep[i]);
            assert(keep[keep.len() - 1]);
            assert(ci.push(chars.last()) =~= chars);
        }
    }
}

/// Two compact strings are equal exactly when they hold the same bytes, and a compact string
/// equals a string slice exactly when it holds the slice's bytes: no two different texts compare
/// as equal, and equality is reflexive and symmetric.
pub proof fn law_eq_exact(a: CompactString, b: CompactString, s: &str)
    ensures
        PartialEqSpec::eq_spec(&a, &b) <==> a.bytes_view() == b.bytes_view(),
        PartialEqSpec::eq_spec(&a, s) <==> a.bytes_view() == s.spec_bytes(),
        PartialEqSpec::eq_spec(&a, &a),
        PartialEqSpec::eq_spec(&a, &b) <==> PartialEqSpec::eq_spec(&b, &a),
{
}

} // verus!
