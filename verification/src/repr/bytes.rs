//! Building a representation from a buffer that hands out its bytes in chunks.
use vstd::prelude::*;
use vstd::utf8::*;

use super::boxed::BoxString;
use super::heap::HeapString;
use super::inline::InlineBuffer;
use super::{Repr, MAX_SIZE};
use crate::buffer::append_bytes;
use crate::std_calls::{from_utf8_error, str_from_utf8};

verus! {

broadcast use vstd::utf8::group_utf8_lib;

/// The bytes of the chunks, one after another.
pub open spec fn concat_chunks(chunks: Seq<&[u8]>) -> Seq<u8>
    decreases chunks.len(),
{
    if chunks.len() == 0 {
        Seq::<u8>::empty()
    } else {
        concat_chunks(chunks.drop_last()) + chunks.last()@
    }
}

/// Copies the chunks, one after another, into one vector.
pub fn gather_chunks(chunks: &[&[u8]]) -> (r: Vec<u8>)
    ensures
        r@ == concat_chunks(chunks@),
{
    let n: usize = chunks.len();
    let mut out: Vec<u8> = Vec::new();
    let mut i: usize = 0;
    while i < n
        invariant
            i <= n,
            n == chunks@.len(),
            out@ == concat_chunks(chunks@.subrange(0, i as int)),
        decreases n - i,
    {
        let chunk: &[u8] = chunks[i];
        append_bytes(&mut out, chunk);
        proof {
            assert(chunks@.subrange(0, i + 1).drop_last() =~= chunks@.subrange(0, i as int));
        }
        i = i + 1;
    }
    assert(chunks@.subrange(0, n as int) =~= chunks@);
    out
}

/// Whether bytes read from a buffer are kept on the heap: when they are longer than `MAX_SIZE`,
/// or exactly `MAX_SIZE` long with a first byte that is not ASCII, which a packed inline string
/// cannot start with.
pub open spec fn buf_on_heap(b: Seq<u8>) -> bool {
    b.len() > MAX_SIZE || (b.len() == MAX_SIZE && b[0] > 127)
}

/// Valid UTF-8 bytes read from a buffer, stored as `buf_on_heap` says; a heap buffer is exactly
/// as long as the bytes.
fn store_buf_bytes(bytes: &[u8]) -> (r: Repr)
    requires
        valid_utf8(bytes@),
    ensures
        r.wf(),
        r.content() == bytes@,
        !(r is Static),
        r is Heap <==> buf_on_heap(bytes@),
        r is Heap ==> r.spec_capacity() == bytes@.len(),
        r.spec_capacity() >= MAX_SIZE,
{
    let n: usize = bytes.len();
    if n < MAX_SIZE || (n == MAX_SIZE && bytes[0] <= 127) {
        let mut inline = InlineBuffer::empty();
        inline.append(bytes);
        assert(Seq::<u8>::empty() + bytes@ =~= bytes@);
        Repr::Inline(inline)
    } else {
        Repr::Heap(HeapString { string: BoxString::from_bytes(bytes, n) })
    }
}

impl Repr {
    /// The bytes of the chunks as a string, or the error from `core::str::from_utf8` when they
    /// are not UTF-8; the string is stored as `buf_on_heap` says.
    pub fn from_utf8_buf(chunks: &[&[u8]]) -> (r: Result<Self, core::str::Utf8Error>)
        ensures
            r is Ok <==> valid_utf8(concat_chunks(chunks@)),
            r matches Ok(repr) ==> repr.wf() && repr.content() == concat_chunks(chunks@) && !(
            repr is Static) && (repr is Heap <==> buf_on_heap(concat_chunks(chunks@)))
                && repr.spec_capacity() >= MAX_SIZE,
            r matches Err(e) ==> e == from_utf8_error(concat_chunks(chunks@)),
    {
        let bytes = gather_chunks(chunks);
        match str_from_utf8(bytes.as_slice()) {
            Ok(_) => Ok(store_buf_bytes(bytes.as_slice())),
            Err(e) => Err(e),
        }
    }

    /// The bytes of chunks that the caller knows to be UTF-8, without checking them; the
    /// bytes must be valid UTF-8. The string is stored as `buf_on_heap` says.
    pub fn from_utf8_buf_unchecked(chunks: &[&[u8]]) -> (r: Self)
        requires
            valid_utf8(concat_chunks(chunks@)),
        ensures
            r.wf(),
            r.content() == concat_chunks(chunks@),
            r is Heap <==> buf_on_heap(concat_chunks(chunks@)),
            r.spec_capacity() >= MAX_SIZE,
    {
        let bytes = gather_chunks(chunks);
        store_buf_bytes(bytes.as_slice())
    }
}

} // verus!
