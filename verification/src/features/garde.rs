//! The lengths that validation rules measure a string by: bytes, characters and UTF-16 code
//! units.
use vstd::prelude::*;
use vstd::utf8::*;

use crate::unicode::{decode_at, lemma_valid_roundtrip};
use crate::utf16::{encode_utf16, lemma_encode_utf16_push};
use crate::CompactString;

verus! {

broadcast use vstd::utf8::group_utf8_lib;

/// The number of UTF-16 code units that encode `chars`: two for a character above `0xFFFF`, one
/// for any other.
pub open spec fn utf16_len(chars: Seq<char>) -> nat
    decreases chars.len(),
{
    if chars.len() == 0 {
        0
    } else {
        utf16_len(chars.drop_last()) + if chars.last() as u32 > 0xFFFF {
            2nat
        } else {
            1nat
        }
    }
}

/// The UTF-16 length of a string is the number of code units of its UTF-16 encoding: one for a
/// character up to `0xFFFF`, two, a surrogate pair, for any character above it.
pub proof fn law_utf16_len(chars: Seq<char>)
    ensures
        utf16_len(chars) == encode_utf16(chars).len(),
        chars.len() <= utf16_len(chars) <= 2 * chars.len(),
        (forall|i: int| 0 <= i < chars.len() ==> chars[i] as u32 <= 0xFFFF) ==> utf16_len(chars)
            == chars.len(),
    decreases chars.len(),
{
    if chars.len() > 0 {
        let init = chars.drop_last();
        law_utf16_len(init);
        assert(init.push(chars.last()) =~= chars);
        lemma_encode_utf16_push(init, chars.last());
        if forall|i: int| 0 <= i < chars.len() ==> chars[i] as u32 <= 0xFFFF {
            assert forall|i: int| 0 <= i < init.len() implies init[i] as u32 <= 0xFFFF by {
                assert(init[i] == chars[i]);
            }
            assert(chars.last() == chars[chars.len() - 1]);
        }
    }
}

/// Walks the characters of valid UTF-8 bytes, counting them one by one, or, when `utf16` is set,
/// counting the UTF-16 code units each needs.
fn count_chars(bytes: &[u8], utf16: bool) -> (r: usize)
    requires
        valid_utf8(bytes@),
    ensures
        !utf16 ==> r == decode_utf8(bytes@).len(),
        utf16 ==> r == utf16_len(decode_utf8(bytes@)),
{
    let ghost chars = decode_utf8(bytes@);
    let n: usize = bytes.len();
    let mut src: usize = 0;
    let mut count: usize = 0;
    let ghost mut k: int = 0;
    proof {
        assert(bytes@.subrange(0, n as int) =~= bytes@);
        assert(chars.skip(0) =~= chars);
        assert(chars.take(0) =~= Seq::<char>::empty());
        lemma_valid_roundtrip(bytes@);
    }
    while src < n
        invariant
            0 <= src <= n,
            n == bytes@.len(),
            chars == decode_utf8(bytes@),
            0 <= k <= chars.len(),
            k <= src,
            valid_utf8(bytes@.subrange(src as int, n as int)),
            decode_utf8(bytes@.subrange(src as int, n as int)) == chars.skip(k),
            !utf16 ==> count == k,
            utf16 ==> count == utf16_len(chars.take(k)),
            count <= src,
        decreases n - src,
    {
        proof {
            lemma_valid_roundtrip(bytes@.subrange(src as int, n as int));
        }
        let (ch, len) = decode_at(bytes, src);
        proof {
            let rest = decode_utf8(bytes@.subrange(src + len, n as int));
            assert((seq![ch] + rest).drop_first() =~= rest);
            assert(chars.skip(k + 1) =~= chars.skip(k).drop_first());
            assert(chars.skip(k)[0] == chars[k]);
            assert(chars.take(k + 1).drop_last() =~= chars.take(k));
            assert(chars.take(k + 1).last() == ch);
        }
        let v: u32 = ch as u32;
        assert(v > 0xFFFF ==> len == 4);
        if utf16 && v > 0xFFFF {
            count = count + 2;
        } else {
            count = count + 1;
        }
        src = src + len;
        proof {
            k = k + 1;
        }
    }
    proof {
        assert(bytes@.subrange(n as int, n as int) =~= Seq::<u8>::empty());
        assert(chars.take(k) =~= chars);
    }
    count
}

impl CompactString {
    /// The length in bytes.
    pub fn num_bytes(&self) -> (r: usize)
        ensures
            r == self.bytes_view().len(),
    {
        self.len()
    }

    /// The number of characters.
    pub fn num_chars(&self) -> (r: usize)
        ensures
            r == self@.len(),
    {
        self.prove_valid();
        count_chars(self.as_bytes(), false)
    }

    /// The length that a rule without a unit measures: the length in bytes.
    pub fn length(&self) -> (r: usize)
        ensures
            r == self.bytes_view().len(),
    {
        self.len()
    }

    /// The number of UTF-16 code units the string would take.
    pub fn num_code_units(&self) -> (r: usize)
        ensures
            r == utf16_len(self@),
            r == encode_utf16(self@).len(),
    {
        self.prove_valid();
        proof {
            law_utf16_len(self@);
        }
        count_chars(self.as_bytes(), true)
    }
}

} // verus!
