//! Writing into an [`ArcString`] whose buffer has been made its own.
use vstd::prelude::*;
use vstd::string::StringSliceAdditionalSpecFns;
use vstd::utf8::*;

use super::{amortized_capacity, ArcString};
use crate::repr::iter::concat_strs;
use crate::unicode::{encode_char, lemma_decode_concat, lemma_encode_concat, lemma_empty_valid};

verus! {

broadcast use vstd::utf8::group_utf8_lib;

/// Borrows a string for writing. Creating it gives the string a buffer no clone shares.
pub struct ArcStringWriter<'a> {
    pub arc_string: &'a mut ArcString,
}

impl<'a> ArcStringWriter<'a> {
    /// The string as it stands now.
    pub open spec fn target(&self) -> ArcString {
        *self.arc_string
    }

    /// Borrows `arc_string`, copying its buffer first when a clone shares it.
    pub fn new(arc_string: &'a mut ArcString) -> (r: Self)
        ensures
            r.target().content() == old(arc_string).content(),
            r.target().spec_capacity() == old(arc_string).spec_capacity(),
            mut_ref_future(r.arc_string) == *final(arc_string),
    {
        let len: usize = arc_string.len();
        arc_string.prove_valid();
        let buf = arc_string.take_buffer();
        arc_string.put_buffer(buf, len);
        ArcStringWriter { arc_string }
    }

    /// Ensures room for `additional` more bytes, moving to a new buffer grown by half of the
    /// length when the current one is too small.
    pub fn reserve(&mut self, additional: usize)
        requires
            old(self).target().content().len() + additional <= usize::MAX,
        ensures
            final(self).target().content() == old(self).target().content(),
            mut_ref_future(final(self).arc_string) == mut_ref_future(old(self).arc_string),
            old(self).target().spec_capacity() >= old(self).target().content().len() + additional
                ==> final(self).target().spec_capacity() == old(self).target().spec_capacity(),
            old(self).target().spec_capacity() < old(self).target().content().len() + additional
                ==> final(self).target().spec_capacity() == amortized_capacity(
                old(self).target().content().len(),
                additional as nat,
            ),
            final(self).target().spec_capacity() >= old(self).target().content().len() + additional,
    {
        let len: usize = self.arc_string.len();
        let new_capacity: usize = len + additional;
        if self.arc_string.capacity() >= new_capacity {
            return ;
        }
        let text: &str = self.arc_string.as_str();
        proof {
            decode_utf8_encode_utf8(self.arc_string.content());
        }
        let s = ArcString::new(text, additional);
        *self.arc_string = s;
    }

    /// Appends valid UTF-8 bytes.
    fn push_bytes(&mut self, bytes: &[u8])
        requires
            valid_utf8(bytes@),
            old(self).target().content().len() + bytes@.len() <= usize::MAX,
        ensures
            final(self).target().content() == old(self).target().content() + bytes@,
            mut_ref_future(final(self).arc_string) == mut_ref_future(old(self).arc_string),
    {
        let len: usize = self.arc_string.len();
        let n: usize = bytes.len();
        self.reserve(n);
        let ghost before = self.arc_string.content();
        self.arc_string.prove_valid();
        let mut p = self.arc_string.take_buffer();
        p.write(len, bytes);
        proof {
            assert(p.bytes().subrange(0, len + n) =~= before + bytes@);
            lemma_decode_concat(before, bytes@);
        }
        self.arc_string.put_buffer(p, len + n);
    }

    /// Appends a character.
    pub fn push(&mut self, ch: char)
        requires
            old(self).target().content().len() + 4 <= usize::MAX,
        ensures
            final(self).target().content() == old(self).target().content() + encode_scalar(
                ch as u32,
            ),
            mut_ref_future(final(self).arc_string) == mut_ref_future(old(self).arc_string),
    {
        let (buf, n) = encode_char(ch);
        let all: &[u8] = buf.as_slice();
        proof {
            encode_utf8_valid_utf8(seq![ch]);
        }
        self.push_bytes(&all[0..n]);
    }

    /// Appends a string slice.
    pub fn push_str(&mut self, s: &str)
        requires
            old(self).target().content().len() + s.spec_bytes().len() <= usize::MAX,
        ensures
            final(self).target().content() == old(self).target().content() + s.spec_bytes(),
            mut_ref_future(final(self).arc_string) == mut_ref_future(old(self).arc_string),
    {
        proof {
            encode_utf8_valid_utf8(s@);
        }
        self.push_bytes(s.as_bytes());
    }

    /// Appends each character in turn, reserving room for all of them first.
    pub fn extend_chars(&mut self, chars: &[char])
        requires
            old(self).target().content().len() + 4 * chars@.len() <= usize::MAX,
        ensures
            final(self).target().content() == old(self).target().content() + encode_utf8(chars@),
            mut_ref_future(final(self).arc_string) == mut_ref_future(old(self).arc_string),
    {
        let n: usize = chars.len();
        self.reserve(n);
        let mut i: usize = 0;
        proof {
            lemma_empty_valid();
            assert(old(self).target().content() + encode_utf8(chars@.subrange(0, 0))
                =~= old(self).target().content());
        }
        while i < n
            invariant
                i <= n,
                n == chars@.len(),
                mut_ref_future(self.arc_string) == mut_ref_future(old(self).arc_string),
                self.target().content() == old(self).target().content() + encode_utf8(
                    chars@.subrange(0, i as int),
                ),
                encode_utf8(chars@.subrange(0, i as int)).len() <= 4 * i,
                old(self).target().content().len() + 4 * n <= usize::MAX,
            decreases n - i,
        {
            let c: char = chars[i];
            proof {
                lemma_encode_concat(chars@.subrange(0, i as int), seq![c]);
                assert(chars@.subrange(0, i + 1) =~= chars@.subrange(0, i as int) + seq![c]);
                assert(encode_utf8(seq![c]) == encode_scalar(c as u32) + encode_utf8(
                    seq![c].drop_first(),
                ));
                assert(seq![c].drop_first() =~= Seq::<char>::empty());
            }
            self.push(c);
            proof {
                assert(self.target().content() =~= old(self).target().content() + encode_utf8(
                    chars@.subrange(0, i + 1),
                ));
            }
            i = i + 1;
        }
        assert(chars@.subrange(0, n as int) =~= chars@);
    }

    /// Appends each string slice in turn.
    pub fn extend_strs(&mut self, strs: &[&str])
        requires
            old(self).target().content().len() + encode_utf8(concat_strs(strs@)).len()
                <= usize::MAX,
        ensures
            final(self).target().content() == old(self).target().content() + encode_utf8(
                concat_strs(strs@),
            ),
            mut_ref_future(final(self).arc_string) == mut_ref_future(old(self).arc_string),
    {
        let n: usize = strs.len();
        let mut i: usize = 0;
        proof {
            lemma_empty_valid();
            assert(old(self).target().content() + encode_utf8(concat_strs(strs@.subrange(0, 0)))
                =~= old(self).target().content());
        }
        while i < n
            invariant
                i <= n,
                n == strs@.len(),
                mut_ref_future(self.arc_string) == mut_ref_future(old(self).arc_string),
                self.target().content() == old(self).target().content() + encode_utf8(
                    concat_strs(strs@.subrange(0, i as int)),
                ),
                old(self).target().content().len() + encode_utf8(concat_strs(strs@)).len()
                    <= usize::MAX,
            decreases n - i,
        {
            let s: &str = strs[i];
            proof {
                let pre = strs@.subrange(0, i as int);
                let next = strs@.subrange(0, i + 1);
                assert(next.drop_last() =~= pre);
                lemma_encode_concat(concat_strs(pre), s@);
                lemma_concat_strs_prefix_len(strs@, i + 1);
            }
            self.push_str(s);
            proof {
                let pre = strs@.subrange(0, i as int);
                let next = strs@.subrange(0, i + 1);
                assert(self.target().content() =~= old(self).target().content() + encode_utf8(
                    concat_strs(next),
                ));
            }
            i = i + 1;
        }
        assert(strs@.subrange(0, n as int) =~= strs@);
    }
}

/// The text of a prefix of the slices is no longer than the text of all of them.
proof fn lemma_concat_strs_prefix_len(strs: Seq<&str>, k: int)
    requires
        0 <= k <= strs.len(),
    ensures
        encode_utf8(concat_strs(strs.subrange(0, k))).len() <= encode_utf8(concat_strs(strs)).len(),
    decreases strs.len() - k,
{
    if k < strs.len() {
        lemma_concat_strs_prefix_len(strs, k + 1);
        let pre = strs.subrange(0, k);
        let next = strs.subrange(0, k + 1);
        assert(next.drop_last() =~= pre);
        lemma_encode_concat(concat_strs(pre), next.last()@);
    } else {
        assert(strs.subrange(0, k) =~= strs);
    }
}

} // verus!
