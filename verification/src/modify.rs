//! Replaying edits on a `String` and a `CompactString` side by side, which must keep them equal.
use vstd::prelude::*;
use vstd::string::StringSliceAdditionalSpecFns;
use vstd::utf8::*;

use crate::repr::iter::concat_strs;
use crate::std_calls::{string_pop, string_push};
use crate::unicode::lemma_encode_concat;
use crate::CompactString;

verus! {

broadcast use vstd::utf8::group_utf8_lib;

/// An edit to apply to both strings.
#[derive(Debug)]
pub enum Modification<'a> {
    /// Append a character.
    Push(char),
    /// Remove the last character this many times.
    Pop(u32),
    /// Append a string slice.
    PushStr(&'a str),
    /// Append each character in turn.
    ExtendChars(Vec<char>),
    /// Append each string slice in turn.
    ExtendStr(Vec<&'a str>),
}

/// The characters of `chars` after `count` removals from the end.
pub open spec fn popped(chars: Seq<char>, count: nat) -> Seq<char> {
    if count >= chars.len() {
        Seq::<char>::empty()
    } else {
        chars.take(chars.len() - count)
    }
}

impl<'a> Modification<'a> {
    /// The characters after the edit is applied to `chars`.
    pub open spec fn apply(&self, chars: Seq<char>) -> Seq<char> {
        match self {
            Modification::Push(c) => chars.push(*c),
            Modification::Pop(n) => popped(chars, *n as nat),
            Modification::PushStr(s) => chars + s@,
            Modification::ExtendChars(v) => chars + v@,
            Modification::ExtendStr(v) => chars + concat_strs(v@),
        }
    }

    /// The number of bytes the edit adds.
    pub open spec fn added_bytes(&self) -> nat {
        match self {
            Modification::Push(c) => encode_utf8(seq![*c]).len(),
            Modification::Pop(_) => 0,
            Modification::PushStr(s) => s.spec_bytes().len(),
            Modification::ExtendChars(v) => encode_utf8(v@).len(),
            Modification::ExtendStr(v) => encode_utf8(concat_strs(v@)).len(),
        }
    }

    /// Applies the edit to both strings. Given that they start out equal, they hold the same
    /// text, of the same length, afterwards.
    pub fn perform(self, control: &mut String, compact: &mut CompactString)
        requires
            old(control)@ == old(compact)@,
            old(compact).bytes_view().len() + self.added_bytes() <= usize::MAX,
        ensures
            final(control)@ == final(compact)@,
            final(compact)@ == self.apply(old(compact)@),
            encode_utf8(final(control)@).len() == final(compact).bytes_view().len(),
    {
        compact.prove_valid();
        match self {
            Modification::Push(c) => {
                proof {
                    crate::unicode::lemma_encode_single(c);
                }
                string_push(control, c);
                compact.push(c);
            },
            Modification::Pop(count) => {
                let mut i: u32 = 0;
                while i < count
                    invariant
                        i <= count,
                        control@ == compact@,
                        compact@ == popped(old(compact)@, i as nat),
                    decreases count - i,
                {
                    let a = string_pop(control);
                    let b = compact.pop();
                    assert(a == b);
                    proof {
                        let c0 = old(compact)@;
                        if i as nat >= c0.len() {
                        } else {
                            assert(popped(c0, i as nat).drop_last() =~= popped(c0, (i + 1) as nat));
                        }
                    }
                    i = i + 1;
                }
            },
            Modification::PushStr(s) => {
                control.append(s);
                compact.push_str(s);
            },
            Modification::ExtendChars(chs) => {
                let n: usize = chs.len();
                let mut i: usize = 0;
                while i < n
                    invariant
                        i <= n,
                        n == chs@.len(),
                        control@ == old(control)@ + chs@.subrange(0, i as int),
                    decreases n - i,
                {
                    string_push(control, chs[i]);
                    assert(control@ =~= old(control)@ + chs@.subrange(0, i + 1));
                    i = i + 1;
                }
                assert(chs@.subrange(0, n as int) =~= chs@);
                compact.extend_chars(chs.as_slice());
            },
            Modification::ExtendStr(strs) => {
                let n: usize = strs.len();
                let mut i: usize = 0;
                while i < n
                    invariant
                        i <= n,
                        n == strs@.len(),
                        control@ == old(control)@ + concat_strs(strs@.subrange(0, i as int)),
                    decreases n - i,
                {
                    control.append(strs[i]);
                    assert(strs@.subrange(0, i + 1).drop_last() =~= strs@.subrange(0, i as int));
                    assert(control@ =~= old(control)@ + concat_strs(strs@.subrange(0, i + 1)));
                    i = i + 1;
                }
                assert(strs@.subrange(0, n as int) =~= strs@);
                compact.extend_strs(strs.as_slice());
            },
        }
        compact.prove_valid();
    }
}

} // verus!
