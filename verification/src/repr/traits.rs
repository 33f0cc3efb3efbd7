//! Converting values of other types straight into a representation.
use vstd::prelude::*;
use vstd::string::StringSliceAdditionalSpecFns;
use vstd::utf8::*;

use super::num::{decimal_repr, i128_repr, signed_decimal, signed_repr, u128_repr, NumChars};
use super::{Repr, MAX_SIZE};
use crate::unicode::encode_char;

verus! {

broadcast use vstd::utf8::group_utf8_lib;

/// A value that can be turned into the text it displays as, without going through a formatter.
pub trait IntoRepr: Sized {
    /// The UTF-8 bytes of the text the value displays as.
    spec fn text(self) -> Seq<u8>;

    /// The text of the value.
    fn into_repr(self) -> (r: Repr)
        ensures
            r.wf(),
            r.content() == self.text(),
            r.spec_capacity() >= MAX_SIZE,
    ;
}

impl IntoRepr for u8 {
    open spec fn text(self) -> Seq<u8> {
        signed_decimal(self as int)
    }

    fn into_repr(self) -> (r: Repr)
        ensures
            r is Inline,
    {
        let num_digits = u8::num_chars(self);
        decimal_repr(self as u64, false, num_digits)
    }
}

impl IntoRepr for i8 {
    open spec fn text(self) -> Seq<u8> {
        signed_decimal(self as int)
    }

    fn into_repr(self) -> (r: Repr)
        ensures
            r is Inline,
    {
        let num_digits = i8::num_chars(self);
        signed_repr(self as i64, num_digits)
    }
}

impl IntoRepr for u16 {
    open spec fn text(self) -> Seq<u8> {
        signed_decimal(self as int)
    }

    fn into_repr(self) -> (r: Repr)
        ensures
            r is Inline,
    {
        let num_digits = u16::num_chars(self);
        decimal_repr(self as u64, false, num_digits)
    }
}

impl IntoRepr for i16 {
    open spec fn text(self) -> Seq<u8> {
        signed_decimal(self as int)
    }

    fn into_repr(self) -> (r: Repr)
        ensures
            r is Inline,
    {
        let num_digits = i16::num_chars(self);
        signed_repr(self as i64, num_digits)
    }
}

impl IntoRepr for u32 {
    open spec fn text(self) -> Seq<u8> {
        signed_decimal(self as int)
    }

    fn into_repr(self) -> (r: Repr)
        ensures
            r is Inline,
    {
        let num_digits = u32::num_chars(self);
        decimal_repr(self as u64, false, num_digits)
    }
}

impl IntoRepr for i32 {
    open spec fn text(self) -> Seq<u8> {
        signed_decimal(self as int)
    }

    fn into_repr(self) -> (r: Repr)
        ensures
            r is Inline,
    {
        let num_digits = i32::num_chars(self);
        signed_repr(self as i64, num_digits)
    }
}

impl IntoRepr for u64 {
    open spec fn text(self) -> Seq<u8> {
        signed_decimal(self as int)
    }

    fn into_repr(self) -> (r: Repr)
        ensures
            r is Inline,
    {
        let num_digits = u64::num_chars(self);
        decimal_repr(self, false, num_digits)
    }
}

impl IntoRepr for i64 {
    open spec fn text(self) -> Seq<u8> {
        signed_decimal(self as int)
    }

    fn into_repr(self) -> (r: Repr)
        ensures
            r is Inline,
    {
        let num_digits = i64::num_chars(self);
        signed_repr(self, num_digits)
    }
}

impl IntoRepr for usize {
    open spec fn text(self) -> Seq<u8> {
        signed_decimal(self as int)
    }

    fn into_repr(self) -> (r: Repr)
        ensures
            r is Inline,
    {
        let num_digits = usize::num_chars(self);
        decimal_repr(self as u64, false, num_digits)
    }
}

impl IntoRepr for isize {
    open spec fn text(self) -> Seq<u8> {
        signed_decimal(self as int)
    }

    fn into_repr(self) -> (r: Repr)
        ensures
            r is Inline,
    {
        let num_digits = isize::num_chars(self);
        signed_repr(self as i64, num_digits)
    }
}

impl IntoRepr for u128 {
    open spec fn text(self) -> Seq<u8> {
        signed_decimal(self as int)
    }

    fn into_repr(self) -> (r: Repr)
        ensures
            r is Heap <==> signed_decimal(self as int).len() > MAX_SIZE,
    {
        u128_repr(self)
    }
}

impl IntoRepr for i128 {
    open spec fn text(self) -> Seq<u8> {
        signed_decimal(self as int)
    }

    fn into_repr(self) -> (r: Repr)
        ensures
            r is Heap <==> signed_decimal(self as int).len() > MAX_SIZE,
    {
        i128_repr(self)
    }
}

impl IntoRepr for bool {
    open spec fn text(self) -> Seq<u8> {
        encode_utf8(if self {
            "true"@
        } else {
            "false"@
        })
    }

    fn into_repr(self) -> (r: Repr)
        ensures
            decode_utf8(r.content()) == if self {
                "true"@
            } else {
                "false"@
            },
    {
        proof {
            encode_utf8_decode_utf8("true"@);
            encode_utf8_decode_utf8("false"@);
        }
        let r = if self {
            Repr::const_new("true")
        } else {
            Repr::const_new("false")
        };
        proof {
            r.lemma_valid();
        }
        r
    }
}

impl IntoRepr for char {
    open spec fn text(self) -> Seq<u8> {
        encode_scalar(self as u32)
    }

    fn into_repr(self) -> (r: Repr)
        ensures
            decode_utf8(r.content()) == seq![self],
            r is Inline,
    {
        let (buf, n) = encode_char(self);
        let all: &[u8] = buf.as_slice();
        proof {
            encode_utf8_valid_utf8(seq![self]);
            encode_utf8_decode_utf8(seq![self]);
        }
        Repr::from_valid_bytes(&all[0..n])
    }
}

impl IntoRepr for String {
    open spec fn text(self) -> Seq<u8> {
        encode_utf8(self@)
    }

    fn into_repr(self) -> (r: Repr)
        ensures
            decode_utf8(r.content()) == self@,
            r is Heap <==> encode_utf8(self@).len() > MAX_SIZE,
    {
        let r = Repr::from_string(self, true);
        proof {
            r.lemma_valid();
            decode_utf8_encode_utf8(r.content());
        }
        r
    }
}

impl IntoRepr for Box<str> {
    open spec fn text(self) -> Seq<u8> {
        encode_utf8(self@)
    }

    fn into_repr(self) -> (r: Repr)
        ensures
            decode_utf8(r.content()) == self@,
            r is Heap <==> encode_utf8(self@).len() > MAX_SIZE,
    {
        let r = Repr::from_box_str(self);
        proof {
            r.lemma_valid();
            decode_utf8_encode_utf8(r.content());
        }
        r
    }
}

} // verus!
