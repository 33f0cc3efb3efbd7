//! The standard conversions and comparisons of `CompactString`.
//!
//! Two strings are equal exactly when their bytes are; conversions from and to the standard
//! string types keep the characters.
use vstd::prelude::*;
use vstd::std_specs::cmp::PartialEqSpecImpl;
use vstd::std_specs::convert::FromSpecImpl;
use vstd::std_specs::ops::AddSpecImpl;
use vstd::string::StringSliceAdditionalSpecFns;
use vstd::utf8::*;

use crate::buffer::bytes_eq;
use crate::repr::{Repr, MAX_SIZE};
use crate::CompactString;

verus! {

broadcast use vstd::utf8::group_utf8_lib;

impl Clone for CompactString {
    /// A copy of the string. Inline and static strings are copied as they are; a heap string is
    /// copied into storage fitted to its length.
    fn clone(&self) -> (r: Self)
        ensures
            r@ == self@,
            r.bytes_view() == self.bytes_view(),
            !self.spec_heap() ==> r.spec_heap() == self.spec_heap() && r.spec_capacity()
                == self.spec_capacity(),
            self.spec_heap() ==> (r.spec_heap() <==> self.bytes_view().len() > MAX_SIZE),
    {
        self.clone_string()
    }
}

impl Default for CompactString {
    /// The empty string, stored inline.
    fn default() -> (r: Self)
        ensures
            r@ == Seq::<char>::empty(),
            r.bytes_view() == Seq::<u8>::empty(),
            !r.spec_heap(),
    {
        proof {
            reveal_strlit("");
            assert(""@ =~= Seq::<char>::empty());
        }
        CompactString::new("")
    }
}

impl PartialEq for CompactString {
    fn eq(&self, other: &CompactString) -> (r: bool) {
        bytes_eq(self.as_bytes(), other.as_bytes())
    }
}

impl PartialEqSpecImpl for CompactString {
    open spec fn obeys_eq_spec() -> bool {
        true
    }

    open spec fn eq_spec(&self, other: &CompactString) -> bool {
        self.bytes_view() == other.bytes_view()
    }
}

impl PartialEq<str> for CompactString {
    fn eq(&self, other: &str) -> (r: bool) {
        bytes_eq(self.as_bytes(), other.as_bytes())
    }
}

impl PartialEqSpecImpl<str> for CompactString {
    open spec fn obeys_eq_spec() -> bool {
        true
    }

    open spec fn eq_spec(&self, other: &str) -> bool {
        self.bytes_view() == other.spec_bytes()
    }
}

impl<'a> PartialEq<&'a str> for CompactString {
    fn eq(&self, other: &&'a str) -> (r: bool) {
        bytes_eq(self.as_bytes(), (*other).as_bytes())
    }
}

impl<'a> PartialEqSpecImpl<&'a str> for CompactString {
    open spec fn obeys_eq_spec() -> bool {
        true
    }

    open spec fn eq_spec(&self, other: &&'a str) -> bool {
        self.bytes_view() == (*other).spec_bytes()
    }
}

impl PartialEq<String> for CompactString {
    fn eq(&self, other: &String) -> (r: bool) {
        self.prove_valid();
        proof {
            encode_utf8_decode_utf8(self@);
            encode_utf8_decode_utf8(other@);
        }
        bytes_eq(self.as_bytes(), other.as_str().as_bytes())
    }
}

impl PartialEqSpecImpl<String> for CompactString {
    open spec fn obeys_eq_spec() -> bool {
        true
    }

    open spec fn eq_spec(&self, other: &String) -> bool {
        self@ == other@
    }
}

impl PartialEq<CompactString> for String {
    fn eq(&self, other: &CompactString) -> (r: bool) {
        other.prove_valid();
        proof {
            encode_utf8_decode_utf8(self@);
            encode_utf8_decode_utf8(other@);
        }
        bytes_eq(self.as_str().as_bytes(), other.as_bytes())
    }
}

impl PartialEqSpecImpl<CompactString> for String {
    open spec fn obeys_eq_spec() -> bool {
        true
    }

    open spec fn eq_spec(&self, other: &CompactString) -> bool {
        self@ == other@
    }
}

impl<'a> PartialEq<CompactString> for &'a str {
    fn eq(&self, other: &CompactString) -> (r: bool) {
        bytes_eq((*self).as_bytes(), other.as_bytes())
    }
}

impl<'a> PartialEqSpecImpl<CompactString> for &'a str {
    open spec fn obeys_eq_spec() -> bool {
        true
    }

    open spec fn eq_spec(&self, other: &CompactString) -> bool {
        (*self).spec_bytes() == other.bytes_view()
    }
}

impl<'a> From<&'a str> for CompactString {
    /// The same as [`CompactString::new`].
    fn from(s: &'a str) -> (r: Self)
        ensures
            r@ == s@,
            r.bytes_view() == s.spec_bytes(),
            r.spec_heap() <==> s.spec_bytes().len() > MAX_SIZE,
            r.spec_heap() ==> r.spec_capacity() == s.spec_bytes().len(),
            !r.spec_heap() ==> r.spec_capacity() == MAX_SIZE,
            !r.spec_static(),
    {
        CompactString::new(s)
    }
}

impl<'a> FromSpecImpl<&'a str> for CompactString {
    open spec fn obeys_from_spec() -> bool {
        false
    }

    open spec fn from_spec(v: &'a str) -> CompactString {
        arbitrary()
    }
}

impl<'a> From<&'a String> for CompactString {
    /// The same as [`CompactString::new`] on the string's text.
    fn from(s: &'a String) -> (r: Self)
        ensures
            r@ == s@,
            r.bytes_view() == encode_utf8(s@),
            r.spec_heap() <==> encode_utf8(s@).len() > MAX_SIZE,
            r.spec_heap() ==> r.spec_capacity() == encode_utf8(s@).len(),
            !r.spec_heap() ==> r.spec_capacity() == MAX_SIZE,
            !r.spec_static(),
    {
        CompactString::new(s.as_str())
    }
}

impl<'a> FromSpecImpl<&'a String> for CompactString {
    open spec fn obeys_from_spec() -> bool {
        false
    }

    open spec fn from_spec(v: &'a String) -> CompactString {
        arbitrary()
    }
}

impl From<String> for CompactString {
    /// Takes over the string's buffer when it is too long to inline; a string that fits is
    /// inlined.
    fn from(s: String) -> (r: Self)
        ensures
            r@ == s@,
            r.bytes_view() == encode_utf8(s@),
            r.spec_heap() <==> encode_utf8(s@).len() > MAX_SIZE,
            r.spec_heap() ==> r.spec_capacity() >= encode_utf8(s@).len(),
            !r.spec_heap() ==> r.spec_capacity() == MAX_SIZE,
            !r.spec_static(),
    {
        let repr = Repr::from_string(s, true);
        CompactString::from_repr(repr)
    }
}

impl FromSpecImpl<String> for CompactString {
    open spec fn obeys_from_spec() -> bool {
        false
    }

    open spec fn from_spec(v: String) -> CompactString {
        arbitrary()
    }
}

impl From<Box<str>> for CompactString {
    /// Takes over the boxed text when it is too long to inline.
    fn from(b: Box<str>) -> (r: Self)
        ensures
            r@ == b@,
            r.bytes_view() == encode_utf8(b@),
            r.spec_heap() <==> encode_utf8(b@).len() > MAX_SIZE,
            r.spec_heap() ==> r.spec_capacity() == encode_utf8(b@).len(),
            !r.spec_heap() ==> r.spec_capacity() == MAX_SIZE,
            !r.spec_static(),
    {
        let repr = Repr::from_box_str(b);
        CompactString::from_repr(repr)
    }
}

impl FromSpecImpl<Box<str>> for CompactString {
    open spec fn obeys_from_spec() -> bool {
        false
    }

    open spec fn from_spec(v: Box<str>) -> CompactString {
        arbitrary()
    }
}

impl From<CompactString> for String {
    /// The characters of the compact string as a `String`.
    fn from(s: CompactString) -> (r: String)
        ensures
            r@ == s@,
    {
        s.into_string()
    }
}

impl FromSpecImpl<CompactString> for String {
    open spec fn obeys_from_spec() -> bool {
        false
    }

    open spec fn from_spec(v: CompactString) -> String {
        arbitrary()
    }
}

impl<'a> core::ops::Add<&'a str> for CompactString {
    type Output = CompactString;

    /// The string with `rhs` appended.
    fn add(self, rhs: &'a str) -> (r: CompactString)
        ensures
            r@ == self@ + rhs@,
            r.bytes_view() == self.bytes_view() + rhs.spec_bytes(),
    {
        let mut s = self;
        s.push_str(rhs);
        s
    }
}

impl<'a> AddSpecImpl<&'a str> for CompactString {
    open spec fn obeys_add_spec() -> bool {
        false
    }

    open spec fn add_req(self, rhs: &'a str) -> bool {
        self.bytes_view().len() + rhs.spec_bytes().len() <= usize::MAX
    }

    open spec fn add_spec(self, rhs: &'a str) -> CompactString {
        arbitrary()
    }
}

impl core::str::FromStr for CompactString {
    type Err = core::convert::Infallible;

    /// The same as [`CompactString::new`]; it never fails.
    fn from_str(s: &str) -> (r: Result<CompactString, core::convert::Infallible>)
        ensures
            r matches Ok(c) && c@ == s@,
    {
        Ok(CompactString::new(s))
    }
}

impl core::ops::Deref for CompactString {
    type Target = str;

    /// The string as a `&str`.
    fn deref(&self) -> (r: &str)
        ensures
            r@ == self@,
    {
        self.as_str()
    }
}

impl AsRef<str> for CompactString {
    /// The string as a `&str`.
    fn as_ref(&self) -> (r: &str)
        ensures
            r@ == self@,
    {
        self.as_str()
    }
}

} // verus!
