//! The few standard-library functions whose behavior vstd does not specify.
use vstd::prelude::*;
use vstd::utf8::*;

verus! {

#[verifier::external_type_specification]
#[verifier::external_body]
pub struct ExUtf8Error(core::str::Utf8Error);

/// The error `core::str::from_utf8` reports for bytes that are not UTF-8: where the valid prefix
/// ends and how long the bad sequence is, both determined by the bytes alone.
pub uninterp spec fn from_utf8_error(b: Seq<u8>) -> core::str::Utf8Error;

/// Calls `core::str::from_utf8`, which returns the bytes as a `&str` when they are valid UTF-8 and
/// an error otherwise. The contract claims exactly that, with vstd's definition of valid UTF-8,
/// and names the error, which depends on the bytes alone.
#[verifier::external_body]
pub(crate) fn str_from_utf8(b: &[u8]) -> (r: Result<&str, core::str::Utf8Error>)
    ensures
        match r {
            Ok(s) => valid_utf8(b@) && s@ == decode_utf8(b@),
            Err(e) => !valid_utf8(b@) && e == from_utf8_error(b@),
        },
{
    core::str::from_utf8(b)
}

/// Calls `char::from_u32`, which returns the character with the given value when the value is a
/// Unicode scalar value and `None` otherwise.
#[verifier::external_body]
pub(crate) fn char_from_u32(v: u32) -> (r: Option<char>)
    ensures
        is_scalar(v) ==> r == Some(v as char),
        !is_scalar(v) ==> r is None,
{
    char::from_u32(v)
}

/// Calls `String::capacity`, the size of the string's buffer in bytes. Only that it is at least
/// the length of the string is stated; the exact value is what the allocator chose, which the
/// string's contents do not determine.
#[verifier::external_body]
pub(crate) fn string_capacity(s: &String) -> (r: usize)
    ensures
        r >= encode_utf8(s@).len(),
{
    s.capacity()
}

/// Calls `Arc::clone`, which makes another pointer to the same allocation; the contract claims
/// that both point to the same value.
#[verifier::external_body]
pub(crate) fn arc_share<T>(a: &std::sync::Arc<T>) -> (r: std::sync::Arc<T>)
    ensures
        *r == **a,
{
    std::sync::Arc::clone(a)
}

/// Calls `Arc::try_unwrap`, which returns the value when `a` is the only pointer to it and
/// otherwise hands `a` back. Which of the two happens depends on the other pointers alive, so
/// the contract only states that either way the value is the one `a` pointed to.
#[verifier::external_body]
pub(crate) fn arc_try_unwrap<T>(a: std::sync::Arc<T>) -> (r: Result<T, std::sync::Arc<T>>)
    ensures
        match r {
            Ok(t) => t == *a,
            Err(b) => *b == *a,
        },
{
    std::sync::Arc::try_unwrap(a)
}

/// Calls `String::push`, which appends the character to the end of the string.
#[verifier::external_body]
pub(crate) fn string_push(s: &mut String, c: char)
    ensures
        final(s)@ == old(s)@.push(c),
{
    s.push(c)
}

/// Calls `String::pop`, which removes the last character and returns it, or returns `None` and
/// changes nothing when the string is empty.
#[verifier::external_body]
pub(crate) fn string_pop(s: &mut String) -> (r: Option<char>)
    ensures
        old(s)@.len() == 0 ==> r is None && final(s)@ == old(s)@,
        old(s)@.len() > 0 ==> r == Some(old(s)@.last()) && final(s)@ == old(s)@.drop_last(),
{
    s.pop()
}

#[verifier::external_type_specification]
#[verifier::external_body]
pub struct ExFromUtf8Error(std::string::FromUtf8Error);

/// Calls `String::into_bytes`, which returns the string's buffer as a vector of its UTF-8 bytes.
#[verifier::external_body]
pub(crate) fn string_into_bytes(s: String) -> (r: Vec<u8>)
    ensures
        r@ == encode_utf8(s@),
{
    s.into_bytes()
}

/// Calls `String::from_utf8`, which takes over the vector as the string's buffer when its bytes
/// are valid UTF-8 and returns an error otherwise.
#[verifier::external_body]
pub(crate) fn string_from_utf8(v: Vec<u8>) -> (r: Result<String, std::string::FromUtf8Error>)
    ensures
        match r {
            Ok(s) => valid_utf8(v@) && s@ == decode_utf8(v@),
            Err(_) => !valid_utf8(v@),
        },
{
    String::from_utf8(v)
}

} // verus!
