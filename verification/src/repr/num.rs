//! Writing integers in decimal.
//!
//! Integers up to 64 bits are written digit by digit, from the last digit back, into an inline
//! buffer; they always fit inline. 128-bit integers are formatted with `itoa`.
use vstd::prelude::*;
use vstd::string::StringSliceAdditionalSpecFns;
use vstd::utf8::*;

use super::{Repr, MAX_SIZE};
use crate::unicode::lemma_zeros_valid;

verus! {

broadcast use vstd::utf8::group_utf8_lib;

/// The ASCII decimal digits of `n`, most significant first, with no leading zeros.
pub open spec fn decimal(n: nat) -> Seq<u8>
    decreases n,
{
    if n < 10 {
        seq![(48 + n) as u8]
    } else {
        decimal(n / 10).push((48 + n % 10) as u8)
    }
}

/// The decimal text of `v`: its digits, after a `-` when it is negative.
pub open spec fn signed_decimal(v: int) -> Seq<u8> {
    if v < 0 {
        seq![45u8] + decimal((-v) as nat)
    } else {
        decimal(v as nat)
    }
}

/// Ten to the power `k`.
pub open spec fn pow10(k: nat) -> nat
    decreases k,
{
    if k == 0 {
        1
    } else {
        10 * pow10((k - 1) as nat)
    }
}

/// Every byte of a decimal text is an ASCII digit or `-`, so it is valid UTF-8.
pub proof fn lemma_decimal_ascii(n: nat)
    ensures
        decimal(n).len() >= 1,
        forall|j: int| 0 <= j < decimal(n).len() ==> 48 <= #[trigger] decimal(n)[j] <= 57,
        valid_utf8(decimal(n)),
    decreases n,
{
    if n >= 10 {
        lemma_decimal_ascii(n / 10);
    }
    lemma_zeros_valid(decimal(n));
}

proof fn lemma_pow10_step(m: nat, j: nat)
    requires
        m >= 10,
        m < pow10(j),
    ensures
        j >= 2,
        m / 10 < pow10((j - 1) as nat),
{
    reveal_with_fuel(pow10, 3);
    let p = pow10((j - 1) as nat);
    assert(m < 10 * p);
    assert(m / 10 < p) by (nonlinear_arith)
        requires
            m < 10 * p,
    ;
}

/// The number of decimal digits of `v`, counted by dividing by ten until one digit is left.
fn digits_u64(v: u64) -> (r: usize)
    ensures
        r == decimal(v as nat).len(),
        1 <= r <= 20,
{
    let mut m: u64 = v;
    let mut count: usize = 1;
    proof {
        reveal_with_fuel(pow10, 21);
        assert(pow10(20) == 100000000000000000000nat);
    }
    while m >= 10
        invariant
            1 <= count <= 20,
            m < pow10((21 - count) as nat),
            decimal(v as nat).len() == decimal(m as nat).len() + count - 1,
        decreases m,
    {
        proof {
            lemma_pow10_step(m as nat, (21 - count) as nat);
            assert(decimal(m as nat).len() == decimal((m / 10) as nat).len() + 1);
        }
        m = m / 10;
        count = count + 1;
    }
    count
}

/// The length of the decimal text of a value, its `-` included.
pub trait NumChars: Sized {
    /// The number of characters that `val` is written with, which is never more than 21.
    fn num_chars(val: Self) -> (r: usize)
        ensures
            r <= 21,
    ;
}

impl NumChars for u8 {
    fn num_chars(val: u8) -> (r: usize)
        ensures
            r == signed_decimal(val as int).len(),
    {
        digits_u64(val as u64)
    }
}

impl NumChars for i8 {
    fn num_chars(val: i8) -> (r: usize)
        ensures
            r == signed_decimal(val as int).len(),
    {
        signed_chars(val as i64)
    }
}

impl NumChars for u16 {
    fn num_chars(val: u16) -> (r: usize)
        ensures
            r == signed_decimal(val as int).len(),
    {
        digits_u64(val as u64)
    }
}

impl NumChars for i16 {
    fn num_chars(val: i16) -> (r: usize)
        ensures
            r == signed_decimal(val as int).len(),
    {
        signed_chars(val as i64)
    }
}

impl NumChars for u32 {
    fn num_chars(val: u32) -> (r: usize)
        ensures
            r == signed_decimal(val as int).len(),
    {
        digits_u64(val as u64)
    }
}

impl NumChars for i32 {
    fn num_chars(val: i32) -> (r: usize)
        ensures
            r == signed_decimal(val as int).len(),
    {
        signed_chars(val as i64)
    }
}

impl NumChars for u64 {
    fn num_chars(val: u64) -> (r: usize)
        ensures
            r == signed_decimal(val as int).len(),
    {
        digits_u64(val)
    }
}

impl NumChars for i64 {
    fn num_chars(val: i64) -> (r: usize)
        ensures
            r == signed_decimal(val as int).len(),
    {
        signed_chars(val)
    }
}

impl NumChars for usize {
    fn num_chars(val: usize) -> (r: usize)
        ensures
            r == signed_decimal(val as int).len(),
    {
        digits_u64(val as u64)
    }
}

impl NumChars for isize {
    fn num_chars(val: isize) -> (r: usize)
        ensures
            r == signed_decimal(val as int).len(),
    {
        signed_chars(val as i64)
    }
}

/// The number of characters of a signed value: the digits of its magnitude and a `-` when it
/// is negative.
fn signed_chars(v: i64) -> (r: usize)
    ensures
        r == signed_decimal(v as int).len(),
        1 <= r <= 21,
{
    let d = digits_u64(magnitude(v));
    if v < 0 {
        d + 1
    } else {
        d
    }
}

/// Writes the decimal digits of `n`, after a `-` when `neg` is set, into the first `num_digits`
/// bytes of a buffer of `MAX_SIZE` bytes, from the last digit back.
pub fn write_decimal(n: u64, neg: bool, num_digits: usize) -> (r: [u8; 24])
    requires
        num_digits == decimal(n as nat).len() + if neg {
            1int
        } else {
            0int
        },
        num_digits <= 21,
    ensures
        r@.subrange(0, num_digits as int) == if neg {
            seq![45u8] + decimal(n as nat)
        } else {
            decimal(n as nat)
        },
{
    let mut buf: [u8; 24] = [0u8; 24];
    let mut curr: usize = num_digits;
    let mut m: u64 = n;
    let sign: usize = if neg {
        1
    } else {
        0
    };
    let ghost mut tail: Seq<u8> = Seq::empty();
    proof {
        assert(decimal(n as nat) + tail =~= decimal(n as nat));
        assert(buf@.subrange(curr as int, num_digits as int) =~= tail);
    }
    while m >= 10
        invariant
            curr == decimal(m as nat).len() + sign,
            curr <= num_digits,
            sign <= 1,
            num_digits <= 21,
            buf@.len() == 24,
            tail == buf@.subrange(curr as int, num_digits as int),
            decimal(n as nat) == decimal(m as nat) + tail,
        decreases m,
    {
        let d: u64 = m % 10;
        let ghost old_m = m;
        m = m / 10;
        proof {
            assert(decimal(old_m as nat).len() == decimal(m as nat).len() + 1);
        }
        curr = curr - 1;
        buf[curr] = (d as u8) + 48;
        proof {
            let digit = (48 + old_m % 10) as u8;
            assert(decimal(old_m as nat) == decimal(m as nat).push(digit));
            assert(decimal(m as nat).push(digit) + tail =~= decimal(m as nat) + (seq![digit] + tail));
            tail = seq![digit] + tail;
            assert(tail =~= buf@.subrange(curr as int, num_digits as int));
        }
    }
    curr = curr - 1;
    buf[curr] = (m as u8) + 48;
    proof {
        assert(decimal(m as nat) == seq![(48 + m) as u8]);
        tail = seq![(48 + m) as u8] + tail;
        assert(tail =~= buf@.subrange(curr as int, num_digits as int));
        assert(decimal(n as nat) =~= tail);
    }
    if neg {
        curr = curr - 1;
        buf[curr] = 45;
        proof {
            assert(buf@.subrange(0, num_digits as int) =~= seq![45u8] + tail);
        }
    } else {
        assert(buf@.subrange(0, num_digits as int) =~= tail);
    }
    buf
}

/// The decimal text of `n`, after a `-` when `neg` is set, stored inline; `num_digits` is the
/// length of that text.
pub fn decimal_repr(n: u64, neg: bool, num_digits: usize) -> (r: Repr)
    requires
        num_digits == decimal(n as nat).len() + if neg {
            1int
        } else {
            0int
        },
        num_digits <= 21,
    ensures
        r.wf(),
        r is Inline,
        r.content() == if neg {
            seq![45u8] + decimal(n as nat)
        } else {
            decimal(n as nat)
        },
{
    let buf = write_decimal(n, neg, num_digits);
    let all: &[u8] = buf.as_slice();
    let text: &[u8] = &all[0..num_digits];
    proof {
        if neg {
            lemma_decimal_ascii(n as nat);
            let s = seq![45u8] + decimal(n as nat);
            assert forall|j: int| 0 <= j < s.len() implies is_leading_byte_width_1(#[trigger] s[j]) by {
                if j > 0 {
                    assert(s[j] == decimal(n as nat)[j - 1]);
                }
            }
            lemma_zeros_valid(s);
        } else {
            lemma_decimal_ascii(n as nat);
        }
        assert(text@ == buf@.subrange(0, num_digits as int));
    }
    Repr::from_valid_bytes(text)
}

/// The magnitude of a signed value, as an unsigned one.
fn magnitude(v: i64) -> (r: u64)
    ensures
        r == if v < 0 {
            -(v as int)
        } else {
            v as int
        },
{
    if v < 0 {
        let w: i64 = -(v + 1);
        (w as u64) + 1
    } else {
        v as u64
    }
}

/// The decimal text of a signed value, stored inline.
pub fn signed_repr(v: i64, num_digits: usize) -> (r: Repr)
    requires
        num_digits == signed_decimal(v as int).len(),
    ensures
        r.wf(),
        r is Inline,
        r.content() == signed_decimal(v as int),
{
    let m = magnitude(v);
    proof {
        reveal_with_fuel(pow10, 21);
        assert(pow10(20) == 100000000000000000000nat);
        lemma_decimal_len_bound(m as nat, 20);
    }
    decimal_repr(m, v < 0, num_digits)
}

/// A number below `10^j` has at most `j` decimal digits.
proof fn lemma_decimal_len_bound(m: nat, j: nat)
    requires
        m < pow10(j),
        j >= 1,
    ensures
        decimal(m).len() <= j,
    decreases m,
{
    if m >= 10 {
        lemma_pow10_step(m, j);
        lemma_decimal_len_bound(m / 10, (j - 1) as nat);
    }
}

#[verifier::external_type_specification]
#[verifier::external_body]
pub struct ExItoaBuffer(itoa::Buffer);

/// Returns a fresh `itoa::Buffer`, the scratch space that `itoa` formats into.
#[verifier::external_body]
fn itoa_buffer() -> (r: itoa::Buffer) {
    itoa::Buffer::new()
}

/// Calls `itoa::Buffer::format` on a `u128`, which writes the integer's decimal representation
/// into the buffer and returns it; the contract states that text as `signed_decimal`.
#[verifier::external_body]
fn itoa_format_u128<'a>(buf: &'a mut itoa::Buffer, v: u128) -> (r: &'a str)
    ensures
        r.spec_bytes() == signed_decimal(v as int),
{
    buf.format(v)
}

/// Calls `itoa::Buffer::format` on an `i128`, which writes the integer's decimal representation,
/// with a leading `-` when it is negative, into the buffer and returns it; the contract states
/// that text as `signed_decimal`.
#[verifier::external_body]
fn itoa_format_i128<'a>(buf: &'a mut itoa::Buffer, v: i128) -> (r: &'a str)
    ensures
        r.spec_bytes() == signed_decimal(v as int),
{
    buf.format(v)
}

/// The decimal text of a `u128`, inline when it fits.
pub fn u128_repr(v: u128) -> (r: Repr)
    ensures
        r.wf(),
        r.content() == signed_decimal(v as int),
        r is Heap <==> signed_decimal(v as int).len() > MAX_SIZE,
        r.spec_capacity() >= MAX_SIZE,
{
    let mut buf = itoa_buffer();
    let text = itoa_format_u128(&mut buf, v);
    Repr::new(text)
}

/// The decimal text of an `i128`, inline when it fits.
pub fn i128_repr(v: i128) -> (r: Repr)
    ensures
        r.wf(),
        r.content() == signed_decimal(v as int),
        r is Heap <==> signed_decimal(v as int).len() > MAX_SIZE,
        r.spec_capacity() >= MAX_SIZE,
{
    let mut buf = itoa_buffer();
    let text = itoa_format_i128(&mut buf, v);
    Repr::new(text)
}

} // verus!
