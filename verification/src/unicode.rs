//! UTF-8 facts and byte-level helpers shared by every representation.
//!
//! Strings are stored as bytes; their meaning is given by vstd's `decode_utf8`. The lemmas here
//! connect byte-level edits (append, truncate, splice) with the character sequences they encode.
use vstd::prelude::*;
use vstd::utf8::*;

use crate::std_calls::char_from_u32;

verus! {

broadcast use vstd::utf8::group_utf8_lib;

/// Encoding distributes over concatenation.
pub proof fn lemma_encode_concat(a: Seq<char>, b: Seq<char>)
    ensures
        encode_utf8(a + b) == encode_utf8(a) + encode_utf8(b),
    decreases a.len(),
{
    if a.len() == 0 {
        assert(a + b =~= b);
        assert(encode_utf8(a) + encode_utf8(b) =~= encode_utf8(b));
    } else {
        lemma_encode_concat(a.drop_first(), b);
        assert((a + b).drop_first() =~= a.drop_first() + b);
        assert((a + b)[0] == a[0]);
        assert(encode_utf8(a + b) =~= encode_utf8(a) + encode_utf8(b));
    }
}

/// Every character takes at least one byte.
pub proof fn lemma_encode_len(chars: Seq<char>)
    ensures
        encode_utf8(chars).len() >= chars.len(),
    decreases chars.len(),
{
    if chars.len() > 0 {
        lemma_encode_len(chars.drop_first());
    }
}

/// Encoding a single character gives the encoding of its scalar.
pub proof fn lemma_encode_single(c: char)
    ensures
        encode_utf8(seq![c]) == encode_scalar(c as u32),
{
    assert(seq![c].drop_first() =~= Seq::<char>::empty());
    assert(encode_utf8(Seq::<char>::empty()) =~= Seq::<u8>::empty());
    assert(encode_scalar(c as u32) + Seq::<u8>::empty() =~= encode_scalar(c as u32));
    assert(seq![c][0] == c);
}

/// Decoding the concatenation of two valid byte sequences decodes each part.
pub proof fn lemma_decode_concat(a: Seq<u8>, b: Seq<u8>)
    requires
        valid_utf8(a),
        valid_utf8(b),
    ensures
        valid_utf8(a + b),
        decode_utf8(a + b) == decode_utf8(a) + decode_utf8(b),
{
    let ca = decode_utf8(a);
    let cb = decode_utf8(b);
    lemma_encode_concat(ca, cb);
    assert(encode_utf8(ca) == a);
    assert(encode_utf8(cb) == b);
    assert(encode_utf8(ca + cb) == a + b);
    assert(decode_utf8(encode_utf8(ca + cb)) == ca + cb);
}

/// The byte sequence of a valid string, rewritten from its characters.
pub proof fn lemma_valid_roundtrip(b: Seq<u8>)
    requires
        valid_utf8(b),
    ensures
        encode_utf8(decode_utf8(b)) == b,
        decode_utf8(b).len() == 0 <==> b.len() == 0,
{
    if decode_utf8(b).len() == 0 {
        assert(encode_utf8(decode_utf8(b)) =~= Seq::<u8>::empty());
    }
}

/// The empty byte sequence is valid and encodes no characters.
pub proof fn lemma_empty_valid()
    ensures
        valid_utf8(Seq::<u8>::empty()),
        decode_utf8(Seq::<u8>::empty()) == Seq::<char>::empty(),
        encode_utf8(Seq::<char>::empty()) == Seq::<u8>::empty(),
{
    assert(encode_utf8(Seq::<char>::empty()) =~= Seq::<u8>::empty());
}

/// A valid sequence never ends with a byte of the form `11xxxxxx`.
pub proof fn lemma_valid_last_byte(b: Seq<u8>)
    requires
        valid_utf8(b),
        b.len() > 0,
    ensures
        b.last() < 0xC0,
{
    valid_utf8_last(b);
}

/// Splitting a valid sequence at a character boundary splits its characters.
pub proof fn lemma_split_at_boundary(b: Seq<u8>, i: int)
    requires
        valid_utf8(b),
        is_char_boundary(b, i),
    ensures
        0 <= i <= b.len(),
        valid_utf8(b.subrange(0, i)),
        valid_utf8(b.subrange(i, b.len() as int)),
        decode_utf8(b) == decode_utf8(b.subrange(0, i)) + decode_utf8(
            b.subrange(i, b.len() as int),
        ),
{
    reveal_with_fuel(is_char_boundary, 1);
    if i != 0 {
        lemma_boundary_in_range(b, i);
    }
    valid_utf8_split(b, i);
    decode_utf8_split(b, i);
}

proof fn lemma_boundary_in_range(b: Seq<u8>, i: int)
    requires
        valid_utf8(b),
        is_char_boundary(b, i),
    ensures
        0 <= i <= b.len(),
    decreases b.len(),
{
    if i != 0 {
        lemma_boundary_in_range(pop_first_scalar(b), i - length_of_first_scalar(b));
    }
}

/// The byte length of the encoding of the first `k` characters is a character boundary.
pub proof fn lemma_prefix_boundary(chars: Seq<char>, k: int)
    requires
        0 <= k <= chars.len(),
    ensures
        is_char_boundary(encode_utf8(chars), encode_utf8(chars.take(k)).len() as int),
        encode_utf8(chars).subrange(0, encode_utf8(chars.take(k)).len() as int) == encode_utf8(
            chars.take(k),
        ),
    decreases k,
{
    let full = encode_utf8(chars);
    lemma_encode_concat(chars.take(k), chars.skip(k));
    assert(chars.take(k) + chars.skip(k) =~= chars);
    assert(full.subrange(0, encode_utf8(chars.take(k)).len() as int) =~= encode_utf8(
        chars.take(k),
    ));
    if k == 0 {
    } else {
        let rest = chars.drop_first();
        lemma_prefix_boundary(rest, k - 1);
        encode_utf8_first_scalar(chars);
        assert(chars.take(k) =~= seq![chars[0]] + rest.take(k - 1));
        lemma_encode_concat(seq![chars[0]], rest.take(k - 1));
        lemma_encode_single(chars[0]);
        assert(pop_first_scalar(full) =~= encode_utf8(rest));
    }
}

/// Every character boundary of a valid sequence is the end of the encoding of some prefix.
pub proof fn lemma_boundary_is_prefix(b: Seq<u8>, i: int) -> (k: int)
    requires
        valid_utf8(b),
        is_char_boundary(b, i),
    ensures
        0 <= k <= decode_utf8(b).len(),
        encode_utf8(decode_utf8(b).take(k)).len() == i,
        decode_utf8(b.subrange(0, i)) == decode_utf8(b).take(k),
        decode_utf8(b.subrange(i, b.len() as int)) == decode_utf8(b).skip(k),
{
    lemma_split_at_boundary(b, i);
    let k = decode_utf8(b.subrange(0, i)).len() as int;
    let c = decode_utf8(b);
    assert(c.take(k) =~= decode_utf8(b.subrange(0, i)));
    assert(c.skip(k) =~= decode_utf8(b.subrange(i, b.len() as int)));
    lemma_valid_roundtrip(b.subrange(0, i));
    k
}

/// A prefix of a valid sequence that is itself valid ends on a character boundary.
pub proof fn lemma_valid_prefix_boundary(b: Seq<u8>, i: int)
    requires
        valid_utf8(b),
        0 <= i <= b.len(),
        valid_utf8(b.subrange(0, i)),
    ensures
        is_char_boundary(b, i),
    decreases b.len(),
{
    reveal_with_fuel(is_char_boundary, 1);
    if i == 0 {
    } else {
        let p = b.subrange(0, i);
        let l = length_of_first_scalar(p);
        assert(p[0] == b[0]);
        assert(l == length_of_first_scalar(b));
        assert(l <= i);
        assert(pop_first_scalar(p) =~= pop_first_scalar(b).subrange(0, i - l));
        lemma_valid_prefix_boundary(pop_first_scalar(b), i - l);
    }
}

/// A sequence of bytes below `0x80` is valid UTF-8.
pub proof fn lemma_zeros_valid(b: Seq<u8>)
    requires
        forall|j: int| 0 <= j < b.len() ==> is_leading_byte_width_1(#[trigger] b[j]),
    ensures
        valid_utf8(b),
    decreases b.len(),
{
    if b.len() > 0 {
        assert(pop_first_scalar(b) =~= b.subrange(1, b.len() as int));
        lemma_zeros_valid(b.subrange(1, b.len() as int));
    }
}

/* Bit-level facts about single-scalar encodings */

proof fn lemma_width_1(c: u32)
    by (bit_vector)
    requires
        c <= 0x7F,
    ensures
        is_leading_byte_width_1(leading_byte_width_1(c)),
        codepoint_width_1(leading_byte_width_1(c)) == c,
{
}

proof fn lemma_width_2(c: u32)
    by (bit_vector)
    requires
        0x80 <= c <= 0x7FF,
    ensures
        is_leading_byte_width_2(leading_byte_width_2(c)),
        is_continuation_byte(last_continuation_byte(c)),
        codepoint_width_2(leading_byte_width_2(c), last_continuation_byte(c)) == c,
{
}

proof fn lemma_width_3(c: u32)
    by (bit_vector)
    requires
        0x800 <= c <= 0xFFFF,
    ensures
        is_leading_byte_width_3(leading_byte_width_3(c)),
        is_continuation_byte(second_last_continuation_byte(c)),
        is_continuation_byte(last_continuation_byte(c)),
        codepoint_width_3(
            leading_byte_width_3(c),
            second_last_continuation_byte(c),
            last_continuation_byte(c),
        ) == c,
{
}

proof fn lemma_width_4(c: u32)
    by (bit_vector)
    requires
        0x10000 <= c <= 0x10FFFF,
    ensures
        is_leading_byte_width_4(leading_byte_width_4(c)),
        is_continuation_byte(third_last_continuation_byte(c)),
        is_continuation_byte(second_last_continuation_byte(c)),
        is_continuation_byte(last_continuation_byte(c)),
        codepoint_width_4(
            leading_byte_width_4(c),
            third_last_continuation_byte(c),
            second_last_continuation_byte(c),
            last_continuation_byte(c),
        ) == c,
{
}

/// The shape of the encoding of one scalar: a leading byte, then continuation bytes.
pub proof fn lemma_scalar_shape(c: char)
    ensures
        ({
            let e = encode_scalar(c as u32);
            let v = c as u32;
            &&& 1 <= e.len() <= 4
            &&& !is_continuation_byte(e[0])
            &&& forall|j: int| 1 <= j < e.len() ==> is_continuation_byte(#[trigger] e[j])
            &&& e.len() == 1 ==> is_leading_byte_width_1(e[0]) && codepoint_width_1(e[0]) == v
            &&& e.len() == 2 ==> is_leading_byte_width_2(e[0]) && codepoint_width_2(e[0], e[1])
                == v
            &&& e.len() == 3 ==> is_leading_byte_width_3(e[0]) && codepoint_width_3(
                e[0],
                e[1],
                e[2],
            ) == v
            &&& e.len() == 4 ==> is_leading_byte_width_4(e[0]) && codepoint_width_4(
                e[0],
                e[1],
                e[2],
                e[3],
            ) == v
        }),
{
    let v = c as u32;
    char_is_scalar(c);
    if has_width_1_encoding(v) {
        lemma_width_1(v);
    } else if has_width_2_encoding(v) {
        lemma_width_2(v);
    } else if has_width_3_encoding(v) {
        lemma_width_3(v);
    } else {
        lemma_width_4(v);
    }
}


/// The UTF-8 encoding of one character, written into a 4-byte buffer.
pub fn encode_char(c: char) -> (r: ([u8; 4], usize))
    ensures
        1 <= r.1 <= 4,
        r.1 == encode_scalar(c as u32).len(),
        r.0@.subrange(0, r.1 as int) == encode_scalar(c as u32),
        r.0@.subrange(0, r.1 as int) == encode_utf8(seq![c]),
{
    proof {
        char_is_scalar(c);
        lemma_encode_single(c);
    }
    let v: u32 = c as u32;
    let mut buf: [u8; 4] = [0u8; 4];
    if v <= 0x7F {
        buf[0] = (v & 0x7F) as u8;
        assert(buf@.subrange(0, 1) =~= encode_scalar(v));
        (buf, 1)
    } else if v <= 0x7FF {
        buf[0] = 0xC0 | ((v >> 6) & 0x1F) as u8;
        buf[1] = 0x80 | (v & 0x3F) as u8;
        assert(buf@.subrange(0, 2) =~= encode_scalar(v));
        (buf, 2)
    } else if v <= 0xFFFF {
        buf[0] = 0xE0 | ((v >> 12) & 0x0F) as u8;
        buf[1] = 0x80 | ((v >> 6) & 0x3F) as u8;
        buf[2] = 0x80 | (v & 0x3F) as u8;
        assert(buf@.subrange(0, 3) =~= encode_scalar(v));
        (buf, 3)
    } else {
        buf[0] = 0xF0 | ((v >> 18) & 0x7) as u8;
        buf[1] = 0x80 | ((v >> 12) & 0x3F) as u8;
        buf[2] = 0x80 | ((v >> 6) & 0x3F) as u8;
        buf[3] = 0x80 | (v & 0x3F) as u8;
        assert(buf@.subrange(0, 4) =~= encode_scalar(v));
        (buf, 4)
    }
}

/// Whether a byte has the form `10xxxxxx`.
pub fn is_continuation(b: u8) -> (r: bool)
    ensures
        r == is_continuation_byte(b),
{
    0x80 <= b && b <= 0xBF
}

/// A valid sequence split into its last character and the bytes before it.
pub proof fn lemma_split_last(b: Seq<u8>) -> (c: char)
    requires
        valid_utf8(b),
        b.len() > 0,
    ensures
        ({
            let e = encode_scalar(c as u32);
            let init = b.subrange(0, b.len() - e.len());
            &&& e.len() <= b.len()
            &&& b == init + e
            &&& valid_utf8(init)
            &&& decode_utf8(b) == decode_utf8(init).push(c)
            &&& c == decode_utf8(b).last()
        }),
{
    let chars = decode_utf8(b);
    lemma_valid_roundtrip(b);
    let init_c = chars.drop_last();
    let c = chars.last();
    assert(chars =~= init_c + seq![c]);
    lemma_encode_concat(init_c, seq![c]);
    lemma_encode_single(c);
    let e = encode_scalar(c as u32);
    let init = encode_utf8(init_c);
    assert(b == init + e);
    assert(b.subrange(0, b.len() - e.len()) =~= init);
    assert(decode_utf8(init) == init_c);
    assert(init_c.push(c) =~= chars);
    c
}

/// A valid sequence split into its first character and the bytes after it.
pub proof fn lemma_split_first(b: Seq<u8>) -> (c: char)
    requires
        valid_utf8(b),
        b.len() > 0,
    ensures
        ({
            let e = encode_scalar(c as u32);
            let rest = b.subrange(e.len() as int, b.len() as int);
            &&& e.len() <= b.len()
            &&& b == e + rest
            &&& valid_utf8(rest)
            &&& decode_utf8(b) == seq![c] + decode_utf8(rest)
            &&& c == decode_utf8(b)[0]
        }),
{
    let chars = decode_utf8(b);
    lemma_valid_roundtrip(b);
    let c = chars[0];
    let rest_c = chars.drop_first();
    assert(chars =~= seq![c] + rest_c);
    lemma_encode_concat(seq![c], rest_c);
    lemma_encode_single(c);
    let e = encode_scalar(c as u32);
    let rest = encode_utf8(rest_c);
    assert(b == e + rest);
    assert(b.subrange(e.len() as int, b.len() as int) =~= rest);
    c
}

/// Reads the last character of a valid, non-empty byte sequence and its encoded length.
pub fn decode_last(b: &[u8]) -> (r: (char, usize))
    requires
        valid_utf8(b@),
        b@.len() > 0,
    ensures
        r.1 == encode_scalar(r.0 as u32).len(),
        1 <= r.1 <= b@.len(),
        b@.subrange(b@.len() - r.1, b@.len() as int) == encode_scalar(r.0 as u32),
        valid_utf8(b@.subrange(0, b@.len() - r.1)),
        decode_utf8(b@) == decode_utf8(b@.subrange(0, b@.len() - r.1)).push(r.0),
        r.0 == decode_utf8(b@).last(),
{
    let ghost c = lemma_split_last(b@);
    let ghost e = encode_scalar(c as u32);
    proof {
        lemma_scalar_shape(c);
    }
    let n: usize = b.len();
    let ghost m = e.len();
    assert(forall|j: int| 0 <= j < m ==> b@[n - m + j] == e[j]) by {
        assert forall|j: int| 0 <= j < m implies b@[n - m + j] == e[j] by {
            let init = b@.subrange(0, n - m);
            assert(b@ == init + e);
            assert((init + e)[n - m + j] == e[j]);
        }
    }
    let k: usize;
    let cp: u32;
    if !is_continuation(b[n - 1]) {
        assert(m == 1) by {
            if m > 1 {
                assert(b@[n - m + (m - 1)] == e[m - 1]);
            }
        }
        k = 1;
        cp = (b[n - 1] & 0x7F) as u32;
    } else if !is_continuation(b[n - 2]) {
        assert(m == 2) by {
            assert(b@[n - m + (m - 1)] == e[m - 1]);
            if m > 2 {
                assert(b@[n - m + (m - 2)] == e[m - 2]);
            }
        }
        k = 2;
        cp = (((b[n - 2] & 0x1F) as u32) << 6) | ((b[n - 1] & 0x3F) as u32);
    } else if !is_continuation(b[n - 3]) {
        assert(m == 3) by {
            assert(b@[n - m + (m - 1)] == e[m - 1]);
            if m > 1 {
                assert(b@[n - m + (m - 2)] == e[m - 2]);
            }
            if m > 3 {
                assert(b@[n - m + (m - 3)] == e[m - 3]);
            }
        }
        k = 3;
        cp = (((b[n - 3] & 0x0F) as u32) << 12) | (((b[n - 2] & 0x3F) as u32) << 6) | ((b[n
            - 1] & 0x3F) as u32);
    } else {
        assert(m == 4) by {
            assert(b@[n - m + (m - 1)] == e[m - 1]);
            if m > 1 {
                assert(b@[n - m + (m - 2)] == e[m - 2]);
            }
            if m > 2 {
                assert(b@[n - m + (m - 3)] == e[m - 3]);
            }
        }
        k = 4;
        cp = (((b[n - 4] & 0x07) as u32) << 18) | (((b[n - 3] & 0x3F) as u32) << 12) | (((b[n
            - 2] & 0x3F) as u32) << 6) | ((b[n - 1] & 0x3F) as u32);
    }
    assert(b@.subrange(n - k, n as int) =~= e);
    assert(cp == c as u32) by {
        assert(b@[n - m + 0] == e[0]);
        if m > 1 {
            assert(b@[n - m + 1] == e[1]);
        }
        if m > 2 {
            assert(b@[n - m + 2] == e[2]);
        }
        if m > 3 {
            assert(b@[n - m + 3] == e[3]);
        }
    }
    proof {
        char_is_scalar(c);
    }
    let ch = match char_from_u32(cp) {
        Some(ch) => ch,
        None => '\0',
    };
    (ch, k)
}

/// Reads the character that starts at byte `i`, where the bytes from `i` on are valid UTF-8.
pub fn decode_at(b: &[u8], i: usize) -> (r: (char, usize))
    requires
        i < b@.len(),
        valid_utf8(b@.subrange(i as int, b@.len() as int)),
    ensures
        r.1 == encode_scalar(r.0 as u32).len(),
        1 <= r.1,
        i + r.1 <= b@.len(),
        b@.subrange(i as int, i + r.1) == encode_scalar(r.0 as u32),
        valid_utf8(b@.subrange(i + r.1, b@.len() as int)),
        decode_utf8(b@.subrange(i as int, b@.len() as int)) == seq![r.0] + decode_utf8(
            b@.subrange(i + r.1, b@.len() as int),
        ),
        r.0 == decode_utf8(b@.subrange(i as int, b@.len() as int))[0],
{
    let ghost t = b@.subrange(i as int, b@.len() as int);
    let ghost c = lemma_split_first(t);
    let ghost e = encode_scalar(c as u32);
    proof {
        lemma_scalar_shape(c);
    }
    let ghost m = e.len();
    assert(forall|j: int| 0 <= j < m ==> b@[i + j] == e[j]) by {
        assert forall|j: int| 0 <= j < m implies b@[i + j] == e[j] by {
            let rest = t.subrange(m as int, t.len() as int);
            assert(t == e + rest);
            assert(t[j] == (e + rest)[j]);
        }
    }
    let b0: u8 = b[i];
    assert(b0 == e[0]);
    let k: usize;
    let cp: u32;
    if b0 <= 0x7F {
        k = 1;
        cp = (b0 & 0x7F) as u32;
    } else if b0 <= 0xDF {
        assert(m == 2);
        assert(b@[i + 1] == e[1]);
        k = 2;
        cp = (((b0 & 0x1F) as u32) << 6) | ((b[i + 1] & 0x3F) as u32);
    } else if b0 <= 0xEF {
        assert(m == 3);
        assert(b@[i + 1] == e[1]);
        assert(b@[i + 2] == e[2]);
        k = 3;
        cp = (((b0 & 0x0F) as u32) << 12) | (((b[i + 1] & 0x3F) as u32) << 6) | ((b[i + 2]
            & 0x3F) as u32);
    } else {
        assert(m == 4);
        assert(b@[i + 1] == e[1]);
        assert(b@[i + 2] == e[2]);
        assert(b@[i + 3] == e[3]);
        k = 4;
        cp = (((b0 & 0x07) as u32) << 18) | (((b[i + 1] & 0x3F) as u32) << 12) | (((b[i + 2]
            & 0x3F) as u32) << 6) | ((b[i + 3] & 0x3F) as u32);
    }
    assert(k == m);
    assert(b@.subrange(i as int, i + k) =~= e);
    assert(t.subrange(m as int, t.len() as int) =~= b@.subrange(i + k, b@.len() as int));
    proof {
        char_is_scalar(c);
    }
    let ch = match char_from_u32(cp) {
        Some(ch) => ch,
        None => '\0',
    };
    (ch, k)
}

} // verus!
