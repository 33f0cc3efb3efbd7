//! Decoding UTF-16 code units into characters.
use vstd::prelude::*;
use vstd::utf8::{char_is_scalar, char_u32_cast};

verus! {

/// A code unit in `0xD800..=0xDBFF`, the first half of a surrogate pair.
pub open spec fn is_high_surrogate(u: u16) -> bool {
    0xD800 <= u <= 0xDBFF
}

/// A code unit in `0xDC00..=0xDFFF`, the second half of a surrogate pair.
pub open spec fn is_low_surrogate(u: u16) -> bool {
    0xDC00 <= u <= 0xDFFF
}

/// The scalar value a surrogate pair stands for.
pub open spec fn surrogate_pair_value(hi: u16, lo: u16) -> u32 {
    (0x10000 + (hi - 0xD800) * 0x400 + (lo - 0xDC00)) as u32
}

/// The characters that a sequence of UTF-16 code units encodes, or `None` when it holds a lone
/// surrogate.
pub open spec fn decode_utf16(units: Seq<u16>) -> Option<Seq<char>>
    decreases units.len(),
{
    if units.len() == 0 {
        Some(Seq::<char>::empty())
    } else if !is_high_surrogate(units[0]) && !is_low_surrogate(units[0]) {
        match decode_utf16(units.subrange(1, units.len() as int)) {
            Some(rest) => Some(seq![units[0] as u32 as char] + rest),
            None => None,
        }
    } else if is_high_surrogate(units[0]) && units.len() >= 2 && is_low_surrogate(units[1]) {
        match decode_utf16(units.subrange(2, units.len() as int)) {
            Some(rest) => Some(seq![surrogate_pair_value(units[0], units[1]) as char] + rest),
            None => None,
        }
    } else {
        None
    }
}

/// The UTF-16 code units of one character: the character itself up to `0xFFFF`, and above that
/// the surrogate pair carrying the top and the bottom ten bits of its offset from `0x10000`.
pub open spec fn encode_utf16_char(c: char) -> Seq<u16> {
    let v = c as u32;
    if v <= 0xFFFF {
        seq![v as u16]
    } else {
        seq![(0xD800 + (v - 0x10000) / 0x400) as u16, (0xDC00 + (v - 0x10000) % 0x400) as u16]
    }
}

/// The UTF-16 code units of a sequence of characters.
pub open spec fn encode_utf16(chars: Seq<char>) -> Seq<u16>
    decreases chars.len(),
{
    if chars.len() == 0 {
        Seq::empty()
    } else {
        encode_utf16_char(chars[0]) + encode_utf16(chars.drop_first())
    }
}

/// Decoding a surrogate pair gives back the character it encodes: the pair `(hi, lo)` stands for
/// `0x10000 + (hi - 0xD800) * 0x400 + (lo - 0xDC00)`.
pub proof fn law_decode_surrogate_pair(c: char)
    requires
        c as u32 > 0xFFFF,
    ensures
        ({
            let v = c as u32;
            let hi = (0xD800 + (v - 0x10000) / 0x400) as u16;
            let lo = (0xDC00 + (v - 0x10000) % 0x400) as u16;
            &&& is_high_surrogate(hi)
            &&& is_low_surrogate(lo)
            &&& decode_utf16(seq![hi, lo]) == Some(seq![c])
        }),
{
    let v = c as u32;
    char_is_scalar(c);
    char_u32_cast(c, v);
    let d = v - 0x10000;
    assert(0 <= d < 0x100000);
    let q = d / 0x400;
    let r = d % 0x400;
    assert(d == q * 0x400 + r && 0 <= r < 0x400 && 0 <= q < 0x400) by (nonlinear_arith)
        requires
            0 <= d < 0x100000,
            q == d / 0x400,
            r == d % 0x400,
    ;
    let hi = (0xD800 + q) as u16;
    let lo = (0xDC00 + r) as u16;
    assert(hi == 0xD800 + q && lo == 0xDC00 + r);
    assert(is_high_surrogate(hi) && is_low_surrogate(lo));
    let units = seq![hi, lo];
    assert(units[0] == hi && units[1] == lo && units.len() == 2);
    assert(units.subrange(2, 2) =~= Seq::<u16>::empty());
    assert(decode_utf16(Seq::<u16>::empty()) == Some(Seq::<char>::empty()));
    assert(surrogate_pair_value(hi, lo) == v);
    assert(seq![c] + Seq::<char>::empty() =~= seq![c]);
    assert(decode_utf16(units) == Some(seq![surrogate_pair_value(hi, lo) as char] + Seq::<char>::empty()));
}

/// Decoding undoes encoding: the UTF-16 code units of any characters decode to those characters.
pub proof fn law_decode_encode(chars: Seq<char>)
    ensures
        decode_utf16(encode_utf16(chars)) == Some(chars),
    decreases chars.len(),
{
    if chars.len() > 0 {
        let c = chars[0];
        let e = encode_utf16_char(c);
        let rest = encode_utf16(chars.drop_first());
        let units = e + rest;
        law_decode_encode(chars.drop_first());
        let v = c as u32;
        char_is_scalar(c);
        char_u32_cast(c, v);
        if v <= 0xFFFF {
            assert(units[0] == v as u16);
            assert((v as u16) as u32 == v);
            assert(units.subrange(1, units.len() as int) =~= rest);
            assert(!is_high_surrogate(units[0]) && !is_low_surrogate(units[0]));
            assert((units[0] as u32) as char == c);
        } else {
            law_decode_surrogate_pair(c);
            assert(units.subrange(2, units.len() as int) =~= rest);
            assert(units[0] == e[0] && units[1] == e[1]);
            assert(surrogate_pair_value(units[0], units[1]) as char == c);
        }
        assert(seq![c] + chars.drop_first() =~= chars);
    }
}

/// Encoding one more character appends its code units.
pub proof fn lemma_encode_utf16_push(chars: Seq<char>, c: char)
    ensures
        encode_utf16(chars.push(c)) == encode_utf16(chars) + encode_utf16_char(c),
    decreases chars.len(),
{
    if chars.len() == 0 {
        assert(chars.push(c).drop_first() =~= Seq::<char>::empty());
        assert(chars.push(c)[0] == c);
        assert(encode_utf16(Seq::<char>::empty()) == Seq::<u16>::empty());
        assert(encode_utf16(chars) == Seq::<u16>::empty());
        assert(encode_utf16_char(c) + Seq::<u16>::empty() =~= encode_utf16_char(c));
        assert(Seq::<u16>::empty() + encode_utf16_char(c) =~= encode_utf16_char(c));
    } else {
        assert(chars.push(c).drop_first() =~= chars.drop_first().push(c));
        lemma_encode_utf16_push(chars.drop_first(), c);
        assert(chars.push(c)[0] == chars[0]);
        assert(encode_utf16(chars.push(c)) =~= encode_utf16(chars) + encode_utf16_char(c));
    }
}

} // verus!
