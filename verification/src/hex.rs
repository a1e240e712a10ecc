//! Lowercase hexadecimal rendering of byte strings and its inverse.
//!
//! An identifier's only external form is a fixed-length hexadecimal text;
//! this module defines that encoding at the specification level and provides
//! the verified digit conversions the codec is built from.
use vstd::prelude::*;

verus! {

/// A character that parsing accepts as a hexadecimal digit
/// (both cases are admitted; rendering only ever emits lowercase).
pub open spec fn is_hex_digit(c: char) -> bool {
    (48 <= c as u32 && c as u32 <= 57)  // '0' ..= '9'
    || (97 <= c as u32 && c as u32 <= 102)  // 'a' ..= 'f'
    || (65 <= c as u32 && c as u32 <= 70)  // 'A' ..= 'F'
}

/// The numeric value of a hexadecimal digit character.
pub open spec fn hex_val(c: char) -> u8 {
    if 48 <= c as u32 && c as u32 <= 57 {
        ((c as u32) - 48) as u8
    } else if 97 <= c as u32 && c as u32 <= 102 {
        ((c as u32) - 87) as u8
    } else {
        ((c as u32) - 55) as u8
    }
}

/// The lowercase hexadecimal digit character for a nibble.
pub open spec fn hex_digit(n: u8) -> char {
    if n < 10 {
        (n + 48) as char
    } else {
        (n + 87) as char
    }
}

/// The canonical text form of a byte string: two lowercase digits per byte,
/// high nibble first, no separators.
pub open spec fn render_spec(s: Seq<u8>) -> Seq<char>
    decreases s.len(),
{
    if s.len() == 0 {
        Seq::<char>::empty()
    } else {
        seq![hex_digit(s[0] >> 4), hex_digit(s[0] & 0x0f)] + render_spec(s.drop_first())
    }
}

/// Text of length `2 * n` whose characters are all hexadecimal digits:
/// exactly the strings that parse back into `n` bytes.
pub open spec fn wellformed_hex(t: Seq<char>, n: nat) -> bool {
    t.len() == 2 * n && (forall|i: int| 0 <= i < t.len() ==> is_hex_digit(#[trigger] t[i]))
}

/// The byte string a well-formed hexadecimal text denotes.
pub open spec fn parse_spec(t: Seq<char>) -> Seq<u8> {
    Seq::new((t.len() / 2) as nat, |i: int| (hex_val(t[2 * i]) << 4) | hex_val(t[2 * i + 1]))
}

/// A digit character produced by `hex_digit` is a hexadecimal digit, and
/// `hex_val` recovers the nibble it was produced from.
pub proof fn lemma_hex_digit_roundtrip(n: u8)
    requires
        n < 16,
    ensures
        is_hex_digit(hex_digit(n)),
        hex_val(hex_digit(n)) == n,
{
}

pub proof fn lemma_render_spec_len(s: Seq<u8>)
    ensures
        render_spec(s).len() == 2 * s.len(),
    decreases s.len(),
{
    if s.len() > 0 {
        lemma_render_spec_len(s.drop_first());
    }
}

pub proof fn lemma_render_spec_index(s: Seq<u8>, i: int)
    requires
        0 <= i < s.len(),
    ensures
        render_spec(s).len() == 2 * s.len(),
        render_spec(s)[2 * i] == hex_digit(s[i] >> 4),
        render_spec(s)[2 * i + 1] == hex_digit(s[i] & 0x0f),
    decreases s.len(),
{
    lemma_render_spec_len(s);
    if i > 0 {
        lemma_render_spec_index(s.drop_first(), i - 1);
    }
}

/// Rendering is injective: parsing a rendered byte string gives the bytes
/// back, and the rendered text is well formed for that length.
pub proof fn lemma_parse_render_roundtrip(s: Seq<u8>)
    ensures
        wellformed_hex(render_spec(s), s.len()),
        parse_spec(render_spec(s)) == s,
{
    let t = render_spec(s);
    lemma_render_spec_len(s);
    assert forall|i: int| 0 <= i < t.len() implies is_hex_digit(#[trigger] t[i]) by {
        let j = i / 2;
        lemma_render_spec_index(s, j);
        let b = s[j];
        assert(b >> 4 < 16 && b & 0x0f < 16) by (bit_vector);
        if i % 2 == 0 {
            assert(i == 2 * j);
            lemma_hex_digit_roundtrip(b >> 4);
        } else {
            assert(i == 2 * j + 1);
            lemma_hex_digit_roundtrip(b & 0x0f);
        }
    }
    assert forall|i: int| 0 <= i < s.len() implies parse_spec(t)[i] == s[i] by {
        lemma_render_spec_index(s, i);
        let b = s[i];
        assert(b >> 4 < 16 && b & 0x0f < 16) by (bit_vector);
        lemma_hex_digit_roundtrip(b >> 4);
        lemma_hex_digit_roundtrip(b & 0x0f);
        assert(((b >> 4) << 4) | (b & 0x0f) == b) by (bit_vector);
    }
    assert(parse_spec(t) =~= s);
}

/// The lowercase digit character for a nibble, as its ASCII byte.
pub fn hex_ascii(n: u8) -> (b: u8)
    requires
        n < 16,
    ensures
        b < 128,
        b as char == hex_digit(n),
{
    if n < 10 {
        n + 48
    } else {
        n + 87
    }
}

/// The nibble a character denotes, or `None` when it is not a hexadecimal
/// digit.
pub fn hex_val_of(c: char) -> (r: Option<u8>)
    ensures
        match r {
            Some(v) => is_hex_digit(c) && v == hex_val(c) && v < 16,
            None => !is_hex_digit(c),
        },
{
    let u = c as u32;
    if 48 <= u && u <= 57 {
        Some((u - 48) as u8)
    } else if 97 <= u && u <= 102 {
        Some((u - 87) as u8)
    } else if 65 <= u && u <= 70 {
        Some((u - 55) as u8)
    } else {
        None
    }
}

} // verus!
