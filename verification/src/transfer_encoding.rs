use vstd::prelude::*;
use crate::header::{has_line_break, is_line_break};

verus! {

/// The character of a six-bit value in the standard base64 alphabet of
/// RFC 4648: `A`-`Z`, `a`-`z`, `0`-`9`, `+`, `/`.
pub open spec fn base64_char(v: u8) -> char {
    if v < 26 {
        (v + 65) as char
    } else if v < 52 {
        (v + 71) as char
    } else if v < 62 {
        (v - 4) as char
    } else if v == 62 {
        '+'
    } else {
        '/'
    }
}

/// The six-bit value of a character of the standard base64 alphabet.
pub open spec fn base64_value(c: char) -> Option<u8> {
    if 'A' <= c <= 'Z' {
        Some((c as int - 65) as u8)
    } else if 'a' <= c <= 'z' {
        Some((c as int - 71) as u8)
    } else if '0' <= c <= '9' {
        Some((c as int + 4) as u8)
    } else if c == '+' {
        Some(62)
    } else if c == '/' {
        Some(63)
    } else {
        None
    }
}

/// Standard base64 with padding (RFC 4648, section 4): each group of three
/// bytes becomes four characters; a last group of one or two bytes is
/// padded with `=`.
pub open spec fn base64_encode(data: Seq<u8>) -> Seq<char>
    decreases data.len(),
{
    if data.len() == 0 {
        Seq::empty()
    } else {
        let b0 = data[0];
        let b1: u8 = if data.len() > 1 { data[1] } else { 0 };
        let b2: u8 = if data.len() > 2 { data[2] } else { 0 };
        let c0 = base64_char(b0 >> 2);
        let c1 = base64_char(((b0 & 3) << 4) | (b1 >> 4));
        let c2 = if data.len() > 1 { base64_char(((b1 & 15) << 2) | (b2 >> 6)) } else { '=' };
        let c3 = if data.len() > 2 { base64_char(b2 & 63) } else { '=' };
        if data.len() <= 3 {
            seq![c0, c1, c2, c3]
        } else {
            seq![c0, c1, c2, c3] + base64_encode(data.skip(3))
        }
    }
}

/// Base64 decoding in the standard alphabet: groups of four characters
/// give three bytes, and a final group ending in `=` or `==` gives two or
/// one; `None` for text that is not base64. It is lenient in one respect
/// that RFC 4648 lets decoders choose: the unused low bits of a padded
/// last group need not be zero.
pub open spec fn base64_decode(text: Seq<char>) -> Option<Seq<u8>>
    decreases text.len(),
{
    if text.len() == 0 {
        Some(Seq::empty())
    } else if text.len() < 4 {
        None
    } else {
        match (base64_value(text[0]), base64_value(text[1])) {
            (Some(x), Some(y)) => {
                let b0 = (x << 2) | (y >> 4);
                if text.len() == 4 && text[2] == '=' && text[3] == '=' {
                    Some(seq![b0])
                } else {
                    match base64_value(text[2]) {
                        Some(z) => {
                            let b1 = ((y & 15) << 4) | (z >> 2);
                            if text.len() == 4 && text[3] == '=' {
                                Some(seq![b0, b1])
                            } else {
                                match (base64_value(text[3]), base64_decode(text.skip(4))) {
                                    (Some(w), Some(rest)) => Some(
                                        seq![b0, b1, ((z & 3) << 6) | w] + rest,
                                    ),
                                    _ => None,
                                }
                            }
                        },
                        None => None,
                    }
                }
            },
            _ => None,
        }
    }
}

/// The character that the URL-safe alphabet of RFC 4648 (section 5) puts
/// in place of a character of the standard one: `-` for `+`, `_` for `/`.
pub open spec fn url_safe_char(c: char) -> char {
    if c == '+' {
        '-'
    } else if c == '/' {
        '_'
    } else {
        c
    }
}

/// Base64 in the URL-safe alphabet, with padding.
pub open spec fn base64_url_encode(data: Seq<u8>) -> Seq<char> {
    base64_encode(data).map_values(|c: char| url_safe_char(c))
}

proof fn lemma_base64_char_value(v: u8)
    requires
        v < 64,
    ensures
        base64_value(base64_char(v)) == Some(v),
{
}

proof fn lemma_sextets(b0: u8, b1: u8, b2: u8)
    ensures
        b0 >> 2 < 64,
        ((b0 & 3) << 4) | (b1 >> 4) < 64,
        ((b1 & 15) << 2) | (b2 >> 6) < 64,
        b2 & 63 < 64,
        ((b0 >> 2) << 2) | ((((b0 & 3) << 4) | (b1 >> 4)) >> 4) == b0,
        ((((b0 & 3) << 4) | (b1 >> 4)) & 15) << 4 | ((((b1 & 15) << 2) | (b2 >> 6)) >> 2) == b1,
        ((((b1 & 15) << 2) | (b2 >> 6)) & 3) << 6 | (b2 & 63) == b2,
{
    assert(b0 >> 2 < 64) by (bit_vector);
    assert(((b0 & 3) << 4) | (b1 >> 4) < 64) by (bit_vector);
    assert(((b1 & 15) << 2) | (b2 >> 6) < 64) by (bit_vector);
    assert(b2 & 63 < 64) by (bit_vector);
    assert(((b0 >> 2) << 2) | ((((b0 & 3) << 4) | (b1 >> 4)) >> 4) == b0) by (bit_vector);
    assert(((((b0 & 3) << 4) | (b1 >> 4)) & 15) << 4 | ((((b1 & 15) << 2) | (b2 >> 6)) >> 2)
        == b1) by (bit_vector);
    assert(((((b1 & 15) << 2) | (b2 >> 6)) & 3) << 6 | (b2 & 63) == b2) by (bit_vector);
}

/// Decoding base64 text gives back the bytes that were encoded.
pub proof fn lemma_base64_round_trip(data: Seq<u8>)
    ensures
        base64_decode(base64_encode(data)) == Some(data),
    decreases data.len(),
{
    if data.len() > 0 {
        let b0 = data[0];
        let b1: u8 = if data.len() > 1 { data[1] } else { 0 };
        let b2: u8 = if data.len() > 2 { data[2] } else { 0 };
        lemma_sextets(b0, b1, b2);
        lemma_base64_char_value(b0 >> 2);
        lemma_base64_char_value(((b0 & 3) << 4) | (b1 >> 4));
        lemma_base64_char_value(((b1 & 15) << 2) | (b2 >> 6));
        lemma_base64_char_value(b2 & 63);
        let t = base64_encode(data);
        if data.len() > 3 {
            lemma_base64_round_trip(data.skip(3));
            assert(t.skip(4) =~= base64_encode(data.skip(3)));
            assert(data =~= seq![b0, b1, b2] + data.skip(3));
        } else if data.len() == 3 {
            assert(t.skip(4) =~= Seq::<char>::empty());
            assert(data =~= seq![b0, b1, b2] + Seq::<u8>::empty());
        } else if data.len() == 2 {
            assert(data =~= seq![b0, b1]);
        } else {
            assert(data =~= seq![b0]);
        }
    }
}

/// Base64 text holds no line break: the standard engine writes no line
/// wrapping.
pub proof fn lemma_base64_has_no_line_break(data: Seq<u8>)
    ensures
        !has_line_break(base64_encode(data)),
    decreases data.len(),
{
    if data.len() > 0 {
        let b0 = data[0];
        let b1: u8 = if data.len() > 1 { data[1] } else { 0 };
        let b2: u8 = if data.len() > 2 { data[2] } else { 0 };
        lemma_sextets(b0, b1, b2);
        let head = seq![
            base64_char(b0 >> 2),
            base64_char(((b0 & 3) << 4) | (b1 >> 4)),
            if data.len() > 1 { base64_char(((b1 & 15) << 2) | (b2 >> 6)) } else { '=' },
            if data.len() > 2 { base64_char(b2 & 63) } else { '=' },
        ];
        assert(!is_line_break(head[0]) && !is_line_break(head[1]) && !is_line_break(head[2])
            && !is_line_break(head[3]));
        let t = base64_encode(data);
        if data.len() > 3 {
            lemma_base64_has_no_line_break(data.skip(3));
            let rest = base64_encode(data.skip(3));
            assert(t == head + rest);
            assert forall|i: int| 0 <= i < t.len() implies !is_line_break(#[trigger] t[i]) by {
                if i < 4 {
                    assert(t[i] == head[i]);
                } else {
                    assert(t[i] == rest[i - 4]);
                }
            }
        } else {
            assert(t == head);
            assert forall|i: int| 0 <= i < t.len() implies !is_line_break(#[trigger] t[i]) by {
                assert(t[i] == head[i]);
            }
        }
    }
}

} // verus!
