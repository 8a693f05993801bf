use rand::Rng;
use vstd::prelude::*;
use crate::header::{has_line_break, is_line_break};

verus! {

/// The character of a hexadecimal digit, in lower case.
pub open spec fn hex_digit(d: nat) -> char {
    if d == 0 {
        '0'
    } else if d == 1 {
        '1'
    } else if d == 2 {
        '2'
    } else if d == 3 {
        '3'
    } else if d == 4 {
        '4'
    } else if d == 5 {
        '5'
    } else if d == 6 {
        '6'
    } else if d == 7 {
        '7'
    } else if d == 8 {
        '8'
    } else if d == 9 {
        '9'
    } else if d == 10 {
        'a'
    } else if d == 11 {
        'b'
    } else if d == 12 {
        'c'
    } else if d == 13 {
        'd'
    } else if d == 14 {
        'e'
    } else {
        'f'
    }
}

/// The two lower-case hexadecimal digits of a byte, as `{:02x}` writes it.
pub open spec fn hex_byte(b: u8) -> Seq<char> {
    seq![hex_digit((b / 16) as nat), hex_digit((b % 16) as nat)]
}

/// The lower-case hexadecimal text of a byte sequence, two digits a byte.
pub open spec fn hex_lower(bytes: Seq<u8>) -> Seq<char>
    decreases bytes.len(),
{
    if bytes.len() == 0 {
        Seq::empty()
    } else {
        hex_lower(bytes.drop_last()) + hex_byte(bytes.last())
    }
}

/// The MIME boundary made from some bytes: `boundary_` and their hex text.
pub open spec fn boundary_text(bytes: Seq<u8>) -> Seq<char> {
    "boundary_"@ + hex_lower(bytes)
}

/// A boundary as `generate_boundary` makes it: from sixteen bytes.
pub open spec fn is_generated_boundary(b: Seq<char>) -> bool {
    exists|bytes: Seq<u8>| bytes.len() == 16 && b == boundary_text(bytes)
}

fn hex_digit_str(d: u8) -> (s: &'static str)
    requires
        d < 16,
    ensures
        s@ == seq![hex_digit(d as nat)],
{
    proof {
        reveal_strlit("0");
        reveal_strlit("1");
        reveal_strlit("2");
        reveal_strlit("3");
        reveal_strlit("4");
        reveal_strlit("5");
        reveal_strlit("6");
        reveal_strlit("7");
        reveal_strlit("8");
        reveal_strlit("9");
        reveal_strlit("a");
        reveal_strlit("b");
        reveal_strlit("c");
        reveal_strlit("d");
        reveal_strlit("e");
        reveal_strlit("f");
    }
    if d == 0 {
        "0"
    } else if d == 1 {
        "1"
    } else if d == 2 {
        "2"
    } else if d == 3 {
        "3"
    } else if d == 4 {
        "4"
    } else if d == 5 {
        "5"
    } else if d == 6 {
        "6"
    } else if d == 7 {
        "7"
    } else if d == 8 {
        "8"
    } else if d == 9 {
        "9"
    } else if d == 10 {
        "a"
    } else if d == 11 {
        "b"
    } else if d == 12 {
        "c"
    } else if d == 13 {
        "d"
    } else if d == 14 {
        "e"
    } else {
        "f"
    }
}

/// The MIME boundary made from the given bytes.
pub fn boundary_from_bytes(bytes: &[u8]) -> (b: String)
    ensures
        b@ == boundary_text(bytes@),
{
    let mut b = String::from_str("boundary_");
    let n = bytes.len();
    for i in 0..n
        invariant
            n == bytes@.len(),
            b@ == "boundary_"@ + hex_lower(bytes@.take(i as int)),
    {
        let byte = bytes[i];
        b.append(hex_digit_str(byte / 16));
        b.append(hex_digit_str(byte % 16));
        assert(bytes@.take(i + 1).drop_last() =~= bytes@.take(i as int));
    }
    assert(bytes@.take(n as int) =~= bytes@);
    b
}

/// A character that `hex_digit` can give.
pub open spec fn is_hex_char(c: char) -> bool {
    ('0' <= c <= '9') || ('a' <= c <= 'f')
}

proof fn lemma_hex_digit_injective(d1: nat, d2: nat)
    requires
        d1 < 16,
        d2 < 16,
        hex_digit(d1) == hex_digit(d2),
    ensures
        d1 == d2,
{
}

proof fn lemma_hex_lower_len(bytes: Seq<u8>)
    ensures
        hex_lower(bytes).len() == 2 * bytes.len(),
    decreases bytes.len(),
{
    if bytes.len() > 0 {
        lemma_hex_lower_len(bytes.drop_last());
    }
}

proof fn lemma_hex_lower_chars(bytes: Seq<u8>)
    ensures
        forall|i: int| 0 <= i < hex_lower(bytes).len() ==> is_hex_char(#[trigger] hex_lower(bytes)[i]),
    decreases bytes.len(),
{
    if bytes.len() > 0 {
        lemma_hex_lower_chars(bytes.drop_last());
        let b = bytes.last();
        assert(is_hex_char(hex_digit((b / 16) as nat)));
        assert(is_hex_char(hex_digit((b % 16) as nat)));
        let h = hex_lower(bytes);
        let p = hex_lower(bytes.drop_last());
        assert forall|i: int| 0 <= i < h.len() implies is_hex_char(#[trigger] h[i]) by {
            if i < p.len() {
                assert(h[i] == p[i]);
            } else {
                assert(h[i] == hex_byte(b)[i - p.len()]);
            }
        }
    }
}

/// The hex text of a byte sequence determines the sequence: two different
/// byte sequences never give the same boundary.
pub proof fn lemma_boundary_text_injective(a: Seq<u8>, b: Seq<u8>)
    requires
        boundary_text(a) == boundary_text(b),
    ensures
        a == b,
{
    let p = "boundary_"@;
    assert(hex_lower(a) =~= boundary_text(a).subrange(p.len() as int, boundary_text(a).len() as int));
    assert(hex_lower(b) =~= boundary_text(b).subrange(p.len() as int, boundary_text(b).len() as int));
    lemma_hex_lower_injective(a, b);
}

proof fn lemma_hex_lower_injective(a: Seq<u8>, b: Seq<u8>)
    requires
        hex_lower(a) == hex_lower(b),
    ensures
        a == b,
    decreases a.len(),
{
    lemma_hex_lower_len(a);
    lemma_hex_lower_len(b);
    if a.len() > 0 {
        let ha = hex_lower(a.drop_last());
        let hb = hex_lower(b.drop_last());
        lemma_hex_lower_len(a.drop_last());
        lemma_hex_lower_len(b.drop_last());
        assert(ha =~= hex_lower(a).subrange(0, ha.len() as int));
        assert(hb =~= hex_lower(b).subrange(0, hb.len() as int));
        lemma_hex_lower_injective(a.drop_last(), b.drop_last());
        let x = a.last();
        let y = b.last();
        let n = hex_lower(a).len() as int;
        assert(hex_lower(a)[n - 2] == hex_digit((x / 16) as nat));
        assert(hex_lower(b)[n - 2] == hex_digit((y / 16) as nat));
        assert(hex_lower(a)[n - 1] == hex_digit((x % 16) as nat));
        assert(hex_lower(b)[n - 1] == hex_digit((y % 16) as nat));
        lemma_hex_digit_injective((x / 16) as nat, (y / 16) as nat);
        lemma_hex_digit_injective((x % 16) as nat, (y % 16) as nat);
        assert(x == (x / 16) * 16 + x % 16);
        assert(y == (y / 16) * 16 + y % 16);
        assert(a =~= a.drop_last().push(x));
        assert(b =~= b.drop_last().push(y));
    }
}

/// A boundary holds no carriage return or line feed.
pub proof fn lemma_boundary_text_has_no_line_break(bytes: Seq<u8>)
    ensures
        !has_line_break(boundary_text(bytes)),
{
    reveal_strlit("boundary_");
    lemma_hex_lower_chars(bytes);
    let t = boundary_text(bytes);
    assert forall|i: int| 0 <= i < t.len() implies !is_line_break(#[trigger] t[i]) by {
        if i >= 9 {
            assert(t[i] == hex_lower(bytes)[i - 9]);
        }
    }
}

/// The value of a lower-case hexadecimal digit; `None` for any other
/// character.
pub open spec fn lower_hex_value(c: char) -> Option<int> {
    if '0' <= c <= '9' {
        Some(c as int - 48)
    } else if 'a' <= c <= 'f' {
        Some(c as int - 87)
    } else {
        None
    }
}

proof fn lemma_hex_digit_value(d: nat)
    requires
        d < 16,
    ensures
        lower_hex_value(hex_digit(d)) == Some(d as int),
{
}

proof fn lemma_hex_lower_spells(bytes: Seq<u8>)
    ensures
        hex_lower(bytes).len() == 2 * bytes.len(),
        forall|i: int|
            0 <= i < bytes.len() ==> lower_hex_value(#[trigger] hex_lower(bytes)[2 * i]) == Some(
                bytes[i] as int / 16,
            ) && lower_hex_value(hex_lower(bytes)[2 * i + 1]) == Some(bytes[i] as int % 16),
    decreases bytes.len(),
{
    lemma_hex_lower_len(bytes);
    if bytes.len() > 0 {
        let rest = bytes.drop_last();
        lemma_hex_lower_spells(rest);
        let h = hex_lower(bytes);
        let p = hex_lower(rest);
        let b = bytes.last();
        lemma_hex_digit_value((b / 16) as nat);
        lemma_hex_digit_value((b % 16) as nat);
        assert forall|i: int| 0 <= i < bytes.len() implies lower_hex_value(
            #[trigger] h[2 * i],
        ) == Some(bytes[i] as int / 16) && lower_hex_value(h[2 * i + 1]) == Some(bytes[i] as int % 16) by {
            if i < rest.len() {
                assert(h[2 * i] == p[2 * i]);
                assert(h[2 * i + 1] == p[2 * i + 1]);
                assert(bytes[i] == rest[i]);
            } else {
                assert(h[2 * i] == hex_byte(b)[0]);
                assert(h[2 * i + 1] == hex_byte(b)[1]);
            }
        }
    }
}

/// A boundary spells out its bytes: after the prefix `boundary_` come two
/// lower-case hexadecimal digits for each byte, in order, the high half
/// first.
pub proof fn lemma_boundary_spells_bytes(bytes: Seq<u8>)
    ensures
        boundary_text(bytes).len() == 9 + 2 * bytes.len(),
        boundary_text(bytes).take(9) == "boundary_"@,
        forall|i: int|
            0 <= i < bytes.len() ==> lower_hex_value(#[trigger] boundary_text(bytes)[9 + 2 * i])
                == Some(bytes[i] as int / 16) && lower_hex_value(boundary_text(bytes)[10 + 2 * i])
                == Some(bytes[i] as int % 16),
{
    reveal_strlit("boundary_");
    lemma_hex_lower_spells(bytes);
    let t = boundary_text(bytes);
    let h = hex_lower(bytes);
    assert(t.take(9) =~= "boundary_"@);
    assert forall|i: int| 0 <= i < bytes.len() implies lower_hex_value(#[trigger] t[9 + 2 * i])
        == Some(bytes[i] as int / 16) && lower_hex_value(t[10 + 2 * i]) == Some(bytes[i] as int % 16) by {
        assert(t[9 + 2 * i] == h[2 * i]);
        assert(t[10 + 2 * i] == h[2 * i + 1]);
    }
}

/// Sixteen random bytes from the thread-local generator of `rand`.
#[verifier::external_body]
fn random_boundary_bytes() -> [u8; 16] {
    rand::thread_rng().gen::<[u8; 16]>()
}

/// A fresh random MIME boundary: `boundary_` and the hex text of sixteen
/// random bytes.
pub fn generate_boundary() -> (b: String)
    ensures
        is_generated_boundary(b@),
{
    let bytes = random_boundary_bytes();
    let b = boundary_from_bytes(vstd::array::array_as_slice(&bytes));
    assert(bytes@.len() == 16);
    b
}

} // verus!
