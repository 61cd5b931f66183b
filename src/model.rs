//! The mathematical model: scalars as integers modulo the group order, points
//! as their canonical 32-byte encodings, and the text encodings used on the wire.
use vstd::prelude::*;

verus! {

/// The order of the Ristretto group: 2^252 + 27742317777372353535851937790883648493.
pub open spec fn group_order() -> nat {
    18446744073709551616 * 18446744073709551616 * 18446744073709551616 * 1152921504606846976
        + 27742317777372353535851937790883648493
}

/// The integer that a byte string encodes, least significant byte first.
pub open spec fn le_value(b: Seq<u8>) -> nat
    decreases b.len(),
{
    if b.len() == 0 {
        0
    } else {
        b[0] as nat + 256 * le_value(b.drop_first())
    }
}

/// The compressed encoding of `k` times the group's base point.
pub uninterp spec fn ristretto_of(k: nat) -> Seq<u8>;

/// `b` is the 32-byte encoding of the group element `k·G`, and of `j·G`
/// exactly for the `j` congruent to `k` modulo the group order.
pub open spec fn encodes(b: Seq<u8>, k: nat) -> bool {
    &&& b.len() == 32
    &&& forall|j: nat| #[trigger] ristretto_of(j) == b <==> j % group_order() == k % group_order()
}

/// `b` is the canonical encoding of a group element.
pub open spec fn is_point(b: Seq<u8>) -> bool {
    exists|k: nat| encodes(b, k)
}

/// The discrete logarithm, reduced modulo the group order, of the element that `b` encodes.
pub open spec fn dlog(b: Seq<u8>) -> nat {
    (choose|k: nat| encodes(b, k)) % group_order()
}

/// The SHA-512 digest of `data`.
pub uninterp spec fn sha512_of(data: Seq<u8>) -> Seq<u8>;

/// The lowercase hexadecimal digit of a value below 16.
pub open spec fn hex_digit(v: int) -> char {
    if v < 10 {
        (v + 48) as char
    } else {
        (v + 87) as char
    }
}

/// Lowercase hexadecimal text of `b`, two digits per byte, high nibble first.
pub open spec fn hex_of(b: Seq<u8>) -> Seq<char> {
    Seq::new(
        2 * b.len(),
        |i: int|
            if i % 2 == 0 {
                hex_digit(b[i / 2] as int / 16)
            } else {
                hex_digit(b[i / 2] as int % 16)
            },
    )
}

/// A hexadecimal digit of either case.
pub open spec fn is_hex_char(c: char) -> bool {
    ('0' <= c && c <= '9') || ('a' <= c && c <= 'f') || ('A' <= c && c <= 'F')
}

/// The value of a hexadecimal digit.
pub open spec fn hex_val(c: char) -> int {
    if '0' <= c && c <= '9' {
        c as int - 48
    } else if 'a' <= c && c <= 'f' {
        c as int - 87
    } else {
        c as int - 55
    }
}

/// Text that decodes as hexadecimal: an even number of hexadecimal digits.
pub open spec fn is_hex(s: Seq<char>) -> bool {
    s.len() % 2 == 0 && forall|i: int| 0 <= i < s.len() ==> is_hex_char(#[trigger] s[i])
}

/// The bytes that hexadecimal text denotes.
pub open spec fn hex_bytes(s: Seq<char>) -> Seq<u8> {
    Seq::new(s.len() / 2, |i: int| (hex_val(s[2 * i]) * 16 + hex_val(s[2 * i + 1])) as u8)
}

/// The character of the standard base64 alphabet for a six-bit value.
pub open spec fn b64_char(v: int) -> char {
    if v < 26 {
        (v + 65) as char
    } else if v < 52 {
        (v + 71) as char
    } else if v < 62 {
        (v - 4) as char
    } else if v == 62 {
        '+'
    } else {
        '/'
    }
}

/// Standard base64 text of `b`, padded with `=` to a multiple of four characters.
pub open spec fn base64_of(b: Seq<u8>) -> Seq<char>
    decreases b.len(),
{
    if b.len() == 0 {
        Seq::empty()
    } else if b.len() == 1 {
        seq![b64_char((b[0] as int) / 4), b64_char(((b[0] as int) % 4) * 16), '=', '=']
    } else if b.len() == 2 {
        seq![b64_char((b[0] as int) / 4), b64_char(((b[0] as int) % 4) * 16 + (b[1] as int) / 16), b64_char(((b[1] as int) % 16) * 4), '=']
    } else {
        seq![
            b64_char((b[0] as int) / 4),
            b64_char(((b[0] as int) % 4) * 16 + (b[1] as int) / 16),
            b64_char(((b[1] as int) % 16) * 4 + (b[2] as int) / 64),
            b64_char((b[2] as int) % 64),
        ] + base64_of(b.subrange(3, b.len() as int))
    }
}

/// Text that is the base64 encoding of some byte string.
pub open spec fn is_base64(s: Seq<char>) -> bool {
    exists|b: Seq<u8>| base64_of(b) == s
}

/// The bytes whose base64 encoding is `s`.
pub open spec fn base64_bytes(s: Seq<char>) -> Seq<u8> {
    choose|b: Seq<u8>| base64_of(b) == s
}

proof fn lemma_b64_char(v: int, w: int)
    requires
        0 <= v < 64,
        0 <= w < 64,
    ensures
        b64_char(v) != '=',
        b64_char(v) == b64_char(w) ==> v == w,
{
}

/// Distinct byte strings have distinct base64 encodings.
pub proof fn lemma_base64_injective(a: Seq<u8>, b: Seq<u8>)
    requires
        base64_of(a) == base64_of(b),
    ensures
        a == b,
    decreases a.len(),
{
    let ea = base64_of(a);
    if a.len() == 0 || b.len() == 0 {
        if a.len() != 0 || b.len() != 0 {
            assert(ea.len() != base64_of(b).len());
        }
        assert(a =~= b);
    } else {
        assert(ea[0] == base64_of(b)[0]);
        lemma_b64_char((a[0] as int) / 4, (b[0] as int) / 4);
        if a.len() == 1 || a.len() == 2 || b.len() == 1 || b.len() == 2 {
            lemma_b64_char(((a[0] as int) % 4) * 16, ((b[0] as int) % 4) * 16);
            assert(ea[1] == base64_of(b)[1]);
            if a.len() >= 2 && b.len() >= 2 {
                lemma_b64_char(((a[0] as int) % 4) * 16 + (a[1] as int) / 16, ((b[0] as int) % 4) * 16 + (b[1] as int) / 16);
                lemma_b64_char(((a[1] as int) % 16) * 4, ((b[1] as int) % 16) * 4);
                assert(ea[2] == base64_of(b)[2]);
            }
            if a.len() >= 3 {
                lemma_b64_char(((a[1] as int) % 16) * 4 + (a[2] as int) / 64, 0);
                lemma_b64_char((a[2] as int) % 64, 0);
                assert(ea[2] == base64_of(b)[2]);
                assert(ea[3] == base64_of(b)[3]);
            }
            if b.len() >= 3 {
                lemma_b64_char(((b[1] as int) % 16) * 4 + (b[2] as int) / 64, 0);
                lemma_b64_char((b[2] as int) % 64, 0);
                assert(ea[2] == base64_of(b)[2]);
                assert(ea[3] == base64_of(b)[3]);
            }
            if a.len() == 1 && b.len() == 2 {
                lemma_b64_char(((b[1] as int) % 16) * 4, 0);
            }
            if a.len() == 2 && b.len() == 1 {
                lemma_b64_char(((a[1] as int) % 16) * 4, 0);
            }
            assert(a =~= b);
        } else {
            lemma_b64_char(((a[0] as int) % 4) * 16 + (a[1] as int) / 16, ((b[0] as int) % 4) * 16 + (b[1] as int) / 16);
            lemma_b64_char(((a[1] as int) % 16) * 4 + (a[2] as int) / 64, ((b[1] as int) % 16) * 4 + (b[2] as int) / 64);
            lemma_b64_char((a[2] as int) % 64, (b[2] as int) % 64);
            assert(ea[1] == base64_of(b)[1]);
            assert(ea[2] == base64_of(b)[2]);
            assert(ea[3] == base64_of(b)[3]);
            let ra = a.subrange(3, a.len() as int);
            let rb = b.subrange(3, b.len() as int);
            assert(base64_of(ra) =~= ea.subrange(4, ea.len() as int));
            assert(base64_of(rb) =~= base64_of(b).subrange(4, ea.len() as int));
            lemma_base64_injective(ra, rb);
            assert((a[0] as int) == (b[0] as int));
            assert((a[1] as int) == (b[1] as int));
            assert((a[2] as int) == (b[2] as int));
            assert(a =~= seq![a[0], a[1], a[2]] + ra);
            assert(b =~= seq![b[0], b[1], b[2]] + rb);
        }
    }
}

/// Decoding the base64 text of `b` gives `b` back.
pub proof fn lemma_base64_round_trip(b: Seq<u8>)
    ensures
        is_base64(base64_of(b)),
        base64_bytes(base64_of(b)) == b,
{
    let s = base64_of(b);
    assert(base64_of(b) == s);
    let c = base64_bytes(s);
    lemma_base64_injective(c, b);
}

/// Decoding the hexadecimal text of `b` gives `b` back.
pub proof fn lemma_hex_round_trip(b: Seq<u8>)
    ensures
        is_hex(hex_of(b)),
        hex_bytes(hex_of(b)) == b,
{
    let h = hex_of(b);
    assert forall|i: int| 0 <= i < h.len() implies is_hex_char(#[trigger] h[i]) by {
        let v = if i % 2 == 0 { b[i / 2] as int / 16 } else { b[i / 2] as int % 16 };
        assert(0 <= v < 16);
    }
    assert forall|i: int| 0 <= i < b.len() implies #[trigger] hex_bytes(h)[i] == b[i] by {
        assert(h[2 * i] == hex_digit(b[i] as int / 16));
        assert(h[2 * i + 1] == hex_digit(b[i] as int % 16));
    }
    assert(hex_bytes(h) =~= b);
}

} // verus!
