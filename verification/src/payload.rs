//! Script payloads: text as base64 of its UTF-16LE bytes.

use vstd::prelude::*;

use base64::Engine;

use crate::encoding::{unit_bytes, utf16_units, utf16le_bytes};

verus! {

broadcast use vstd::seq::group_seq_axioms;

// ---------------------------------------------------------------------------
// Base64
// ---------------------------------------------------------------------------

/// The character of a six-bit value in the standard alphabet.
pub open spec fn base64_char(v: int) -> char {
    if v < 26 {
        ((65 + v) as u32) as char
    } else if v < 52 {
        ((97 + v - 26) as u32) as char
    } else if v < 62 {
        ((48 + v - 52) as u32) as char
    } else if v == 62 {
        '+'
    } else {
        '/'
    }
}

/// Standard base64 with padding: three bytes are four characters.
pub open spec fn base64_text(b: Seq<u8>) -> Seq<char>
    decreases b.len(),
{
    if b.len() == 0 {
        seq![]
    } else if b.len() == 1 {
        seq![base64_char(b[0] as int / 4), base64_char(b[0] as int % 4 * 16), '=', '=']
    } else if b.len() == 2 {
        seq![
            base64_char(b[0] as int / 4),
            base64_char(b[0] as int % 4 * 16 + b[1] as int / 16),
            base64_char(b[1] as int % 16 * 4),
            '=',
        ]
    } else {
        seq![
            base64_char(b[0] as int / 4),
            base64_char(b[0] as int % 4 * 16 + b[1] as int / 16),
            base64_char(b[1] as int % 16 * 4 + b[2] as int / 64),
            base64_char(b[2] as int % 64),
        ] + base64_text(b.skip(3))
    }
}

/// The length of the base64 text of so many bytes.
pub open spec fn base64_len(n: int) -> int {
    (n + 2) / 3 * 4
}

/// Calls `Engine::encode` of `base64` with its standard engine: the RFC 4648
/// alphabet with `+` and `/`, padded with `=`. The call panics where the text
/// would not fit into memory, so such bytes are left out.
#[verifier::external_body]
fn base64_encode(bytes: &[u8]) -> (r: String)
    requires
        base64_len(bytes@.len() as int) <= isize::MAX,
    ensures
        r@ == base64_text(bytes@),
{
    base64::engine::general_purpose::STANDARD.encode(bytes)
}

/// The UTF-16LE bytes of a text, as base64.
pub fn base64_utf16le(text: &str) -> (r: String)
    requires
        base64_len(unit_bytes(utf16_units(text@), true).len() as int) <= isize::MAX,
    ensures
        r@ == base64_text(unit_bytes(utf16_units(text@), true)),
{
    let bytes = utf16le_bytes(text);
    base64_encode(bytes.as_slice())
}

// ---------------------------------------------------------------------------
// Reading base64 back
// ---------------------------------------------------------------------------

/// The six-bit value of a character of the standard alphabet.
pub open spec fn base64_value(c: char) -> int {
    if 'A' <= c <= 'Z' {
        c as int - 65
    } else if 'a' <= c <= 'z' {
        c as int - 97 + 26
    } else if '0' <= c <= '9' {
        c as int - 48 + 52
    } else if c == '+' {
        62
    } else {
        63
    }
}

/// The bytes that padded standard base64 stands for.
pub open spec fn base64_bytes(s: Seq<char>) -> Seq<u8>
    decreases s.len(),
{
    if s.len() < 4 {
        seq![]
    } else {
        let a = base64_value(s[0]);
        let b = base64_value(s[1]);
        let first = (a * 4 + b / 16) as u8;
        if s[2] == '=' {
            seq![first]
        } else {
            let c = base64_value(s[2]);
            let second = (b % 16 * 16 + c / 4) as u8;
            if s[3] == '=' {
                seq![first, second]
            } else {
                let d = base64_value(s[3]);
                seq![first, second, (c % 4 * 64 + d) as u8] + base64_bytes(s.skip(4))
            }
        }
    }
}

proof fn lemma_base64_char(v: int)
    requires
        0 <= v < 64,
    ensures
        base64_value(base64_char(v)) == v,
        base64_char(v) != '=',
{
}

/// Three bytes are four characters that stand for the same number, six bits each,
/// and the rest follows on its own.
pub proof fn law_base64_groups(a: u8, b: u8, c: u8, rest: Seq<u8>)
    ensures
        ({
            let t = base64_text(seq![a, b, c] + rest);
            &&& t.skip(4) == base64_text(rest)
            &&& base64_value(t[0]) * 262144 + base64_value(t[1]) * 4096 + base64_value(t[2]) * 64
                + base64_value(t[3]) == a * 65536 + b * 256 + c
        }),
        base64_text(seq![a, b]).last() == '=' && base64_text(seq![a, b])[2] != '=',
        base64_text(seq![a]).skip(2) == seq!['=', '='] && base64_text(seq![a])[1] != '=',
{
    let all = seq![a, b, c] + rest;
    assert(all.skip(3) =~= rest);
    assert(all[0] == a && all[1] == b && all[2] == c);
    let (x, y, z) = (a as int, b as int, c as int);
    lemma_base64_char(x / 4);
    lemma_base64_char(x % 4 * 16 + y / 16);
    lemma_base64_char(y % 16 * 4 + z / 64);
    lemma_base64_char(z % 64);
    lemma_base64_char(y % 16 * 4);
    lemma_base64_char(x % 4 * 16);
    let t = base64_text(all);
    assert(t.skip(4) =~= base64_text(rest));
    let one = seq![a];
    assert(base64_text(one).skip(2) =~= seq!['=', '=']);
}

/// The figures of base64 are the capital letters, the small letters, the digits,
/// the plus sign and the slash, in this order.
pub proof fn law_base64_alphabet(i: int)
    ensures
        0 <= i < 26 ==> base64_char(i) as int == 'A' as int + i,
        0 <= i < 26 ==> base64_char(26 + i) as int == 'a' as int + i,
        0 <= i < 10 ==> base64_char(52 + i) as int == '0' as int + i,
        base64_char(62) == '+',
        base64_char(63) == '/',
{
}

/// Base64 gives back the bytes that went into it.
pub proof fn law_base64_roundtrip(b: Seq<u8>)
    ensures
        base64_bytes(base64_text(b)) == b,
    decreases b.len(),
{
    let s = base64_text(b);
    if b.len() == 0 {
        assert(base64_bytes(s) =~= b);
    } else {
        let x = b[0] as int;
        lemma_base64_char(x / 4);
        if b.len() == 1 {
            lemma_base64_char(x % 4 * 16);
            assert(base64_bytes(s) =~= b);
        } else {
            let y = b[1] as int;
            lemma_base64_char(x % 4 * 16 + y / 16);
            if b.len() == 2 {
                lemma_base64_char(y % 16 * 4);
                assert(base64_bytes(s) =~= b);
            } else {
                let z = b[2] as int;
                lemma_base64_char(y % 16 * 4 + z / 64);
                lemma_base64_char(z % 64);
                law_base64_roundtrip(b.skip(3));
                assert(s.skip(4) =~= base64_text(b.skip(3)));
                assert(base64_bytes(s) =~= b);
            }
        }
    }
}

/// Base64 text is as long as its bytes say.
pub proof fn law_base64_len(b: Seq<u8>)
    ensures
        base64_text(b).len() == base64_len(b.len() as int),
    decreases b.len(),
{
    if b.len() >= 3 {
        law_base64_len(b.skip(3));
    }
}

} // verus!
