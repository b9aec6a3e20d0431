//! Encoding pipeline: byte-order marks, UTF-16, the UTF-8 fast path and the
//! lossy fallback. The reader always gets Unicode text plus a stable label
//! that tells clean UTF-8 from a best effort.

use vstd::prelude::*;
use vstd::utf8::{decode_utf8, encode_utf8, is_scalar, valid_utf8};

use crate::text::chars_of;

verus! {

broadcast use vstd::seq::group_seq_axioms;

/// Result of decoding one byte stream.
pub struct Decoded {
    pub text: String,
    pub encoding: &'static str,
}

// ---------------------------------------------------------------------------
// Model
// ---------------------------------------------------------------------------

/// `s` with each CR LF pair replaced by LF, from the left.
pub open spec fn crlf_to_lf(s: Seq<char>) -> Seq<char>
    decreases s.len(),
{
    if s.len() == 0 {
        seq![]
    } else if s.len() >= 2 && s[0] == '\r' && s[1] == '\n' {
        seq!['\n'] + crlf_to_lf(s.skip(2))
    } else {
        seq![s[0]] + crlf_to_lf(s.drop_first())
    }
}

/// Whether `s` holds a CR LF pair at position `i`.
pub open spec fn crlf_at(s: Seq<char>, i: int) -> bool {
    0 <= i && i + 1 < s.len() && s[i] == '\r' && s[i + 1] == '\n'
}

/// The first half of a surrogate pair.
pub open spec fn is_high(u: u16) -> bool {
    0xD800 <= u <= 0xDBFF
}

/// The second half of a surrogate pair.
pub open spec fn is_low(u: u16) -> bool {
    0xDC00 <= u <= 0xDFFF
}

/// The character that a surrogate pair stands for.
pub open spec fn pair_char(high: u16, low: u16) -> char {
    (0x10000 + (high - 0xD800) * 0x400 + (low - 0xDC00)) as char
}

/// The characters of a sequence of UTF-16 code units. A half without its
/// partner becomes U+FFFD; a first half takes the unit after it along.
pub open spec fn utf16_chars(u: Seq<u16>) -> Seq<char>
    decreases u.len(),
{
    if u.len() == 0 {
        seq![]
    } else if is_high(u[0]) {
        if u.len() == 1 {
            seq!['\u{FFFD}']
        } else if is_low(u[1]) {
            seq![pair_char(u[0], u[1])] + utf16_chars(u.skip(2))
        } else {
            seq!['\u{FFFD}'] + utf16_chars(u.skip(2))
        }
    } else if is_low(u[0]) {
        seq!['\u{FFFD}'] + utf16_chars(u.skip(1))
    } else {
        seq![u[0] as char] + utf16_chars(u.skip(1))
    }
}

/// The UTF-16 code units of one character.
pub open spec fn char_units(c: char) -> Seq<u16> {
    let v = c as int;
    if v < 0x10000 {
        seq![v as u16]
    } else {
        seq![
            (0xD800 + (v - 0x10000) / 0x400) as u16,
            (0xDC00 + (v - 0x10000) % 0x400) as u16,
        ]
    }
}

/// The UTF-16 code units of a text.
pub open spec fn utf16_units(s: Seq<char>) -> Seq<u16>
    decreases s.len(),
{
    if s.len() == 0 {
        seq![]
    } else {
        char_units(s[0]) + utf16_units(s.drop_first())
    }
}

/// The code unit that two bytes stand for.
pub open spec fn unit_of(first: u8, second: u8, little_endian: bool) -> u16 {
    if little_endian {
        (first + 256 * second) as u16
    } else {
        (256 * first + second) as u16
    }
}

/// The code units of the whole pairs of `bytes`.
pub open spec fn units_of(bytes: Seq<u8>, little_endian: bool) -> Seq<u16> {
    Seq::new(
        bytes.len() / 2,
        |i: int| unit_of(bytes[2 * i], bytes[2 * i + 1], little_endian),
    )
}

/// The bytes of a sequence of code units.
pub open spec fn unit_bytes(u: Seq<u16>, little_endian: bool) -> Seq<u8> {
    Seq::new(
        2 * u.len(),
        |i: int|
            if (i % 2 == 0) == little_endian {
                (u[i / 2] % 256) as u8
            } else {
                (u[i / 2] / 256) as u8
            },
    )
}

/// The text that UTF-16 bytes stand for; an odd byte at the end becomes
/// U+FFFD.
pub open spec fn utf16_text(bytes: Seq<u8>, little_endian: bool) -> Seq<char> {
    let whole = utf16_chars(units_of(bytes, little_endian));
    if bytes.len() % 2 == 1 {
        whole.push('\u{FFFD}')
    } else {
        whole
    }
}

/// UTF-8 bytes as text with their label: exact where they are valid.
pub open spec fn utf8_text(bytes: Seq<u8>) -> (Seq<char>, Seq<char>) {
    if valid_utf8(bytes) {
        (decode_utf8(bytes), "utf-8"@)
    } else {
        (utf8_lossy(bytes), "utf-8-lossy"@)
    }
}

/// Whether `bytes` starts with the UTF-8 byte-order mark.
pub open spec fn has_utf8_mark(bytes: Seq<u8>) -> bool {
    bytes.len() >= 3 && bytes[0] == 0xEF && bytes[1] == 0xBB && bytes[2] == 0xBF
}

/// Whether `bytes` starts with the little-endian UTF-16 byte-order mark.
pub open spec fn has_utf16le_mark(bytes: Seq<u8>) -> bool {
    bytes.len() >= 2 && bytes[0] == 0xFF && bytes[1] == 0xFE
}

/// Whether `bytes` starts with the big-endian UTF-16 byte-order mark.
pub open spec fn has_utf16be_mark(bytes: Seq<u8>) -> bool {
    bytes.len() >= 2 && bytes[0] == 0xFE && bytes[1] == 0xFF
}

/// The text and the label of a byte stream.
pub open spec fn decoded(bytes: Seq<u8>) -> (Seq<char>, Seq<char>) {
    if has_utf8_mark(bytes) {
        utf8_text(bytes.skip(3))
    } else if has_utf16le_mark(bytes) {
        (utf16_text(bytes.skip(2), true), "utf-16le"@)
    } else if has_utf16be_mark(bytes) {
        (utf16_text(bytes.skip(2), false), "utf-16be"@)
    } else {
        utf8_text(bytes)
    }
}

// ---------------------------------------------------------------------------
// Standard library
// ---------------------------------------------------------------------------

/// `core::str::Utf8Error`, carried and never looked into.
#[verifier::external_type_specification]
#[verifier::external_body]
pub struct ExUtf8Error(core::str::Utf8Error);

/// `str::from_utf8` accepts exactly the valid UTF-8 byte sequences, and gives
/// the text that they encode.
pub assume_specification[ core::str::from_utf8 ](v: &[u8]) -> (r: Result<
    &str,
    core::str::Utf8Error,
>)
    ensures
        r is Ok <==> valid_utf8(v@),
        r matches Ok(s) ==> s@ == decode_utf8(v@),
;

/// `char::from_u32` gives the character of a Unicode scalar value, and
/// nothing for any other number.
pub assume_specification[ char::from_u32 ](i: u32) -> (r: Option<char>)
    ensures
        r == (if is_scalar(i) {
            Some(i as char)
        } else {
            None
        }),
;

/// What `String::from_utf8_lossy` makes of bytes.
pub uninterp spec fn utf8_lossy(bytes: Seq<u8>) -> Seq<char>;

/// Calls `String::from_utf8_lossy`: valid UTF-8 comes out as the text that it
/// encodes; how much of an invalid sequence one U+FFFD replaces is left to the
/// standard library.
#[verifier::external_body]
pub(crate) fn from_utf8_lossy(bytes: &[u8]) -> (r: String)
    ensures
        r@ == utf8_lossy(bytes@),
        valid_utf8(bytes@) ==> r@ == decode_utf8(bytes@),
{
    String::from_utf8_lossy(bytes).into_owned()
}

// ---------------------------------------------------------------------------
// Functions
// ---------------------------------------------------------------------------

/// Normalize CRLF to LF in decoded text (Windows shells emit `\r\n`; agents
/// should see the same line endings on every platform).
pub fn normalize_line_endings(text: &str) -> (r: String)
    ensures
        r@ == crlf_to_lf(text@),
{
    let v = chars_of(text);
    let mut out = String::new();
    let mut i: usize = 0;
    proof {
        assert(v@.skip(0) =~= v@);
        assert(Seq::<char>::empty() + crlf_to_lf(v@) =~= crlf_to_lf(v@));
    }
    while i < v.len()
        invariant
            v@ == text@,
            i <= v.len(),
            out@ + crlf_to_lf(v@.skip(i as int)) == crlf_to_lf(text@),
        decreases v.len() - i,
    {
        let ghost before = out@;
        let ghost rest = v@.skip(i as int);
        if v.len() - i >= 2 && v[i] == '\r' && v[i + 1] == '\n' {
            out.push('\n');
            proof {
                assert(rest.skip(2) =~= v@.skip(i + 2));
                assert(before + (seq!['\n'] + crlf_to_lf(v@.skip(i + 2))) =~= out@ + crlf_to_lf(
                    v@.skip(i + 2),
                ));
            }
            i += 2;
        } else {
            out.push(v[i]);
            proof {
                assert(rest.drop_first() =~= v@.skip(i + 1));
                assert(before + (seq![rest[0]] + crlf_to_lf(v@.skip(i + 1))) =~= out@ + crlf_to_lf(
                    v@.skip(i + 1),
                ));
            }
            i += 1;
        }
    }
    proof {
        assert(v@.skip(i as int) =~= Seq::<char>::empty());
        assert(out@ + Seq::<char>::empty() =~= out@);
    }
    out
}

/// UTF-8 bytes as text, exact where they are valid.
fn decode_utf8_bytes(bytes: &[u8]) -> (r: Decoded)
    ensures
        (r.text@, r.encoding@) == utf8_text(bytes@),
{
    match core::str::from_utf8(bytes) {
        Ok(s) => Decoded { text: s.to_string(), encoding: "utf-8" },
        Err(_) => Decoded { text: from_utf8_lossy(bytes), encoding: "utf-8-lossy" },
    }
}

/// Decode raw child output to Unicode text.
///
/// 1. A byte-order mark decides (UTF-8, UTF-16LE, UTF-16BE).
/// 2. Valid UTF-8 is taken as it is.
/// 3. Anything else is decoded lossily and labelled so.
pub fn decode(bytes: &[u8]) -> (r: Decoded)
    ensures
        (r.text@, r.encoding@) == decoded(bytes@),
{
    let n: usize = bytes.len();
    if n >= 3 && bytes[0] == 0xEF && bytes[1] == 0xBB && bytes[2] == 0xBF {
        let rest = vstd::slice::slice_subrange(bytes, 3, n);
        proof {
            assert(rest@ =~= bytes@.skip(3));
        }
        return decode_utf8_bytes(rest);
    }
    if n >= 2 && bytes[0] == 0xFF && bytes[1] == 0xFE {
        let rest = vstd::slice::slice_subrange(bytes, 2, n);
        proof {
            assert(rest@ =~= bytes@.skip(2));
        }
        return Decoded { text: decode_utf16(rest, true), encoding: "utf-16le" };
    }
    if n >= 2 && bytes[0] == 0xFE && bytes[1] == 0xFF {
        let rest = vstd::slice::slice_subrange(bytes, 2, n);
        proof {
            assert(rest@ =~= bytes@.skip(2));
        }
        return Decoded { text: decode_utf16(rest, false), encoding: "utf-16be" };
    }
    decode_utf8_bytes(bytes)
}

/// The code unit at pair `i` of `bytes`.
fn unit_at(bytes: &[u8], i: usize, little_endian: bool) -> (r: u16)
    requires
        i < bytes@.len() / 2,
    ensures
        r == units_of(bytes@, little_endian)[i as int],
{
    let n: usize = bytes.len();
    assert(2 * i + 1 < n);
    let first = bytes[2 * i];
    let second = bytes[2 * i + 1];
    if little_endian {
        first as u16 + 256 * (second as u16)
    } else {
        256 * (first as u16) + second as u16
    }
}

/// UTF-16 bytes as text.
pub fn decode_utf16(units: &[u8], little_endian: bool) -> (r: String)
    ensures
        r@ == utf16_text(units@, little_endian),
{
    let ghost u = units_of(units@, little_endian);
    let count: usize = units.len() / 2;
    let mut out = String::new();
    let mut i: usize = 0;
    proof {
        assert(u.skip(0) =~= u);
        assert(Seq::<char>::empty() + utf16_chars(u) =~= utf16_chars(u));
    }
    while i < count
        invariant
            u == units_of(units@, little_endian),
            count == units@.len() / 2,
            u.len() == count,
            i <= count,
            out@ + utf16_chars(u.skip(i as int)) == utf16_chars(u),
        decreases count - i,
    {
        let ghost before = out@;
        let ghost rest = u.skip(i as int);
        let a = unit_at(units, i, little_endian);
        let mut c = '\u{FFFD}';
        let mut step: usize = 1;
        if 0xD800 <= a && a <= 0xDBFF {
            if count - i >= 2 {
                let b = unit_at(units, i + 1, little_endian);
                step = 2;
                if 0xDC00 <= b && b <= 0xDFFF {
                    let cp: u32 = 0x10000 + (a as u32 - 0xD800) * 0x400 + (b as u32 - 0xDC00);
                    if let Some(x) = char::from_u32(cp) {
                        c = x;
                    }
                    proof {
                        assert(is_scalar(cp));
                        assert(rest[1] == b);
                        assert(c == pair_char(a, b));
                    }
                }
            }
        } else if !(0xDC00 <= a && a <= 0xDFFF) {
            if let Some(x) = char::from_u32(a as u32) {
                c = x;
            }
            proof {
                assert(is_scalar(a as u32));
                assert(c == a as char);
            }
        }
        out.push(c);
        proof {
            assert(rest[0] == a);
            assert(rest.skip(step as int) =~= u.skip(i + step));
            assert(rest.len() == 1 ==> rest.skip(1) =~= Seq::<u16>::empty());
            assert(utf16_chars(rest) =~= seq![c] + utf16_chars(u.skip(i + step)));
            assert(before + (seq![c] + utf16_chars(u.skip(i + step))) =~= out@ + utf16_chars(
                u.skip(i + step),
            ));
        }
        i += step;
    }
    proof {
        assert(u.skip(i as int) =~= Seq::<u16>::empty());
        assert(out@ + Seq::<char>::empty() =~= out@);
    }
    if units.len() % 2 == 1 {
        out.push('\u{FFFD}');
    }
    out
}

/// The number of a character.
fn code_point(c: char) -> (r: u32)
    ensures
        r == c as int,
        r <= 0x10FFFF,
{
    c as u32
}

/// The UTF-16 code units of a text.
pub fn encode_utf16(text: &str) -> (r: Vec<u16>)
    ensures
        r@ == utf16_units(text@),
{
    let v = chars_of(text);
    let mut out: Vec<u16> = Vec::new();
    let mut i: usize = 0;
    proof {
        assert(v@.skip(0) =~= v@);
        assert(Seq::<u16>::empty() + utf16_units(v@) =~= utf16_units(v@));
    }
    while i < v.len()
        invariant
            v@ == text@,
            i <= v.len(),
            out@ + utf16_units(v@.skip(i as int)) == utf16_units(text@),
        decreases v.len() - i,
    {
        let ghost before = out@;
        let ghost rest = v@.skip(i as int);
        let c: u32 = code_point(v[i]);
        if c < 0x10000 {
            out.push(c as u16);
        } else {
            out.push((0xD800 + (c - 0x10000) / 0x400) as u16);
            out.push((0xDC00 + (c - 0x10000) % 0x400) as u16);
        }
        proof {
            assert(rest.drop_first() =~= v@.skip(i + 1));
            assert(out@ =~= before + char_units(rest[0]));
            assert(before + (char_units(rest[0]) + utf16_units(v@.skip(i + 1))) =~= out@
                + utf16_units(v@.skip(i + 1)));
        }
        i += 1;
    }
    proof {
        assert(v@.skip(i as int) =~= Seq::<char>::empty());
        assert(out@ + Seq::<u16>::empty() =~= out@);
    }
    out
}

/// A text as little-endian UTF-16 bytes, without a byte-order mark.
pub fn utf16le_bytes(text: &str) -> (r: Vec<u8>)
    ensures
        r@ == unit_bytes(utf16_units(text@), true),
{
    let units = encode_utf16(text);
    let mut out: Vec<u8> = Vec::new();
    let mut i: usize = 0;
    while i < units.len()
        invariant
            i <= units.len(),
            out@ == unit_bytes(units@.take(i as int), true),
        decreases units.len() - i,
    {
        let u = units[i];
        out.push((u % 256) as u8);
        out.push((u / 256) as u8);
        proof {
            assert(out@ =~= unit_bytes(units@.take(i + 1), true));
        }
        i += 1;
    }
    proof {
        assert(units@.take(units@.len() as int) =~= units@);
    }
    out
}

// ---------------------------------------------------------------------------
// Laws
// ---------------------------------------------------------------------------

/// The code units of one character stand for that character.
proof fn lemma_char_units(c: char)
    ensures
        (c as int) < 0x10000 ==> {
            let u = char_units(c)[0];
            !is_high(u) && !is_low(u) && u as char == c
        },
        (c as int) >= 0x10000 ==> {
            let u = char_units(c);
            is_high(u[0]) && is_low(u[1]) && pair_char(u[0], u[1]) == c
        },
{
    let v = c as int;
    vstd::utf8::char_is_scalar(c);
    if v >= 0x10000 {
        let h = (v - 0x10000) / 0x400;
        let l = (v - 0x10000) % 0x400;
        assert(0 <= h < 0x400);
        assert(0x10000 + h * 0x400 + l == v);
    }
}

/// Decoding the UTF-16 code units of a text gives the text back.
pub proof fn law_utf16_units_roundtrip(s: Seq<char>)
    ensures
        utf16_chars(utf16_units(s)) == s,
    decreases s.len(),
{
    if s.len() > 0 {
        let rest = s.drop_first();
        let u = utf16_units(s);
        law_utf16_units_roundtrip(rest);
        lemma_char_units(s[0]);
        assert(u.skip(char_units(s[0]).len() as int) =~= utf16_units(rest));
        assert(u[0] == char_units(s[0])[0]);
        if s[0] as int >= 0x10000 {
            assert(u[1] == char_units(s[0])[1]);
        }
        assert(seq![s[0]] + rest =~= s);
    }
}

/// Reading the bytes of code units gives the code units back.
proof fn lemma_units_roundtrip(u: Seq<u16>, little_endian: bool)
    ensures
        units_of(unit_bytes(u, little_endian), little_endian) == u,
{
    let b = unit_bytes(u, little_endian);
    assert forall|i: int| 0 <= i < u.len() implies unit_of(b[2 * i], b[2 * i + 1], little_endian)
        == u[i] by {
        assert((2 * i) / 2 == i && (2 * i) % 2 == 0);
        assert((2 * i + 1) / 2 == i && (2 * i + 1) % 2 == 1);
    }
    assert(units_of(b, little_endian) =~= u);
}

/// A text written as UTF-16 bytes, in either byte order, is read back.
pub proof fn law_utf16_bytes_roundtrip(s: Seq<char>, little_endian: bool)
    ensures
        utf16_text(unit_bytes(utf16_units(s), little_endian), little_endian) == s,
{
    law_utf16_units_roundtrip(s);
    lemma_units_roundtrip(utf16_units(s), little_endian);
}

/// A text written as UTF-16, in either byte order and behind its byte-order
/// mark, decodes to the same text under the label of that order.
pub proof fn law_decode_utf16(s: Seq<char>, little_endian: bool)
    ensures
        ({
            let mark = if little_endian {
                seq![0xFFu8, 0xFEu8]
            } else {
                seq![0xFEu8, 0xFFu8]
            };
            decoded(mark + unit_bytes(utf16_units(s), little_endian)) == (
                s,
                if little_endian {
                    "utf-16le"@
                } else {
                    "utf-16be"@
                },
            )
        }),
{
    let mark = if little_endian {
        seq![0xFFu8, 0xFEu8]
    } else {
        seq![0xFEu8, 0xFFu8]
    };
    let body = unit_bytes(utf16_units(s), little_endian);
    law_utf16_units_roundtrip(s);
    lemma_units_roundtrip(utf16_units(s), little_endian);
    assert((mark + body).skip(2) =~= body);
}

/// A text written as UTF-8 decodes to itself and is labelled clean, unless it
/// starts with U+FEFF, which is taken for a byte-order mark.
pub proof fn law_decode_utf8(s: Seq<char>)
    requires
        s.len() > 0 ==> s[0] != '\u{FEFF}',
    ensures
        decoded(encode_utf8(s)) == (s, "utf-8"@),
{
    let b = encode_utf8(s);
    vstd::utf8::encode_utf8_valid_utf8(s);
    vstd::utf8::encode_utf8_decode_utf8(s);
    if s.len() > 0 {
        vstd::utf8::encode_utf8_first_scalar(s);
        vstd::utf8::char_is_scalar(s[0]);
        let first = b[0];
        assert(vstd::utf8::is_leading_byte_width_1(first) || vstd::utf8::is_leading_byte_width_2(
            first,
        ) || vstd::utf8::is_leading_byte_width_3(first) || vstd::utf8::is_leading_byte_width_4(
            first,
        ) ==> first != 0xFF && first != 0xFE) by (bit_vector);
        if has_utf8_mark(b) {
            assert(vstd::utf8::is_leading_byte_width_3(0xEFu8)
                && !vstd::utf8::is_leading_byte_width_1(0xEFu8)
                && !vstd::utf8::is_leading_byte_width_2(0xEFu8)) by (bit_vector);
            assert(vstd::utf8::codepoint_width_3(0xEFu8, 0xBBu8, 0xBFu8) == 0xFEFFu32)
                by (bit_vector);
        }
    }
}

/// A text written as UTF-8 behind the byte-order mark decodes to itself, with
/// the mark gone, and is labelled clean.
pub proof fn law_decode_utf8_mark(s: Seq<char>)
    ensures
        decoded(seq![0xEFu8, 0xBBu8, 0xBFu8] + encode_utf8(s)) == (s, "utf-8"@),
{
    let mark = seq![0xEFu8, 0xBBu8, 0xBFu8];
    vstd::utf8::encode_utf8_valid_utf8(s);
    vstd::utf8::encode_utf8_decode_utf8(s);
    assert((mark + encode_utf8(s)).skip(3) =~= encode_utf8(s));
}

/// The label tells clean text from a best effort: a stream is labelled
/// `utf-8` exactly if, behind an optional UTF-8 mark, it is valid UTF-8 and
/// bears no UTF-16 mark; its text is then exactly what the bytes encode.
pub proof fn law_clean_label(bytes: Seq<u8>)
    ensures
        ({
            let body = if has_utf8_mark(bytes) {
                bytes.skip(3)
            } else {
                bytes
            };
            let clean = valid_utf8(body) && !has_utf16le_mark(bytes) && !has_utf16be_mark(bytes);
            &&& decoded(bytes).1 == "utf-8"@ <==> clean
            &&& clean ==> decoded(bytes).0 == decode_utf8(body)
        }),
{
    reveal_strlit("utf-8");
    reveal_strlit("utf-8-lossy");
    reveal_strlit("utf-16le");
    reveal_strlit("utf-16be");
    assert("utf-8"@.len() == 5);
    assert("utf-8-lossy"@.len() == 11);
    assert("utf-16le"@.len() == 8);
    assert("utf-16be"@.len() == 8);
}

/// Bytes that are no valid UTF-8 and bear no mark are a best effort, and say so.
pub proof fn law_best_effort_is_labelled(bytes: Seq<u8>)
    requires
        !has_utf16le_mark(bytes),
        !has_utf16be_mark(bytes),
    ensures
        !has_utf8_mark(bytes) && !valid_utf8(bytes) ==> decoded(bytes) == (
            utf8_lossy(bytes),
            "utf-8-lossy"@,
        ),
        has_utf8_mark(bytes) && !valid_utf8(bytes.skip(3)) ==> decoded(bytes) == (
            utf8_lossy(bytes.skip(3)),
            "utf-8-lossy"@,
        ),
{
}

/// Of a code unit in little-endian order the low byte comes first, in big-endian
/// order the high byte, written and read.
pub proof fn law_byte_order(u: u16, first: u8, second: u8)
    ensures
        unit_bytes(seq![u], true)[0] == u % 256 && unit_bytes(seq![u], true)[1] == u / 256,
        unit_bytes(seq![u], false)[0] == u / 256 && unit_bytes(seq![u], false)[1] == u % 256,
        units_of(seq![first, second], true)[0] == first + 256 * second,
        units_of(seq![first, second], false)[0] == 256 * first + second,
        units_of(seq![first, second], true).len() == 1,
{
}

/// A character of the first 65536 is one code unit, its own number. Any other is a
/// pair, whose halves give its number less 65536, ten bits each.
pub proof fn law_code_units_of_a_character(c: char)
    ensures
        (c as int) < 0x10000 ==> utf16_units(seq![c]).len() == 1 && utf16_units(seq![c])[0] == c
            as int,
        (c as int) >= 0x10000 ==> {
            let u = utf16_units(seq![c]);
            &&& u.len() == 2
            &&& 0xD800 <= u[0] <= 0xDBFF
            &&& 0xDC00 <= u[1] <= 0xDFFF
            &&& c as int == 0x10000 + (u[0] - 0xD800) * 0x400 + (u[1] - 0xDC00)
        },
{
    let s = seq![c];
    vstd::utf8::char_is_scalar(c);
    assert(s.drop_first() =~= Seq::<char>::empty());
    assert(utf16_units(s.drop_first()) =~= Seq::<u16>::empty());
    assert(utf16_units(s) =~= char_units(c));
}

/// UTF-16 text is decoded from the front: what follows it is decoded on its own.
pub proof fn law_text_is_decoded_from_the_front(s: Seq<char>, rest: Seq<u16>)
    ensures
        utf16_chars(utf16_units(s) + rest) == s + utf16_chars(rest),
    decreases s.len(),
{
    let u = utf16_units(s) + rest;
    if s.len() == 0 {
        assert(u =~= rest);
        assert(utf16_chars(u) =~= s + utf16_chars(rest));
    } else {
        let tail = s.drop_first();
        law_text_is_decoded_from_the_front(tail, rest);
        lemma_char_units(s[0]);
        let k = char_units(s[0]).len() as int;
        assert(u.skip(k) =~= utf16_units(tail) + rest);
        assert(u[0] == char_units(s[0])[0]);
        if s[0] as int >= 0x10000 {
            assert(u[1] == char_units(s[0])[1]);
        }
        assert(seq![s[0]] + (tail + utf16_chars(rest)) =~= s + utf16_chars(rest));
    }
}

/// Half of a surrogate pair without its other half becomes the replacement
/// character, wherever it stands: a second half alone; a first half at the end; a
/// first half together with the unit behind it, where that is no second half. What
/// stands around it is decoded as ever. Half a code unit at the end becomes one
/// too.
pub proof fn law_unpaired_half_is_replaced(
    s: Seq<char>,
    half: u16,
    other: u16,
    rest: Seq<u16>,
    odd: u8,
    little_endian: bool,
)
    requires
        is_high(half) || is_low(half),
        !is_low(other),
    ensures
        utf16_chars(utf16_units(s).push(half)) == s.push('\u{FFFD}'),
        is_low(half) ==> utf16_chars(utf16_units(s) + (seq![half] + rest)) == s.push('\u{FFFD}')
            + utf16_chars(rest),
        is_high(half) ==> utf16_chars(utf16_units(s) + (seq![half, other] + rest)) == s.push(
            '\u{FFFD}',
        ) + utf16_chars(rest),
        utf16_text(unit_bytes(utf16_units(s), little_endian).push(odd), little_endian) == s.push(
            '\u{FFFD}',
        ),
{
    let u = utf16_units(s);
    let last = seq![half];
    assert(u.push(half) =~= u + last);
    law_text_is_decoded_from_the_front(s, last);
    assert(last.skip(1) =~= Seq::<u16>::empty());
    assert(utf16_chars(last.skip(1)) =~= Seq::<char>::empty());
    assert(utf16_chars(last) =~= seq!['\u{FFFD}']);
    assert(s + seq!['\u{FFFD}'] =~= s.push('\u{FFFD}'));
    let lone = seq![half] + rest;
    law_text_is_decoded_from_the_front(s, lone);
    assert(lone.skip(1) =~= rest);
    let two = seq![half, other] + rest;
    law_text_is_decoded_from_the_front(s, two);
    assert(two.skip(2) =~= rest);
    assert(s + (seq!['\u{FFFD}'] + utf16_chars(rest)) =~= s.push('\u{FFFD}') + utf16_chars(rest));
    let b = unit_bytes(u, little_endian);
    let longer = b.push(odd);
    lemma_units_roundtrip(u, little_endian);
    assert(longer.len() / 2 == u.len());
    assert(units_of(longer, little_endian) =~= units_of(b, little_endian));
    law_utf16_units_roundtrip(s);
}

/// Each CR LF pair, and nothing else, becomes a line feed: what stands before and
/// behind a pair is taken on its own.
pub proof fn law_line_endings_are_taken_one_by_one(a: Seq<char>, b: Seq<char>)
    ensures
        crlf_to_lf(a + seq!['\r', '\n'] + b) == crlf_to_lf(a) + seq!['\n'] + crlf_to_lf(b),
    decreases a.len(),
{
    let s = a + seq!['\r', '\n'] + b;
    if a.len() == 0 {
        assert(s[0] == '\r' && s[1] == '\n');
        assert(s.skip(2) =~= b);
        assert(crlf_to_lf(s) =~= crlf_to_lf(a) + seq!['\n'] + crlf_to_lf(b));
    } else if a.len() >= 2 && a[0] == '\r' && a[1] == '\n' {
        law_line_endings_are_taken_one_by_one(a.skip(2), b);
        assert(s[0] == a[0] && s[1] == a[1]);
        assert(s.skip(2) =~= a.skip(2) + seq!['\r', '\n'] + b);
        assert(crlf_to_lf(s) =~= crlf_to_lf(a) + seq!['\n'] + crlf_to_lf(b));
    } else {
        law_line_endings_are_taken_one_by_one(a.drop_first(), b);
        assert(s[0] == a[0]);
        assert(a.len() >= 2 ==> s[1] == a[1]);
        assert(a.len() == 1 ==> s[1] == '\r');
        assert(s.drop_first() =~= a.drop_first() + seq!['\r', '\n'] + b);
        assert(crlf_to_lf(s) =~= crlf_to_lf(a) + seq!['\n'] + crlf_to_lf(b));
    }
}

/// Text without a CR LF pair is left as it is.
pub proof fn law_normalize_keeps_lf_text(s: Seq<char>)
    requires
        forall|i: int| !crlf_at(s, i),
    ensures
        crlf_to_lf(s) == s,
    decreases s.len(),
{
    if s.len() > 0 {
        let rest = s.drop_first();
        assert(!crlf_at(s, 0));
        assert forall|i: int| !crlf_at(rest, i) by {
            assert(!crlf_at(s, i + 1));
        }
        law_normalize_keeps_lf_text(rest);
        assert(seq![s[0]] + rest =~= s);
    }
}

/// Normalized text holds no CR LF pair, unless a CR stood right before one.
pub proof fn law_normalized_has_no_crlf(s: Seq<char>)
    requires
        forall|i: int| #![trigger s[i]] 0 <= i < s.len() && s[i] == '\r' ==> !crlf_at(s, i + 1),
    ensures
        forall|i: int| !crlf_at(crlf_to_lf(s), i),
    decreases s.len(),
{
    if s.len() > 0 {
        if crlf_at(s, 0) {
            let rest = s.skip(2);
            assert forall|i: int| #![trigger rest[i]]
                0 <= i < rest.len() && rest[i] == '\r' implies !crlf_at(rest, i + 1) by {
                assert(s[i + 2] == rest[i]);
                assert(!crlf_at(s, i + 3));
            }
            law_normalized_has_no_crlf(rest);
            let t = crlf_to_lf(rest);
            assert forall|i: int| !crlf_at(crlf_to_lf(s), i) by {
                assert(!crlf_at(t, i - 1));
            }
        } else {
            let rest = s.drop_first();
            assert forall|i: int| #![trigger rest[i]]
                0 <= i < rest.len() && rest[i] == '\r' implies !crlf_at(rest, i + 1) by {
                assert(s[i + 1] == rest[i]);
                assert(!crlf_at(s, i + 2));
            }
            law_normalized_has_no_crlf(rest);
            let t = crlf_to_lf(rest);
            assert forall|i: int| !crlf_at(crlf_to_lf(s), i) by {
                assert(!crlf_at(t, i - 1));
                if i == 0 && s[0] == '\r' {
                    assert(!crlf_at(s, 1));
                    assert(!crlf_at(s, 0));
                    if rest.len() > 0 {
                        assert(t[0] == rest[0]);
                    }
                }
            }
        }
    }
}

} // verus!
