//! Integers as decimal text.

use vstd::prelude::*;

use crate::text::chars_of;

verus! {

broadcast use vstd::seq::group_seq_axioms;

// ---------------------------------------------------------------------------
// Model
// ---------------------------------------------------------------------------

/// The character of a decimal digit.
pub open spec fn digit_char(d: int) -> char {
    ((48 + d) as u32) as char
}

/// Whether a character is a decimal digit.
pub open spec fn is_digit(c: char) -> bool {
    '0' <= c <= '9'
}

/// The value of a decimal digit.
pub open spec fn digit_value(c: char) -> int {
    c as int - 48
}

/// The decimal text of a natural number, without leading zeros.
pub open spec fn decimal(n: nat) -> Seq<char>
    decreases n,
{
    if n < 10 {
        seq![digit_char(n as int)]
    } else {
        decimal(n / 10).push(digit_char((n % 10) as int))
    }
}

/// The decimal text of an integer, with a minus sign where it is negative.
pub open spec fn signed_decimal(i: int) -> Seq<char> {
    if i < 0 {
        seq!['-'] + decimal((-i) as nat)
    } else {
        decimal(i as nat)
    }
}

/// The number that a sequence of digits stands for.
pub open spec fn digits_value(s: Seq<char>) -> int
    decreases s.len(),
{
    if s.len() == 0 {
        0
    } else {
        10 * digits_value(s.drop_last()) + digit_value(s.last())
    }
}

/// Whether every character is a digit and there is one.
pub open spec fn all_digits(s: Seq<char>) -> bool {
    s.len() > 0 && forall|i: int| 0 <= i < s.len() ==> is_digit(#[trigger] s[i])
}

/// What reading an unsigned number no larger than `max` gives: an optional
/// plus sign, then digits.
pub open spec fn parsed_unsigned(s: Seq<char>, max: int) -> Option<int> {
    let digits = if s.len() > 0 && s[0] == '+' {
        s.skip(1)
    } else {
        s
    };
    if all_digits(digits) && digits_value(digits) <= max {
        Some(digits_value(digits))
    } else {
        None
    }
}

/// What reading a signed number between `-max - 1` and `max` gives: an
/// optional sign, then digits.
pub open spec fn parsed_signed(s: Seq<char>, max: int) -> Option<int> {
    if s.len() > 0 && s[0] == '-' {
        let digits = s.skip(1);
        if all_digits(digits) && digits_value(digits) <= max + 1 {
            Some(-digits_value(digits))
        } else {
            None
        }
    } else {
        parsed_unsigned(s, max)
    }
}

// ---------------------------------------------------------------------------
// Writing
// ---------------------------------------------------------------------------

/// The character of a digit.
fn to_digit(d: u64) -> (r: char)
    requires
        d < 10,
    ensures
        r == digit_char(d as int),
{
    (48 + d as u8) as char
}

/// The decimal text of a number.
pub fn format_u64(n: u64) -> (r: String)
    ensures
        r@ == decimal(n as nat),
    decreases n,
{
    if n < 10 {
        let mut out = String::new();
        out.push(to_digit(n));
        proof {
            assert(out@ =~= decimal(n as nat));
        }
        out
    } else {
        let mut out = format_u64(n / 10);
        out.push(to_digit(n % 10));
        out
    }
}

/// The decimal text of a number, with its sign.
pub fn format_i64(n: i64) -> (r: String)
    ensures
        r@ == signed_decimal(n as int),
{
    if n < 0 {
        let m: u64 = if n == i64::MIN {
            9_223_372_036_854_775_808
        } else {
            (-n) as u64
        };
        let mut out = String::new();
        out.push('-');
        out.append(format_u64(m).as_str());
        proof {
            assert(out@ =~= signed_decimal(n as int));
        }
        out
    } else {
        format_u64(n as u64)
    }
}

/// The character of a hexadecimal digit.
pub open spec fn hex_char(d: int) -> char {
    if d < 10 {
        ((48 + d) as u32) as char
    } else {
        ((97 + d - 10) as u32) as char
    }
}

/// The hexadecimal text of a number, in lower case, without leading zeros.
pub open spec fn hexadecimal(n: nat) -> Seq<char>
    decreases n,
{
    if n < 16 {
        seq![hex_char(n as int)]
    } else {
        hexadecimal(n / 16).push(hex_char((n % 16) as int))
    }
}

/// The character of a hexadecimal digit.
fn to_hex_digit(d: u64) -> (r: char)
    requires
        d < 16,
    ensures
        r == hex_char(d as int),
{
    if d < 10 {
        (48 + d as u8) as char
    } else {
        (87 + d as u8) as char
    }
}

/// The hexadecimal text of a number.
pub fn format_hex(n: u64) -> (r: String)
    ensures
        r@ == hexadecimal(n as nat),
    decreases n,
{
    if n < 16 {
        let mut out = String::new();
        out.push(to_hex_digit(n));
        proof {
            assert(out@ =~= hexadecimal(n as nat));
        }
        out
    } else {
        let mut out = format_hex(n / 16);
        out.push(to_hex_digit(n % 16));
        out
    }
}

/// Different numbers have different hexadecimal texts.
pub proof fn law_hexadecimal_is_distinct(a: nat, b: nat)
    requires
        a != b,
    ensures
        hexadecimal(a) != hexadecimal(b),
    decreases a,
{
    let x = hexadecimal(a);
    let y = hexadecimal(b);
    lemma_hexadecimal_len(a);
    lemma_hexadecimal_len(b);
    if x == y {
        assert(x.last() == y.last());
        assert(a % 16 == b % 16);
        if a >= 16 {
            assert(x.drop_last() =~= hexadecimal(a / 16));
            assert(y.drop_last() =~= hexadecimal(b / 16));
            law_hexadecimal_is_distinct(a / 16, b / 16);
        }
    }
}

proof fn lemma_hexadecimal_len(n: nat)
    ensures
        hexadecimal(n).len() >= 1,
        n >= 16 ==> hexadecimal(n).len() >= 2,
        n < 16 ==> hexadecimal(n).len() == 1,
        hexadecimal(n).last() == hex_char((n % 16) as int),
    decreases n,
{
    if n >= 16 {
        lemma_hexadecimal_len(n / 16);
    }
}

// ---------------------------------------------------------------------------
// Reading
// ---------------------------------------------------------------------------

proof fn lemma_digits_value_bounds(s: Seq<char>, k: int)
    requires
        0 <= k <= s.len(),
        forall|i: int| 0 <= i < s.len() ==> is_digit(#[trigger] s[i]),
    ensures
        0 <= digits_value(s.take(k)) <= digits_value(s),
    decreases s.len(),
{
    if s.len() > 0 {
        assert(is_digit(s.last()));
        let front = s.drop_last();
        assert forall|i: int| 0 <= i < front.len() implies is_digit(#[trigger] front[i]) by {
            assert(front[i] == s[i]);
        }
        if k == s.len() {
            assert(s.take(k) =~= s);
            lemma_digits_value_bounds(front, front.len() as int);
            assert(front.take(front.len() as int) =~= front);
        } else {
            lemma_digits_value_bounds(front, k);
            assert(front.take(k) =~= s.take(k));
        }
    } else {
        assert(s.take(k) =~= s);
    }
}

/// The value of the digits `v[from..]`, where they are digits and no larger
/// than `max`.
fn read_digits(v: &Vec<char>, from: usize, max: u64) -> (r: Option<u64>)
    requires
        from <= v.len(),
    ensures
        ({
            let digits = v@.skip(from as int);
            match r {
                Some(n) => all_digits(digits) && n == digits_value(digits) && n <= max,
                None => !all_digits(digits) || digits_value(digits) > max,
            }
        }),
{
    let ghost digits = v@.skip(from as int);
    if from == v.len() {
        return None;
    }
    let mut value: u64 = 0;
    let mut i: usize = from;
    proof {
        assert(digits.take(0) =~= Seq::<char>::empty());
    }
    while i < v.len()
        invariant
            from <= i <= v.len(),
            digits == v@.skip(from as int),
            value <= max,
            value == digits_value(digits.take(i - from)),
            forall|j: int| 0 <= j < i - from ==> is_digit(#[trigger] digits[j]),
        decreases v.len() - i,
    {
        let c = v[i];
        proof {
            assert(digits[i - from] == c);
        }
        if c < '0' || '9' < c {
            return None;
        }
        let d: u64 = (c as u32 - 48) as u64;
        proof {
            let next = digits.take(i - from + 1);
            assert(next.drop_last() =~= digits.take(i - from));
            assert(next.last() == c);
            if all_digits(digits) {
                lemma_digits_value_bounds(digits, i - from + 1);
            }
        }
        if value > (max / 10) {
            proof {
                assert(10 * value + d > max);
            }
            return None;
        }
        let tenfold: u64 = value * 10;
        if d > max - tenfold {
            return None;
        }
        value = tenfold + d;
        i += 1;
    }
    proof {
        assert(digits.take(digits.len() as int) =~= digits);
    }
    Some(value)
}

/// Read an unsigned number no larger than `max`.
pub fn parse_unsigned(s: &str, max: u64) -> (r: Option<u64>)
    ensures
        match r {
            Some(n) => parsed_unsigned(s@, max as int) == Some(n as int),
            None => parsed_unsigned(s@, max as int) is None,
        },
{
    let v = chars_of(s);
    let from: usize = if v.len() > 0 && v[0] == '+' {
        1
    } else {
        0
    };
    proof {
        assert(v@.skip(0) =~= v@);
    }
    read_digits(&v, from, max)
}

/// Read a 32-bit signed number.
pub fn parse_i32(s: &str) -> (r: Option<i32>)
    ensures
        match r {
            Some(n) => parsed_signed(s@, i32::MAX as int) == Some(n as int),
            None => parsed_signed(s@, i32::MAX as int) is None,
        },
{
    let v = chars_of(s);
    if v.len() > 0 && v[0] == '-' {
        match read_digits(&v, 1, 2_147_483_648) {
            Some(n) => Some((-(n as i64)) as i32),
            None => None,
        }
    } else {
        match parse_unsigned(s, 2_147_483_647) {
            Some(n) => Some(n as i32),
            None => None,
        }
    }
}

// ---------------------------------------------------------------------------
// Laws
// ---------------------------------------------------------------------------

/// Decimal text is digits that stand for the number.
pub proof fn lemma_decimal(n: nat)
    ensures
        all_digits(decimal(n)),
        digits_value(decimal(n)) == n,
    decreases n,
{
    if n < 10 {
        let s = decimal(n);
        assert(s.drop_last() =~= Seq::<char>::empty());
        assert(digits_value(s.drop_last()) == 0);
        assert(s[0] == digit_char(n as int));
    } else {
        lemma_decimal(n / 10);
        let s = decimal(n);
        assert(s.drop_last() =~= decimal(n / 10));
        assert forall|i: int| 0 <= i < s.len() implies is_digit(#[trigger] s[i]) by {
            if i < s.len() - 1 {
                assert(s[i] == decimal(n / 10)[i]);
            }
        }
    }
}

/// A number that was written is read back.
pub proof fn law_unsigned_roundtrip(n: nat, max: int)
    requires
        n <= max,
    ensures
        parsed_unsigned(decimal(n), max) == Some(n as int),
{
    lemma_decimal(n);
    assert(is_digit(decimal(n)[0]));
}

/// The last digit of a number stands last, as its own figure, behind the figures
/// of the rest.
pub proof fn law_figures_stand_in_order(n: nat, d: nat)
    requires
        n > 0,
    ensures
        d < 10 ==> {
            &&& decimal(d).len() == 1
            &&& decimal(d)[0] as int == 48 + d
            &&& decimal(10 * n + d) == decimal(n).push(decimal(d)[0])
        },
        d < 16 ==> {
            &&& hexadecimal(d).len() == 1
            &&& hexadecimal(d)[0] as int == if d < 10 {
                48 + d
            } else {
                87 + d
            }
            &&& hexadecimal(16 * n + d) == hexadecimal(n).push(hexadecimal(d)[0])
        },
{
    if d < 10 {
        assert((10 * n + d) / 10 == n && (10 * n + d) % 10 == d);
    }
    if d < 16 {
        assert((16 * n + d) / 16 == n && (16 * n + d) % 16 == d);
    }
}

/// A plus sign in front of a number changes nothing, a minus sign is no part of an
/// unsigned number, and a number that is too large is none.
pub proof fn law_signs_and_bounds(n: nat, max: int)
    ensures
        n <= max ==> parsed_unsigned(seq!['+'] + decimal(n), max) == Some(n as int),
        parsed_unsigned(seq!['-'] + decimal(n), max) is None,
        n > max ==> parsed_unsigned(decimal(n), max) is None,
        0 < n <= max ==> parsed_signed(seq!['-'] + decimal(n), max) == Some(-(n as int)),
        n == max + 1 ==> parsed_signed(seq!['-'] + decimal(n), max) == Some(-(n as int)),
        n > max + 1 ==> parsed_signed(seq!['-'] + decimal(n), max) is None,
        n > max ==> parsed_signed(decimal(n), max) is None,
{
    lemma_decimal(n);
    let plus = seq!['+'] + decimal(n);
    let minus = seq!['-'] + decimal(n);
    assert(plus[0] == '+' && minus[0] == '-');
    assert(plus.skip(1) =~= decimal(n));
    assert(minus.skip(1) =~= decimal(n));
    assert(is_digit(decimal(n)[0]));
}

/// Nothing but digits is read as a number, behind an optional plus sign, and
/// nothing is read as a number that is too large.
pub proof fn law_only_digits_are_read(s: Seq<char>, max: int, i: int)
    ensures
        parsed_unsigned(s, max) matches Some(n) ==> n <= max,
        s.len() == 0 ==> parsed_unsigned(s, max) is None,
        0 <= i < s.len() && !is_digit(s[i]) && !(i == 0 && s[0] == '+') ==> parsed_unsigned(s, max)
            is None,
{
    if 0 <= i < s.len() && !is_digit(s[i]) && !(i == 0 && s[0] == '+') && s[0] == '+' {
        assert(s.skip(1)[i - 1] == s[i]);
    }
}

/// A signed number that was written is read back.
pub proof fn law_signed_roundtrip(i: int, max: int)
    requires
        -max - 1 <= i <= max,
    ensures
        parsed_signed(signed_decimal(i), max) == Some(i),
{
    if i < 0 {
        lemma_decimal((-i) as nat);
        assert(signed_decimal(i).skip(1) =~= decimal((-i) as nat));
    } else {
        law_unsigned_roundtrip(i as nat, max);
        lemma_decimal(i as nat);
        assert(is_digit(decimal(i as nat)[0]));
    }
}

} // verus!
