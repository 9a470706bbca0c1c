use vstd::prelude::*;
use vstd::string::StrSliceExecFns;

use crate::ast::Base;

verus! {

/// The value of an integer literal: signed where it fits `i128`, else
/// unsigned.
#[derive(Clone, Copy, Debug, PartialEq, Eq, Structural)]
pub enum IntValue {
    I128(i128),
    U128(u128),
}

/// The integer types, narrowest first.
#[derive(Clone, Copy, Debug, PartialEq, Eq, Structural)]
pub enum IntLitWidth {
    U8,
    I8,
    U16,
    I16,
    U32,
    I32,
    U64,
    I64,
    U128,
    I128,
}

/// What a numeric literal demands of its type: at least the narrowest
/// integer width that holds its value.
#[derive(Clone, Copy, Debug, PartialEq, Eq, Structural)]
pub struct NumericBound {
    pub at_least: IntLitWidth,
}

/// A decimal literal is either an integer (of a yet unknown numeric type) or
/// a fraction.
#[derive(Clone, Copy, Debug, PartialEq, Eq, Structural)]
pub enum ParsedNum {
    UnknownNum(IntValue, NumericBound),
    Float,
}

pub open spec fn radix(base: Base) -> nat {
    match base {
        Base::Octal => 8,
        Base::Binary => 2,
        Base::Hex => 16,
    }
}

/// The value of a digit character in any base up to 16, or 16 for a
/// character that is no digit.
pub open spec fn digit_value(c: char) -> nat {
    if '0' <= c && c <= '9' {
        (c as nat - '0' as nat) as nat
    } else if 'a' <= c && c <= 'f' {
        (c as nat - 'a' as nat + 10) as nat
    } else if 'A' <= c && c <= 'F' {
        (c as nat - 'A' as nat + 10) as nat
    } else {
        16
    }
}

/// Every character is a digit of the base or an `_` separator, and at least
/// one is a digit.
pub open spec fn is_digits(s: Seq<char>, r: nat) -> bool {
    &&& forall|i: int| 0 <= i < s.len() ==> #[trigger] s[i] == '_' || digit_value(s[i]) < r
    &&& exists|i: int| 0 <= i < s.len() && #[trigger] s[i] != '_'
}

/// The number the digits spell, `_` separators skipped.
pub open spec fn digits_value(s: Seq<char>, r: nat) -> nat
    decreases s.len(),
{
    if s.len() == 0 {
        0
    } else if s.last() == '_' {
        digits_value(s.drop_last(), r)
    } else {
        digits_value(s.drop_last(), r) * r + digit_value(s.last())
    }
}

pub open spec fn fits_u128(v: int) -> bool {
    0 <= v <= u128::MAX
}

/// The digits in base `r`, where they are digits and their value fits `u128`.
pub open spec fn parse_digits_spec(s: Seq<char>, r: nat) -> Option<u128> {
    if is_digits(s, r) && fits_u128(digits_value(s, r) as int) {
        Some(digits_value(s, r) as u128)
    } else {
        None
    }
}

/// The narrowest width whose range holds `v`.
pub open spec fn width_of(v: int) -> IntLitWidth {
    if 0 <= v <= u8::MAX {
        IntLitWidth::U8
    } else if i8::MIN <= v <= i8::MAX {
        IntLitWidth::I8
    } else if 0 <= v <= u16::MAX {
        IntLitWidth::U16
    } else if i16::MIN <= v <= i16::MAX {
        IntLitWidth::I16
    } else if 0 <= v <= u32::MAX {
        IntLitWidth::U32
    } else if i32::MIN <= v <= i32::MAX {
        IntLitWidth::I32
    } else if 0 <= v <= u64::MAX {
        IntLitWidth::U64
    } else if i64::MIN <= v <= i64::MAX {
        IntLitWidth::I64
    } else if 0 <= v <= u128::MAX {
        IntLitWidth::U128
    } else {
        IntLitWidth::I128
    }
}

/// The value of a magnitude with a sign, where `i128` or else `u128` holds it.
pub open spec fn signed_value(m: u128, negative: bool) -> Option<IntValue> {
    if negative {
        if m <= 0x8000_0000_0000_0000_0000_0000_0000_0000 {
            Some(IntValue::I128((-m) as i128))
        } else {
            None
        }
    } else if m <= i128::MAX {
        Some(IntValue::I128(m as i128))
    } else {
        Some(IntValue::U128(m))
    }
}

pub open spec fn int_value(v: IntValue) -> int {
    match v {
        IntValue::I128(n) => n as int,
        IntValue::U128(n) => n as int,
    }
}

/// The text after an optional leading `-`.
pub open spec fn unsigned_part(s: Seq<char>) -> Seq<char> {
    if s.len() > 0 && s[0] == '-' {
        s.drop_first()
    } else {
        s
    }
}

/// The text of a fraction: an optional `-`, then digits and `_` with exactly
/// one `.`, and at least one digit.
pub open spec fn is_float_text(s: Seq<char>) -> bool {
    let body = unsigned_part(s);
    &&& forall|i: int|
        0 <= i < body.len() ==> #[trigger] body[i] == '_' || body[i] == '.' || digit_value(body[i]) < 10
    &&& exists|i: int| 0 <= i < body.len() && #[trigger] body[i] != '_' && body[i] != '.'
    &&& exists|i: int| 0 <= i < body.len() && #[trigger] body[i] == '.'
    &&& forall|i: int, j: int| 0 <= i < j < body.len() && #[trigger] body[i] == '.' ==> #[trigger] body[j] != '.'
}

pub open spec fn has_dot(s: Seq<char>) -> bool {
    exists|i: int| 0 <= i < s.len() && #[trigger] s[i] == '.'
}

/// How a decimal literal's text reads: a fraction where it has a `.`, else
/// an integer with an optional `-`.
pub open spec fn parse_num_spec(s: Seq<char>) -> Option<ParsedNum> {
    if has_dot(s) {
        if is_float_text(s) {
            Some(ParsedNum::Float)
        } else {
            None
        }
    } else {
        let negative = s.len() > 0 && s[0] == '-';
        let body = if negative { s.drop_first() } else { s };
        match parse_digits_spec(body, 10) {
            Some(m) => match signed_value(m, negative) {
                Some(v) => Some(
                    ParsedNum::UnknownNum(v, NumericBound { at_least: width_of(int_value(v)) }),
                ),
                None => None,
            },
            None => None,
        }
    }
}

proof fn lemma_value_monotone(s: Seq<char>, r: nat, i: int)
    requires
        0 <= i <= s.len(),
        r >= 1,
    ensures
        digits_value(s.take(i), r) <= digits_value(s, r),
    decreases s.len(),
{
    if i < s.len() {
        assert(s.drop_last().take(i) =~= s.take(i));
        lemma_value_monotone(s.drop_last(), r, i);
        assert(digits_value(s.drop_last(), r) <= digits_value(s.drop_last(), r) * r) by (nonlinear_arith)
            requires
                r >= 1,
        ;
    } else {
        assert(s.take(i) =~= s);
    }
}

fn digit_of(c: char) -> (r: u128)
    ensures
        r == digit_value(c),
{
    if '0' <= c && c <= '9' {
        (c as u32 - '0' as u32) as u128
    } else if 'a' <= c && c <= 'f' {
        (c as u32 - 'a' as u32 + 10) as u128
    } else if 'A' <= c && c <= 'F' {
        (c as u32 - 'A' as u32 + 10) as u128
    } else {
        16
    }
}

/// Reads the digits of `s` in base `r`: `None` where a character is neither
/// a digit nor `_`, where there is no digit, or where the value exceeds `u128`.
pub fn parse_digits(s: &str, r: u128) -> (res: Option<u128>)
    requires
        2 <= r <= 16,
    ensures
        res == parse_digits_spec(s@, r as nat),
{
    let n = s.unicode_len();
    let mut i: usize = 0;
    let mut v: u128 = 0;
    let mut seen = false;
    while i < n
        invariant
            n == s@.len(),
            i <= n,
            2 <= r <= 16,
            v == digits_value(s@.take(i as int), r as nat),
            forall|j: int| 0 <= j < i ==> #[trigger] s@[j] == '_' || digit_value(s@[j]) < r,
            seen == exists|j: int| 0 <= j < i && #[trigger] s@[j] != '_',
        decreases n - i,
    {
        let c = s.get_char(i);
        proof {
            assert(s@.take(i + 1).drop_last() =~= s@.take(i as int));
            assert(s@.take(i + 1).last() == c);
        }
        if c != '_' {
            let d = digit_of(c);
            if d >= r {
                return None;
            }
            match v.checked_mul(r) {
                Some(m) => match m.checked_add(d) {
                    Some(w) => {
                        v = w;
                    },
                    None => {
                        proof {
                            lemma_value_monotone(s@, r as nat, i + 1);
                        }
                        return None;
                    },
                },
                None => {
                    proof {
                        assert(v * r + d >= v * r);
                        lemma_value_monotone(s@, r as nat, i + 1);
                    }
                    return None;
                },
            }
            seen = true;
        }
        i = i + 1;
    }
    proof {
        assert(s@.take(n as int) =~= s@);
    }
    if seen {
        Some(v)
    } else {
        None
    }
}

pub fn width_for_value(v: IntValue) -> (r: IntLitWidth)
    ensures
        r == width_of(int_value(v)),
{
    match v {
        IntValue::U128(n) => {
            if n <= 0xff {
                IntLitWidth::U8
            } else if n <= 0xffff {
                IntLitWidth::U16
            } else if n <= 0xffff_ffff {
                IntLitWidth::U32
            } else if n <= 0xffff_ffff_ffff_ffff {
                IntLitWidth::U64
            } else {
                IntLitWidth::U128
            }
        },
        IntValue::I128(n) => {
            if 0 <= n && n <= 0xff {
                IntLitWidth::U8
            } else if -0x80 <= n && n <= 0x7f {
                IntLitWidth::I8
            } else if 0 <= n && n <= 0xffff {
                IntLitWidth::U16
            } else if -0x8000 <= n && n <= 0x7fff {
                IntLitWidth::I16
            } else if 0 <= n && n <= 0xffff_ffff {
                IntLitWidth::U32
            } else if -0x8000_0000 <= n && n <= 0x7fff_ffff {
                IntLitWidth::I32
            } else if 0 <= n && n <= 0xffff_ffff_ffff_ffff {
                IntLitWidth::U64
            } else if -0x8000_0000_0000_0000 <= n && n <= 0x7fff_ffff_ffff_ffff {
                IntLitWidth::I64
            } else if 0 <= n {
                IntLitWidth::U128
            } else {
                IntLitWidth::I128
            }
        },
    }
}

fn to_signed(m: u128, negative: bool) -> (r: Option<IntValue>)
    ensures
        r == signed_value(m, negative),
{
    if negative {
        if m < 0x8000_0000_0000_0000_0000_0000_0000_0000 {
            Some(IntValue::I128(-(m as i128)))
        } else if m == 0x8000_0000_0000_0000_0000_0000_0000_0000 {
            Some(IntValue::I128(i128::MIN))
        } else {
            None
        }
    } else if m <= 0x7fff_ffff_ffff_ffff_ffff_ffff_ffff_ffff {
        Some(IntValue::I128(m as i128))
    } else {
        Some(IntValue::U128(m))
    }
}

fn contains_dot(s: &str) -> (r: bool)
    ensures
        r == has_dot(s@),
{
    let n = s.unicode_len();
    let mut i: usize = 0;
    while i < n
        invariant
            n == s@.len(),
            i <= n,
            forall|j: int| 0 <= j < i ==> #[trigger] s@[j] != '.',
        decreases n - i,
    {
        if s.get_char(i) == '.' {
            return true;
        }
        i = i + 1;
    }
    false
}

pub fn check_float(s: &str) -> (r: bool)
    ensures
        r == is_float_text(s@),
{
    let n = s.unicode_len();
    let negative = n > 0 && s.get_char(0) == '-';
    let body = if negative { s.substring_char(1, n) } else { s };
    let ghost b = body@;
    proof {
        if negative {
            assert(b =~= s@.drop_first());
        }
        assert(b == unsigned_part(s@));
    }
    let m = body.unicode_len();
    let mut i: usize = 0;
    let mut dot: Option<usize> = None;
    let mut seen = false;
    while i < m
        invariant
            m == b.len(),
            b == body@,
            b == unsigned_part(s@),
            i <= m,
            forall|j: int| 0 <= j < i ==> #[trigger] b[j] == '_' || b[j] == '.' || digit_value(b[j]) < 10,
            seen == exists|j: int| 0 <= j < i && #[trigger] b[j] != '_' && b[j] != '.',
            dot is None ==> forall|j: int| 0 <= j < i ==> #[trigger] b[j] != '.',
            dot matches Some(k) ==> k < i && b[k as int] == '.' && forall|j: int|
                0 <= j < i && j != k ==> #[trigger] b[j] != '.',
        decreases m - i,
    {
        let c = body.get_char(i);
        assert(b[i as int] == c);
        if c == '.' {
            if dot.is_some() {
                proof {
                    let k = dot->0;
                    assert(b[k as int] == '.' && b[i as int] == '.');
                    assert(0 <= k < i < b.len());
                    assert(!is_float_text(s@));
                }
                return false;
            }
            dot = Some(i);
        } else if c != '_' {
            if digit_of(c) >= 10 {
                assert(!(b[i as int] == '_' || b[i as int] == '.' || digit_value(b[i as int]) < 10));
                return false;
            }
            seen = true;
        }
        i = i + 1;
    }
    proof {
        if dot is Some {
            let k = dot->0;
            assert forall|x: int, y: int| 0 <= x < y < b.len() && #[trigger] b[x] == '.' implies #[trigger] b[y] != '.' by {
                if b[y] == '.' {
                    assert(x == k && y == k);
                }
            }
        }
    }
    seen && dot.is_some()
}

/// Classifies a decimal literal's text: an integer with its narrowest width,
/// or a fraction; `None` where the text is malformed or the integer too
/// large.
pub fn parse_num(s: &str) -> (r: Option<ParsedNum>)
    ensures
        r == parse_num_spec(s@),
{
    if contains_dot(s) {
        if check_float(s) {
            return Some(ParsedNum::Float);
        } else {
            return None;
        }
    }
    let n = s.unicode_len();
    let negative = n > 0 && s.get_char(0) == '-';
    let body = if negative { s.substring_char(1, n) } else { s };
    proof {
        if negative {
            assert(body@ =~= s@.drop_first());
        }
    }
    match parse_digits(body, 10) {
        Some(m) => match to_signed(m, negative) {
            Some(v) => Some(ParsedNum::UnknownNum(v, NumericBound { at_least: width_for_value(v) })),
            None => None,
        },
        None => None,
    }
}

/// How a non-decimal literal reads: its value, signed where `i128` holds it,
/// else unsigned; `None` where the digits are malformed or exceed `u128`.
pub open spec fn parse_base_spec(s: Seq<char>, base: Base) -> Option<IntValue> {
    match parse_digits_spec(s, radix(base)) {
        Some(m) => Some(
            if m <= i128::MAX {
                IntValue::I128(m as i128)
            } else {
                IntValue::U128(m)
            },
        ),
        None => None,
    }
}

/// Reads the digits of a non-decimal literal (without its prefix or sign).
pub fn parse_base(s: &str, base: Base) -> (r: Option<IntValue>)
    ensures
        r == parse_base_spec(s@, base),
{
    let rx: u128 = match base {
        Base::Octal => 8,
        Base::Binary => 2,
        Base::Hex => 16,
    };
    match parse_digits(s, rx) {
        Some(m) => {
            if m <= 0x7fff_ffff_ffff_ffff_ffff_ffff_ffff_ffff {
                Some(IntValue::I128(m as i128))
            } else {
                Some(IntValue::U128(m))
            }
        },
        None => None,
    }
}

} // verus!
