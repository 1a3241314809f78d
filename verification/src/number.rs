//! Integer literals: their value and the narrowest type that holds it.

use vstd::prelude::*;
use crate::ast::{Value, ValueV};
use crate::error::{Error, loc_error, loc_msg};
use crate::text::{has_char, contains_char, chars_of};

verus! {

pub open spec fn is_digit_char(c: char) -> bool {
    '0' <= c <= '9'
}

/// Whether `s` is made of decimal digits only.
pub open spec fn all_digits(s: Seq<char>) -> bool {
    forall|i: int| 0 <= i < s.len() ==> is_digit_char(#[trigger] s[i])
}

/// The value of the decimal digits `s`.
pub open spec fn digits_value(s: Seq<char>) -> nat
    decreases s.len(),
{
    if s.len() == 0 {
        0
    } else {
        digits_value(s.drop_last()) * 10 + ((s.last() as int - 48) as nat)
    }
}

/// The unsigned value in the narrowest of `u8` .. `u128` that holds `v`.
pub open spec fn narrow_unsigned(v: int) -> ValueV {
    if v <= u8::MAX {
        ValueV::UInt8(v as u8)
    } else if v <= u16::MAX {
        ValueV::UInt16(v as u16)
    } else if v <= u32::MAX {
        ValueV::UInt32(v as u32)
    } else if v <= u64::MAX {
        ValueV::UInt64(v as u64)
    } else {
        ValueV::UInt128(v as u128)
    }
}

/// The signed value in the narrowest of `i8` .. `i128` that holds `v`.
pub open spec fn narrow_signed(v: int) -> ValueV {
    if i8::MIN <= v <= i8::MAX {
        ValueV::Int8(v as i8)
    } else if i16::MIN <= v <= i16::MAX {
        ValueV::Int16(v as i16)
    } else if i32::MIN <= v <= i32::MAX {
        ValueV::Int32(v as i32)
    } else if i64::MIN <= v <= i64::MAX {
        ValueV::Int64(v as i64)
    } else {
        ValueV::Int128(v as i128)
    }
}

/// The unsigned part of a literal: its digits after an optional `+`.
pub open spec fn unsigned_digits(text: Seq<char>) -> Seq<char> {
    if text.len() > 0 && text[0] == '+' {
        text.drop_first()
    } else {
        text
    }
}

/// The value a number literal stands for, or the error it gives at `line`.
///
/// A literal with a `.` is a floating-point literal whose precision is
/// decided later. One with a `-` must be `-` and digits, and its value must
/// fit in `i128`; it takes the narrowest signed type. Otherwise it must be
/// digits (after an optional `+`) whose value fits in `u128`; it takes the
/// narrowest unsigned type.
pub open spec fn spec_number(text: Seq<char>, line: nat) -> Result<ValueV, Seq<char>> {
    if has_char(text, '.') {
        Ok(ValueV::FloatLiteral(text))
    } else if has_char(text, '-') {
        let rest = text.drop_first();
        if text.len() >= 2 && text[0] == '-' && all_digits(rest) && -(digits_value(rest) as int) >= i128::MIN {
            Ok(narrow_signed(-(digits_value(rest) as int)))
        } else {
            Err(loc_msg(line, "Invalid signed integer"@))
        }
    } else {
        let d = unsigned_digits(text);
        if d.len() > 0 && all_digits(d) && digits_value(d) <= u128::MAX {
            Ok(narrow_unsigned(digits_value(d) as int))
        } else {
            Err(loc_msg(line, "Invalid unsigned integer"@))
        }
    }
}

proof fn lemma_digits_value_grows(s: Seq<char>, i: int)
    requires
        0 <= i <= s.len(),
        all_digits(s),
    ensures
        digits_value(s.subrange(0, i)) <= digits_value(s),
    decreases s.len() - i,
{
    if i < s.len() {
        lemma_digits_value_grows(s, i + 1);
        assert(s.subrange(0, i + 1).drop_last() == s.subrange(0, i));
    } else {
        assert(s.subrange(0, i) == s);
    }
}

/// The value of the digits `c[start..end]`, or none when it exceeds `u128`.
fn digits_u128(c: &Vec<char>, start: usize, end: usize) -> (res: Option<u128>)
    requires
        start <= end <= c.len(),
        all_digits(c@.subrange(start as int, end as int)),
    ensures
        match res {
            Some(v) => v == digits_value(c@.subrange(start as int, end as int)),
            None => digits_value(c@.subrange(start as int, end as int)) > u128::MAX,
        },
{
    let ghost s = c@.subrange(start as int, end as int);
    let mut acc: u128 = 0;
    let mut i = start;
    assert(s.subrange(0, 0) == Seq::<char>::empty());
    while i < end
        invariant
            start <= i <= end <= c.len(),
            s == c@.subrange(start as int, end as int),
            all_digits(s),
            acc == digits_value(s.subrange(0, i - start)),
        decreases end - i,
    {
        let ghost k = i - start;
        assert(s[k] == c@[i as int]);
        assert(is_digit_char(s[k]));
        let d = ((c[i] as u32) - 48) as u128;
        assert(s.subrange(0, k + 1).drop_last() == s.subrange(0, k));
        assert(s.subrange(0, k + 1).last() == c@[i as int]);
        if acc > (u128::MAX - d) / 10 {
            proof {
                assert(acc * 10 + d > u128::MAX) by (nonlinear_arith)
                    requires acc > (u128::MAX - d) / 10, d <= 9;
                lemma_digits_value_grows(s, k + 1);
            }
            return None;
        }
        assert(acc * 10 + d <= u128::MAX) by (nonlinear_arith)
            requires acc <= (u128::MAX - d) / 10, d <= 9;
        acc = acc * 10 + d;
        i = i + 1;
    }
    assert(s.subrange(0, end - start) == s);
    Some(acc)
}

fn narrow_u128(v: u128) -> (res: Value)
    ensures
        res@ == narrow_unsigned(v as int),
{
    if v <= u8::MAX as u128 {
        Value::UInt8(v as u8)
    } else if v <= u16::MAX as u128 {
        Value::UInt16(v as u16)
    } else if v <= u32::MAX as u128 {
        Value::UInt32(v as u32)
    } else if v <= u64::MAX as u128 {
        Value::UInt64(v as u64)
    } else {
        Value::UInt128(v)
    }
}

fn narrow_i128(v: i128) -> (res: Value)
    ensures
        res@ == narrow_signed(v as int),
{
    if i8::MIN as i128 <= v && v <= i8::MAX as i128 {
        Value::Int8(v as i8)
    } else if i16::MIN as i128 <= v && v <= i16::MAX as i128 {
        Value::Int16(v as i16)
    } else if i32::MIN as i128 <= v && v <= i32::MAX as i128 {
        Value::Int32(v as i32)
    } else if i64::MIN as i128 <= v && v <= i64::MAX as i128 {
        Value::Int64(v as i64)
    } else {
        Value::Int128(v)
    }
}

fn digits_at(c: &Vec<char>, start: usize, end: usize) -> (b: bool)
    requires
        start <= end <= c.len(),
    ensures
        b == all_digits(c@.subrange(start as int, end as int)),
{
    let mut i = start;
    while i < end
        invariant
            start <= i <= end <= c.len(),
            forall|j: int| start <= j < i ==> is_digit_char(#[trigger] c@[j]),
        decreases end - i,
    {
        if !(c[i] >= '0' && c[i] <= '9') {
            assert(!is_digit_char(c@.subrange(start as int, end as int)[i - start]));
            return false;
        }
        i = i + 1;
    }
    assert forall|j: int| 0 <= j < end - start implies is_digit_char(#[trigger] c@.subrange(start as int, end as int)[j]) by {
        assert(c@.subrange(start as int, end as int)[j] == c@[start + j]);
    }
    true
}

/// The value of the number literal `text`, or its error at `line`.
pub fn parse_number(text: &str, line: usize) -> (res: Result<Value, Error>)
    ensures
        match spec_number(text@, line as nat) {
            Ok(v) => res matches Ok(r) && r@ == v,
            Err(m) => res matches Err(e) && e@ == m,
        },
{
    if contains_char(text, '.') {
        return Ok(Value::FloatLiteral(String::from_str(text)));
    }
    let c = chars_of(text);
    if contains_char(text, '-') {
        if c.len() >= 2 && c[0] == '-' && digits_at(&c, 1, c.len()) {
            assert(c@.subrange(1, c@.len() as int) == text@.drop_first());
            match digits_u128(&c, 1, c.len()) {
                Some(m) => {
                    if m <= 170141183460469231731687303715884105728u128 {
                        let v: i128 = if m == 170141183460469231731687303715884105728u128 {
                            i128::MIN
                        } else {
                            -(m as i128)
                        };
                        return Ok(narrow_i128(v));
                    }
                },
                None => {},
            }
        }
        return loc_error(line, "Invalid signed integer");
    }
    let start: usize = if c.len() > 0 && c[0] == '+' { 1 } else { 0 };
    assert(c@.subrange(start as int, c@.len() as int) == unsigned_digits(text@));
    if c.len() > start && digits_at(&c, start, c.len()) {
        match digits_u128(&c, start, c.len()) {
            Some(v) => {
                return Ok(narrow_u128(v));
            },
            None => {},
        }
    }
    loc_error(line, "Invalid unsigned integer")
}

} // verus!
