//! The parsers of numeric fields.
//!
//! A numeric field is a decimal numeral: an optional sign and one or more
//! digits, nothing before or after them. A plus sign may stand before a
//! numeral of any kind, a minus sign only before a signed one. An empty field
//! and a field that the sentence does not reach both stand for "no value";
//! any other text that is no numeral, or a numeral outside the range of the
//! field's kind, is a malformed field.
//!
//! The kinds differ in the integers that they take and in nothing else.

use crate::error::{Cause, ErrorKind};
use crate::fields::field_bytes;
use vstd::prelude::*;

verus! {

/// The byte `'0'`.
pub const ZERO: u8 = 0x30;

/// The byte `'9'`.
pub const NINE: u8 = 0x39;

/// The byte `'+'`.
pub const PLUS: u8 = 0x2b;

/// The byte `'-'`.
pub const MINUS: u8 = 0x2d;

/// True when the byte is one of `'0'` to `'9'`.
pub open spec fn is_digit(byte: u8) -> bool {
    ZERO <= byte <= NINE
}

/// True when every byte is a digit.
pub open spec fn all_digits(bytes: Seq<u8>) -> bool {
    forall|i: int| 0 <= i < bytes.len() ==> is_digit(#[trigger] bytes[i])
}

/// The number that a run of digits spells in base ten.
pub open spec fn digits_value(digits: Seq<u8>) -> nat
    decreases digits.len(),
{
    if digits.len() == 0 {
        0
    } else {
        10 * digits_value(digits.drop_last()) + (digits.last() - ZERO) as nat
    }
}

/// The number that a run of digits spells, where there is at least one
/// digit, nothing but digits, and the number is no more than `max`.
pub open spec fn digits_in_range(digits: Seq<u8>, max: int) -> Option<int> {
    if digits.len() > 0 && all_digits(digits) && digits_value(digits) <= max {
        Some(digits_value(digits) as int)
    } else {
        None
    }
}

/// True when the field begins with a sign that its kind accepts.
pub open spec fn has_sign(field: Seq<u8>, signed: bool) -> bool {
    field.len() > 0 && (field[0] == PLUS || (signed && field[0] == MINUS))
}

/// True when the field begins with a minus sign and its kind accepts one.
pub open spec fn is_negative(field: Seq<u8>, signed: bool) -> bool {
    signed && field.len() > 0 && field[0] == MINUS
}

/// The field without its sign.
pub open spec fn digits_of(field: Seq<u8>, signed: bool) -> Seq<u8> {
    if has_sign(field, signed) {
        field.skip(1)
    } else {
        field
    }
}

/// True when the field is a decimal numeral: at least one digit, after an
/// optional sign, and nothing else.
pub open spec fn is_numeral(field: Seq<u8>, signed: bool) -> bool {
    digits_of(field, signed).len() > 0 && all_digits(digits_of(field, signed))
}

/// The integer that a numeral stands for.
pub open spec fn numeral_value(field: Seq<u8>, signed: bool) -> int {
    if is_negative(field, signed) {
        -(digits_value(digits_of(field, signed)) as int)
    } else {
        digits_value(digits_of(field, signed)) as int
    }
}

/// What a numeric field holds, for a kind that takes the integers from `min`
/// to `max`: no value where the field is absent or empty, the integer where
/// the field is a numeral in that range, and an error for any other text.
pub open spec fn number_of(field: Option<Seq<u8>>, signed: bool, min: int, max: int) -> Result<
    Option<int>,
    ErrorKind,
> {
    match field {
        None => Ok(None),
        Some(bytes) => if bytes.len() == 0 {
            Ok(None)
        } else if is_numeral(bytes, signed) && min <= numeral_value(bytes, signed) <= max {
            Ok(Some(numeral_value(bytes, signed)))
        } else {
            Err(ErrorKind::MalformedField(Cause::Number))
        },
    }
}

/// What an unsigned 8-bit field holds.
pub open spec fn u8_of(field: Option<Seq<u8>>) -> Result<Option<u8>, ErrorKind> {
    match number_of(field, false, 0, 255) {
        Ok(Some(value)) => Ok(Some(value as u8)),
        Ok(None) => Ok(None),
        Err(e) => Err(e),
    }
}

/// What a signed 8-bit field holds.
pub open spec fn i8_of(field: Option<Seq<u8>>) -> Result<Option<i8>, ErrorKind> {
    match number_of(field, true, -128, 127) {
        Ok(Some(value)) => Ok(Some(value as i8)),
        Ok(None) => Ok(None),
        Err(e) => Err(e),
    }
}

/// What an unsigned 16-bit field holds.
pub open spec fn u16_of(field: Option<Seq<u8>>) -> Result<Option<u16>, ErrorKind> {
    match number_of(field, false, 0, 65535) {
        Ok(Some(value)) => Ok(Some(value as u16)),
        Ok(None) => Ok(None),
        Err(e) => Err(e),
    }
}

/// Parses an unsigned 8-bit field.
pub fn parse_u8(input: Option<&str>) -> (parsed: Result<Option<u8>, ErrorKind>)
    ensures
        parsed == u8_of(field_bytes(input)),
{
    match parse_number(input, false, 0, 255) {
        Ok(Some(value)) => Ok(Some(value as u8)),
        Ok(None) => Ok(None),
        Err(e) => Err(e),
    }
}

/// Parses a signed 8-bit field.
pub fn parse_i8(input: Option<&str>) -> (parsed: Result<Option<i8>, ErrorKind>)
    ensures
        parsed == i8_of(field_bytes(input)),
{
    match parse_number(input, true, -128, 127) {
        Ok(Some(value)) => Ok(Some(value as i8)),
        Ok(None) => Ok(None),
        Err(e) => Err(e),
    }
}

/// Parses an unsigned 16-bit field.
pub fn parse_u16(input: Option<&str>) -> (parsed: Result<Option<u16>, ErrorKind>)
    ensures
        parsed == u16_of(field_bytes(input)),
{
    match parse_number(input, false, 0, 65535) {
        Ok(Some(value)) => Ok(Some(value as u16)),
        Ok(None) => Ok(None),
        Err(e) => Err(e),
    }
}

/// Parses a numeric field of the kind that takes the integers from `min` to
/// `max`.
fn parse_number(input: Option<&str>, signed: bool, min: i32, max: i32) -> (parsed: Result<
    Option<i32>,
    ErrorKind,
>)
    requires
        -0xffff <= min <= 0 <= max <= 0xffff,
    ensures
        number_of(field_bytes(input), signed, min as int, max as int) == (match parsed {
            Ok(Some(value)) => Ok(Some(value as int)),
            Ok(None) => Ok(None),
            Err(e) => Err(e),
        }),
{
    let text = match input {
        Some(text) => text,
        None => {
            return Ok(None);
        },
    };
    let bytes = text.as_bytes();
    if bytes.len() == 0 {
        return Ok(None);
    }
    let negative = signed && bytes[0] == MINUS;
    let start: usize = if negative || bytes[0] == PLUS {
        1
    } else {
        0
    };
    let limit: u32 = if negative {
        (0 - min) as u32
    } else {
        max as u32
    };
    assert(bytes@.skip(0) == bytes@);
    match parse_digits(bytes, start, limit) {
        Some(value) => if negative {
            Ok(Some(0 - value as i32))
        } else {
            Ok(Some(value as i32))
        },
        None => Err(ErrorKind::MalformedField(Cause::Number)),
    }
}

/// Reads the bytes from `start` on as a run of digits that spells no more
/// than `max`.
fn parse_digits(bytes: &[u8], start: usize, max: u32) -> (value: Option<u32>)
    requires
        start <= bytes@.len(),
        max <= 0xffff,
    ensures
        digits_in_range(bytes@.skip(start as int), max as int) == (match value {
            Some(value) => Some(value as int),
            None => None,
        }),
{
    let ghost digits = bytes@.skip(start as int);
    if start == bytes.len() {
        return None;
    }
    let mut value: u32 = 0;
    let mut i: usize = start;
    while i < bytes.len()
        invariant
            start <= i <= bytes@.len(),
            digits == bytes@.skip(start as int),
            all_digits(digits.take(i - start)),
            value == digits_value(digits.take(i - start)),
            value <= max <= 0xffff,
        decreases bytes@.len() - i,
    {
        let byte: u8 = bytes[i];
        if byte < ZERO || byte > NINE {
            assert(!is_digit(digits[i - start]));
            return None;
        }
        proof {
            let read = digits.take(i - start + 1);
            assert(read.drop_last() == digits.take(i - start));
            assert(all_digits(read));
            lemma_digits_value_prefix(digits, i - start + 1);
        }
        value = value * 10 + (byte - ZERO) as u32;
        if value > max {
            return None;
        }
        i += 1;
    }
    assert(digits.take(i - start) == digits);
    Some(value)
}

/// The digits read so far never spell more than all of them do.
pub proof fn lemma_digits_value_prefix(digits: Seq<u8>, n: int)
    requires
        0 <= n <= digits.len(),
    ensures
        digits_value(digits.take(n)) <= digits_value(digits),
    decreases digits.len() - n,
{
    if n == digits.len() {
        assert(digits.take(n) == digits);
    } else {
        lemma_digits_value_prefix(digits, n + 1);
        assert(digits.take(n + 1).drop_last() == digits.take(n));
    }
}

/// A numeric field that is absent or empty holds no value and is no error,
/// whatever its kind.
pub proof fn lemma_absent_or_empty_number(signed: bool, min: int, max: int)
    ensures
        number_of(None, signed, min, max) == Ok::<Option<int>, ErrorKind>(None),
        number_of(Some(Seq::empty()), signed, min, max) == Ok::<Option<int>, ErrorKind>(None),
        u8_of(None) == Ok::<Option<u8>, ErrorKind>(None),
        u8_of(Some(Seq::empty())) == Ok::<Option<u8>, ErrorKind>(None),
        i8_of(None) == Ok::<Option<i8>, ErrorKind>(None),
        i8_of(Some(Seq::empty())) == Ok::<Option<i8>, ErrorKind>(None),
        u16_of(None) == Ok::<Option<u16>, ErrorKind>(None),
        u16_of(Some(Seq::empty())) == Ok::<Option<u16>, ErrorKind>(None),
{
}

/// A numeric field that holds text is either read as the number that the
/// text spells or malformed: it is malformed exactly when the text is no
/// numeral of the field's kind or spells a number outside the kind's range.
pub proof fn lemma_malformed_number(field: Seq<u8>)
    requires
        field.len() > 0,
    ensures
        u8_of(Some(field)) == (if is_numeral(field, false) && numeral_value(field, false) <= 255 {
            Ok::<Option<u8>, ErrorKind>(Some(numeral_value(field, false) as u8))
        } else {
            Err(ErrorKind::MalformedField(Cause::Number))
        }),
        i8_of(Some(field)) == (if is_numeral(field, true) && -128 <= numeral_value(field, true)
            <= 127 {
            Ok::<Option<i8>, ErrorKind>(Some(numeral_value(field, true) as i8))
        } else {
            Err(ErrorKind::MalformedField(Cause::Number))
        }),
        u16_of(Some(field)) == (if is_numeral(field, false) && numeral_value(field, false)
            <= 65535 {
            Ok::<Option<u16>, ErrorKind>(Some(numeral_value(field, false) as u16))
        } else {
            Err(ErrorKind::MalformedField(Cause::Number))
        }),
{
}

/// Text with a byte that is neither a digit nor a sign in the first place is
/// no numeral.
pub proof fn lemma_non_digit_is_no_numeral(field: Seq<u8>, signed: bool, i: int)
    requires
        0 <= i < field.len(),
        !is_digit(field[i]),
        i > 0 || !has_sign(field, signed),
    ensures
        !is_numeral(field, signed),
{
    if has_sign(field, signed) {
        assert(field.skip(1)[i - 1] == field[i]);
    }
}

} // verus!
