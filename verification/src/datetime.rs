//! Dates and times of day as sentences carry them.
//!
//! A time field is written `hhmmss`, optionally followed by a point and a
//! decimal fraction of the second. The fraction is kept to the millisecond;
//! further digits must still be digits and are dropped.

use crate::common::{all_digits, is_digit, NINE, ZERO};
use crate::error::{Cause, ErrorKind};
use crate::fields::field_bytes;
use vstd::prelude::*;

verus! {

/// The byte `'.'`.
pub const POINT: u8 = 0x2e;

/// A calendar date as the receiver reports it. The fields are not checked
/// against the calendar.
#[derive(Debug, Clone, Copy, PartialEq, Eq, Structural)]
pub struct Date {
    /// Day of the month.
    pub day: u8,
    /// Month of the year.
    pub month: u8,
    /// Year, as many digits as the sentence gives.
    pub year: u16,
}

/// A time of day in UTC.
#[derive(Debug, Clone, Copy, PartialEq, Eq, Structural)]
pub struct Time {
    /// Hours, 0 to 23.
    pub hours: u8,
    /// Minutes, 0 to 59.
    pub minutes: u8,
    /// Whole seconds, 0 to 59.
    pub seconds: u8,
    /// Milliseconds past the whole second, 0 to 999.
    pub millis: u16,
}

/// A date together with a time of day.
#[derive(Debug, Clone, Copy, PartialEq, Eq, Structural)]
pub struct DateTime {
    /// The date.
    pub date: Date,
    /// The time of day.
    pub time: Time,
}

/// The number that two digits spell.
pub open spec fn pair_value(tens: u8, units: u8) -> int {
    10 * (tens - ZERO) + (units - ZERO)
}

/// The digit at place `i` of a fraction, where a fraction that ends before
/// that place has a zero.
pub open spec fn fraction_digit(fraction: Seq<u8>, i: int) -> int {
    if 0 <= i < fraction.len() {
        fraction[i] - ZERO
    } else {
        0
    }
}

/// The milliseconds that the digits after the point spell: the first three
/// of them, with zeros for those that are missing.
pub open spec fn millis_of(fraction: Seq<u8>) -> int {
    100 * fraction_digit(fraction, 0) + 10 * fraction_digit(fraction, 1) + fraction_digit(
        fraction,
        2,
    )
}

/// The digits after the point of a time field, if it has any.
pub open spec fn fraction_of(field: Seq<u8>) -> Seq<u8> {
    if field.len() > 7 {
        field.skip(7)
    } else {
        Seq::empty()
    }
}

/// True when the field is a time of day: six digits that spell an hour below
/// 24, a minute below 60 and a second below 60, and then either nothing or a
/// point followed by any number of digits.
pub open spec fn is_time(field: Seq<u8>) -> bool {
    &&& field.len() >= 6
    &&& all_digits(field.take(6))
    &&& pair_value(field[0], field[1]) < 24
    &&& pair_value(field[2], field[3]) < 60
    &&& pair_value(field[4], field[5]) < 60
    &&& (field.len() > 6 ==> field[6] == POINT && all_digits(fraction_of(field)))
}

/// The time of day that a time field spells.
pub open spec fn time_value(field: Seq<u8>) -> Time {
    Time {
        hours: pair_value(field[0], field[1]) as u8,
        minutes: pair_value(field[2], field[3]) as u8,
        seconds: pair_value(field[4], field[5]) as u8,
        millis: millis_of(fraction_of(field)) as u16,
    }
}

/// What a time field holds: no value where the field is absent or empty, the
/// time where the field spells one, and an error for any other text.
pub open spec fn time_of(field: Option<Seq<u8>>) -> Result<Option<Time>, ErrorKind> {
    match field {
        None => Ok(None),
        Some(bytes) => if bytes.len() == 0 {
            Ok(None)
        } else if is_time(bytes) {
            Ok(Some(time_value(bytes)))
        } else {
            Err(ErrorKind::MalformedField(Cause::Time))
        },
    }
}

impl Time {
    /// True when each part of the time lies in its range.
    pub open spec fn is_valid(self) -> bool {
        self.hours < 24 && self.minutes < 60 && self.seconds < 60 && self.millis < 1000
    }

    /// Parses a time field.
    pub fn parse_from_hhmmss(input: Option<&str>) -> (parsed: Result<Option<Time>, ErrorKind>)
        ensures
            parsed == time_of(field_bytes(input)),
            parsed matches Ok(Some(time)) ==> time.is_valid(),
    {
        let text = match input {
            Some(text) => text,
            None => {
                return Ok(None);
            },
        };
        let bytes = text.as_bytes();
        if bytes.len() == 0 {
            return Ok(None);
        }
        if bytes.len() < 6 {
            return Err(ErrorKind::MalformedField(Cause::Time));
        }
        let hours = match parse_pair(bytes, 0) {
            Some(hours) => hours,
            None => {
                assert(bytes@.take(6)[0] == bytes@[0] && bytes@.take(6)[1] == bytes@[1]);
                return Err(ErrorKind::MalformedField(Cause::Time));
            },
        };
        let minutes = match parse_pair(bytes, 2) {
            Some(minutes) => minutes,
            None => {
                assert(bytes@.take(6)[2] == bytes@[2] && bytes@.take(6)[3] == bytes@[3]);
                return Err(ErrorKind::MalformedField(Cause::Time));
            },
        };
        let seconds = match parse_pair(bytes, 4) {
            Some(seconds) => seconds,
            None => {
                assert(bytes@.take(6)[4] == bytes@[4] && bytes@.take(6)[5] == bytes@[5]);
                return Err(ErrorKind::MalformedField(Cause::Time));
            },
        };
        if hours >= 24 || minutes >= 60 || seconds >= 60 {
            return Err(ErrorKind::MalformedField(Cause::Time));
        }
        let mut millis: u16 = 0;
        if bytes.len() > 6 {
            if bytes[6] != POINT {
                return Err(ErrorKind::MalformedField(Cause::Time));
            }
            millis = match parse_fraction(bytes) {
                Some(millis) => millis,
                None => {
                    return Err(ErrorKind::MalformedField(Cause::Time));
                },
            };
        }
        Ok(Some(Time { hours, minutes, seconds, millis }))
    }
}

/// Reads the two bytes at `at` as a number of two digits.
fn parse_pair(bytes: &[u8], at: usize) -> (value: Option<u8>)
    requires
        at + 2 <= bytes@.len(),
    ensures
        value == (if is_digit(bytes@[at as int]) && is_digit(bytes@[at + 1]) {
            Some(pair_value(bytes@[at as int], bytes@[at + 1]) as u8)
        } else {
            None
        }),
{
    let tens: u8 = bytes[at];
    let units: u8 = bytes[at + 1];
    if tens < ZERO || tens > NINE || units < ZERO || units > NINE {
        None
    } else {
        Some((tens - ZERO) * 10 + (units - ZERO))
    }
}

/// Reads the bytes after the point of a time field as a fraction of a second.
fn parse_fraction(bytes: &[u8]) -> (millis: Option<u16>)
    requires
        bytes@.len() >= 7,
    ensures
        millis == (if all_digits(fraction_of(bytes@)) {
            Some(millis_of(fraction_of(bytes@)) as u16)
        } else {
            None
        }),
        millis matches Some(value) ==> value < 1000,
{
    let ghost fraction = bytes@.skip(7);
    let mut millis: u16 = 0;
    let mut i: usize = 7;
    while i < bytes.len()
        invariant
            7 <= i <= bytes@.len(),
            fraction == bytes@.skip(7),
            all_digits(fraction.take(i - 7)),
            millis == millis_of(fraction.take(i - 7)),
            millis < 1000,
        decreases bytes@.len() - i,
    {
        let byte: u8 = bytes[i];
        if byte < ZERO || byte > NINE {
            assert(!is_digit(fraction[i - 7]));
            return None;
        }
        assert(all_digits(fraction.take(i - 7 + 1)));
        if i == 7 {
            millis = millis + 100 * (byte - ZERO) as u16;
        } else if i == 8 {
            millis = millis + 10 * (byte - ZERO) as u16;
        } else if i == 9 {
            millis = millis + (byte - ZERO) as u16;
        }
        i += 1;
    }
    assert(fraction.take(i - 7) == fraction);
    Some(millis)
}

} // verus!
