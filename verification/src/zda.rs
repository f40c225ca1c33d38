//! The time and date sentence.
//!
//! Its fields are the time of day, the day, the month and the year, which
//! together make the date and time that every record has, and then the
//! offset of the local time zone in hours and in minutes, either of which
//! the sentence may leave out.

use crate::common::{i8_of, parse_i8, parse_u16, parse_u8, u16_of, u8_of};
use crate::datetime::{time_of, Date, DateTime, Time};
use crate::error::ErrorKind;
use crate::fields::{advance, field_at, Fields};
use crate::source::Source;
use vstd::prelude::*;

verus! {

/// A time and date sentence.
#[derive(Debug, Clone, Copy, PartialEq, Eq, Structural)]
pub struct ZDA {
    /// Navigational system.
    pub source: Source,
    /// Date and time in UTC. If receiver uses local time see offset hour and minutes.
    pub datetime: DateTime,
    /// Offset in hours from UTC.
    pub offset_hours: Option<i8>,
    /// Offset in minutes from UTC.
    pub offset_minutes: Option<u8>,
}

/// What the three fields of a date make up: day, month and year in this
/// order. A malformed field is an error, the first of them; else, where one
/// of the three is absent or empty, there is no date.
pub open spec fn date_of(fields: Seq<Seq<u8>>) -> Result<Option<Date>, ErrorKind> {
    match u8_of(field_at(fields, 0)) {
        Err(e) => Err(e),
        Ok(day) => match u8_of(field_at(fields, 1)) {
            Err(e) => Err(e),
            Ok(month) => match u16_of(field_at(fields, 2)) {
                Err(e) => Err(e),
                Ok(year) => match (day, month, year) {
                    (Some(day), Some(month), Some(year)) => Ok(Some(Date { day, month, year })),
                    _ => Ok(None),
                },
            },
        },
    }
}

/// The number of fields that reading a date asks of the cursor: those up to
/// a malformed one, else three.
pub open spec fn date_taken(fields: Seq<Seq<u8>>) -> nat {
    if u8_of(field_at(fields, 0)) is Err {
        1
    } else if u8_of(field_at(fields, 1)) is Err {
        2
    } else {
        3
    }
}

/// True when none of the four mandatory fields is malformed.
pub open spec fn zda_well_formed(fields: Seq<Seq<u8>>) -> bool {
    &&& time_of(field_at(fields, 0)) is Ok
    &&& u8_of(field_at(fields, 1)) is Ok
    &&& u8_of(field_at(fields, 2)) is Ok
    &&& u16_of(field_at(fields, 3)) is Ok
}

/// True when each of the four mandatory fields holds a value.
pub open spec fn zda_complete(fields: Seq<Seq<u8>>) -> bool {
    &&& time_of(field_at(fields, 0)) matches Ok(Some(_))
    &&& u8_of(field_at(fields, 1)) matches Ok(Some(_))
    &&& u8_of(field_at(fields, 2)) matches Ok(Some(_))
    &&& u16_of(field_at(fields, 3)) matches Ok(Some(_))
}

/// What the fields of a time and date sentence make up.
///
/// A malformed mandatory field is an error, the first of them in the order
/// of the sentence. Else, where a mandatory field is absent or empty, there
/// is no record, whatever follows. Else the two offsets are read: a
/// malformed one is an error, and one that is absent or empty is left out of
/// the record.
pub open spec fn zda_record(source: Source, fields: Seq<Seq<u8>>) -> Result<Option<ZDA>, ErrorKind> {
    match time_of(field_at(fields, 0)) {
        Err(e) => Err(e),
        Ok(time) => match date_of(advance(fields, 1)) {
            Err(e) => Err(e),
            Ok(date) => match (time, date) {
                (Some(time), Some(date)) => match i8_of(field_at(fields, 4)) {
                    Err(e) => Err(e),
                    Ok(offset_hours) => match u8_of(field_at(fields, 5)) {
                        Err(e) => Err(e),
                        Ok(offset_minutes) => Ok(
                            Some(
                                ZDA {
                                    source,
                                    datetime: DateTime { date, time },
                                    offset_hours,
                                    offset_minutes,
                                },
                            ),
                        ),
                    },
                },
                _ => Ok(None),
            },
        },
    }
}

/// The number of fields that assembling a time and date sentence asks of
/// the cursor: those up to a malformed field, else the four mandatory
/// fields, and, where they all hold a value, the two offsets as well.
pub open spec fn zda_taken(fields: Seq<Seq<u8>>) -> nat {
    if time_of(field_at(fields, 0)) is Err {
        1
    } else if date_of(advance(fields, 1)) is Err {
        1 + date_taken(advance(fields, 1))
    } else if !zda_complete(fields) {
        4
    } else if i8_of(field_at(fields, 4)) is Err {
        5
    } else {
        6
    }
}

impl ZDA {
    /// Assembles a time and date sentence from the fields under the cursor.
    ///
    /// Returns the record, or `None` where the sentence lacks a mandatory
    /// field, or the error of the first field that is malformed.
    pub fn parse<'a>(source: Source, fields: &mut Fields<'a>) -> (parsed: Result<
        Option<ZDA>,
        ErrorKind,
    >)
        ensures
            parsed == zda_record(source, old(fields)@),
            final(fields)@ == advance(old(fields)@, zda_taken(old(fields)@)),
    {
        let time = Time::parse_from_hhmmss(fields.next())?;
        let date = ZDA::parse_zda_date(fields)?;
        match (time, date) {
            (Some(time), Some(date)) => {
                let offset_hours = parse_i8(fields.next())?;
                let offset_minutes = parse_u8(fields.next())?;
                Ok(
                    Some(
                        ZDA { source, datetime: DateTime { date, time }, offset_hours, offset_minutes },
                    ),
                )
            },
            _ => Ok(None),
        }
    }

    /// Reads the day, the month and the year from the fields under the
    /// cursor.
    ///
    /// Returns the date, or `None` where one of the three is absent or
    /// empty, or the error of the first of them that is malformed.
    pub fn parse_zda_date<'a>(fields: &mut Fields<'a>) -> (parsed: Result<Option<Date>, ErrorKind>)
        ensures
            parsed == date_of(old(fields)@),
            final(fields)@ == advance(old(fields)@, date_taken(old(fields)@)),
    {
        let day = parse_u8(fields.next())?;
        let month = parse_u8(fields.next())?;
        let year = parse_u16(fields.next())?;
        match (day, month, year) {
            (Some(day), Some(month), Some(year)) => Ok(Some(Date { day, month, year })),
            _ => Ok(None),
        }
    }
}

/// A time and date sentence of which a mandatory field is absent or empty,
/// and none is malformed, makes no record and no error, whatever its other
/// fields hold.
pub proof fn lemma_zda_all_or_none(source: Source, fields: Seq<Seq<u8>>)
    requires
        zda_well_formed(fields),
        !zda_complete(fields),
    ensures
        zda_record(source, fields) == Ok::<Option<ZDA>, ErrorKind>(None),
{
}

/// The offsets never stand in the way of a record: where the four mandatory
/// fields hold values and neither offset is malformed, the sentence makes a
/// record, which holds each offset that is given and `None` for each that is
/// absent or empty.
pub proof fn lemma_zda_offsets_optional(source: Source, fields: Seq<Seq<u8>>)
    requires
        zda_complete(fields),
        i8_of(field_at(fields, 4)) is Ok,
        u8_of(field_at(fields, 5)) is Ok,
    ensures
        (zda_record(source, fields) matches Ok(Some(record)) && {
            &&& record.source == source
            &&& time_of(field_at(fields, 0)) == Ok::<Option<Time>, ErrorKind>(Some(record.datetime.time))
            &&& u8_of(field_at(fields, 1)) == Ok::<Option<u8>, ErrorKind>(Some(record.datetime.date.day))
            &&& u8_of(field_at(fields, 2)) == Ok::<Option<u8>, ErrorKind>(
                Some(record.datetime.date.month),
            )
            &&& u16_of(field_at(fields, 3)) == Ok::<Option<u16>, ErrorKind>(
                Some(record.datetime.date.year),
            )
            &&& i8_of(field_at(fields, 4)) == Ok::<Option<i8>, ErrorKind>(record.offset_hours)
            &&& u8_of(field_at(fields, 5)) == Ok::<Option<u8>, ErrorKind>(record.offset_minutes)
        }),
        fields.len() == 4 ==> (zda_record(source, fields) matches Ok(Some(record))
            && record.offset_hours is None && record.offset_minutes is None),
{
}

} // verus!
