//! The text sentence: a diagnostic message of the receiver.
//!
//! Its fields are the total number of sentences of the message, the number
//! of this sentence, the kind of the message as a code of two digits, and
//! then free text that may itself hold delimiters.

use crate::common::{parse_u8, u8_of, ZERO};
use crate::error::{Cause, ErrorKind};
use crate::fields::{advance, field_at, field_bytes, Fields};
use crate::source::Source;
use crate::text::{
    collect_text, lemma_parts_taken_bounds, parts_taken, text_bytes, text_clone, text_of,
};
use vstd::prelude::*;

verus! {

/// The kind of a message.
#[derive(Debug, Clone, Copy, PartialEq, Eq, Structural)]
pub enum MessageType {
    /// An error message.
    Error,
    /// A warning message.
    Warning,
    /// An informational message or notice.
    Notice,
    /// An application specific message.
    User,
}

/// A code of two bytes.
pub open spec fn code(tens: u8, units: u8) -> Seq<u8> {
    seq![tens, units]
}

/// What a message-kind field holds: no value where the field is absent or
/// empty, the kind where the field is one of the four codes, and an error
/// for any other text. The codes are `00` for an error, `01` for a warning,
/// `02` for a notice and `07` for a user message; `0x30` is the digit zero.
pub open spec fn message_type_of(field: Option<Seq<u8>>) -> Result<Option<MessageType>, ErrorKind> {
    match field {
        None => Ok(None),
        Some(bytes) => if bytes.len() == 0 {
            Ok(None)
        } else if bytes == code(0x30, 0x30) {
            Ok(Some(MessageType::Error))
        } else if bytes == code(0x30, 0x31) {
            Ok(Some(MessageType::Warning))
        } else if bytes == code(0x30, 0x32) {
            Ok(Some(MessageType::Notice))
        } else if bytes == code(0x30, 0x37) {
            Ok(Some(MessageType::User))
        } else {
            Err(ErrorKind::MalformedField(Cause::UnsupportedCode))
        },
    }
}

impl MessageType {
    /// Parses a message-kind field.
    pub fn parse(input: Option<&str>) -> (parsed: Result<Option<MessageType>, ErrorKind>)
        ensures
            parsed == message_type_of(field_bytes(input)),
    {
        let text = match input {
            Some(text) => text,
            None => {
                return Ok(None);
            },
        };
        let bytes = text.as_bytes();
        if bytes.len() == 0 {
            return Ok(None);
        }
        if bytes.len() != 2 || bytes[0] != ZERO {
            return Err(ErrorKind::MalformedField(Cause::UnsupportedCode));
        }
        let units: u8 = bytes[1];
        assert(bytes@ == code(0x30, units));
        if units == 0x30 {
            Ok(Some(MessageType::Error))
        } else if units == 0x31 {
            Ok(Some(MessageType::Warning))
        } else if units == 0x32 {
            Ok(Some(MessageType::Notice))
        } else if units == 0x37 {
            Ok(Some(MessageType::User))
        } else {
            Err(ErrorKind::MalformedField(Cause::UnsupportedCode))
        }
    }
}

/// A text sentence.
#[derive(Debug, PartialEq)]
pub struct TXT {
    /// Navigational system.
    pub source: Source,
    /// Total number of sentences.
    pub sentences: u8,
    /// Sentence number.
    pub number: u8,
    /// Message type.
    pub type_: MessageType,
    /// The message content.
    pub text: heapless::String<69>,
}

/// A text sentence as a mathematical value: the record with its text as a
/// sequence of bytes.
pub struct TextRecord {
    /// Navigational system.
    pub source: Source,
    /// Total number of sentences.
    pub sentences: u8,
    /// Sentence number.
    pub number: u8,
    /// Message type.
    pub type_: MessageType,
    /// The message content.
    pub text: Seq<u8>,
}

impl View for TXT {
    type V = TextRecord;

    open spec fn view(&self) -> TextRecord {
        TextRecord {
            source: self.source,
            sentences: self.sentences,
            number: self.number,
            type_: self.type_,
            text: text_bytes(self.text),
        }
    }
}

impl Clone for TXT {
    fn clone(&self) -> (copy: Self)
        ensures
            copy@ == self@,
    {
        TXT {
            source: self.source,
            sentences: self.sentences,
            number: self.number,
            type_: self.type_,
            text: text_clone(&self.text),
        }
    }
}

/// True when each of the three leading fields holds a value.
pub open spec fn txt_complete(fields: Seq<Seq<u8>>) -> bool {
    &&& u8_of(field_at(fields, 0)) matches Ok(Some(_))
    &&& u8_of(field_at(fields, 1)) matches Ok(Some(_))
    &&& message_type_of(field_at(fields, 2)) matches Ok(Some(_))
}

/// True when none of the three leading fields is malformed.
pub open spec fn txt_well_formed(fields: Seq<Seq<u8>>) -> bool {
    &&& u8_of(field_at(fields, 0)) is Ok
    &&& u8_of(field_at(fields, 1)) is Ok
    &&& message_type_of(field_at(fields, 2)) is Ok
}

/// What the fields of a text sentence make up.
///
/// A malformed leading field is an error, the first of them in the order of
/// the sentence. Else, where a leading field is absent or empty, there is no
/// record, whatever follows. Else the fields after the third are the free
/// text, and the record holds them joined, unless they overflow its buffer.
pub open spec fn txt_record(source: Source, fields: Seq<Seq<u8>>) -> Result<
    Option<TextRecord>,
    ErrorKind,
> {
    match u8_of(field_at(fields, 0)) {
        Err(e) => Err(e),
        Ok(sentences) => match u8_of(field_at(fields, 1)) {
            Err(e) => Err(e),
            Ok(number) => match message_type_of(field_at(fields, 2)) {
                Err(e) => Err(e),
                Ok(type_) => match (sentences, number, type_) {
                    (Some(sentences), Some(number), Some(type_)) => match text_of(fields.skip(3)) {
                        Some(text) => Ok(
                            Some(TextRecord { source, sentences, number, type_, text }),
                        ),
                        None => Err(ErrorKind::MalformedField(Cause::TextTooLong)),
                    },
                    _ => Ok(None),
                },
            },
        },
    }
}

/// The number of fields that assembling a text sentence asks of the cursor:
/// those up to a malformed leading field, else the three leading fields,
/// and, where they all hold a value, the parts of the free text as well.
pub open spec fn txt_taken(fields: Seq<Seq<u8>>) -> nat {
    if u8_of(field_at(fields, 0)) is Err {
        1
    } else if u8_of(field_at(fields, 1)) is Err {
        2
    } else if !txt_complete(fields) {
        3
    } else {
        (3 + parts_taken(fields.skip(3))) as nat
    }
}

impl TXT {
    /// Assembles a text sentence from the fields under the cursor.
    ///
    /// Returns the record, or `None` where the sentence lacks a leading
    /// field, or the error of the first field that is malformed.
    pub fn parse<'a>(source: Source, fields: &mut Fields<'a>) -> (parsed: Result<
        Option<TXT>,
        ErrorKind,
    >)
        ensures
            (match txt_record(source, old(fields)@) {
                Ok(Some(record)) => parsed matches Ok(Some(txt)) && txt@ == record,
                Ok(None) => parsed matches Ok(None),
                Err(e) => parsed matches Err(f) && f == e,
            }),
            final(fields)@ == advance(old(fields)@, txt_taken(old(fields)@)),
    {
        let ghost before = fields@;
        let sentences = parse_u8(fields.next())?;
        let number = parse_u8(fields.next())?;
        let type_ = MessageType::parse(fields.next())?;
        proof {
            assert(fields@ == advance(before, 3));
        }
        match (sentences, number, type_) {
            (Some(sentences), Some(number), Some(type_)) => {
                proof {
                    lemma_parts_taken_bounds(before.skip(3));
                }
                let text = collect_text(fields)?;
                Ok(Some(TXT { source, sentences, number, type_, text }))
            },
            _ => Ok(None),
        }
    }
}

/// A text sentence of which a leading field is absent or empty, and none is
/// malformed, makes no record and no error, whatever its other fields hold.
pub proof fn lemma_txt_all_or_none(source: Source, fields: Seq<Seq<u8>>)
    requires
        txt_well_formed(fields),
        !txt_complete(fields),
    ensures
        txt_record(source, fields) == Ok::<Option<TextRecord>, ErrorKind>(None),
{
}

/// A text sentence makes a record exactly when its three leading fields
/// hold values and its free text fits the buffer; the record then holds
/// those values, the source it was given, and the text.
pub proof fn lemma_txt_record_some(source: Source, fields: Seq<Seq<u8>>)
    ensures
        txt_record(source, fields) matches Ok(Some(_)) <==> txt_complete(fields) && text_of(
            fields.skip(3),
        ) is Some,
        (txt_record(source, fields) matches Ok(Some(record)) ==> {
            &&& record.source == source
            &&& u8_of(field_at(fields, 0)) == Ok::<Option<u8>, ErrorKind>(Some(record.sentences))
            &&& u8_of(field_at(fields, 1)) == Ok::<Option<u8>, ErrorKind>(Some(record.number))
            &&& message_type_of(field_at(fields, 2)) == Ok::<Option<MessageType>, ErrorKind>(
                Some(record.type_),
            )
            &&& text_of(fields.skip(3)) == Some(record.text)
        }),
{
}

} // verus!
