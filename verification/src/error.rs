//! The reasons for which a sentence is rejected.

use vstd::prelude::*;

verus! {

/// What was wrong with a field that is present and not empty.
#[derive(Debug, Clone, Copy, PartialEq, Eq, Structural)]
pub enum Cause {
    /// The field is not a decimal numeral of its kind, or lies outside its range.
    Number,
    /// The field is not a time of day written as `hhmmss` or `hhmmss.sss`.
    Time,
    /// The field is a code that its vocabulary does not hold.
    UnsupportedCode,
    /// The free text is longer than its buffer.
    TextTooLong,
}

/// Why no record could be assembled from a sentence.
///
/// A sentence that merely lacks a mandatory field is no error: it yields no
/// record. An error is always a field that could not be read as what its
/// place in the sentence asks for.
#[derive(Debug, Clone, Copy, PartialEq, Eq, Structural)]
pub enum ErrorKind {
    /// A field is present but does not hold a value of its type.
    MalformedField(Cause),
}

impl Cause {
    /// The reason in words.
    pub open spec fn message_text(self) -> Seq<char> {
        match self {
            Cause::Number => "Wrong number field format!"@,
            Cause::Time => "Time should be in 'hhmmss' or 'hhmmss.sss' format!"@,
            Cause::UnsupportedCode => "Unsupported message kind!"@,
            Cause::TextTooLong => "exceeded string size"@,
        }
    }

    /// The reason as a static, human-readable string.
    pub fn message(self) -> (text: &'static str)
        ensures
            text@ == self.message_text(),
    {
        match self {
            Cause::Number => "Wrong number field format!",
            Cause::Time => "Time should be in 'hhmmss' or 'hhmmss.sss' format!",
            Cause::UnsupportedCode => "Unsupported message kind!",
            Cause::TextTooLong => "exceeded string size",
        }
    }
}

impl ErrorKind {
    /// What was wrong with the field.
    pub open spec fn spec_cause(self) -> Cause {
        match self {
            ErrorKind::MalformedField(cause) => cause,
        }
    }

    /// What was wrong with the field.
    #[verifier::when_used_as_spec(spec_cause)]
    pub fn cause(self) -> (cause: Cause)
        ensures
            cause == self.spec_cause(),
    {
        match self {
            ErrorKind::MalformedField(cause) => cause,
        }
    }

    /// The reason in words, as a static, human-readable string.
    pub fn message(self) -> (text: &'static str)
        ensures
            text@ == self.spec_cause().message_text(),
    {
        self.cause().message()
    }
}

} // verus!
