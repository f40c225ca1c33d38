//! Field-level parsing of comma-delimited NMEA 0183 sentences into typed
//! records, with every function verified against a mathematical model of the
//! sentence's fields.
//!
//! A sentence reaches this crate as a cursor over its fields, standing at the
//! first field after the sentence's name. Assembling a record has three
//! outcomes: the record; no record, where the sentence leaves a mandatory
//! field out; and an error, where a field is there but cannot be read.

pub mod common;
pub mod datetime;
pub mod error;
pub mod fields;
pub mod source;
pub mod text;
pub mod txt;
pub mod zda;

pub use crate::datetime::{Date, DateTime, Time};
pub use crate::error::{Cause, ErrorKind};
pub use crate::fields::Fields;
pub use crate::source::Source;
pub use crate::txt::{MessageType, TXT};
pub use crate::zda::ZDA;
