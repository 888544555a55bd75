//! Text records: fields whose values are strings, read from and written to bytes through
//! padders, with recognizers that tell which record comes next.
pub mod spec;
pub mod padders;
pub mod recognizers;
pub mod record;
pub mod reader;
pub mod writer;

use vstd::prelude::*;
use crate::io::IoError;

pub use self::reader::{Reader, ReaderBuilder};
pub use self::writer::{Writer, WriterBuilder};
pub use self::record::{Record, RecordData};

verus! {

/// What went wrong while reading text records.
#[derive(Debug)]
pub enum Error {
    /// No record name was given, and none could be recognized.
    RecordSpecNameRequired,
    /// No record spec has this name.
    RecordSpecNotFound(String),
    /// The record spec of the first name has no field of the second.
    FieldSpecNotFound(String, String),
    /// The unpadder failed.
    PadderFailure(padders::Error),
    /// The recognizer failed for a reason other than not recognizing the record.
    RecognizerFailure(recognizers::Error),
    /// Reading the bytes failed, or they were not text.
    IoError(IoError),
    /// The line ending read (second) was not the one of the record spec (first).
    StringDoesNotMatchLineEnding(Vec<u8>, Vec<u8>),
}

/// Where in the records an error came up: a record, and maybe one of its fields.
#[derive(Debug)]
pub struct Position {
    pub record: String,
    pub field: Option<String>,
}

impl Position {
    pub fn new(record: String, field: String) -> (p: Self)
        ensures
            p.record == record,
            p.field == Some(field),
    {
        Position { record, field: Some(field) }
    }

    pub fn new_from_record(record: String) -> (p: Self)
        ensures
            p.record == record,
            p.field is None,
    {
        Position { record, field: None }
    }
}

/// An error, with where it came up when that is known.
#[derive(Debug)]
pub struct PositionalError {
    pub error: Error,
    pub position: Option<Position>,
}

impl PositionalError {
    /// An error at no particular place.
    pub fn from_error(error: Error) -> (e: Self)
        ensures
            e.error == error,
            e.position is None,
    {
        PositionalError { error, position: None }
    }

    /// An error in the record named `record`.
    pub fn at_record(error: Error, record: String) -> (e: Self)
        ensures
            e.error == error,
            e.position matches Some(p) && p.record == record && p.field is None,
    {
        PositionalError { error, position: Some(Position::new_from_record(record)) }
    }

    /// An error in the field named `field` of the record named `record`.
    pub fn at_field(error: Error, record: String, field: String) -> (e: Self)
        ensures
            e.error == error,
            e.position matches Some(p) && p.record == record && p.field == Some(field),
    {
        PositionalError { error, position: Some(Position::new(record, field)) }
    }
}

/// What can name a record spec, or leave it to be recognized.
pub trait IntoRecordName {
    spec fn record_name_view(&self) -> Option<Seq<char>>;

    fn into_record_name(self) -> (r: Option<String>)
        ensures
            match self.record_name_view() {
                Some(n) => r matches Some(s) && s@ == n,
                None => r is None,
            },
    ;
}

impl IntoRecordName for String {
    open spec fn record_name_view(&self) -> Option<Seq<char>> {
        Some(self@)
    }

    fn into_record_name(self) -> (r: Option<String>) {
        Some(self)
    }
}

impl<'a> IntoRecordName for &'a str {
    open spec fn record_name_view(&self) -> Option<Seq<char>> {
        Some((*self)@)
    }

    fn into_record_name(self) -> (r: Option<String>) {
        Some(self.to_owned())
    }
}

impl IntoRecordName for Option<String> {
    open spec fn record_name_view(&self) -> Option<Seq<char>> {
        match self {
            Some(s) => Some(s@),
            None => None,
        }
    }

    fn into_record_name(self) -> (r: Option<String>) {
        self
    }
}

/// Whether an error came up in the record named `record`, in none of its fields.
pub open spec fn is_at_record(e: PositionalError, record: Seq<char>) -> bool {
    e.position matches Some(p) && p.record@ == record && p.field is None
}

/// Whether an error came up in the field named `field` of the record named `record`.
pub open spec fn is_at_field(e: PositionalError, record: Seq<char>, field: Seq<char>) -> bool {
    e.position matches Some(p) && p.record@ == record && (p.field matches Some(f) && f@ == field)
}

} // verus!
