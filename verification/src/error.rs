//! The errors of reading and writing records, and where in a record they came up.
use vstd::prelude::*;
use crate::io::IoError;
use crate::padder::PaddingError;
use crate::parser::ParseError;
use crate::formatter::FormatError;
use crate::text::padders::PaddingError as TextPaddingError;
use crate::spec::loader::yaml::Error as LoaderError;

verus! {

/// An error of one of the pluggable parts (padders, parsers, formatters, recognizers),
/// which callers may take apart again with `Downcast`.
#[derive(Debug, PartialEq, Eq)]
pub enum BoxedError {
    Padding(PaddingError),
    Parse(ParseError),
    Format(FormatError),
    TextPadding(TextPaddingError),
    Io(IoError),
    Loader(LoaderError),
    Message(String),
}

/// Values that can be kept as a `BoxedError`.
pub trait IntoBoxedError {
    spec fn boxes_to(&self, e: BoxedError) -> bool;

    fn into_boxed(self) -> (r: BoxedError)
        ensures
            self.boxes_to(r),
    ;
}

impl IntoBoxedError for BoxedError {
    open spec fn boxes_to(&self, e: BoxedError) -> bool {
        e == *self
    }

    fn into_boxed(self) -> (r: BoxedError) {
        self
    }
}

impl IntoBoxedError for PaddingError {
    open spec fn boxes_to(&self, e: BoxedError) -> bool {
        e == BoxedError::Padding(*self)
    }

    fn into_boxed(self) -> (r: BoxedError) {
        BoxedError::Padding(self)
    }
}

impl IntoBoxedError for ParseError {
    open spec fn boxes_to(&self, e: BoxedError) -> bool {
        e == BoxedError::Parse(*self)
    }

    fn into_boxed(self) -> (r: BoxedError) {
        BoxedError::Parse(self)
    }
}

impl IntoBoxedError for FormatError {
    open spec fn boxes_to(&self, e: BoxedError) -> bool {
        e == BoxedError::Format(*self)
    }

    fn into_boxed(self) -> (r: BoxedError) {
        BoxedError::Format(self)
    }
}

impl IntoBoxedError for TextPaddingError {
    open spec fn boxes_to(&self, e: BoxedError) -> bool {
        e == BoxedError::TextPadding(*self)
    }

    fn into_boxed(self) -> (r: BoxedError) {
        BoxedError::TextPadding(self)
    }
}

impl IntoBoxedError for IoError {
    open spec fn boxes_to(&self, e: BoxedError) -> bool {
        e == BoxedError::Io(*self)
    }

    fn into_boxed(self) -> (r: BoxedError) {
        BoxedError::Io(self)
    }
}

impl IntoBoxedError for LoaderError {
    open spec fn boxes_to(&self, e: BoxedError) -> bool {
        e == BoxedError::Loader(*self)
    }

    fn into_boxed(self) -> (r: BoxedError) {
        BoxedError::Loader(self)
    }
}

impl<'a> IntoBoxedError for &'a str {
    open spec fn boxes_to(&self, e: BoxedError) -> bool {
        e matches BoxedError::Message(m) && m@ == (*self)@
    }

    fn into_boxed(self) -> (r: BoxedError) {
        BoxedError::Message(self.to_owned())
    }
}

impl IntoBoxedError for String {
    open spec fn boxes_to(&self, e: BoxedError) -> bool {
        e matches BoxedError::Message(m) && m@ == self@
    }

    fn into_boxed(self) -> (r: BoxedError) {
        BoxedError::Message(self)
    }
}

/// Kinds of error that a `BoxedError` may hold.
pub trait Downcast: Sized {
    /// The error of this kind that `e` holds, if it holds one.
    spec fn unboxed(e: BoxedError) -> Option<Self>;

    fn downcast_boxed(e: BoxedError) -> (r: core::result::Result<Self, BoxedError>)
        ensures
            match Self::unboxed(e) {
                Some(x) => r == Ok::<Self, BoxedError>(x),
                None => r == Err::<Self, BoxedError>(e),
            },
    ;

    fn downcast_boxed_ref(e: &BoxedError) -> (r: Option<&Self>)
        ensures
            match Self::unboxed(*e) {
                Some(x) => r matches Some(y) && *y == x,
                None => r is None,
            },
    ;
}

impl Downcast for PaddingError {
    open spec fn unboxed(e: BoxedError) -> Option<Self> {
        match e {
            BoxedError::Padding(x) => Some(x),
            _ => None,
        }
    }

    fn downcast_boxed(e: BoxedError) -> (r: core::result::Result<Self, BoxedError>) {
        match e {
            BoxedError::Padding(x) => Ok(x),
            other => Err(other),
        }
    }

    fn downcast_boxed_ref(e: &BoxedError) -> (r: Option<&Self>) {
        match e {
            BoxedError::Padding(x) => Some(x),
            _ => None,
        }
    }
}

impl Downcast for ParseError {
    open spec fn unboxed(e: BoxedError) -> Option<Self> {
        match e {
            BoxedError::Parse(x) => Some(x),
            _ => None,
        }
    }

    fn downcast_boxed(e: BoxedError) -> (r: core::result::Result<Self, BoxedError>) {
        match e {
            BoxedError::Parse(x) => Ok(x),
            other => Err(other),
        }
    }

    fn downcast_boxed_ref(e: &BoxedError) -> (r: Option<&Self>) {
        match e {
            BoxedError::Parse(x) => Some(x),
            _ => None,
        }
    }
}

impl Downcast for FormatError {
    open spec fn unboxed(e: BoxedError) -> Option<Self> {
        match e {
            BoxedError::Format(x) => Some(x),
            _ => None,
        }
    }

    fn downcast_boxed(e: BoxedError) -> (r: core::result::Result<Self, BoxedError>) {
        match e {
            BoxedError::Format(x) => Ok(x),
            other => Err(other),
        }
    }

    fn downcast_boxed_ref(e: &BoxedError) -> (r: Option<&Self>) {
        match e {
            BoxedError::Format(x) => Some(x),
            _ => None,
        }
    }
}

impl Downcast for TextPaddingError {
    open spec fn unboxed(e: BoxedError) -> Option<Self> {
        match e {
            BoxedError::TextPadding(x) => Some(x),
            _ => None,
        }
    }

    fn downcast_boxed(e: BoxedError) -> (r: core::result::Result<Self, BoxedError>) {
        match e {
            BoxedError::TextPadding(x) => Ok(x),
            other => Err(other),
        }
    }

    fn downcast_boxed_ref(e: &BoxedError) -> (r: Option<&Self>) {
        match e {
            BoxedError::TextPadding(x) => Some(x),
            _ => None,
        }
    }
}

impl Downcast for IoError {
    open spec fn unboxed(e: BoxedError) -> Option<Self> {
        match e {
            BoxedError::Io(x) => Some(x),
            _ => None,
        }
    }

    fn downcast_boxed(e: BoxedError) -> (r: core::result::Result<Self, BoxedError>) {
        match e {
            BoxedError::Io(x) => Ok(x),
            other => Err(other),
        }
    }

    fn downcast_boxed_ref(e: &BoxedError) -> (r: Option<&Self>) {
        match e {
            BoxedError::Io(x) => Some(x),
            _ => None,
        }
    }
}

impl Downcast for LoaderError {
    open spec fn unboxed(e: BoxedError) -> Option<Self> {
        match e {
            BoxedError::Loader(x) => Some(x),
            _ => None,
        }
    }

    fn downcast_boxed(e: BoxedError) -> (r: core::result::Result<Self, BoxedError>) {
        match e {
            BoxedError::Loader(x) => Ok(x),
            other => Err(other),
        }
    }

    fn downcast_boxed_ref(e: &BoxedError) -> (r: Option<&Self>) {
        match e {
            BoxedError::Loader(x) => Some(x),
            _ => None,
        }
    }
}

/// What went wrong while reading or writing records.
#[derive(Debug)]
pub enum Error {
    SpecStreamReturnedNone,
    SpecStreamError(BoxedError),
    RecordSpecNotFound(String),
    RecordSpecNameRequired,
    ParserFailure(BoxedError),
    FormatterFailure(BoxedError),
    IoError(IoError),
    DataDoesNotMatchLineEnding(Vec<u8>, Vec<u8>),
    CouldNotReadEnough(Vec<u8>),
    FormattedValueWrongLength(usize, Vec<u8>),
    FieldValueRequired,
    DataHolderError(BoxedError),
    FieldRequiredToBuild(&'static str),
    BuildError(&'static str),
}

impl From<IoError> for Error {
    fn from(e: IoError) -> (r: Self)
        ensures
            r == Error::IoError(e),
    {
        Error::IoError(e)
    }
}

impl vstd::std_specs::convert::FromSpecImpl<IoError> for Error {
    open spec fn obeys_from_spec() -> bool {
        true
    }

    open spec fn from_spec(v: IoError) -> Self {
        Error::IoError(v)
    }
}

/// Where in the records an error came up: a record, and maybe a field of it.
#[derive(Debug)]
pub struct Position {
    pub record: String,
    pub field: Option<String>,
}

impl Position {
    pub fn new(record: String, field: String) -> (p: Self)
        ensures
            p.record == record,
            p.field == Some(field),
    {
        Position { record, field: Some(field) }
    }

    pub fn new_from_record(record: String) -> (p: Self)
        ensures
            p.record == record,
            p.field is None,
    {
        Position { record, field: None }
    }
}

/// An error with the record, and maybe the field, where it came up.
#[derive(Debug)]
pub struct PositionalError {
    pub error: Error,
    pub position: Option<Position>,
}

impl PositionalError {
    pub fn new(error: Error, position: Position) -> (e: Self)
        ensures
            e.error == error,
            e.position == Some(position),
    {
        PositionalError { error, position: Some(position) }
    }

    /// An error that came up in no particular record.
    pub fn from_error(error: Error) -> (e: Self)
        ensures
            e.error == error,
            e.position is None,
    {
        PositionalError { error, position: None }
    }

    /// Places an error from a field of the record named `record`: at that field, when
    /// the error names one, else at the record.
    pub fn from_field_error(error: FieldError, record: &str) -> (e: Self)
        ensures
            e.error == error.error,
            e.position matches Some(p) && p.record@ == record@ && match error.field {
                Some(f) => p.field matches Some(g) && g@ == f@,
                None => p.field is None,
            },
    {
        let record = record.to_owned();
        let position = match error.field {
            Some(field) => Position::new(record, field),
            None => Position::new_from_record(record),
        };
        PositionalError { error: error.error, position: Some(position) }
    }
}

/// An error with the field, if any, where it came up.
#[derive(Debug)]
pub struct FieldError {
    pub error: Error,
    pub field: Option<String>,
}

impl FieldError {
    pub fn new(error: Error, field: String) -> (e: Self)
        ensures
            e.error == error,
            e.field == Some(field),
    {
        FieldError { error, field: Some(field) }
    }

    /// An error that came up in no particular field.
    pub fn from_error(error: Error) -> (e: Self)
        ensures
            e.error == error,
            e.field is None,
    {
        FieldError { error, field: None }
    }

    /// An error that came up in the field named `field`.
    pub fn at_field(error: Error, field: &str) -> (e: Self)
        ensures
            e.error == error,
            e.field matches Some(f) && f@ == field@,
    {
        FieldError { error, field: Some(field.to_owned()) }
    }
}

impl Error {
    /// A short description of what went wrong.
    pub fn description(&self) -> (r: &'static str)
        ensures
            match self {
                Error::SpecStreamReturnedNone => r@ == "record spec stream returned no record spec"@,
                Error::SpecStreamError(_) => r@ == "record spec stream encountered an error"@,
                Error::RecordSpecNotFound(_) => r@ == "record spec could not be found"@,
                Error::RecordSpecNameRequired => r@ == "a record spec name is required"@,
                Error::ParserFailure(_) => r@ == "The field parser encountered an error"@,
                Error::FormatterFailure(_) => r@ == "The field formatter encountered an error"@,
                Error::IoError(_) => r@ == "An IO error occurred while trying to read"@,
                Error::DataDoesNotMatchLineEnding(_, _) => r@ == "The encountered line ending doesn't match the expected one"@,
                Error::CouldNotReadEnough(_) => r@ == "Could not read enough data"@,
                Error::FormattedValueWrongLength(_, _) => r@ == "The value returned after padding is either longer or shorter than the length for the field"@,
                Error::FieldValueRequired => r@ == "The value for the given field is required since it has no default"@,
                Error::DataHolderError(_) => r@ == "There was an error creating the records data holder"@,
                Error::FieldRequiredToBuild(_) => r@ == "There is a required field missing"@,
                Error::BuildError(_) => r@ == "a part needed to build is missing"@,
            },
    {
        match self {
            Error::SpecStreamReturnedNone => "record spec stream returned no record spec",
            Error::SpecStreamError(_) => "record spec stream encountered an error",
            Error::RecordSpecNotFound(_) => "record spec could not be found",
            Error::RecordSpecNameRequired => "a record spec name is required",
            Error::ParserFailure(_) => "The field parser encountered an error",
            Error::FormatterFailure(_) => "The field formatter encountered an error",
            Error::IoError(_) => "An IO error occurred while trying to read",
            Error::DataDoesNotMatchLineEnding(_, _) => "The encountered line ending doesn't match the expected one",
            Error::CouldNotReadEnough(_) => "Could not read enough data",
            Error::FormattedValueWrongLength(_, _) => "The value returned after padding is either longer or shorter than the length for the field",
            Error::FieldValueRequired => "The value for the given field is required since it has no default",
            Error::DataHolderError(_) => "There was an error creating the records data holder",
            Error::FieldRequiredToBuild(_) => "There is a required field missing",
            Error::BuildError(_) => "a part needed to build is missing",
        }
    }
}

} // verus!
