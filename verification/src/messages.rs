//! The messages that errors are shown with, nested errors inside the messages of the
//! errors that hold them.
use vstd::prelude::*;
use vstd::string::{StringExecFns, StringSliceAdditionalSpecFns};
use vstd::utf8::{decode_utf8, encode_utf8, valid_utf8};
use crate::error::{BoxedError, Error, FieldError, PositionalError};
use crate::formatter::FormatError;
use crate::io::IoError;
use crate::line::Error as LineError;
use crate::padder::PaddingError;
use crate::parser::ParseError;
use crate::spec::Error as SpecError;
use crate::spec::loader::yaml::{Error as LoaderError, ScanFailure, Value, append_digits, decimal, decimal_string, digits};
use crate::text::padders::PaddingError as TextPaddingError;

verus! {

broadcast use vstd::utf8::encode_utf8_decode_utf8, vstd::utf8::decode_utf8_encode_utf8;

/// What std's `Debug` makes of a string: the string in double quotes, with quotes,
/// backslashes and characters that do not print escaped.
pub uninterp spec fn debug_str_text(s: Seq<char>) -> Seq<char>;

/// Calls std's `Debug` formatting of a string. The contract names the result as a function
/// of the string and does not spell out its escapes.
#[verifier::external_body]
fn debug_str(s: &str) -> (r: String)
    ensures
        r@ == debug_str_text(s@),
{
    format!("{:?}", s)
}

/// How a YAML value is shown: its kind, then what it holds, as the `yaml-rust` crate's
/// `Debug` shows its values.
pub open spec fn value_text(v: Value) -> Seq<char>
    decreases v,
{
    match v {
        Value::Real(s) => "Real("@ + debug_str_text(s@) + ")"@,
        Value::Integer(i) => "Integer("@ + decimal(i as int) + ")"@,
        Value::String(s) => "String("@ + debug_str_text(s@) + ")"@,
        Value::Boolean(b) => if b {
            "Boolean(true)"@
        } else {
            "Boolean(false)"@
        },
        Value::Array(items) => "Array(["@ + values_text(items@) + "])"@,
        Value::Hash(pairs) => "Hash({"@ + pairs_text(pairs@) + "})"@,
        Value::Alias(n) => "Alias("@ + digits(n as nat) + ")"@,
        Value::Null => "Null"@,
        Value::BadValue => "BadValue"@,
    }
}

/// The values shown one after another, separated by a comma and a space.
pub open spec fn values_text(vs: Seq<Value>) -> Seq<char>
    decreases vs,
{
    if vs.len() == 0 {
        Seq::empty()
    } else if vs.len() == 1 {
        value_text(vs[0])
    } else {
        values_text(vs.subrange(0, vs.len() - 1)) + ", "@ + value_text(vs[vs.len() - 1])
    }
}

/// The pairs shown one after another as `key: value`, separated by a comma and a space.
pub open spec fn pairs_text(ps: Seq<(Value, Value)>) -> Seq<char>
    decreases ps,
{
    if ps.len() == 0 {
        Seq::empty()
    } else if ps.len() == 1 {
        value_text(ps[0].0) + ": "@ + value_text(ps[0].1)
    } else {
        pairs_text(ps.subrange(0, ps.len() - 1)) + ", "@ + value_text(ps[ps.len() - 1].0) + ": "@ + value_text(
            ps[ps.len() - 1].1,
        )
    }
}

impl Value {
    /// The value as `value_text` shows it.
    pub fn debug_text(&self) -> (r: String)
        ensures
            r@ == value_text(*self),
        decreases self,
    {
        let mut s = String::new();
        match self {
            Value::Real(t) => {
                s.append("Real(");
                s.append(debug_str(t.as_str()).as_str());
                s.append(")");
            },
            Value::Integer(i) => {
                s.append("Integer(");
                s.append(decimal_string(*i).as_str());
                s.append(")");
            },
            Value::String(t) => {
                s.append("String(");
                s.append(debug_str(t.as_str()).as_str());
                s.append(")");
            },
            Value::Boolean(b) => {
                if *b {
                    s.append("Boolean(true)");
                } else {
                    s.append("Boolean(false)");
                }
            },
            Value::Array(items) => {
                s.append("Array([");
                let mut i: usize = 0;
                while i < items.len()
                    invariant
                        i <= items@.len(),
                        *self == Value::Array(*items),
                        s@ == "Array(["@ + values_text(items@.subrange(0, i as int)),
                    decreases items@.len() - i,
                {
                    proof {
                        assert(items@.subrange(0, i + 1).subrange(0, i as int) =~= items@.subrange(0, i as int));
                    }
                    if i > 0 {
                        s.append(", ");
                    }
                    proof {
                        assert(*items == self->Array_0);
                        assert(decreases_to!(*self => self->Array_0));
                        assert(decreases_to!(*items => items@));
                        assert(decreases_to!(items@ => items@[i as int]));
                    }
                    let t = items[i].debug_text();
                    s.append(t.as_str());
                    i = i + 1;
                }
                assert(items@.subrange(0, i as int) =~= items@);
                s.append("])");
            },
            Value::Hash(pairs) => {
                s.append("Hash({");
                let mut i: usize = 0;
                while i < pairs.len()
                    invariant
                        i <= pairs@.len(),
                        *self == Value::Hash(*pairs),
                        s@ == "Hash({"@ + pairs_text(pairs@.subrange(0, i as int)),
                    decreases pairs@.len() - i,
                {
                    proof {
                        assert(pairs@.subrange(0, i + 1).subrange(0, i as int) =~= pairs@.subrange(0, i as int));
                    }
                    if i > 0 {
                        s.append(", ");
                    }
                    proof {
                        assert(*pairs == self->Hash_0);
                        assert(decreases_to!(*self => self->Hash_0));
                        assert(decreases_to!(*pairs => pairs@));
                        assert(decreases_to!(pairs@ => pairs@[i as int]));
                        assert(decreases_to!(pairs@[i as int] => pairs@[i as int].0));
                        assert(decreases_to!(pairs@[i as int] => pairs@[i as int].1));
                    }
                    let k = pairs[i].0.debug_text();
                    s.append(k.as_str());
                    s.append(": ");
                    let v = pairs[i].1.debug_text();
                    s.append(v.as_str());
                    i = i + 1;
                }
                assert(pairs@.subrange(0, i as int) =~= pairs@);
                s.append("})");
            },
            Value::Alias(n) => {
                s.append("Alias(");
                append_digits(&mut s, *n as u128);
                s.append(")");
            },
            Value::Null => {
                s.append("Null");
            },
            Value::BadValue => {
                s.append("BadValue");
            },
        }
        s
    }
}


/// What an I/O error says.
pub open spec fn io_text(e: IoError) -> Seq<char> {
    match e {
        IoError::UnexpectedEof => "failed to fill whole buffer"@,
        IoError::WriteZero => "failed to write whole buffer"@,
        IoError::InvalidData => "stream did not contain valid UTF-8"@,
    }
}

/// What an error of a split that cut a character says: of the data, or of the padding.
pub open spec fn split_text(of_data: bool, index: usize) -> Seq<char> {
    "The index "@ + digits(index as nat) + if of_data {
        " needed for splitting the data is not on a char boundary"@
    } else {
        " needed for splitting the padding is not on a char boundary"@
    }
}

/// Says a split error.
fn split_message(of_data: bool, index: usize) -> (r: String)
    ensures
        r@ == split_text(of_data, index),
{
    let mut s = String::new();
    s.append("The index ");
    append_digits(&mut s, index as u128);
    if of_data {
        s.append(" needed for splitting the data is not on a char boundary");
    } else {
        s.append(" needed for splitting the padding is not on a char boundary");
    }
    s
}

/// Data as text when it is UTF-8, else as the list of its bytes in decimal.
pub open spec fn data_text(d: Seq<u8>) -> Seq<char> {
    if valid_utf8(d) {
        decode_utf8(d)
    } else {
        "["@ + bytes_text(d) + "]"@
    }
}

/// The bytes in decimal, separated by a comma and a space.
pub open spec fn bytes_text(d: Seq<u8>) -> Seq<char>
    decreases d.len(),
{
    if d.len() == 0 {
        Seq::empty()
    } else if d.len() == 1 {
        digits(d[0] as nat)
    } else {
        bytes_text(d.subrange(0, d.len() - 1)) + ", "@ + digits(d[d.len() - 1] as nat)
    }
}

/// Shows data as `data_text` says.
pub fn data_message(d: &[u8]) -> (r: String)
    ensures
        r@ == data_text(d@),
{
    match crate::data_type::str_from_utf8(d) {
        Some(t) => {
            let mut s = String::new();
            s.append(t);
            s
        },
        None => {
            let mut s = String::new();
            s.append("[");
            let mut i: usize = 0;
            while i < d.len()
                invariant
                    i <= d@.len(),
                    s@ == "["@ + bytes_text(d@.subrange(0, i as int)),
                decreases d@.len() - i,
            {
                proof {
                    assert(d@.subrange(0, i + 1).subrange(0, i as int) =~= d@.subrange(0, i as int));
                }
                if i > 0 {
                    s.append(", ");
                }
                append_digits(&mut s, d[i] as u128);
                i = i + 1;
            }
            assert(d@.subrange(0, i as int) =~= d@);
            s.append("]");
            s
        },
    }
}

/// What a scan error says: its explanation, then where, the column counted from 1.
pub open spec fn scan_text(f: ScanFailure) -> Seq<char> {
    f.info@ + " at line "@ + digits(f.line as nat) + " column "@ + digits((f.col + 1) as nat)
}

/// What an error of building a spec says, with the errors of the parts that failed.
pub open spec fn spec_error_text(e: SpecError) -> Seq<char>
    decreases e,
{
    match e {
        SpecError::FieldRequiredToBuild(f) => f@ + " must be set in order to build"@,
        SpecError::SubBuilderErrors(errors) => "Some sub builders had errors: "@ + sub_errors_text(errors@),
    }
}

/// Each part that failed, on a line of its own: its name, then what its error says.
pub open spec fn sub_errors_text(es: Seq<(String, SpecError)>) -> Seq<char>
    decreases es,
{
    if es.len() == 0 {
        Seq::empty()
    } else {
        sub_errors_text(es.subrange(0, es.len() - 1)) + "\n "@ + es[es.len() - 1].0@ + ": "@ + spec_error_text(
            es[es.len() - 1].1,
        )
    }
}

/// What an error of loading a spec says.
pub open spec fn loader_text(e: LoaderError) -> Seq<char> {
    match e {
        LoaderError::NoDocumentsFound => "The resource at the given path has no documents in it"@,
        LoaderError::MissingKey { key, path } => match path {
            Some(p) => "There is a key "@ + key@ + " missing under key "@ + p@,
            None => "There is a key "@ + key@ + " missing"@,
        },
        LoaderError::InvalidType { value, expected_type, path } => match path {
            Some(p) => "The value "@ + value_text(value) + " at path "@ + p@
                + " has the wrong type. The expected type was "@ + expected_type@,
            None => "The value "@ + value_text(value) + " has the wrong type. The expected type was "@
                + expected_type@,
        },
        LoaderError::BuilderError(b) => "The spec builder had an error: "@ + spec_error_text(b),
        LoaderError::Scan(f) => scan_text(f),
        LoaderError::LineTooLong => "A line of the resource is too long to load"@,
    }
}

/// What a kept error says.
pub open spec fn boxed_text(b: BoxedError) -> Seq<char> {
    match b {
        BoxedError::Padding(p) => match p {
            PaddingError::DataSplitNotOnCharBoundary(i) => split_text(true, i),
            PaddingError::PaddingSplitNotOnCharBoundary(i) => split_text(false, i),
        },
        BoxedError::Parse(p) => match p {
            ParseError::DataSplitNotOnCharBoundary(i) => split_text(true, i),
            ParseError::PaddingSplitNotOnCharBoundary(i) => split_text(false, i),
        },
        BoxedError::Format(f) => match f {
            FormatError::DataSplitNotOnCharBoundary(i) => split_text(true, i),
            FormatError::PaddingSplitNotOnCharBoundary(i) => split_text(false, i),
        },
        BoxedError::TextPadding(TextPaddingError::PaddingLongerThanOne(n)) => "PaddingLongerThanOne: the padding string was "@
            + digits(n as nat) + " chars long it can only be at most 1 char long"@,
        BoxedError::Io(i) => io_text(i),
        BoxedError::Loader(l) => loader_text(l),
        BoxedError::Message(m) => m@,
    }
}

/// What an error of reading or writing records says, with what the errors it holds say.
pub open spec fn error_text(e: Error) -> Seq<char> {
    match e {
        Error::SpecStreamReturnedNone => "record spec stream returned no record spec"@,
        Error::SpecStreamError(b) => "record spec stream encountered an error: "@ + boxed_text(b),
        Error::RecordSpecNotFound(n) => "record spec named "@ + n@ + " could not be found"@,
        Error::RecordSpecNameRequired => "a record spec name is required"@,
        Error::ParserFailure(b) => "The field parser encountered an error: "@ + boxed_text(b),
        Error::FormatterFailure(b) => "The field formatter encountered an error: "@ + boxed_text(b),
        Error::IoError(i) => "An IO error occurred while trying to read: "@ + io_text(i),
        Error::CouldNotReadEnough(d) => "Could not read enough data. only got: "@ + data_text(d@),
        Error::DataDoesNotMatchLineEnding(expected, actual) => "The encountered line ending \""@ + data_text(actual@)
            + "\" doesn't match the expected one \""@ + data_text(expected@) + "\""@,
        Error::FormattedValueWrongLength(length, value) => "The value "@ + data_text(value@) + " returned after padding is "@
            + digits(value@.len()) + " long and is required to be "@ + digits(length as nat)
            + " long for the given field"@,
        Error::FieldValueRequired => "The value for the field is required since it has no default"@,
        Error::DataHolderError(b) => "An error occurred while trying to create the record data holder: "@ + boxed_text(b),
        Error::FieldRequiredToBuild(f) => f@ + " must be set in order to build"@,
        Error::BuildError(m) => m@,
    }
}

/// What an error with its place says: the error, then the field and the record it was in.
pub open spec fn positional_text(e: PositionalError) -> Seq<char> {
    match e.position {
        None => error_text(e.error),
        Some(p) => match p.field {
            None => error_text(e.error) + " at record "@ + p.record@,
            Some(f) => error_text(e.error) + " at field "@ + f@ + " of record "@ + p.record@,
        },
    }
}

/// What an error in a field says: the error, then the field.
pub open spec fn field_error_text(e: FieldError) -> Seq<char> {
    match e.field {
        None => error_text(e.error),
        Some(f) => error_text(e.error) + " at field "@ + f@,
    }
}

/// What an error of reading or writing lines says.
pub open spec fn line_error_text(e: LineError) -> Seq<char> {
    match e {
        LineError::StringDoesntMatchLineSeparator(expected, actual) => "StringDoesntMatchLineSeparator: line separator was expected to be '"@
            + data_text(expected@) + "' was actually '"@ + data_text(actual@) + "'"@,
        LineError::BufferOverflowsEndOfLine(length, left) => "BufferOverflowsEndOfLine: the buffer length "@ + digits(
            length as nat,
        ) + " is more than the "@ + digits(left as nat) + " bytes which are left until the end of the line"@,
        LineError::Io(i) => io_text(i),
    }
}

impl IoError {
    pub fn to_string(&self) -> (r: String)
        ensures
            r@ == io_text(*self),
    {
        let mut s = String::new();
        match self {
            IoError::UnexpectedEof => s.append("failed to fill whole buffer"),
            IoError::WriteZero => s.append("failed to write whole buffer"),
            IoError::InvalidData => s.append("stream did not contain valid UTF-8"),
        }
        s
    }
}

impl ScanFailure {
    pub fn to_string(&self) -> (r: String)
        ensures
            r@ == scan_text(*self),
    {
        let mut s = String::new();
        s.append(self.info.as_str());
        s.append(" at line ");
        append_digits(&mut s, self.line as u128);
        s.append(" column ");
        append_digits(&mut s, self.col as u128 + 1);
        s
    }
}

impl SpecError {
    pub fn to_string(&self) -> (r: String)
        ensures
            r@ == spec_error_text(*self),
        decreases self,
    {
        let mut s = String::new();
        match self {
            SpecError::FieldRequiredToBuild(f) => {
                s.append(f);
                s.append(" must be set in order to build");
            },
            SpecError::SubBuilderErrors(errors) => {
                s.append("Some sub builders had errors: ");
                let mut i: usize = 0;
                assert(errors@.subrange(0, 0) =~= Seq::<(String, SpecError)>::empty());
                while i < errors.len()
                    invariant
                        i <= errors@.len(),
                        *self == SpecError::SubBuilderErrors(*errors),
                        s@ == "Some sub builders had errors: "@ + sub_errors_text(errors@.subrange(0, i as int)),
                    decreases errors@.len() - i,
                {
                    proof {
                        assert(errors@.subrange(0, i + 1).subrange(0, i as int) =~= errors@.subrange(0, i as int));
                        assert(decreases_to!(*self => self->SubBuilderErrors_0));
                        assert(decreases_to!(*errors => errors@));
                        assert(decreases_to!(errors@ => errors@[i as int]));
                        assert(decreases_to!(errors@[i as int] => errors@[i as int].1));
                    }
                    s.append("\n ");
                    s.append(errors[i].0.as_str());
                    s.append(": ");
                    let t = errors[i].1.to_string();
                    s.append(t.as_str());
                    i = i + 1;
                }
                assert(errors@.subrange(0, i as int) =~= errors@);
            },
        }
        s
    }
}

impl LoaderError {
    pub fn to_string(&self) -> (r: String)
        ensures
            r@ == loader_text(*self),
    {
        let mut s = String::new();
        match self {
            LoaderError::NoDocumentsFound => s.append("The resource at the given path has no documents in it"),
            LoaderError::MissingKey { key, path } => {
                s.append("There is a key ");
                s.append(key);
                match path {
                    Some(p) => {
                        s.append(" missing under key ");
                        s.append(p.as_str());
                    },
                    None => s.append(" missing"),
                }
            },
            LoaderError::InvalidType { value, expected_type, path } => {
                s.append("The value ");
                s.append(value.debug_text().as_str());
                match path {
                    Some(p) => {
                        s.append(" at path ");
                        s.append(p.as_str());
                    },
                    None => {},
                }
                s.append(" has the wrong type. The expected type was ");
                s.append(expected_type);
            },
            LoaderError::BuilderError(b) => {
                s.append("The spec builder had an error: ");
                s.append(b.to_string().as_str());
            },
            LoaderError::Scan(f) => s.append(f.to_string().as_str()),
            LoaderError::LineTooLong => s.append("A line of the resource is too long to load"),
        }
        s
    }
}

impl BoxedError {
    pub fn to_string(&self) -> (r: String)
        ensures
            r@ == boxed_text(*self),
    {
        match self {
            BoxedError::Padding(p) => match p {
                PaddingError::DataSplitNotOnCharBoundary(i) => split_message(true, *i),
                PaddingError::PaddingSplitNotOnCharBoundary(i) => split_message(false, *i),
            },
            BoxedError::Parse(p) => match p {
                ParseError::DataSplitNotOnCharBoundary(i) => split_message(true, *i),
                ParseError::PaddingSplitNotOnCharBoundary(i) => split_message(false, *i),
            },
            BoxedError::Format(f) => match f {
                FormatError::DataSplitNotOnCharBoundary(i) => split_message(true, *i),
                FormatError::PaddingSplitNotOnCharBoundary(i) => split_message(false, *i),
            },
            BoxedError::TextPadding(TextPaddingError::PaddingLongerThanOne(n)) => {
                let mut s = String::new();
                s.append("PaddingLongerThanOne: the padding string was ");
                append_digits(&mut s, *n as u128);
                s.append(" chars long it can only be at most 1 char long");
                s
            },
            BoxedError::Io(i) => i.to_string(),
            BoxedError::Loader(l) => l.to_string(),
            BoxedError::Message(m) => m.clone(),
        }
    }
}

impl Error {
    /// The error as `error_text` says, with what the errors it holds say.
    pub fn to_string(&self) -> (r: String)
        ensures
            r@ == error_text(*self),
    {
        let mut s = String::new();
        match self {
            Error::SpecStreamReturnedNone => s.append("record spec stream returned no record spec"),
            Error::SpecStreamError(b) => {
                s.append("record spec stream encountered an error: ");
                s.append(b.to_string().as_str());
            },
            Error::RecordSpecNotFound(n) => {
                s.append("record spec named ");
                s.append(n.as_str());
                s.append(" could not be found");
            },
            Error::RecordSpecNameRequired => s.append("a record spec name is required"),
            Error::ParserFailure(b) => {
                s.append("The field parser encountered an error: ");
                s.append(b.to_string().as_str());
            },
            Error::FormatterFailure(b) => {
                s.append("The field formatter encountered an error: ");
                s.append(b.to_string().as_str());
            },
            Error::IoError(i) => {
                s.append("An IO error occurred while trying to read: ");
                s.append(i.to_string().as_str());
            },
            Error::CouldNotReadEnough(d) => {
                s.append("Could not read enough data. only got: ");
                s.append(data_message(d.as_slice()).as_str());
            },
            Error::DataDoesNotMatchLineEnding(expected, actual) => {
                s.append("The encountered line ending \"");
                s.append(data_message(actual.as_slice()).as_str());
                s.append("\" doesn't match the expected one \"");
                s.append(data_message(expected.as_slice()).as_str());
                s.append("\"");
            },
            Error::FormattedValueWrongLength(length, value) => {
                s.append("The value ");
                s.append(data_message(value.as_slice()).as_str());
                s.append(" returned after padding is ");
                append_digits(&mut s, value.len() as u128);
                s.append(" long and is required to be ");
                append_digits(&mut s, *length as u128);
                s.append(" long for the given field");
            },
            Error::FieldValueRequired => s.append("The value for the field is required since it has no default"),
            Error::DataHolderError(b) => {
                s.append("An error occurred while trying to create the record data holder: ");
                s.append(b.to_string().as_str());
            },
            Error::FieldRequiredToBuild(f) => {
                s.append(f);
                s.append(" must be set in order to build");
            },
            Error::BuildError(m) => s.append(m),
        }
        s
    }
}

impl PositionalError {
    pub fn to_string(&self) -> (r: String)
        ensures
            r@ == positional_text(*self),
    {
        let mut s = self.error.to_string();
        match &self.position {
            None => {},
            Some(p) => match &p.field {
                None => {
                    s.append(" at record ");
                    s.append(p.record.as_str());
                },
                Some(f) => {
                    s.append(" at field ");
                    s.append(f.as_str());
                    s.append(" of record ");
                    s.append(p.record.as_str());
                },
            },
        }
        s
    }
}

impl FieldError {
    pub fn to_string(&self) -> (r: String)
        ensures
            r@ == field_error_text(*self),
    {
        let mut s = self.error.to_string();
        match &self.field {
            None => {},
            Some(f) => {
                s.append(" at field ");
                s.append(f.as_str());
            },
        }
        s
    }
}

impl LineError {
    pub fn to_string(&self) -> (r: String)
        ensures
            r@ == line_error_text(*self),
    {
        let mut s = String::new();
        match self {
            LineError::StringDoesntMatchLineSeparator(expected, actual) => {
                s.append("StringDoesntMatchLineSeparator: line separator was expected to be '");
                s.append(data_message(expected.as_slice()).as_str());
                s.append("' was actually '");
                s.append(data_message(actual.as_slice()).as_str());
                s.append("'");
            },
            LineError::BufferOverflowsEndOfLine(length, left) => {
                s.append("BufferOverflowsEndOfLine: the buffer length ");
                append_digits(&mut s, *length as u128);
                s.append(" is more than the ");
                append_digits(&mut s, *left as u128);
                s.append(" bytes which are left until the end of the line");
            },
            LineError::Io(i) => s.append(i.to_string().as_str()),
        }
        s
    }
}

} // verus!
