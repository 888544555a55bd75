use fixed_width::error::{BoxedError, Error, FieldError, Position, PositionalError};
use fixed_width::io::IoError;
use fixed_width::line::Error as LineError;
use fixed_width::messages::data_message;
use fixed_width::padder::PaddingError;
use fixed_width::spec::loader::yaml::{Error as LoaderError, ScanFailure, Value};
use fixed_width::spec::Error as SpecError;
use fixed_width::text::padders::PaddingError as TextPaddingError;

#[test]
fn error_messages() {
    assert_eq!(Error::SpecStreamReturnedNone.to_string(), "record spec stream returned no record spec");
    assert_eq!(
        Error::RecordSpecNotFound("r9".to_string()).to_string(),
        "record spec named r9 could not be found"
    );
    assert_eq!(
        Error::ParserFailure(BoxedError::Padding(PaddingError::DataSplitNotOnCharBoundary(12))).to_string(),
        "The field parser encountered an error: The index 12 needed for splitting the data is not on a char boundary"
    );
    assert_eq!(
        Error::SpecStreamError(BoxedError::Message("The nes".to_string())).to_string(),
        "record spec stream encountered an error: The nes"
    );
    assert_eq!(
        Error::IoError(IoError::UnexpectedEof).to_string(),
        "An IO error occurred while trying to read: failed to fill whole buffer"
    );
    assert_eq!(
        Error::DataDoesNotMatchLineEnding(b"\n".to_vec(), b"bla".to_vec()).to_string(),
        "The encountered line ending \"bla\" doesn't match the expected one \"\n\""
    );
    assert_eq!(
        Error::FormattedValueWrongLength(4, vec![255, 0]).to_string(),
        "The value [255, 0] returned after padding is 2 long and is required to be 4 long for the given field"
    );
    assert_eq!(
        Error::FormatterFailure(BoxedError::TextPadding(TextPaddingError::PaddingLongerThanOne(2))).to_string(),
        "The field formatter encountered an error: PaddingLongerThanOne: the padding string was 2 chars long it can only be at most 1 char long"
    );
}

#[test]
fn errors_with_places() {
    let positional = PositionalError {
        error: Error::FieldValueRequired,
        position: Some(Position { record: "record1".to_string(), field: Some("field1".to_string()) }),
    };
    assert_eq!(
        positional.to_string(),
        "The value for the field is required since it has no default at field field1 of record record1"
    );
    let at_record = PositionalError {
        error: Error::RecordSpecNameRequired,
        position: Some(Position { record: "r".to_string(), field: None }),
    };
    assert_eq!(at_record.to_string(), "a record spec name is required at record r");
    let field = FieldError { error: Error::CouldNotReadEnough(b"ab".to_vec()), field: Some("f".to_string()) };
    assert_eq!(field.to_string(), "Could not read enough data. only got: ab at field f");
}

#[test]
fn loader_and_spec_messages() {
    let value = Value::Hash(vec![(Value::String("a".to_string()), Value::Array(vec![Value::Integer(-3), Value::Null]))]);
    assert_eq!(value.debug_text(), "Hash({String(\"a\"): Array([Integer(-3), Null])})");
    let invalid = LoaderError::InvalidType { value: Value::Boolean(true), expected_type: "string", path: Some("records".to_string()) };
    assert_eq!(
        invalid.to_string(),
        "The value Boolean(true) at path records has the wrong type. The expected type was string"
    );
    let nested = SpecError::SubBuilderErrors(vec![(
        "record1".to_string(),
        SpecError::SubBuilderErrors(vec![("field1".to_string(), SpecError::FieldRequiredToBuild("length"))]),
    )]);
    assert_eq!(
        LoaderError::BuilderError(nested).to_string(),
        "The spec builder had an error: Some sub builders had errors: \n record1: Some sub builders had errors: \n field1: length must be set in order to build"
    );
    let scan = ScanFailure { info: "did not find expected node content".to_string(), line: 1, col: 9 };
    assert_eq!(scan.to_string(), "did not find expected node content at line 1 column 10");
    assert_eq!(LoaderError::LineTooLong.to_string(), "A line of the resource is too long to load");
    assert_eq!(
        LineError::BufferOverflowsEndOfLine(12, 3).to_string(),
        "BufferOverflowsEndOfLine: the buffer length 12 is more than the 3 bytes which are left until the end of the line"
    );
    assert_eq!(data_message(&[0xff, 7]), "[255, 7]");
}
