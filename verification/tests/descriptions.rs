use fixed_width::error::{BoxedError, Error};
use fixed_width::formatter::FormatError;
use fixed_width::io::IoError;
use fixed_width::line::Error as LineError;
use fixed_width::padder::PaddingError;
use fixed_width::parser::ParseError;
use fixed_width::spec::loader::yaml::Error as LoaderError;
use fixed_width::spec::Error as SpecError;
use fixed_width::text::padders::PaddingError as TextPaddingError;

#[test]
fn error_descriptions() {
    assert_eq!(Error::SpecStreamReturnedNone.description(), "record spec stream returned no record spec");
    assert_eq!(
        Error::SpecStreamError(BoxedError::Message("x".to_string())).description(),
        "record spec stream encountered an error"
    );
    assert_eq!(Error::IoError(IoError::UnexpectedEof).description(), "An IO error occurred while trying to read");
    assert_eq!(
        Error::DataDoesNotMatchLineEnding(vec![1], vec![2]).description(),
        "The encountered line ending doesn't match the expected one"
    );
    assert_eq!(
        Error::FieldValueRequired.description(),
        "The value for the given field is required since it has no default"
    );
    assert_eq!(Error::FieldRequiredToBuild("x").description(), "There is a required field missing");
}

#[test]
fn spec_and_loader_error_descriptions() {
    assert_eq!(SpecError::SubBuilderErrors(vec![]).description(), "Some sub builders had errors");
    assert_eq!(SpecError::FieldRequiredToBuild("length").description(), "There is a required field missing");
    assert_eq!(LoaderError::NoDocumentsFound.description(), "The resource at the given path has no documents in it");
    assert_eq!(LoaderError::MissingKey { key: "records", path: None }.description(), "There is a key missing");
}

#[test]
fn split_error_descriptions() {
    let data = "The index needed for splitting the data is not on a char boundary";
    let padding = "The index needed for splitting the padding is not on a char boundary";
    assert_eq!(PaddingError::DataSplitNotOnCharBoundary(3).description(), data);
    assert_eq!(PaddingError::PaddingSplitNotOnCharBoundary(3).description(), padding);
    assert_eq!(ParseError::DataSplitNotOnCharBoundary(1).description(), data);
    assert_eq!(ParseError::PaddingSplitNotOnCharBoundary(1).description(), padding);
    assert_eq!(FormatError::DataSplitNotOnCharBoundary(2).description(), data);
    assert_eq!(FormatError::PaddingSplitNotOnCharBoundary(2).description(), padding);
    assert_eq!(
        TextPaddingError::PaddingLongerThanOne(2).description(),
        "The padding string must be only one char long to use this padder"
    );
}

#[test]
fn line_error_descriptions() {
    assert_eq!(
        LineError::StringDoesntMatchLineSeparator(vec![1], vec![2]).description(),
        "line separator was not the one expected"
    );
    assert_eq!(
        LineError::BufferOverflowsEndOfLine(3, 2).description(),
        "the buffer given is larger than what remains until the end of the line"
    );
}
