use fixed_width::data_type::{BinarySupporter, StringSupporter};
use fixed_width::formatter::FormatError;
use fixed_width::parser::{DefaultParser, Error, FieldParser, IdentityParser};
use fixed_width::spec::{Builder, FieldSpecBuilder, PaddingDirection};

#[test]
fn default_parser() {
    let padder = DefaultParser;
    let mut destination = Vec::new();
    let data_type = BinarySupporter;
    let field_spec_builder = FieldSpecBuilder::new().with_padding("33".to_owned()).with_length(0);
    let left_field_spec = field_spec_builder.clone().with_padding_direction(PaddingDirection::Left).build().unwrap();
    let right_field_spec = field_spec_builder.with_padding_direction(PaddingDirection::Right).build().unwrap();
    let data = "qwer333333".as_bytes();
    assert!(padder.parse(data, &right_field_spec, &mut destination, &data_type).is_ok());
    assert_eq!("qwer".as_bytes().to_owned(), destination);
    destination.clear();
    let data = "333333qwer".as_bytes();
    assert!(padder.parse(data, &left_field_spec, &mut destination, &data_type).is_ok());
    assert_eq!("qwer".as_bytes().to_owned(), destination);
}

#[test]
fn identity_parser() {
    let padder = IdentityParser;
    let data = "qwer".as_bytes();
    let mut destination = Vec::new();
    let data_type = BinarySupporter;
    let field_spec = FieldSpecBuilder::new()
        .with_padding_direction(PaddingDirection::Right)
        .with_padding("33".to_owned())
        .with_length(0)
        .build()
        .unwrap();
    destination.clear();
    assert!(padder.parse(data, &field_spec, &mut destination, &data_type).is_ok());
    assert_eq!(data.to_owned(), destination);
    destination.clear();
    assert!(padder.parse(data, &field_spec, &mut destination, &data_type).is_ok());
    assert_eq!(data.to_owned(), destination);
}

#[test]
fn parser_reference() {
    let padder = IdentityParser;
    let data = "qwer".as_bytes();
    let mut destination = Vec::new();
    let field_spec = FieldSpecBuilder::new()
        .with_padding_direction(PaddingDirection::Right)
        .with_padding("33".to_owned())
        .with_length(0)
        .build()
        .unwrap();
    let data_type = BinarySupporter;
    assert!(FieldParser::parse(&&padder, data, &field_spec, &mut destination, &data_type).is_ok());
    let data_type = StringSupporter;
    assert!(FieldParser::parse(&&padder, data, &field_spec, &mut destination, &data_type).is_ok());
}

#[test]
fn parser_error() {
    let error = Error::new(FormatError::DataSplitNotOnCharBoundary(1));
    assert_eq!(Some(&FormatError::DataSplitNotOnCharBoundary(1)), error.downcast_ref::<FormatError>());
    assert_eq!(Some(&FormatError::DataSplitNotOnCharBoundary(1)), error.downcast_ref::<FormatError>());
    match error.downcast::<FormatError>() {
        Ok(FormatError::DataSplitNotOnCharBoundary(1)) => (),
        e => panic!("bad result returned {:?}", e),
    }
}

#[test]
fn parser_takes_only_whole_copies() {
    let parser = DefaultParser;
    let field_spec = FieldSpecBuilder::new()
        .with_padding("ab".to_owned())
        .with_padding_direction(PaddingDirection::Left)
        .with_length(7)
        .build()
        .unwrap();
    let mut destination = Vec::new();
    assert!(parser.parse(b"abababa", &field_spec, &mut destination, &BinarySupporter).is_ok());
    assert_eq!(b"a".to_vec(), destination);
}
