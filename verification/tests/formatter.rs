use fixed_width::data_type::{BinarySupporter, StringSupporter};
use fixed_width::formatter::{DefaultFormatter, Error, FieldFormatter, FormatError, IdentityFormatter};
use fixed_width::spec::{Builder, FieldSpecBuilder, PaddingDirection};

#[test]
fn default_formatter() {
    let padder = DefaultFormatter;
    let data = "qwer".as_bytes();
    let mut destination = Vec::new();
    let data_type = BinarySupporter;
    let field_spec_builder = FieldSpecBuilder::new().with_padding("33".to_owned()).with_length(10);
    let left_field_spec = field_spec_builder.clone().with_padding_direction(PaddingDirection::Left).build().unwrap();
    let right_field_spec = field_spec_builder.with_padding_direction(PaddingDirection::Right).build().unwrap();
    assert!(padder.format(data, &right_field_spec, &mut destination, &data_type).is_ok());
    assert_eq!("qwer333333".as_bytes().to_owned(), destination);
    destination.clear();
    let data = "qwer".as_bytes();
    assert!(padder.format(data, &left_field_spec, &mut destination, &data_type).is_ok());
    assert_eq!("333333qwer".as_bytes().to_owned(), destination);
    destination.clear();
}

#[test]
fn identity_formatter() {
    let padder = IdentityFormatter;
    let data = "qwer".as_bytes();
    let mut destination = Vec::new();
    let data_type = BinarySupporter;
    let field_spec = FieldSpecBuilder::new()
        .with_padding_direction(PaddingDirection::Right)
        .with_padding("33".to_owned())
        .with_length(0)
        .build()
        .unwrap();
    assert!(padder.format(data, &field_spec, &mut destination, &data_type).is_ok());
    assert_eq!(data.to_owned(), destination);
    destination.clear();
    assert!(padder.format(data, &field_spec, &mut destination, &data_type).is_ok());
    assert_eq!(data.to_owned(), destination);
}

#[test]
fn formatter_padder_reference() {
    let padder = IdentityFormatter;
    let data = "qwer".as_bytes();
    let mut destination = Vec::new();
    let data_type = BinarySupporter;
    let field_spec = FieldSpecBuilder::new()
        .with_padding_direction(PaddingDirection::Right)
        .with_padding("33".to_owned())
        .with_length(0)
        .build()
        .unwrap();
    assert!(FieldFormatter::format(&&padder, data, &field_spec, &mut destination, &data_type).is_ok());
    let data_type = StringSupporter;
    assert!(FieldFormatter::format(&&padder, data, &field_spec, &mut destination, &data_type).is_ok());
}

#[test]
fn formatter_error() {
    let error = Error::new(FormatError::PaddingSplitNotOnCharBoundary(23));
    assert_eq!(Some(&FormatError::PaddingSplitNotOnCharBoundary(23)), error.downcast_ref::<FormatError>());
    assert_eq!(Some(&FormatError::PaddingSplitNotOnCharBoundary(23)), error.downcast_ref::<FormatError>());
    match error.downcast::<FormatError>() {
        Ok(FormatError::PaddingSplitNotOnCharBoundary(23)) => (),
        e => panic!("bad result returned {:?}", e),
    }
}
