use fixed_width::error::BoxedError;
use fixed_width::io::{ByteReader, IoError};
use fixed_width::spec::loader::yaml::{decimal_string, Error, Value, YamlLoader};
use fixed_width::spec::loader::Loader;
use fixed_width::spec::{Builder, FieldSpecBuilder, PaddingDirection, RecordSpecBuilder, Spec, SpecBuilder};

const SPEC_TEXT: &str = "\
records:
  record1:
    line_ending: \\n
    fields:
      $id:
        length: 2
        padding_direction: right
        default: 34
      field1:
        length: 10
        padding_direction: left
        padding: ' '
        default: hello
      field2:
        length: 23
        padding_direction: Right
        default: goodbye
  record2:
    line_ending: \\n
    fields:
      $id:
        length: 5
        padding_direction: Right
        default: 34
      field1:
        length: 12
        padding_direction: Left
        padding: ' '
        default: hello
      field2:
        length: 67
        padding_direction: right
        default: goodbye
";

fn load(text: &str) -> Result<Spec, BoxedError> {
    let mut reader = ByteReader::new(text);
    YamlLoader.load(&mut reader)
}

fn loader_error(text: &str) -> Error {
    match load(text) {
        Err(BoxedError::Loader(e)) => e,
        other => panic!("expected a loader error, got {:?}", other),
    }
}

fn string(s: &str) -> Value {
    Value::String(s.to_string())
}

#[test]
fn yaml_read_record() {
    let spec = SpecBuilder::new()
        .add_record(
            "record1",
            RecordSpecBuilder::new()
                .with_line_ending([92, 110].as_ref())
                .add_field(
                    "$id",
                    FieldSpecBuilder::new()
                        .with_length(2)
                        .with_padding_direction(PaddingDirection::Right)
                        .with_default([51, 52].as_ref()),
                )
                .add_field(
                    "field1",
                    FieldSpecBuilder::new()
                        .with_length(10)
                        .with_padding_direction(PaddingDirection::Left)
                        .with_padding([32].as_ref())
                        .with_default([104, 101, 108, 108, 111].as_ref()),
                )
                .add_field(
                    "field2",
                    FieldSpecBuilder::new()
                        .with_length(23)
                        .with_padding_direction(PaddingDirection::Right)
                        .with_default([103, 111, 111, 100, 98, 121, 101].as_ref()),
                ),
        )
        .add_record(
            "record2",
            RecordSpecBuilder::new()
                .with_line_ending([92, 110].as_ref())
                .add_field(
                    "$id",
                    FieldSpecBuilder::new()
                        .with_length(5)
                        .with_padding_direction(PaddingDirection::Right)
                        .with_default([51, 52].as_ref()),
                )
                .add_field(
                    "field1",
                    FieldSpecBuilder::new()
                        .with_length(12)
                        .with_padding_direction(PaddingDirection::Left)
                        .with_padding([32].as_ref())
                        .with_default([104, 101, 108, 108, 111].as_ref()),
                )
                .add_field(
                    "field2",
                    FieldSpecBuilder::new()
                        .with_length(67)
                        .with_padding_direction(PaddingDirection::Right)
                        .with_default([103, 111, 111, 100, 98, 121, 101].as_ref()),
                ),
        )
        .build()
        .unwrap();
    assert_eq!(spec, load(SPEC_TEXT).unwrap());
}

#[test]
fn yaml_load_reads_the_whole_resource() {
    let mut reader = ByteReader::new(SPEC_TEXT);
    assert!(YamlLoader.load(&mut reader).is_ok());
    assert_eq!(reader.remaining().len(), 0);
}

#[test]
fn yaml_integer_names_and_values() {
    let spec = load("records:\n  7:\n    fields:\n      -12:\n        length: 3\n        padding_direction: left\n        padding: 0\n").unwrap();
    let record = spec.record_specs.get("7").unwrap();
    let field = record.field_specs.get("-12").unwrap();
    assert_eq!(field.length, 3);
    assert_eq!(field.padding, b"0".to_vec());
    assert_eq!(field.default, None);
    assert_eq!(record.line_ending, Vec::<u8>::new());
}

#[test]
fn yaml_no_documents() {
    assert_eq!(loader_error(""), Error::NoDocumentsFound);
}

#[test]
fn yaml_scan_error() {
    match loader_error("records: [") {
        Error::Scan(_) => {},
        other => panic!("expected a scan error, got {:?}", other),
    }
}

#[test]
fn yaml_not_utf8() {
    let mut reader = ByteReader::new(vec![0xffu8, 0xfe]);
    assert_eq!(YamlLoader.load(&mut reader), Err(BoxedError::Io(IoError::InvalidData)));
}

#[test]
fn yaml_document_not_a_hash() {
    assert_eq!(
        loader_error("- a\n- b\n"),
        Error::InvalidType {
            value: Value::Array(vec![string("a"), string("b")]),
            expected_type: "Hash",
            path: None,
        }
    );
}

#[test]
fn yaml_missing_records() {
    assert_eq!(loader_error("other: 1\n"), Error::MissingKey { key: "records", path: None });
}

#[test]
fn yaml_records_not_a_hash() {
    assert_eq!(
        loader_error("records: 5\n"),
        Error::InvalidType { value: Value::Integer(5), expected_type: "Hash", path: Some("records".to_string()) }
    );
}

#[test]
fn yaml_record_name_not_a_string() {
    assert_eq!(
        loader_error("records:\n  true:\n    fields: {}\n"),
        Error::InvalidType { value: Value::Boolean(true), expected_type: "String", path: Some("records".to_string()) }
    );
}

#[test]
fn yaml_missing_fields() {
    assert_eq!(
        loader_error("records:\n  record1:\n    line_ending: x\n"),
        Error::MissingKey { key: "records", path: Some("recordsrecord1fields".to_string()) }
    );
}

#[test]
fn yaml_missing_length() {
    assert_eq!(
        loader_error("records:\n  record1:\n    fields:\n      field1:\n        padding_direction: left\n"),
        Error::MissingKey { key: "length", path: Some("recordsrecord1fieldsfield1".to_string()) }
    );
}

#[test]
fn yaml_length_not_an_integer() {
    assert_eq!(
        loader_error("records:\n  record1:\n    fields:\n      field1:\n        length: ten\n        padding_direction: left\n"),
        Error::InvalidType {
            value: string("ten"),
            expected_type: "Integer",
            path: Some("recordsrecord1fieldsfield1".to_string()),
        }
    );
}

#[test]
fn yaml_missing_padding_direction() {
    assert_eq!(
        loader_error("records:\n  record1:\n    fields:\n      field1:\n        length: 3\n"),
        Error::MissingKey { key: "padding_direction", path: Some("recordsrecord1fieldsfield1".to_string()) }
    );
}

#[test]
fn yaml_bad_padding_direction() {
    assert_eq!(
        loader_error("records:\n  record1:\n    fields:\n      field1:\n        length: 3\n        padding_direction: up\n"),
        Error::InvalidType {
            value: string("up"),
            expected_type: "String: right, Right, left, Left",
            path: Some("recordsrecord1fieldsfield1".to_string()),
        }
    );
}

#[test]
fn yaml_default_not_a_string() {
    assert_eq!(
        loader_error(
            "records:\n  record1:\n    fields:\n      field1:\n        length: 3\n        padding_direction: left\n        default: [1]\n"
        ),
        Error::InvalidType {
            value: Value::Array(vec![Value::Integer(1)]),
            expected_type: "String",
            path: Some("recordsrecord1fieldsfield1".to_string()),
        }
    );
}

#[test]
fn yaml_first_error_in_document_order() {
    let text = "records:\n  b:\n    fields: 1\n  a:\n    fields: 2\n";
    assert_eq!(
        loader_error(text),
        Error::InvalidType { value: Value::Integer(1), expected_type: "Hash", path: Some("recordsbfields".to_string()) }
    );
}

#[test]
fn yaml_read_spec_from_values() {
    let field = Value::Hash(vec![
        (string("length"), Value::Integer(4)),
        (string("padding_direction"), string("Left")),
        (string("padding"), string("0")),
    ]);
    let record = Value::Hash(vec![
        (string("fields"), Value::Hash(vec![(string("amount"), field)])),
        (string("line_ending"), string("\n")),
    ]);
    let doc = Value::Hash(vec![(string("records"), Value::Hash(vec![(string("r"), record)]))]);
    let spec = YamlLoader::read_spec(doc).unwrap();
    let record = spec.record_specs.get("r").unwrap();
    assert_eq!(record.line_ending, b"\n".to_vec());
    let field = record.field_specs.get("amount").unwrap();
    assert_eq!(field.length, 4);
    assert_eq!(field.padding_direction, PaddingDirection::Left);
    assert_eq!(field.padding, b"0".to_vec());
}

#[test]
fn yaml_load_documents_takes_the_first() {
    let first = Value::Hash(vec![(string("records"), Value::Hash(vec![]))]);
    let second = Value::Null;
    let spec = YamlLoader::load_documents(vec![first, second]).unwrap();
    assert_eq!(spec.record_specs.len(), 0);
    assert_eq!(YamlLoader::load_documents(vec![]), Err(Error::NoDocumentsFound));
}

#[test]
fn yaml_decimal_string() {
    assert_eq!(decimal_string(0), "0");
    assert_eq!(decimal_string(7), "7");
    assert_eq!(decimal_string(1234), "1234");
    assert_eq!(decimal_string(-56), "-56");
    assert_eq!(decimal_string(i64::MAX), "9223372036854775807");
    assert_eq!(decimal_string(i64::MIN), "-9223372036854775808");
}

#[test]
fn yaml_line_too_long() {
    let mut text = "- ".repeat(100_000);
    text.push('x');
    assert_eq!(loader_error(&text), Error::LineTooLong);
    assert_eq!(loader_error(&"a".repeat(257)), Error::LineTooLong);
    assert!(!matches!(load(&"a".repeat(256)), Err(BoxedError::Loader(Error::LineTooLong))));
}

fn nested(levels: usize, flows: usize) -> String {
    let mut text = String::new();
    for depth in 0..levels {
        text.push_str(&" ".repeat(depth));
        text.push_str("a:\n");
    }
    for _ in 0..flows {
        text.push_str(&" ".repeat(levels + 2));
        text.push_str("[\n");
    }
    for _ in 0..flows {
        text.push_str(&" ".repeat(levels + 2));
        text.push_str("]\n");
    }
    text
}

fn loads_without_records(text: &str) {
    match load(text) {
        Err(BoxedError::Loader(_)) => {},
        other => panic!("expected the loader to refuse the document, got {:?}", other),
    }
}

#[test]
fn yaml_deepest_nesting_that_lines_allow_loads() {
    loads_without_records(&nested(250, 255));
    let mut sequences = "- ".repeat(127);
    sequences.push('x');
    loads_without_records(&sequences);
}

#[test]
fn yaml_scan_error_says_what_the_crate_says() {
    let expected = yaml_rust::YamlLoader::load_from_str("records: [").unwrap_err().to_string();
    match loader_error("records: [") {
        Error::Scan(f) => assert_eq!(f.to_string(), expected),
        other => panic!("expected a scan error, got {:?}", other),
    }
}
