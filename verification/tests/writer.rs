use fixed_width::text::padders::{Error as TextPaddingFailure, Padder as TextPadder, UnPadder as TextUnPadder};
use fixed_width::text::spec::{
    Builder as TextBuilder, FieldSpec as TextFieldSpec, FieldSpecBuilder as TextFieldSpecBuilder,
    PaddingDirection as TextDirection, RecordSpec as TextRecordSpec, RecordSpecBuilder as TextRecordSpecBuilder,
    Spec as TextSpec, SpecBuilder as TextSpecBuilder,
};
use fixed_width::text::WriterBuilder as TextWriterBuilder;
use fixed_width::data_type::BinarySupporter;
use fixed_width::error::{Error, FieldError};
use fixed_width::formatter::{self, FieldFormatter};
use fixed_width::io::ByteWriter;
use fixed_width::names::NameMap;
use fixed_width::record::Data;
use fixed_width::spec::{Builder, FieldSpec, PaddingDirection, Spec, SpecBuilder};
use fixed_width::writer::{FieldWriter, RecordWriter};
use std::ops::Range;

fn text_spec() -> TextSpec {
    TextSpecBuilder::new()
        .with_record(
            "record1",
            TextRecordSpecBuilder::new()
                .with_line_ending("\n")
                .with_field(
                    "field1".to_string(),
                    TextFieldSpecBuilder::new()
                        .with_length(4)
                        .with_padding("dsasd")
                        .with_padding_direction(TextDirection::Left)
                        .make_filler(),
                )
                .with_field("field2", TextFieldSpecBuilder::new_string().with_length(5).with_default("def"))
                .with_field(
                    "field3".to_string(),
                    TextFieldSpecBuilder::new()
                        .with_length(36)
                        .with_padding("xcvcxv".to_string())
                        .with_padding_direction(TextDirection::Right),
                ),
        )
        .with_record(
            "record2".to_string(),
            TextRecordSpecBuilder::new()
                .with_line_ending("\n")
                .with_field(
                    "field1".to_string(),
                    TextFieldSpecBuilder::new()
                        .with_length(3)
                        .with_padding("dsasd".to_string())
                        .with_padding_direction(TextDirection::Left),
                )
                .with_field(
                    "field2".to_string(),
                    TextFieldSpecBuilder::new()
                        .with_length(4)
                        .with_padding("sdf".to_string())
                        .with_padding_direction(TextDirection::Right)
                        .with_default("defa"),
                )
                .with_field(
                    "field3",
                    TextFieldSpecBuilder::new()
                        .with_length(27)
                        .with_padding("xcvcxv".to_string())
                        .with_padding_direction(TextDirection::Right),
                )
                .with_field(
                    "field4".to_string(),
                    TextFieldSpec {
                        length: 8,
                        padding: "sdfsd".as_bytes().to_owned(),
                        padding_direction: TextDirection::Left,
                        default: None,
                        filler: false,
                    },
                ),
        )
        .with_record(
            "record3".to_string(),
            TextRecordSpec { line_ending: "\n".as_bytes().to_owned(), field_specs: NameMap::new() },
        )
        .build()
}

struct TextMockPadder {
    pad_calls: Vec<(String, usize, String, TextDirection, Result<String, ()>)>,
    unpad_calls: Vec<(String, String, TextDirection, Result<String, ()>)>,
}

impl TextMockPadder {
    fn new() -> Self {
        TextMockPadder { pad_calls: Vec::new(), unpad_calls: Vec::new() }
    }

    fn add_pad_call(&mut self, data: String, length: usize, padding: String, direction: TextDirection, r: Result<String, ()>) {
        self.pad_calls.push((data, length, padding, direction, r));
    }

    fn add_unpad_call(&mut self, data: String, padding: String, direction: TextDirection, r: Result<String, ()>) {
        self.unpad_calls.push((data, padding, direction, r));
    }
}

impl TextPadder for TextMockPadder {
    fn pad(&self, data: String, length: usize, padding: &String, direction: TextDirection) -> Result<String, TextPaddingFailure> {
        for (d, l, p, dir, r) in &self.pad_calls {
            if *d == data && *l == length && p == padding && *dir == direction {
                return r.clone().map_err(|_| TextPaddingFailure::new(""));
            }
        }
        panic!("Method pad was not expected to be called with {:?}", (data, length, padding, direction))
    }
}

impl TextUnPadder for TextMockPadder {
    fn unpad(&self, data: String, padding: &String, direction: TextDirection) -> Result<String, TextPaddingFailure> {
        for (d, p, dir, r) in &self.unpad_calls {
            if *d == data && p == padding && *dir == direction {
                return r.clone().map_err(|_| TextPaddingFailure::new(""));
            }
        }
        panic!("Method unpad was not expected to be called with {:?}", (data, padding, direction))
    }
}

fn text_values(pairs: &[(&str, &str)]) -> NameMap<String> {
    let mut map = NameMap::new();
    for (name, value) in pairs {
        map.insert(name.to_string(), value.to_string());
    }
    map
}

fn text_write_record_scenario() {
    let spec = text_spec();
    let string = "1234567890qwertyuiopasdfghjkl;zxcvbnm,./-=[];".to_string();
    let mut buf = ByteWriter::new();
    let mut padder = TextMockPadder::new();
    padder.add_pad_call("hello".to_string(), 4, "dsasd".to_string(), TextDirection::Left, Ok(string[0..4].to_string()));
    padder.add_pad_call("def".to_string(), 5, " ".to_string(), TextDirection::Right, Ok(string[4..9].to_string()));
    padder.add_pad_call("hello2".to_string(), 36, "xcvcxv".to_string(), TextDirection::Right, Ok(string[9..45].to_string()));
    let writer = TextWriterBuilder::new().with_padder(&padder).with_specs(&spec.record_specs).build();
    writer
        .write_record(&mut buf, "record1".to_string(), text_values(&[("field1", "hello"), ("field3", "hello2")]))
        .unwrap();
    assert_eq!(string, String::from_utf8(buf.into_inner()).unwrap());
}

fn text_write_record_with_write_error_scenario() {
    let spec = text_spec();
    let mut buf = ByteWriter::with_fixed_size(vec![0u8; 3]);
    let mut padder = TextMockPadder::new();
    padder.add_pad_call("hello".to_string(), 4, "dsasd".to_string(), TextDirection::Left, Ok("bye2".to_string()));
    let writer = TextWriterBuilder::new().with_padder(&padder).with_specs(spec.record_specs).build();
    writer.write_record(&mut buf, "record1".to_string(), text_values(&[("field1", "hello")])).unwrap_err();
}

fn text_write_field_scenario() {
    let spec = text_spec();
    let string = "123456789".to_string();
    let mut buf = ByteWriter::new();
    let mut padder = TextMockPadder::new();
    padder.add_pad_call("hello".to_string(), 4, "dsasd".to_string(), TextDirection::Left, Ok(string[0..4].to_string()));
    padder.add_pad_call("hello2".to_string(), 5, " ".to_string(), TextDirection::Right, Ok(string[4..9].to_string()));
    let writer = TextWriterBuilder::new().with_padder(&padder).with_specs(spec.record_specs).build();
    writer.write_field(&mut buf, "record1".to_string(), "field1".to_string(), "hello".to_string()).unwrap();
    assert_eq!(string[0..4].to_string(), String::from_utf8(buf.get_ref().clone()).unwrap());
    writer.write_field(&mut buf, "record1".to_string(), "field2".to_string(), "hello2".to_string()).unwrap();
    assert_eq!(string, String::from_utf8(buf.into_inner()).unwrap());
}

fn text_write_field_with_padded_value_not_correct_length_scenario() {
    let spec = text_spec();
    let mut buf = ByteWriter::new();
    let mut padder = TextMockPadder::new();
    padder.add_pad_call("hello".to_string(), 4, "dsasd".to_string(), TextDirection::Left, Ok("123".to_string()));
    let writer = TextWriterBuilder::new().with_padder(&padder).with_specs(spec.record_specs).build();
    writer.write_field(&mut buf, "record1".to_string(), "field1".to_string(), "hello".to_string()).unwrap_err();
}

fn text_write_field_with_write_error_scenario() {
    let spec = text_spec();
    let mut buf = ByteWriter::with_fixed_size(vec![0u8; 4]);
    let mut padder = TextMockPadder::new();
    padder.add_pad_call("hello".to_string(), 4, "dsasd".to_string(), TextDirection::Left, Ok("hello".to_string()));
    let writer = TextWriterBuilder::new().with_padder(padder).with_specs(spec.record_specs).build();
    writer.write_field(&mut buf, "record1".to_string(), "field1".to_string(), "hello".to_string()).unwrap_err();
}

fn test_spec() -> Spec {
    SpecBuilder::new()
        .with_record("record1")
        .with_line_ending("\n")
        .with_field("field1")
        .with_length(4)
        .with_padding("dsasd")
        .with_padding_direction(PaddingDirection::Left)
        .end()
        .with_field("field2")
        .string()
        .with_length(5)
        .with_default("def")
        .end()
        .with_field("field3")
        .with_length(36)
        .with_padding("xcvcxv")
        .with_padding_direction(PaddingDirection::Right)
        .end()
        .end()
        .with_record("record2")
        .with_line_ending("\n")
        .with_field("field1")
        .with_length(3)
        .with_padding("dsasd")
        .with_padding_direction(PaddingDirection::Left)
        .end()
        .with_field("field2")
        .with_length(4)
        .with_padding("sdf")
        .with_padding_direction(PaddingDirection::Right)
        .with_default("defa")
        .end()
        .with_field("field3")
        .with_length(27)
        .with_padding("xcvcxv")
        .with_padding_direction(PaddingDirection::Right)
        .end()
        .with_field("field4")
        .with_length(8)
        .with_padding("sdfsd")
        .with_padding_direction(PaddingDirection::Left)
        .end()
        .end()
        .with_record("record3")
        .with_line_ending("\n")
        .end()
        .build()
        .unwrap()
}

struct MockFormatter {
    format_calls: Vec<(Vec<u8>, FieldSpec, Result<Vec<u8>, ()>)>,
}

impl MockFormatter {
    fn new() -> Self {
        MockFormatter { format_calls: Vec::new() }
    }

    fn add_format_call(&mut self, data: Vec<u8>, field_spec: FieldSpec, return_value: Result<Vec<u8>, ()>) -> &mut Self {
        self.format_calls.push((data, field_spec, return_value));
        self
    }
}

impl FieldFormatter<BinarySupporter> for MockFormatter {
    fn format(&self, data: &[u8], field_spec: &FieldSpec, destination: &mut Vec<u8>, _: &BinarySupporter) -> Result<(), formatter::Error> {
        for (expected_data, expected_field_spec, return_value) in &self.format_calls {
            if &expected_data[..] == data && expected_field_spec == field_spec {
                return match return_value {
                    Ok(value) => {
                        destination.extend(value.iter());
                        Ok(())
                    },
                    Err(()) => Err(formatter::Error::new("")),
                };
            }
        }
        panic!("Method format was not expected to be called with {:?}", (data, field_spec))
    }
}

fn data(fields: &[(&str, &str)]) -> Data<NameMap<Range<usize>>, Vec<u8>> {
    Data::from_fields(fields.iter().map(|(n, v)| (n.to_string(), v.as_bytes().to_owned())).collect())
}

#[test]
fn mod_write_record() {
    let spec = test_spec();
    let string = "1234567890qwertyuiopasdfghjkl;zxcvbnm,./-=[];\n".to_string();
    let mut buf = ByteWriter::new();
    let mut formatter = MockFormatter::new();
    let record_spec = &spec.record_specs.get("record1").unwrap();
    formatter.add_format_call("hello".as_bytes().to_owned(), record_spec.field_specs.get("field1").unwrap().clone(), Ok(string[0..4].as_bytes().to_owned()));
    formatter.add_format_call("def".as_bytes().to_owned(), record_spec.field_specs.get("field2").unwrap().clone(), Ok(string[4..9].as_bytes().to_owned()));
    formatter.add_format_call("hello2".as_bytes().to_owned(), record_spec.field_specs.get("field3").unwrap().clone(), Ok(string[9..45].as_bytes().to_owned()));
    let writer = RecordWriter::new(FieldWriter::new(&formatter, BinarySupporter));
    writer.write(&mut buf, record_spec, &data(&[("field1", "hello"), ("field3", "hello2")]), &mut Vec::new()).unwrap();
    assert_eq!(string, String::from_utf8(buf.into_inner()).unwrap());
}

#[test]
fn mod_write_record_with_formatting_error() {
    let spec = test_spec();
    let mut buf = ByteWriter::new();
    let mut formatter = MockFormatter::new();
    let record_spec = &spec.record_specs.get("record1").unwrap();
    formatter.add_format_call("hello".as_bytes().to_owned(), record_spec.field_specs.get("field1").unwrap().clone(), Err(()));
    let writer = RecordWriter::new(FieldWriter::new(&formatter, BinarySupporter));
    match writer.write(&mut buf, record_spec, &data(&[("field1", "hello")]), &mut Vec::new()) {
        Err(FieldError { error: Error::FormatterFailure(_), field: Some(ref field) }) if field == "field1" => (),
        v => panic!("Failed result returned was not the expected one {:?}", v),
    }
}

#[test]
fn mod_write_record_with_field_require_error() {
    let spec = test_spec();
    let mut buf = ByteWriter::new();
    let record_spec = &spec.record_specs.get("record1").unwrap();
    let writer = RecordWriter::new(FieldWriter::new(MockFormatter::new(), BinarySupporter));
    match writer.write(&mut buf, record_spec, &data(&[("field3", "hello")]), &mut Vec::new()) {
        Err(FieldError { error: Error::FieldValueRequired, field: Some(ref field) }) if field == "field1" => (),
        v => panic!("Failed result returned was not the expected one {:?}", v),
    }
}

#[test]
fn mod_write_record_with_formatted_value_not_correct_length() {
    let spec = test_spec();
    let mut buf = ByteWriter::new();
    let mut formatter = MockFormatter::new();
    let record_spec = &spec.record_specs.get("record1").unwrap();
    formatter.add_format_call("hello".as_bytes().to_owned(), record_spec.field_specs.get("field1").unwrap().clone(), Ok("hello2".as_bytes().to_owned()));
    let writer = RecordWriter::new(FieldWriter::new(&formatter, BinarySupporter));
    match writer.write(&mut buf, record_spec, &data(&[("field1", "hello")]), &mut Vec::new()) {
        Err(FieldError { error: Error::FormattedValueWrongLength(4, ref value), field: Some(ref field) })
            if *value == "hello2".as_bytes().to_owned() && field == "field1" => (),
        v => panic!("Failed result returned was not the expected one {:?}", v),
    }
}

#[test]
fn mod_write_record_with_write_error() {
    let spec = test_spec();
    let mut buf = ByteWriter::with_fixed_size(vec![0; 3]);
    let mut formatter = MockFormatter::new();
    let record_spec = &spec.record_specs.get("record1").unwrap();
    formatter.add_format_call("hello".as_bytes().to_owned(), record_spec.field_specs.get("field1").unwrap().clone(), Ok("bye2".as_bytes().to_owned()));
    let writer = RecordWriter::new(FieldWriter::new(&formatter, BinarySupporter));
    match writer.write(&mut buf, record_spec, &data(&[("field1", "hello")]), &mut Vec::new()) {
        Err(FieldError { error: Error::IoError(_), field: Some(ref field) }) if field == "field1" => (),
        v => panic!("Failed result returned was not the expected one {:?}", v),
    }
}

#[test]
fn mod_write_field() {
    let spec = test_spec();
    let string = "123456789".to_string();
    let mut buf = ByteWriter::new();
    let mut formatter = MockFormatter::new();
    let record_spec = &spec.record_specs.get("record1").unwrap();
    formatter.add_format_call("hello".as_bytes().to_owned(), record_spec.field_specs.get("field1").unwrap().clone(), Ok(string[0..4].as_bytes().to_owned()));
    formatter.add_format_call("hello2".as_bytes().to_owned(), record_spec.field_specs.get("field2").unwrap().clone(), Ok(string[4..9].as_bytes().to_owned()));
    let writer = FieldWriter::new(&formatter, BinarySupporter);
    assert_eq!(4, writer.write(&mut buf, record_spec.field_specs.get("field1").unwrap(), "hello".as_bytes(), &mut Vec::new()).unwrap());
    assert_eq!(string[0..4].to_string(), String::from_utf8(buf.get_ref().clone()).unwrap());
    assert_eq!(5, writer.write(&mut buf, record_spec.field_specs.get("field2").unwrap(), "hello2".as_bytes(), &mut Vec::new()).unwrap());
    assert_eq!(string, String::from_utf8(buf.into_inner()).unwrap());
}

#[test]
fn mod_write_field_with_formatting_error() {
    let spec = test_spec();
    let mut buf = ByteWriter::new();
    let mut formatter = MockFormatter::new();
    let record_spec = &spec.record_specs.get("record1").unwrap();
    formatter.add_format_call("hello".as_bytes().to_owned(), record_spec.field_specs.get("field1").unwrap().clone(), Err(()));
    let writer = FieldWriter::new(&formatter, BinarySupporter);
    match writer.write(&mut buf, record_spec.field_specs.get("field1").unwrap(), "hello".as_bytes(), &mut Vec::new()) {
        Err(Error::FormatterFailure(_)) => (),
        v => panic!("Failed result returned was not the expected one {:?}", v),
    }
}

#[test]
fn mod_write_field_with_padded_value_not_correct_length() {
    let spec = test_spec();
    let mut buf = ByteWriter::new();
    let mut formatter = MockFormatter::new();
    let record_spec = &spec.record_specs.get("record1").unwrap();
    formatter.add_format_call("hello".as_bytes().to_owned(), record_spec.field_specs.get("field1").unwrap().clone(), Ok("hello2".as_bytes().to_owned()));
    let writer = FieldWriter::new(&formatter, BinarySupporter);
    match writer.write(&mut buf, record_spec.field_specs.get("field1").unwrap(), "hello".as_bytes(), &mut Vec::new()) {
        Err(Error::FormattedValueWrongLength(4, ref value)) if *value == "hello2".as_bytes().to_owned() => (),
        v => panic!("Failed result returned was not the expected one {:?}", v),
    }
}

#[test]
fn mod_write_field_with_write_error() {
    let spec = test_spec();
    let mut buf = ByteWriter::with_fixed_size(vec![0; 3]);
    let mut formatter = MockFormatter::new();
    let record_spec = &spec.record_specs.get("record1").unwrap();
    formatter.add_format_call("hello".as_bytes().to_owned(), record_spec.field_specs.get("field1").unwrap().clone(), Ok("bye2".as_bytes().to_owned()));
    let writer = FieldWriter::new(&formatter, BinarySupporter);
    match writer.write(&mut buf, record_spec.field_specs.get("field1").unwrap(), "hello".as_bytes(), &mut Vec::new()) {
        Err(Error::IoError(_)) => (),
        v => panic!("Failed result returned was not the expected one {:?}", v),
    }
}

#[test]
fn writer_write_record() {
    let spec = test_spec();
    let string = "1234567890qwertyuiopasdfghjkl;zxcvbnm,./-=[];\n".to_string();
    let mut buf = ByteWriter::new();
    let mut formatter = MockFormatter::new();
    let record_spec = &spec.record_specs.get("record1").unwrap();
    formatter.add_format_call("hello".as_bytes().to_owned(), record_spec.field_specs.get("field1").unwrap().clone(), Ok(string[0..4].as_bytes().to_owned()));
    formatter.add_format_call("def".as_bytes().to_owned(), record_spec.field_specs.get("field2").unwrap().clone(), Ok(string[4..9].as_bytes().to_owned()));
    formatter.add_format_call("hello2".as_bytes().to_owned(), record_spec.field_specs.get("field3").unwrap().clone(), Ok(string[9..45].as_bytes().to_owned()));
    let writer = RecordWriter::new(FieldWriter::new(&formatter, BinarySupporter));
    writer.write(&mut buf, record_spec, &data(&[("field1", "hello"), ("field3", "hello2")]), &mut Vec::new()).unwrap();
    assert_eq!(string, String::from_utf8(buf.into_inner()).unwrap());
    text_write_record_scenario();
}

#[test]
fn writer_write_record_with_formatting_error() {
    let spec = test_spec();
    let mut buf = ByteWriter::new();
    let mut formatter = MockFormatter::new();
    let record_spec = &spec.record_specs.get("record1").unwrap();
    formatter.add_format_call("hello".as_bytes().to_owned(), record_spec.field_specs.get("field1").unwrap().clone(), Err(()));
    let writer = RecordWriter::new(FieldWriter::new(&formatter, BinarySupporter));
    match writer.write(&mut buf, record_spec, &data(&[("field1", "hello")]), &mut Vec::new()) {
        Err(FieldError { error: Error::FormatterFailure(_), field: Some(ref field) }) if field == "field1" => (),
        v => panic!("Failed result returned was not the expected one {:?}", v),
    }
}

#[test]
fn writer_write_record_with_field_require_error() {
    let spec = test_spec();
    let mut buf = ByteWriter::new();
    let record_spec = &spec.record_specs.get("record1").unwrap();
    let writer = RecordWriter::new(FieldWriter::new(MockFormatter::new(), BinarySupporter));
    match writer.write(&mut buf, record_spec, &data(&[("field3", "hello")]), &mut Vec::new()) {
        Err(FieldError { error: Error::FieldValueRequired, field: Some(ref field) }) if field == "field1" => (),
        v => panic!("Failed result returned was not the expected one {:?}", v),
    }
}

#[test]
fn writer_write_record_with_formatted_value_not_correct_length() {
    let spec = test_spec();
    let mut buf = ByteWriter::new();
    let mut formatter = MockFormatter::new();
    let record_spec = &spec.record_specs.get("record1").unwrap();
    formatter.add_format_call("hello".as_bytes().to_owned(), record_spec.field_specs.get("field1").unwrap().clone(), Ok("hello2".as_bytes().to_owned()));
    let writer = RecordWriter::new(FieldWriter::new(&formatter, BinarySupporter));
    match writer.write(&mut buf, record_spec, &data(&[("field1", "hello")]), &mut Vec::new()) {
        Err(FieldError { error: Error::FormattedValueWrongLength(4, ref value), field: Some(ref field) })
            if *value == "hello2".as_bytes().to_owned() && field == "field1" => (),
        v => panic!("Failed result returned was not the expected one {:?}", v),
    }
}

#[test]
fn writer_write_record_with_write_error() {
    let spec = test_spec();
    let mut buf = ByteWriter::with_fixed_size(vec![0; 3]);
    let mut formatter = MockFormatter::new();
    let record_spec = &spec.record_specs.get("record1").unwrap();
    formatter.add_format_call("hello".as_bytes().to_owned(), record_spec.field_specs.get("field1").unwrap().clone(), Ok("bye2".as_bytes().to_owned()));
    let writer = RecordWriter::new(FieldWriter::new(&formatter, BinarySupporter));
    match writer.write(&mut buf, record_spec, &data(&[("field1", "hello")]), &mut Vec::new()) {
        Err(FieldError { error: Error::IoError(_), field: Some(ref field) }) if field == "field1" => (),
        v => panic!("Failed result returned was not the expected one {:?}", v),
    }
    text_write_record_with_write_error_scenario();
}

#[test]
fn writer_write_field() {
    let spec = test_spec();
    let string = "123456789".to_string();
    let mut buf = ByteWriter::new();
    let mut formatter = MockFormatter::new();
    let record_spec = &spec.record_specs.get("record1").unwrap();
    formatter.add_format_call("hello".as_bytes().to_owned(), record_spec.field_specs.get("field1").unwrap().clone(), Ok(string[0..4].as_bytes().to_owned()));
    formatter.add_format_call("hello2".as_bytes().to_owned(), record_spec.field_specs.get("field2").unwrap().clone(), Ok(string[4..9].as_bytes().to_owned()));
    let writer = FieldWriter::new(&formatter, BinarySupporter);
    assert_eq!(4, writer.write(&mut buf, record_spec.field_specs.get("field1").unwrap(), "hello".as_bytes(), &mut Vec::new()).unwrap());
    assert_eq!(string[0..4].to_string(), String::from_utf8(buf.get_ref().clone()).unwrap());
    assert_eq!(5, writer.write(&mut buf, record_spec.field_specs.get("field2").unwrap(), "hello2".as_bytes(), &mut Vec::new()).unwrap());
    assert_eq!(string, String::from_utf8(buf.into_inner()).unwrap());
    text_write_field_scenario();
}

#[test]
fn writer_write_field_with_formatting_error() {
    let spec = test_spec();
    let mut buf = ByteWriter::new();
    let mut formatter = MockFormatter::new();
    let record_spec = &spec.record_specs.get("record1").unwrap();
    formatter.add_format_call("hello".as_bytes().to_owned(), record_spec.field_specs.get("field1").unwrap().clone(), Err(()));
    let writer = FieldWriter::new(&formatter, BinarySupporter);
    match writer.write(&mut buf, record_spec.field_specs.get("field1").unwrap(), "hello".as_bytes(), &mut Vec::new()) {
        Err(Error::FormatterFailure(_)) => (),
        v => panic!("Failed result returned was not the expected one {:?}", v),
    }
}

#[test]
fn writer_write_field_with_padded_value_not_correct_length() {
    let spec = test_spec();
    let mut buf = ByteWriter::new();
    let mut formatter = MockFormatter::new();
    let record_spec = &spec.record_specs.get("record1").unwrap();
    formatter.add_format_call("hello".as_bytes().to_owned(), record_spec.field_specs.get("field1").unwrap().clone(), Ok("hello2".as_bytes().to_owned()));
    let writer = FieldWriter::new(&formatter, BinarySupporter);
    match writer.write(&mut buf, record_spec.field_specs.get("field1").unwrap(), "hello".as_bytes(), &mut Vec::new()) {
        Err(Error::FormattedValueWrongLength(4, ref value)) if *value == "hello2".as_bytes().to_owned() => (),
        v => panic!("Failed result returned was not the expected one {:?}", v),
    }
    text_write_field_with_padded_value_not_correct_length_scenario();
}

#[test]
fn writer_write_field_with_write_error() {
    let spec = test_spec();
    let mut buf = ByteWriter::with_fixed_size(vec![0; 3]);
    let mut formatter = MockFormatter::new();
    let record_spec = &spec.record_specs.get("record1").unwrap();
    formatter.add_format_call("hello".as_bytes().to_owned(), record_spec.field_specs.get("field1").unwrap().clone(), Ok("bye2".as_bytes().to_owned()));
    let writer = FieldWriter::new(&formatter, BinarySupporter);
    match writer.write(&mut buf, record_spec.field_specs.get("field1").unwrap(), "hello".as_bytes(), &mut Vec::new()) {
        Err(Error::IoError(_)) => (),
        v => panic!("Failed result returned was not the expected one {:?}", v),
    }
    text_write_field_with_write_error_scenario();
}
