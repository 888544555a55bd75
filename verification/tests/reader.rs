use fixed_width::text::padders::{Error as TextPaddingFailure, Padder as TextPadder, UnPadder as TextUnPadder};
use fixed_width::text::spec::{
    Builder as TextBuilder, FieldSpec as TextFieldSpec, FieldSpecBuilder as TextFieldSpecBuilder,
    PaddingDirection as TextDirection, RecordSpec as TextRecordSpec, RecordSpecBuilder as TextRecordSpecBuilder,
    Spec as TextSpec, SpecBuilder as TextSpecBuilder,
};
use fixed_width::text::{
    Error as TextError, Position as TextPosition, PositionalError as TextPositionalError, ReaderBuilder as TextReaderBuilder,
    Record as TextRecord,
};
use fixed_width::data_type::BinarySupporter;
use fixed_width::error::{Error, FieldError};
use fixed_width::io::ByteReader;
use fixed_width::names::NameMap;
use fixed_width::parser::{self, FieldParser};
use fixed_width::reader::{FieldReader, RecordReader};
use fixed_width::record::Data;
use fixed_width::spec::{Builder, FieldSpec, PaddingDirection, Spec, SpecBuilder};
use std::ops::Range;

fn text_spec() -> TextSpec {
    TextSpecBuilder::new()
        .with_record(
            "record1",
            TextRecordSpecBuilder::new()
                .with_line_ending("\n")
                .with_field(
                    "field1".to_string(),
                    TextFieldSpecBuilder::new()
                        .with_length(4)
                        .with_padding("dsasd")
                        .with_padding_direction(TextDirection::Left)
                        .make_filler(),
                )
                .with_field("field2", TextFieldSpecBuilder::new_string().with_length(5).with_default("def"))
                .with_field(
                    "field3".to_string(),
                    TextFieldSpecBuilder::new()
                        .with_length(36)
                        .with_padding("xcvcxv".to_string())
                        .with_padding_direction(TextDirection::Right),
                ),
        )
        .with_record(
            "record2".to_string(),
            TextRecordSpecBuilder::new()
                .with_line_ending("\n")
                .with_field(
                    "field1".to_string(),
                    TextFieldSpecBuilder::new()
                        .with_length(3)
                        .with_padding("dsasd".to_string())
                        .with_padding_direction(TextDirection::Left),
                )
                .with_field(
                    "field2".to_string(),
                    TextFieldSpecBuilder::new()
                        .with_length(4)
                        .with_padding("sdf".to_string())
                        .with_padding_direction(TextDirection::Right)
                        .with_default("defa"),
                )
                .with_field(
                    "field3",
                    TextFieldSpecBuilder::new()
                        .with_length(27)
                        .with_padding("xcvcxv".to_string())
                        .with_padding_direction(TextDirection::Right),
                )
                .with_field(
                    "field4".to_string(),
                    TextFieldSpec {
                        length: 8,
                        padding: "sdfsd".as_bytes().to_owned(),
                        padding_direction: TextDirection::Left,
                        default: None,
                        filler: false,
                    },
                ),
        )
        .with_record(
            "record3".to_string(),
            TextRecordSpec { line_ending: "\n".as_bytes().to_owned(), field_specs: NameMap::new() },
        )
        .build()
}

struct TextMockPadder {
    pad_calls: Vec<(String, usize, String, TextDirection, Result<String, ()>)>,
    unpad_calls: Vec<(String, String, TextDirection, Result<String, ()>)>,
}

impl TextMockPadder {
    fn new() -> Self {
        TextMockPadder { pad_calls: Vec::new(), unpad_calls: Vec::new() }
    }

    fn add_pad_call(&mut self, data: String, length: usize, padding: String, direction: TextDirection, r: Result<String, ()>) {
        self.pad_calls.push((data, length, padding, direction, r));
    }

    fn add_unpad_call(&mut self, data: String, padding: String, direction: TextDirection, r: Result<String, ()>) {
        self.unpad_calls.push((data, padding, direction, r));
    }
}

impl TextPadder for TextMockPadder {
    fn pad(&self, data: String, length: usize, padding: &String, direction: TextDirection) -> Result<String, TextPaddingFailure> {
        for (d, l, p, dir, r) in &self.pad_calls {
            if *d == data && *l == length && p == padding && *dir == direction {
                return r.clone().map_err(|_| TextPaddingFailure::new(""));
            }
        }
        panic!("Method pad was not expected to be called with {:?}", (data, length, padding, direction))
    }
}

impl TextUnPadder for TextMockPadder {
    fn unpad(&self, data: String, padding: &String, direction: TextDirection) -> Result<String, TextPaddingFailure> {
        for (d, p, dir, r) in &self.unpad_calls {
            if *d == data && p == padding && *dir == direction {
                return r.clone().map_err(|_| TextPaddingFailure::new(""));
            }
        }
        panic!("Method unpad was not expected to be called with {:?}", (data, padding, direction))
    }
}

fn text_values(pairs: &[(&str, &str)]) -> NameMap<String> {
    let mut map = NameMap::new();
    for (name, value) in pairs {
        map.insert(name.to_string(), value.to_string());
    }
    map
}

fn text_read_record_scenario() {
    let spec = text_spec();
    let string = "1234567890qwertyuiopasdfghjkl;zxcvbnm,./-=[];\ndfszbvvitwyotywt4trjkvvbjsbrgh4oq3njm,k.l/[p]";
    let mut buf = ByteReader::new(string);
    let mut un_padder = TextMockPadder::new();
    un_padder.add_unpad_call(string[4..9].to_string(), " ".to_string(), TextDirection::Right, Ok("hello".to_string()));
    un_padder.add_unpad_call(string[9..45].to_string(), "xcvcxv".to_string(), TextDirection::Right, Ok("hello2".to_string()));
    un_padder.add_unpad_call(string[50..55].to_string(), " ".to_string(), TextDirection::Right, Ok("hello3".to_string()));
    un_padder.add_unpad_call(string[55..91].to_string(), "xcvcxv".to_string(), TextDirection::Right, Ok("hello4".to_string()));
    let reader = TextReaderBuilder::new().with_un_padder(&un_padder).with_specs(spec.record_specs).build();
    assert_eq!(
        TextRecord { data: text_values(&[("field2", "hello"), ("field3", "hello2")]), name: "record1".to_string() },
        reader.read_record(&mut buf, "record1".to_string()).unwrap()
    );
    assert_eq!(
        TextRecord { data: text_values(&[("field2", "hello3"), ("field3", "hello4")]), name: "record1".to_string() },
        reader.read_record(&mut buf, "record1".to_string()).unwrap()
    );
}

fn text_record_error(r: Result<TextRecord<NameMap<String>>, TextPositionalError>, record: &str, field: Option<&str>) -> TextError {
    match r {
        Err(TextPositionalError { error, position: Some(TextPosition { record: ref at, field: ref f }) })
            if at == record && f.as_deref() == field => error,
        v => panic!("Failed result returned was not the expected one {:?}", v),
    }
}

fn text_read_record_with_bad_line_ending_scenario() {
    let spec = text_spec();
    let string = "1234567890qwertyuiopasdfghjkl;zxcvbnm,./-=[];bla";
    let mut buf = ByteReader::new(string);
    let mut un_padder = TextMockPadder::new();
    un_padder.add_unpad_call(string[4..9].to_string(), " ".to_string(), TextDirection::Right, Ok("hello".to_string()));
    un_padder.add_unpad_call(string[9..45].to_string(), "xcvcxv".to_string(), TextDirection::Right, Ok("hello2".to_string()));
    let reader = TextReaderBuilder::new().with_un_padder(&un_padder).with_specs(spec.record_specs).build();
    match text_record_error(reader.read_record(&mut buf, "record1".to_string()), "record1", None) {
        TextError::StringDoesNotMatchLineEnding(_, _) => (),
        e => panic!("Failed result returned was not the expected one {:?}", e),
    }
}

fn text_read_record_with_read_error_scenario() {
    let spec = text_spec();
    let string = "1234567890qwertyuiopasdfghjkl;";
    let mut buf = ByteReader::new(string);
    let mut un_padder = TextMockPadder::new();
    un_padder.add_unpad_call(string[4..9].to_string(), " ".to_string(), TextDirection::Right, Ok("hello".to_string()));
    let reader = TextReaderBuilder::new().with_un_padder(&un_padder).with_specs(&spec.record_specs).build();
    match text_record_error(reader.read_record(&mut buf, "record1".to_string()), "record1", None) {
        TextError::IoError(_) => (),
        e => panic!("Failed result returned was not the expected one {:?}", e),
    }
}

fn text_read_field_scenario() {
    let spec = text_spec();
    let string = "1234567890qwertyuiopasdfghjkl;zxcvbnm,./-=[];dfszbvvitwyotywt4trjkvvbjsbrgh4oq3njm,k.l/[p]";
    let mut buf = ByteReader::new(string);
    let mut un_padder = TextMockPadder::new();
    un_padder.add_unpad_call(string[0..4].to_string(), "dsasd".to_string(), TextDirection::Left, Ok("hello".to_string()));
    un_padder.add_unpad_call(string[4..9].to_string(), " ".to_string(), TextDirection::Right, Ok("hello2".to_string()));
    let reader = TextReaderBuilder::new().with_un_padder(&un_padder).with_specs(&spec.record_specs).build();
    assert_eq!("hello".to_string(), reader.read_field(&mut buf, "record1".to_string(), "field1".to_string()).unwrap());
    assert_eq!("hello2".to_string(), reader.read_field(&mut buf, "record1".to_string(), "field2".to_string()).unwrap());
}

fn text_read_field_with_read_error_scenario() {
    let spec = text_spec();
    let string = "123";
    let mut buf = ByteReader::new(string);
    let reader = TextReaderBuilder::new().with_un_padder(TextMockPadder::new()).with_specs(&spec.record_specs).build();
    reader.read_field(&mut buf, "record1".to_string(), "field1".to_string()).unwrap_err();
}

fn test_spec() -> Spec {
    SpecBuilder::new()
        .with_record("record1")
        .with_line_ending("\n")
        .with_field("field1")
        .with_length(4)
        .with_padding("dsasd")
        .with_padding_direction(PaddingDirection::Left)
        .end()
        .with_field("field2")
        .string()
        .with_length(5)
        .with_default("def")
        .end()
        .with_field("field3")
        .with_length(36)
        .with_padding("xcvcxv")
        .with_padding_direction(PaddingDirection::Right)
        .end()
        .end()
        .with_record("record2")
        .with_line_ending("\n")
        .with_field("field1")
        .with_length(3)
        .with_padding("dsasd")
        .with_padding_direction(PaddingDirection::Left)
        .end()
        .with_field("field2")
        .with_length(4)
        .with_padding("sdf")
        .with_padding_direction(PaddingDirection::Right)
        .with_default("defa")
        .end()
        .with_field("field3")
        .with_length(27)
        .with_padding("xcvcxv")
        .with_padding_direction(PaddingDirection::Right)
        .end()
        .with_field("field4")
        .with_length(8)
        .with_padding("sdfsd")
        .with_padding_direction(PaddingDirection::Left)
        .end()
        .end()
        .with_record("record3")
        .with_line_ending("\n")
        .end()
        .build()
        .unwrap()
}

struct MockParser {
    parse_calls: Vec<(Vec<u8>, FieldSpec, Result<Vec<u8>, ()>)>,
}

impl MockParser {
    fn new() -> Self {
        MockParser { parse_calls: Vec::new() }
    }

    fn add_parse_call(&mut self, data: Vec<u8>, field_spec: FieldSpec, return_value: Result<Vec<u8>, ()>) -> &mut Self {
        self.parse_calls.push((data, field_spec, return_value));
        self
    }
}

impl FieldParser<BinarySupporter> for MockParser {
    fn parse(&self, data: &[u8], field_spec: &FieldSpec, destination: &mut Vec<u8>, _: &BinarySupporter) -> Result<(), parser::Error> {
        for (expected_data, expected_field_spec, return_value) in &self.parse_calls {
            if &expected_data[..] == data && expected_field_spec == field_spec {
                return match return_value {
                    Ok(value) => {
                        destination.extend(value.iter());
                        Ok(())
                    },
                    Err(()) => Err(parser::Error::new("")),
                };
            }
        }
        panic!("Method parse was not expected to be called with {:?}", (data, field_spec))
    }
}

fn ranges(entries: &[(&str, Range<usize>)]) -> NameMap<Range<usize>> {
    let mut map = NameMap::new();
    for (name, range) in entries {
        map.insert(name.to_string(), range.clone());
    }
    map
}

#[test]
fn mod_read_record() {
    let spec = test_spec();
    let string = "1234567890qwertyuiopasdfghjkl;zxcvbnm,./-=[];\ndfszbvvitwyotywt4trjkvvbjsbrgh4oq3njm,k.l/[p]";
    let mut buf = ByteReader::new(string.as_bytes());
    let mut parser = MockParser::new();
    let record_spec = &spec.record_specs.get("record1").unwrap();
    parser.add_parse_call(string[..4].as_bytes().to_owned(), record_spec.field_specs.get("field1").unwrap().clone(), Ok("hello".as_bytes().to_owned()));
    parser.add_parse_call(string[4..9].as_bytes().to_owned(), record_spec.field_specs.get("field2").unwrap().clone(), Ok("hello2".as_bytes().to_owned()));
    parser.add_parse_call(string[9..45].as_bytes().to_owned(), record_spec.field_specs.get("field3").unwrap().clone(), Ok("hello3".as_bytes().to_owned()));
    parser.add_parse_call(string[46..50].as_bytes().to_owned(), record_spec.field_specs.get("field1").unwrap().clone(), Ok("hello4".as_bytes().to_owned()));
    parser.add_parse_call(string[50..55].as_bytes().to_owned(), record_spec.field_specs.get("field2").unwrap().clone(), Ok("hello5".as_bytes().to_owned()));
    parser.add_parse_call(string[55..91].as_bytes().to_owned(), record_spec.field_specs.get("field3").unwrap().clone(), Ok("hello6".as_bytes().to_owned()));
    let reader = RecordReader::new(FieldReader::new(&parser, BinarySupporter));
    assert_eq!(
        Data { data: "hellohello2hello3".as_bytes().to_owned(), ranges: ranges(&[("field1", 0..5), ("field2", 5..11), ("field3", 11..17)]) },
        reader.read::<NameMap<Range<usize>>>(&mut buf, record_spec, Vec::new(), &mut Vec::new()).unwrap()
    );
    assert_eq!(
        Data { data: "hello4hello5hello6".as_bytes().to_owned(), ranges: ranges(&[("field1", 0..6), ("field2", 6..12), ("field3", 12..18)]) },
        reader.read::<NameMap<Range<usize>>>(&mut buf, record_spec, Vec::new(), &mut Vec::new()).unwrap()
    );
}

#[test]
fn mod_read_record_with_bad_line_ending() {
    let spec = test_spec();
    let string = "1234567890qwertyuiopasdfghjkl;zxcvbnm,./-=[];bla";
    let mut buf = ByteReader::new(string.as_bytes());
    let mut parser = MockParser::new();
    let record_spec = &spec.record_specs.get("record1").unwrap();
    parser.add_parse_call(string[..4].as_bytes().to_owned(), record_spec.field_specs.get("field1").unwrap().clone(), Ok("hello".as_bytes().to_owned()));
    parser.add_parse_call(string[4..9].as_bytes().to_owned(), record_spec.field_specs.get("field2").unwrap().clone(), Ok("hello2".as_bytes().to_owned()));
    parser.add_parse_call(string[9..45].as_bytes().to_owned(), record_spec.field_specs.get("field3").unwrap().clone(), Ok("hello3".as_bytes().to_owned()));
    let reader = RecordReader::new(FieldReader::new(&parser, BinarySupporter));
    match reader.read::<NameMap<Range<usize>>>(&mut buf, record_spec, Vec::new(), &mut Vec::new()) {
        Err(FieldError { error: Error::DataDoesNotMatchLineEnding(_, _), field: None }) => (),
        v => panic!("Failed result returned was not the expected one {:?}", v),
    }
}

#[test]
fn mod_read_record_with_parsing_error() {
    let spec = test_spec();
    let string = "1234567890qwertyuiopasdfghjkl;zxcvbnm,./-=[];\ndfszbvvitwyotywt4trjkvvbjsbrgh4oq3njm,k.l/[p]";
    let mut buf = ByteReader::new(string.as_bytes());
    let mut parser = MockParser::new();
    let record_spec = &spec.record_specs.get("record1").unwrap();
    parser.add_parse_call(string[..4].as_bytes().to_owned(), record_spec.field_specs.get("field1").unwrap().clone(), Err(()));
    let reader = RecordReader::new(FieldReader::new(&parser, BinarySupporter));
    match reader.read::<NameMap<Range<usize>>>(&mut buf, record_spec, Vec::new(), &mut Vec::new()) {
        Err(FieldError { error: Error::ParserFailure(_), field: Some(ref field) }) if field == "field1" => (),
        v => panic!("Failed result returned was not the expected one {:?}", v),
    }
}

#[test]
fn mod_read_record_with_read_error() {
    let spec = test_spec();
    let string = "1234567890qwertyuiopasdfghjkl;";
    let mut buf = ByteReader::new(string.as_bytes());
    let mut parser = MockParser::new();
    let record_spec = &spec.record_specs.get("record1").unwrap();
    parser.add_parse_call(string[..4].as_bytes().to_owned(), record_spec.field_specs.get("field1").unwrap().clone(), Ok("hello".as_bytes().to_owned()));
    parser.add_parse_call(string[4..9].as_bytes().to_owned(), record_spec.field_specs.get("field2").unwrap().clone(), Ok("hello2".as_bytes().to_owned()));
    let reader = RecordReader::new(FieldReader::new(&parser, BinarySupporter));
    match reader.read::<NameMap<Range<usize>>>(&mut buf, record_spec, Vec::new(), &mut Vec::new()) {
        Err(FieldError { error: Error::CouldNotReadEnough(_), field: Some(ref field) }) if field == "field3" => (),
        v => panic!("Failed result returned was not the expected one {:?}", v),
    }
}

#[test]
fn mod_read_field() {
    let spec = test_spec();
    let string = "1234567890qwertyuiopasdfghjkl;zxcvbnm,./-=[];dfszbvvitwyotywt4trjkvvbjsbrgh4oq3njm,k.l/[p]";
    let mut buf = ByteReader::new(string.as_bytes());
    let mut buffer = Vec::new();
    let mut parser = MockParser::new();
    let record_spec = &spec.record_specs.get("record1").unwrap();
    parser.add_parse_call(string[..4].as_bytes().to_owned(), record_spec.field_specs.get("field1").unwrap().clone(), Ok("hello".as_bytes().to_owned()));
    parser.add_parse_call(string[4..9].as_bytes().to_owned(), record_spec.field_specs.get("field2").unwrap().clone(), Ok("hello2".as_bytes().to_owned()));
    let reader = FieldReader::new(&parser, BinarySupporter);
    assert!(reader.read(&mut buf, &record_spec.field_specs.get("field1").unwrap(), &mut buffer, &mut Vec::new()).is_ok());
    assert_eq!("hello".as_bytes().to_owned(), buffer);
    assert!(reader.read(&mut buf, &record_spec.field_specs.get("field2").unwrap(), &mut buffer, &mut Vec::new()).is_ok());
    assert_eq!("hellohello2".as_bytes().to_owned(), buffer);
}

#[test]
fn mod_read_field_with_parsing_error() {
    let spec = test_spec();
    let string = "1234567890qwertyuiopasdfghjkl;zxcvbnm,./-=[];\ndfszbvvitwyotywt4trjkvvbjsbrgh4oq3njm,k.l/[p]";
    let mut buf = ByteReader::new(string.as_bytes());
    let mut buffer = Vec::new();
    let mut parser = MockParser::new();
    let record_spec = &spec.record_specs.get("record1").unwrap();
    parser.add_parse_call(string[..5].as_bytes().to_owned(), record_spec.field_specs.get("field2").unwrap().clone(), Err(()));
    let reader = FieldReader::new(&parser, BinarySupporter);
    match reader.read(&mut buf, &record_spec.field_specs.get("field2").unwrap(), &mut buffer, &mut Vec::new()) {
        Err(Error::ParserFailure(_)) => (),
        v => panic!("Failed result returned was not the expected one {:?}", v),
    }
}

#[test]
fn mod_read_field_with_read_error() {
    let spec = test_spec();
    let string = "1234567890qwertyuiopasdfghjkl;";
    let mut buf = ByteReader::new(string.as_bytes());
    let mut buffer = Vec::new();
    let mut parser = MockParser::new();
    let record_spec = &spec.record_specs.get("record1").unwrap();
    parser.add_parse_call(string[..4].as_bytes().to_owned(), record_spec.field_specs.get("field1").unwrap().clone(), Ok("hello".as_bytes().to_owned()));
    parser.add_parse_call(string[4..9].as_bytes().to_owned(), record_spec.field_specs.get("field2").unwrap().clone(), Ok("hello2".as_bytes().to_owned()));
    let reader = FieldReader::new(&parser, BinarySupporter);
    assert!(reader.read(&mut buf, &record_spec.field_specs.get("field1").unwrap(), &mut buffer, &mut Vec::new()).is_ok());
    assert!(reader.read(&mut buf, &record_spec.field_specs.get("field2").unwrap(), &mut buffer, &mut Vec::new()).is_ok());
    match reader.read(&mut buf, &record_spec.field_specs.get("field3").unwrap(), &mut buffer, &mut Vec::new()) {
        Err(Error::CouldNotReadEnough(_)) => (),
        v => panic!("Failed result returned was not the expected one {:?}", v),
    }
}

#[test]
fn reader_read_record() {
    let spec = test_spec();
    let string = "1234567890qwertyuiopasdfghjkl;zxcvbnm,./-=[];\ndfszbvvitwyotywt4trjkvvbjsbrgh4oq3njm,k.l/[p]";
    let mut buf = ByteReader::new(string.as_bytes());
    let mut parser = MockParser::new();
    let record_spec = &spec.record_specs.get("record1").unwrap();
    parser.add_parse_call(string[..4].as_bytes().to_owned(), record_spec.field_specs.get("field1").unwrap().clone(), Ok("hello".as_bytes().to_owned()));
    parser.add_parse_call(string[4..9].as_bytes().to_owned(), record_spec.field_specs.get("field2").unwrap().clone(), Ok("hello2".as_bytes().to_owned()));
    parser.add_parse_call(string[9..45].as_bytes().to_owned(), record_spec.field_specs.get("field3").unwrap().clone(), Ok("hello3".as_bytes().to_owned()));
    parser.add_parse_call(string[46..50].as_bytes().to_owned(), record_spec.field_specs.get("field1").unwrap().clone(), Ok("hello4".as_bytes().to_owned()));
    parser.add_parse_call(string[50..55].as_bytes().to_owned(), record_spec.field_specs.get("field2").unwrap().clone(), Ok("hello5".as_bytes().to_owned()));
    parser.add_parse_call(string[55..91].as_bytes().to_owned(), record_spec.field_specs.get("field3").unwrap().clone(), Ok("hello6".as_bytes().to_owned()));
    let reader = RecordReader::new(FieldReader::new(&parser, BinarySupporter));
    assert_eq!(
        Data { data: "hellohello2hello3".as_bytes().to_owned(), ranges: ranges(&[("field1", 0..5), ("field2", 5..11), ("field3", 11..17)]) },
        reader.read::<NameMap<Range<usize>>>(&mut buf, record_spec, Vec::new(), &mut Vec::new()).unwrap()
    );
    assert_eq!(
        Data { data: "hello4hello5hello6".as_bytes().to_owned(), ranges: ranges(&[("field1", 0..6), ("field2", 6..12), ("field3", 12..18)]) },
        reader.read::<NameMap<Range<usize>>>(&mut buf, record_spec, Vec::new(), &mut Vec::new()).unwrap()
    );
    text_read_record_scenario();
}

#[test]
fn reader_read_record_with_bad_line_ending() {
    let spec = test_spec();
    let string = "1234567890qwertyuiopasdfghjkl;zxcvbnm,./-=[];bla";
    let mut buf = ByteReader::new(string.as_bytes());
    let mut parser = MockParser::new();
    let record_spec = &spec.record_specs.get("record1").unwrap();
    parser.add_parse_call(string[..4].as_bytes().to_owned(), record_spec.field_specs.get("field1").unwrap().clone(), Ok("hello".as_bytes().to_owned()));
    parser.add_parse_call(string[4..9].as_bytes().to_owned(), record_spec.field_specs.get("field2").unwrap().clone(), Ok("hello2".as_bytes().to_owned()));
    parser.add_parse_call(string[9..45].as_bytes().to_owned(), record_spec.field_specs.get("field3").unwrap().clone(), Ok("hello3".as_bytes().to_owned()));
    let reader = RecordReader::new(FieldReader::new(&parser, BinarySupporter));
    match reader.read::<NameMap<Range<usize>>>(&mut buf, record_spec, Vec::new(), &mut Vec::new()) {
        Err(FieldError { error: Error::DataDoesNotMatchLineEnding(_, _), field: None }) => (),
        v => panic!("Failed result returned was not the expected one {:?}", v),
    }
    text_read_record_with_bad_line_ending_scenario();
}

#[test]
fn reader_read_record_with_parsing_error() {
    let spec = test_spec();
    let string = "1234567890qwertyuiopasdfghjkl;zxcvbnm,./-=[];\ndfszbvvitwyotywt4trjkvvbjsbrgh4oq3njm,k.l/[p]";
    let mut buf = ByteReader::new(string.as_bytes());
    let mut parser = MockParser::new();
    let record_spec = &spec.record_specs.get("record1").unwrap();
    parser.add_parse_call(string[..4].as_bytes().to_owned(), record_spec.field_specs.get("field1").unwrap().clone(), Err(()));
    let reader = RecordReader::new(FieldReader::new(&parser, BinarySupporter));
    match reader.read::<NameMap<Range<usize>>>(&mut buf, record_spec, Vec::new(), &mut Vec::new()) {
        Err(FieldError { error: Error::ParserFailure(_), field: Some(ref field) }) if field == "field1" => (),
        v => panic!("Failed result returned was not the expected one {:?}", v),
    }
}

#[test]
fn reader_read_record_with_read_error() {
    let spec = test_spec();
    let string = "1234567890qwertyuiopasdfghjkl;";
    let mut buf = ByteReader::new(string.as_bytes());
    let mut parser = MockParser::new();
    let record_spec = &spec.record_specs.get("record1").unwrap();
    parser.add_parse_call(string[..4].as_bytes().to_owned(), record_spec.field_specs.get("field1").unwrap().clone(), Ok("hello".as_bytes().to_owned()));
    parser.add_parse_call(string[4..9].as_bytes().to_owned(), record_spec.field_specs.get("field2").unwrap().clone(), Ok("hello2".as_bytes().to_owned()));
    let reader = RecordReader::new(FieldReader::new(&parser, BinarySupporter));
    match reader.read::<NameMap<Range<usize>>>(&mut buf, record_spec, Vec::new(), &mut Vec::new()) {
        Err(FieldError { error: Error::CouldNotReadEnough(_), field: Some(ref field) }) if field == "field3" => (),
        v => panic!("Failed result returned was not the expected one {:?}", v),
    }
    text_read_record_with_read_error_scenario();
}

#[test]
fn reader_read_field() {
    let spec = test_spec();
    let string = "1234567890qwertyuiopasdfghjkl;zxcvbnm,./-=[];dfszbvvitwyotywt4trjkvvbjsbrgh4oq3njm,k.l/[p]";
    let mut buf = ByteReader::new(string.as_bytes());
    let mut buffer = Vec::new();
    let mut parser = MockParser::new();
    let record_spec = &spec.record_specs.get("record1").unwrap();
    parser.add_parse_call(string[..4].as_bytes().to_owned(), record_spec.field_specs.get("field1").unwrap().clone(), Ok("hello".as_bytes().to_owned()));
    parser.add_parse_call(string[4..9].as_bytes().to_owned(), record_spec.field_specs.get("field2").unwrap().clone(), Ok("hello2".as_bytes().to_owned()));
    let reader = FieldReader::new(&parser, BinarySupporter);
    assert!(reader.read(&mut buf, &record_spec.field_specs.get("field1").unwrap(), &mut buffer, &mut Vec::new()).is_ok());
    assert_eq!("hello".as_bytes().to_owned(), buffer);
    assert!(reader.read(&mut buf, &record_spec.field_specs.get("field2").unwrap(), &mut buffer, &mut Vec::new()).is_ok());
    assert_eq!("hellohello2".as_bytes().to_owned(), buffer);
    text_read_field_scenario();
}

#[test]
fn reader_read_field_with_parsing_error() {
    let spec = test_spec();
    let string = "1234567890qwertyuiopasdfghjkl;zxcvbnm,./-=[];\ndfszbvvitwyotywt4trjkvvbjsbrgh4oq3njm,k.l/[p]";
    let mut buf = ByteReader::new(string.as_bytes());
    let mut buffer = Vec::new();
    let mut parser = MockParser::new();
    let record_spec = &spec.record_specs.get("record1").unwrap();
    parser.add_parse_call(string[..5].as_bytes().to_owned(), record_spec.field_specs.get("field2").unwrap().clone(), Err(()));
    let reader = FieldReader::new(&parser, BinarySupporter);
    match reader.read(&mut buf, &record_spec.field_specs.get("field2").unwrap(), &mut buffer, &mut Vec::new()) {
        Err(Error::ParserFailure(_)) => (),
        v => panic!("Failed result returned was not the expected one {:?}", v),
    }
}

#[test]
fn reader_read_field_with_read_error() {
    let spec = test_spec();
    let string = "1234567890qwertyuiopasdfghjkl;";
    let mut buf = ByteReader::new(string.as_bytes());
    let mut buffer = Vec::new();
    let mut parser = MockParser::new();
    let record_spec = &spec.record_specs.get("record1").unwrap();
    parser.add_parse_call(string[..4].as_bytes().to_owned(), record_spec.field_specs.get("field1").unwrap().clone(), Ok("hello".as_bytes().to_owned()));
    parser.add_parse_call(string[4..9].as_bytes().to_owned(), record_spec.field_specs.get("field2").unwrap().clone(), Ok("hello2".as_bytes().to_owned()));
    let reader = FieldReader::new(&parser, BinarySupporter);
    assert!(reader.read(&mut buf, &record_spec.field_specs.get("field1").unwrap(), &mut buffer, &mut Vec::new()).is_ok());
    assert!(reader.read(&mut buf, &record_spec.field_specs.get("field2").unwrap(), &mut buffer, &mut Vec::new()).is_ok());
    match reader.read(&mut buf, &record_spec.field_specs.get("field3").unwrap(), &mut buffer, &mut Vec::new()) {
        Err(Error::CouldNotReadEnough(_)) => (),
        v => panic!("Failed result returned was not the expected one {:?}", v),
    }
    text_read_field_with_read_error_scenario();
}
