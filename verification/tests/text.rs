use fixed_width::error::BoxedError;
use fixed_width::io::{ByteReader, ByteWriter, IoError};
use fixed_width::names::NameMap;
use fixed_width::text::padders::{DefaultPadder, Error as PaddingFailure, IdentityPadder, Padder, PaddingError, UnPadder};
use fixed_width::text::recognizers::{
    DataRecordSpecRecognizer, Error as RecognizerError, IdFieldRecognizer, LineBuffer, LineRecordSpecRecognizer,
    NoneRecognizer,
};
use fixed_width::text::spec::{
    Builder, FieldSpec, FieldSpecBuilder, PaddingDirection, RecordSpec, RecordSpecBuilder, Spec, SpecBuilder,
};
use fixed_width::text::writer::Error as WriteError;
use fixed_width::text::{Error, PositionalError, Position, ReaderBuilder, Record, WriterBuilder};

fn test_spec() -> Spec {
    SpecBuilder::new()
        .with_record(
            "record1",
            RecordSpecBuilder::new()
                .with_line_ending("\n")
                .with_field(
                    "field1".to_string(),
                    FieldSpecBuilder::new()
                        .with_length(4)
                        .with_padding("dsasd")
                        .with_padding_direction(PaddingDirection::Left)
                        .make_filler(),
                )
                .with_field("field2", FieldSpecBuilder::new_string().with_length(5).with_default("def"))
                .with_field(
                    "field3".to_string(),
                    FieldSpecBuilder::new()
                        .with_length(36)
                        .with_padding("xcvcxv".to_string())
                        .with_padding_direction(PaddingDirection::Right),
                ),
        )
        .with_record(
            "record2".to_string(),
            RecordSpecBuilder::new()
                .with_line_ending("\n")
                .with_field(
                    "field1".to_string(),
                    FieldSpecBuilder::new()
                        .with_length(3)
                        .with_padding("dsasd".to_string())
                        .with_padding_direction(PaddingDirection::Left),
                )
                .with_field(
                    "field2".to_string(),
                    FieldSpecBuilder::new()
                        .with_length(4)
                        .with_padding("sdf".to_string())
                        .with_padding_direction(PaddingDirection::Right)
                        .with_default("defa"),
                )
                .with_field(
                    "field3",
                    FieldSpecBuilder::new()
                        .with_length(27)
                        .with_padding("xcvcxv".to_string())
                        .with_padding_direction(PaddingDirection::Right),
                )
                .with_field(
                    "field4".to_string(),
                    FieldSpec {
                        length: 8,
                        padding: "sdfsd".as_bytes().to_owned(),
                        padding_direction: PaddingDirection::Left,
                        default: None,
                        filler: false,
                    },
                ),
        )
        .with_record(
            "record3".to_string(),
            RecordSpec { line_ending: "\n".as_bytes().to_owned(), field_specs: NameMap::new() },
        )
        .build()
}

struct MockPadder {
    pad_calls: Vec<(String, usize, String, PaddingDirection, Result<String, ()>)>,
    unpad_calls: Vec<(String, String, PaddingDirection, Result<String, ()>)>,
}

impl MockPadder {
    fn new() -> Self {
        MockPadder { pad_calls: Vec::new(), unpad_calls: Vec::new() }
    }

    fn add_pad_call(&mut self, data: String, length: usize, padding: String, direction: PaddingDirection, r: Result<String, ()>) {
        self.pad_calls.push((data, length, padding, direction, r));
    }

    fn add_unpad_call(&mut self, data: String, padding: String, direction: PaddingDirection, r: Result<String, ()>) {
        self.unpad_calls.push((data, padding, direction, r));
    }
}

impl Padder for MockPadder {
    fn pad(&self, data: String, length: usize, padding: &String, direction: PaddingDirection) -> Result<String, PaddingFailure> {
        for (d, l, p, dir, r) in &self.pad_calls {
            if *d == data && *l == length && p == padding && *dir == direction {
                return r.clone().map_err(|_| PaddingFailure::new(""));
            }
        }
        panic!("Method pad was not expected to be called with {:?}", (data, length, padding, direction))
    }
}

impl UnPadder for MockPadder {
    fn unpad(&self, data: String, padding: &String, direction: PaddingDirection) -> Result<String, PaddingFailure> {
        for (d, p, dir, r) in &self.unpad_calls {
            if *d == data && p == padding && *dir == direction {
                return r.clone().map_err(|_| PaddingFailure::new(""));
            }
        }
        panic!("Method unpad was not expected to be called with {:?}", (data, padding, direction))
    }
}

struct MockRecognizer {
    name: String,
}

impl LineRecordSpecRecognizer for MockRecognizer {
    fn recognize_for_line(&self, _: &mut LineBuffer, _: &NameMap<RecordSpec>) -> Result<String, RecognizerError> {
        Ok(self.name.clone())
    }
}

impl DataRecordSpecRecognizer for MockRecognizer {
    fn recognize_for_data(&self, _: &NameMap<String>, _: &NameMap<RecordSpec>) -> Result<String, RecognizerError> {
        Ok(self.name.clone())
    }
}

fn values(pairs: &[(&str, &str)]) -> NameMap<String> {
    let mut map = NameMap::new();
    for (name, value) in pairs {
        map.insert(name.to_string(), value.to_string());
    }
    map
}

fn line_buffer_of(text: &str) -> LineBuffer {
    LineBuffer::new(ByteReader::new(text), String::new())
}

fn assert_record_error(r: Result<Record<NameMap<String>>, PositionalError>, record: &str, field: Option<&str>) -> Error {
    match r {
        Err(PositionalError { error, position: Some(Position { record: ref r, field: ref f }) })
            if r == record && f.as_deref() == field => error,
        v => panic!("Failed result returned was not the expected one {:?}", v),
    }
}

#[test]
fn spec_build() {
    let spec = test_spec();
    let mut record_specs = NameMap::new();
    let mut field_specs = NameMap::new();
    field_specs.insert("field1".to_string(), FieldSpec {
        length: 4,
        padding: "dsasd".as_bytes().to_owned(),
        padding_direction: PaddingDirection::Left,
        default: None,
        filler: true,
    });
    field_specs.insert("field2".to_string(), FieldSpec {
        length: 5,
        padding: " ".as_bytes().to_owned(),
        padding_direction: PaddingDirection::Right,
        default: Some("def".as_bytes().to_owned()),
        filler: false,
    });
    field_specs.insert("field3".to_string(), FieldSpec {
        length: 36,
        padding: "xcvcxv".as_bytes().to_owned(),
        padding_direction: PaddingDirection::Right,
        default: None,
        filler: false,
    });
    record_specs.insert("record1".to_string(), RecordSpec { line_ending: "\n".as_bytes().to_owned(), field_specs });
    let mut field_specs = NameMap::new();
    field_specs.insert("field1".to_string(), FieldSpec {
        length: 3,
        padding: "dsasd".as_bytes().to_owned(),
        padding_direction: PaddingDirection::Left,
        default: None,
        filler: false,
    });
    field_specs.insert("field2".to_string(), FieldSpec {
        length: 4,
        padding: "sdf".as_bytes().to_owned(),
        padding_direction: PaddingDirection::Right,
        default: Some("defa".as_bytes().to_owned()),
        filler: false,
    });
    field_specs.insert("field3".to_string(), FieldSpec {
        length: 27,
        padding: "xcvcxv".as_bytes().to_owned(),
        padding_direction: PaddingDirection::Right,
        default: None,
        filler: false,
    });
    field_specs.insert("field4".to_string(), FieldSpec {
        length: 8,
        padding: "sdfsd".as_bytes().to_owned(),
        padding_direction: PaddingDirection::Left,
        default: None,
        filler: false,
    });
    record_specs.insert("record2".to_string(), RecordSpec { line_ending: "\n".as_bytes().to_owned(), field_specs });
    record_specs
        .insert("record3".to_string(), RecordSpec { line_ending: "\n".as_bytes().to_owned(), field_specs: NameMap::new() });
    assert_eq!(Spec { record_specs }, spec);
    assert_eq!(
        FieldSpecBuilder::new()
            .with_padding("0".to_string())
            .with_padding_direction(PaddingDirection::Left)
            .with_length(0)
            .build(),
        FieldSpecBuilder::new_number().with_length(0).build()
    );
    assert_eq!(
        FieldSpecBuilder::new()
            .with_padding(" ".as_bytes().to_owned())
            .with_padding_direction(PaddingDirection::Right)
            .with_length(0)
            .build(),
        FieldSpecBuilder::new_string().with_length(0).build()
    );
}

#[test]
fn spec_field_range() {
    let spec = test_spec();
    let record_spec = spec.record_specs.get("record1").unwrap();
    assert_eq!(Some(0..4), record_spec.field_range("field1"));
    assert_eq!(Some(4..9), record_spec.field_range(&"field2".to_string()));
    assert_eq!(Some(9..45), record_spec.field_range(&"field3".to_string()));
    assert_eq!(None, record_spec.field_range(&"field4".to_string()));
}

#[test]
fn spec_len() {
    let spec = test_spec();
    assert_eq!(45, spec.record_specs.get("record1").unwrap().len());
    assert_eq!(42, spec.record_specs.get("record2").unwrap().len());
    assert_eq!(0, spec.record_specs.get("record3").unwrap().len());
}

#[test]
fn text_builders_fill_in_their_kinds() {
    let number = FieldSpecBuilder::new_empty_number().with_length(3).build();
    assert_eq!(Some("0".as_bytes().to_owned()), number.default);
    let string = FieldSpecBuilder::new_empty_string().with_length(3).build();
    assert_eq!(Some(Vec::new()), string.default);
    let filler = FieldSpecBuilder::new_filler(3).build();
    assert_eq!(
        FieldSpec {
            length: 3,
            padding: " ".as_bytes().to_owned(),
            padding_direction: PaddingDirection::Right,
            default: Some("   ".as_bytes().to_owned()),
            filler: true,
        },
        filler
    );
}

fn is_too_long(r: Result<String, PaddingFailure>, len: usize) -> bool {
    match r {
        Err(e) => e.downcast_ref::<PaddingError>() == Some(&PaddingError::PaddingLongerThanOne(len)),
        Ok(_) => false,
    }
}

#[test]
fn padders_default_padder() {
    let padder = DefaultPadder;
    let data = "qwer".to_string();
    assert_eq!(Ok("qwer333333".to_string()), padder.pad(data.clone(), 10, &"3".to_string(), PaddingDirection::Right));
    let data = "qwer".to_string();
    assert_eq!(Ok("333333qwer".to_string()), padder.pad(data.clone(), 10, &"3".to_string(), PaddingDirection::Left));
    assert!(is_too_long(padder.pad(data.clone(), 10, &"33".to_string(), PaddingDirection::Left), 2));
    let data = "qwer333333".to_string();
    assert_eq!(Ok("qwer".to_string()), padder.unpad(data.clone(), &"3".to_string(), PaddingDirection::Right));
    let data = "333333qwer".to_string();
    assert_eq!(Ok("qwer".to_string()), padder.unpad(data.clone(), &"3".to_string(), PaddingDirection::Left));
    assert!(is_too_long(padder.unpad(data.clone(), &"33".to_string(), PaddingDirection::Left), 2));
}

#[test]
fn padders_identity_padder() {
    let padder = IdentityPadder;
    let data = "qwer".to_string();
    assert_eq!(Ok(data.clone()), padder.pad(data.clone(), 10, &"3".to_string(), PaddingDirection::Right));
    assert_eq!(Ok(data.clone()), padder.pad(data.clone(), 10, &"3".to_string(), PaddingDirection::Left));
    assert_eq!(Ok(data.clone()), padder.unpad(data.clone(), &"3".to_string(), PaddingDirection::Right));
    assert_eq!(Ok(data.clone()), padder.unpad(data.clone(), &"3".to_string(), PaddingDirection::Left));
}

#[test]
fn padders_padder_reference() {
    let padder = IdentityPadder;
    let data = "qwer".to_string();
    assert_eq!(Ok(data.clone()), Padder::pad(&&padder, data.clone(), 10, &"3".to_string(), PaddingDirection::Right));
    assert_eq!(Ok(data.clone()), UnPadder::unpad(&&padder, data.clone(), &"3".to_string(), PaddingDirection::Right));
}

#[test]
fn text_padding_defaults_to_spaces_and_keeps_long_values() {
    let padder = DefaultPadder;
    assert_eq!(Ok("ab   ".to_string()), padder.pad("ab".to_string(), 5, &String::new(), PaddingDirection::Right));
    assert_eq!(Ok("abcdef".to_string()), padder.pad("abcdef".to_string(), 3, &"x".to_string(), PaddingDirection::Left));
    assert_eq!(Ok("ab".to_string()), padder.unpad("ab   ".to_string(), &String::new(), PaddingDirection::Right));
    assert_eq!(Ok("".to_string()), padder.unpad("xxx".to_string(), &"x".to_string(), PaddingDirection::Left));
}

#[test]
fn text_padding_round_trips_for_values_without_the_pad_char() {
    let padder = DefaultPadder;
    let padded = padder.pad("7x1".to_string(), 8, &"0".to_string(), PaddingDirection::Left).unwrap();
    assert_eq!("000007x1".to_string(), padded);
    assert_eq!(Ok("7x1".to_string()), padder.unpad(padded, &"0".to_string(), PaddingDirection::Left));
}

#[test]
fn recognizers_none_recognizer() {
    let recognizer = NoneRecognizer;
    assert_eq!(Err(RecognizerError::CouldNotRecognize), recognizer.recognize_for_data(&NameMap::new(), &NameMap::new()));
    assert_eq!(
        Err(RecognizerError::CouldNotRecognize),
        recognizer.recognize_for_line(&mut line_buffer_of(""), &NameMap::new())
    );
}

#[test]
fn recognizers_id_spec_recognizer() {
    let specs = SpecBuilder::new()
        .with_record(
            "record1",
            RecordSpecBuilder::new()
                .with_field(
                    "field1",
                    FieldSpecBuilder::new()
                        .with_default("foo")
                        .with_length(3)
                        .with_padding("dsasd")
                        .with_padding_direction(PaddingDirection::Left),
                )
                .with_field(
                    "field2",
                    FieldSpecBuilder::new()
                        .with_length(5)
                        .with_padding("sdf".to_string())
                        .with_padding_direction(PaddingDirection::Right),
                ),
        )
        .with_record(
            "record2",
            RecordSpecBuilder::new()
                .with_field("$id", FieldSpecBuilder::new_string().with_default("bar").with_length(3))
                .with_field("field2".to_string(), FieldSpecBuilder::new_string().with_length(5)),
        )
        .with_record(
            "record3",
            RecordSpecBuilder::new()
                .with_field("field1", FieldSpecBuilder::new_string().with_default("bar").with_length(3))
                .with_field("field2", FieldSpecBuilder::new_string().with_length(5)),
        )
        .with_record(
            "record4",
            RecordSpecBuilder::new()
                .with_field("$id", FieldSpecBuilder::new_string().with_default("foo").with_length(3))
                .with_field("field2".to_string(), FieldSpecBuilder::new_string().with_length(5)),
        )
        .build()
        .record_specs;
    let recognizer = IdFieldRecognizer::new();
    let recognizer_with_field = IdFieldRecognizer::new_with_field("field1");
    let mut data = NameMap::new();

    data.insert("$id".to_string(), "bar".to_string());
    assert_eq!(Ok("record2".to_string()), recognizer.recognize_for_data(&data, &specs));
    assert_eq!(Err(RecognizerError::CouldNotRecognize), recognizer_with_field.recognize_for_data(&data, &specs));

    data.insert("$id".to_string(), "foo".to_string());
    assert_eq!(Ok("record4".to_string()), recognizer.recognize_for_data(&data, &specs));
    assert_eq!(Err(RecognizerError::CouldNotRecognize), recognizer_with_field.recognize_for_data(&data, &specs));

    data.insert("$id".to_string(), "foobar".to_string());
    assert_eq!(Err(RecognizerError::CouldNotRecognize), recognizer.recognize_for_data(&data, &specs));
    assert_eq!(Err(RecognizerError::CouldNotRecognize), recognizer_with_field.recognize_for_data(&data, &specs));

    data.insert("field1".to_string(), "bar".to_string());
    assert_eq!(Err(RecognizerError::CouldNotRecognize), recognizer.recognize_for_data(&data, &specs));
    assert_eq!(Ok("record3".to_string()), recognizer_with_field.recognize_for_data(&data, &specs));
    data.remove("$id");

    assert_eq!(Err(RecognizerError::CouldNotRecognize), recognizer.recognize_for_data(&data, &specs));
    assert_eq!(Ok("record3".to_string()), recognizer_with_field.recognize_for_data(&data, &specs));

    data.insert("field1".to_string(), "foo".to_string());
    assert_eq!(Err(RecognizerError::CouldNotRecognize), recognizer.recognize_for_data(&data, &specs));
    assert_eq!(Ok("record1".to_string()), recognizer_with_field.recognize_for_data(&data, &specs));

    data.insert("field1".to_string(), "foobar".to_string());
    assert_eq!(Err(RecognizerError::CouldNotRecognize), recognizer.recognize_for_data(&data, &specs));
    assert_eq!(Err(RecognizerError::CouldNotRecognize), recognizer_with_field.recognize_for_data(&data, &specs));

    assert_eq!(
        Err(RecognizerError::CouldNotRecognize),
        recognizer.recognize_for_line(&mut line_buffer_of("dsfdsfsdfd"), &specs)
    );
    assert_eq!(
        Err(RecognizerError::CouldNotRecognize),
        recognizer_with_field.recognize_for_line(&mut line_buffer_of("dsfdsfsdfd"), &specs)
    );
    assert_eq!(Ok("record2".to_string()), recognizer.recognize_for_line(&mut line_buffer_of("barasdasdd"), &specs));
    assert_eq!(
        Ok("record3".to_string()),
        recognizer_with_field.recognize_for_line(&mut line_buffer_of("barasdasdd"), &specs)
    );
    assert_eq!(Ok("record4".to_string()), recognizer.recognize_for_line(&mut line_buffer_of("foodsfsdfd"), &specs));
    assert_eq!(
        Ok("record1".to_string()),
        recognizer_with_field.recognize_for_line(&mut line_buffer_of("foodsfsdfd"), &specs)
    );
}

#[test]
fn recognizers_recognizer_reference() {
    let recognizer = NoneRecognizer;
    assert_eq!(
        Err(RecognizerError::CouldNotRecognize),
        DataRecordSpecRecognizer::recognize_for_data(&&recognizer, &NameMap::new(), &NameMap::new())
    );
    assert_eq!(
        Err(RecognizerError::CouldNotRecognize),
        LineRecordSpecRecognizer::recognize_for_line(&&recognizer, &mut line_buffer_of(""), &NameMap::new())
    );
}

#[test]
fn line_buffer() {
    let mut buffer = line_buffer_of("dsfdsfsdfd");
    buffer.fill_to(5).unwrap();
    buffer.fill_to(5).unwrap();
    assert_eq!(&"dsfds".to_string(), buffer.get_line());
    buffer.fill_to(6).unwrap();
    assert_eq!(&"dsfdsf".to_string(), buffer.get_line());
    let (reader, line) = buffer.into_inner();
    assert_eq!("dsfdsf".to_string(), line);
    assert_eq!("sdfd".as_bytes(), reader.remaining());
}

#[test]
fn line_buffer_refuses_bytes_that_are_not_text() {
    let mut buffer = LineBuffer::new(ByteReader::new(vec![0x61u8, 0xff, 0x62]), String::new());
    assert_eq!(Err(IoError::InvalidData), buffer.fill_to(3));
    assert_eq!(&String::new(), buffer.get_line());
}

#[test]
fn read_record_with_bad_record_name() {
    let spec = test_spec();
    let string = "1234567890qwertyuiopasdfghjkl;zxcvbnm,./-=[];\ndfszbvvitwyotywt4trjkvvbjsbrgh4oq3njm,k.l/[p]";
    let mut buf = ByteReader::new(string);
    let un_padder = MockPadder::new();
    let reader = ReaderBuilder::new().with_un_padder(&un_padder).with_specs(&spec.record_specs).build();
    match reader.read_record::<_, NameMap<String>>(&mut buf, "record5".to_string()) {
        Err(PositionalError { error: Error::RecordSpecNotFound(record_name), .. }) => {
            assert_eq!("record5".to_string(), record_name)
        },
        _ => panic!("should have returned a record spec not found error"),
    }
}

#[test]
fn read_record_with_no_record_name() {
    let spec = test_spec();
    let string = "1234567890qwertyuiopasdfghjkl;zxcvbnm,./-=[];\ndfszbvvitwyotywt4trjkvvbjsbrgh4oq3njm,k.l/[p]";
    let mut buf = ByteReader::new(string);
    let un_padder = MockPadder::new();
    let reader = ReaderBuilder::new().with_un_padder(&un_padder).with_specs(&spec.record_specs).build();
    match reader.read_record::<_, NameMap<String>>(&mut buf, None) {
        Err(PositionalError { error: Error::RecordSpecNameRequired, .. }) => (),
        _ => panic!("should have returned a record spec name required error"),
    }
}

#[test]
fn read_record_with_no_record_name_but_guessable() {
    let spec = test_spec();
    let string = "1234567890qwertyuiopasdfghjkl;zxcvbnm,./-=[];\ndfszbvvitwyotywt4trjkvvbjsbrgh4oq3njm,k.l/[p]";
    let mut buf = ByteReader::new(string);
    let mut un_padder = MockPadder::new();
    un_padder.add_unpad_call(string[4..9].to_string(), " ".to_string(), PaddingDirection::Right, Ok("hello".to_string()));
    un_padder.add_unpad_call(string[9..45].to_string(), "xcvcxv".to_string(), PaddingDirection::Right, Ok("hello2".to_string()));
    let recognizer = MockRecognizer { name: "record1".to_string() };
    let reader = ReaderBuilder::new()
        .with_un_padder(&un_padder)
        .with_specs(&spec.record_specs)
        .with_recognizer(recognizer)
        .build();
    assert_eq!(
        Record { data: values(&[("field2", "hello"), ("field3", "hello2")]), name: "record1".to_string() },
        reader.read_record(&mut buf, None).unwrap()
    );
}

#[test]
fn read_record_with_padding_error() {
    let spec = test_spec();
    let string = "1234567890qwertyuiopasdfghjkl;zxcvbnm,./-=[];\ndfszbvvitwyotywt4trjkvvbjsbrgh4oq3njm,k.l/[p]";
    let mut buf = ByteReader::new(string);
    let mut un_padder = MockPadder::new();
    un_padder.add_unpad_call(string[4..9].to_string(), " ".to_string(), PaddingDirection::Right, Err(()));
    let reader = ReaderBuilder::new().with_un_padder(&un_padder).with_specs(&spec.record_specs).build();
    match assert_record_error(reader.read_record(&mut buf, "record1".to_string()), "record1", Some("field2")) {
        Error::PadderFailure(_) => (),
        e => panic!("Failed result returned was not the expected one {:?}", e),
    }
}

#[test]
fn read_field_with_bad_record_name() {
    let spec = test_spec();
    let string = "1234567890qwertyuiopasdfghjkl;zxcvbnm,./-=[];dfszbvvitwyotywt4trjkvvbjsbrgh4oq3njm,k.l/[p]";
    let mut buf = ByteReader::new(string);
    let un_padder = MockPadder::new();
    let reader = ReaderBuilder::new().with_un_padder(&un_padder).with_specs(&spec.record_specs).build();
    match reader.read_field(&mut buf, "record5".to_string(), "field1".to_string()) {
        Err(Error::RecordSpecNotFound(record_name)) => assert_eq!("record5".to_string(), record_name),
        _ => panic!("should have returned a record spec not found error"),
    }
}

#[test]
fn read_field_with_bad_field_name() {
    let spec = test_spec();
    let string = "1234567890qwertyuiopasdfghjkl;zxcvbnm,./-=[];dfszbvvitwyotywt4trjkvvbjsbrgh4oq3njm,k.l/[p]";
    let mut buf = ByteReader::new(string);
    let un_padder = MockPadder::new();
    let reader = ReaderBuilder::new().with_un_padder(&un_padder).with_specs(&spec.record_specs).build();
    match reader.read_field(&mut buf, "record1".to_string(), "field5".to_string()) {
        Err(Error::FieldSpecNotFound(record_name, field_name)) => {
            assert_eq!("record1".to_string(), record_name);
            assert_eq!("field5".to_string(), field_name);
        },
        _ => panic!("should have returned a field spec not found error"),
    }
}

#[test]
fn read_field_with_padding_error() {
    let spec = test_spec();
    let string = "1234567890qwertyuiopasdfghjkl;zxcvbnm,./-=[];dfszbvvitwyotywt4trjkvvbjsbrgh4oq3njm,k.l/[p]";
    let mut buf = ByteReader::new(string);
    let mut un_padder = MockPadder::new();
    un_padder.add_unpad_call(string[0..4].to_string(), "dsasd".to_string(), PaddingDirection::Left, Err(()));
    let reader = ReaderBuilder::new().with_un_padder(&un_padder).with_specs(&spec.record_specs).build();
    reader.read_field(&mut buf, "record1".to_string(), "field1".to_string()).unwrap_err();
}

#[test]
fn read_record_with_default_padder_and_a_record_that_is_not_text() {
    let spec = test_spec();
    let mut bytes = "1234567890qwertyuiopasdfghjkl;zxcvbnm,./-=[];\n".as_bytes().to_owned();
    bytes[20] = 0xff;
    let mut buf = ByteReader::new(bytes);
    let reader = ReaderBuilder::new().with_un_padder(DefaultPadder).with_specs(&spec.record_specs).build();
    match assert_record_error(reader.read_record(&mut buf, "record1".to_string()), "record1", None) {
        Error::IoError(IoError::InvalidData) => (),
        e => panic!("Failed result returned was not the expected one {:?}", e),
    }
}

#[test]
fn write_record_with_bad_record_name() {
    let spec = test_spec();
    let mut buf = ByteWriter::new();
    let padder = MockPadder::new();
    let writer = WriterBuilder::new().with_padder(&padder).with_specs(spec.record_specs).build();
    match writer.write_record(&mut buf, Some("record5".to_string()), NameMap::<String>::new()) {
        Err(WriteError::RecordSpecNotFound(record_name)) => assert_eq!("record5".to_string(), record_name),
        _ => panic!("should have returned a record spec not found error"),
    }
}

#[test]
fn write_record_with_no_record_name() {
    let spec = test_spec();
    let mut buf = ByteWriter::new();
    let padder = MockPadder::new();
    let writer = WriterBuilder::new().with_padder(&padder).with_specs(spec.record_specs).build();
    match writer.write_record(&mut buf, None, NameMap::<String>::new()) {
        Err(WriteError::RecordSpecNameRequired) => (),
        _ => panic!("should have returned a record spec name required error"),
    }
}

#[test]
fn write_record_with_no_record_name_but_guessable() {
    let spec = test_spec();
    let string = "1234567890qwertyuiopasdfghjkl;zxcvbnm,./-=[];".to_string();
    let mut buf = ByteWriter::new();
    let mut padder = MockPadder::new();
    padder.add_pad_call("hello".to_string(), 4, "dsasd".to_string(), PaddingDirection::Left, Ok(string[0..4].to_string()));
    padder.add_pad_call("def".to_string(), 5, " ".to_string(), PaddingDirection::Right, Ok(string[4..9].to_string()));
    padder.add_pad_call("hello2".to_string(), 36, "xcvcxv".to_string(), PaddingDirection::Right, Ok(string[9..45].to_string()));
    let data = values(&[("field1", "hello"), ("field3", "hello2")]);
    let recognizer = MockRecognizer { name: "record1".to_string() };
    let writer = WriterBuilder::new()
        .with_padder(&padder)
        .with_specs(&spec.record_specs)
        .with_recognizer(&recognizer)
        .build();
    writer.write_record(&mut buf, None, data.clone()).unwrap();
    assert_eq!(string, String::from_utf8(buf.into_inner()).unwrap());
}

#[test]
fn write_record_with_padding_error() {
    let spec = test_spec();
    let mut buf = ByteWriter::new();
    let mut padder = MockPadder::new();
    padder.add_pad_call("hello".to_string(), 4, "dsasd".to_string(), PaddingDirection::Left, Err(()));
    let writer = WriterBuilder::new().with_padder(&padder).with_specs(spec.record_specs).build();
    writer
        .write_record(&mut buf, "record1".to_string(), values(&[("field1", "hello"), ("field3", "hello2")]))
        .unwrap_err();
}

#[test]
fn write_record_with_padded_value_not_correct_length() {
    let spec = test_spec();
    let mut buf = ByteWriter::new();
    let mut padder = MockPadder::new();
    padder.add_pad_call("hello".to_string(), 4, "dsasd".to_string(), PaddingDirection::Left, Ok("hello2".to_string()));
    let writer = WriterBuilder::new().with_padder(&padder).with_specs(spec.record_specs).build();
    writer
        .write_record(&mut buf, "record1".to_string(), values(&[("field1", "hello"), ("field3", "hello2")]))
        .unwrap_err();
}

#[test]
fn write_field_with_bad_record_name() {
    let spec = test_spec();
    let mut buf = ByteWriter::new();
    let padder = MockPadder::new();
    let writer = WriterBuilder::new().with_padder(&padder).with_specs(spec.record_specs).build();
    match writer.write_field(&mut buf, "record5".to_string(), "field1".to_string(), "hello".to_string()) {
        Err(WriteError::RecordSpecNotFound(record_name)) => assert_eq!("record5".to_string(), record_name),
        _ => panic!("should have returned a record spec not found error"),
    }
}

#[test]
fn write_field_with_bad_field_name() {
    let spec = test_spec();
    let mut buf = ByteWriter::new();
    let padder = MockPadder::new();
    let writer = WriterBuilder::new().with_padder(&padder).with_specs(&spec.record_specs).build();
    match writer.write_field(&mut buf, "record1".to_string(), "field5".to_string(), "hello".to_string()) {
        Err(WriteError::FieldSpecNotFound(record_name, field_name)) => {
            assert_eq!("record1".to_string(), record_name);
            assert_eq!("field5".to_string(), field_name);
        },
        _ => panic!("should have returned a field spec not found error"),
    }
}

#[test]
fn write_field_with_padding_error() {
    let spec = test_spec();
    let mut buf = ByteWriter::new();
    let mut padder = MockPadder::new();
    padder.add_pad_call("hello".to_string(), 4, "dsasd".to_string(), PaddingDirection::Left, Err(()));
    let writer = WriterBuilder::new().with_padder(&padder).with_specs(spec.record_specs).build();
    writer.write_field(&mut buf, "record1".to_string(), "field1".to_string(), "hello".to_string()).unwrap_err();
}

fn simple_spec() -> Spec {
    SpecBuilder::new()
        .with_record(
            "line",
            RecordSpecBuilder::new()
                .with_field("amount", FieldSpecBuilder::new_empty_number().with_length(6))
                .with_field("gap", FieldSpecBuilder::new_filler(2))
                .with_field("name", FieldSpecBuilder::new_string().with_length(8)),
        )
        .build()
}

#[test]
fn write_record_without_value_or_default_names_the_field() {
    let spec = simple_spec();
    let mut buf = ByteWriter::new();
    let writer = WriterBuilder::new().with_padder(DefaultPadder).with_specs(spec.record_specs).build();
    match writer.write_record(&mut buf, "line".to_string(), values(&[("amount", "12")])) {
        Err(WriteError::FieldValueRequired(record, field)) => {
            assert_eq!("line".to_string(), record);
            assert_eq!("name".to_string(), field);
        },
        v => panic!("Failed result returned was not the expected one {:?}", v),
    }
}

#[test]
fn text_record_written_then_read_gives_the_values_back() {
    let spec = simple_spec();
    let mut buf = ByteWriter::new();
    let writer = WriterBuilder::new().with_padder(DefaultPadder).with_specs(&spec.record_specs).build();
    writer.write_record(&mut buf, "line".to_string(), values(&[("amount", "42"), ("name", "bob")])).unwrap();
    writer.write_record(&mut buf, "line".to_string(), values(&[("name", "alice")])).unwrap();
    let written = buf.into_inner();
    assert_eq!("000042  bob     000000  alice   ".as_bytes().to_owned(), written);
    let mut source = ByteReader::new(written);
    let reader = ReaderBuilder::new().with_un_padder(DefaultPadder).with_specs(&spec.record_specs).build();
    let first: Record<NameMap<String>> = reader.read_record(&mut source, "line".to_string()).unwrap();
    assert_eq!(values(&[("amount", "42"), ("name", "bob")]), first.data);
    let second: Record<Vec<String>> = reader.read_record(&mut source, "line".to_string()).unwrap();
    assert_eq!(vec!["".to_string(), "alice".to_string()], second.data);
}

#[test]
fn text_error_kinds_box_their_causes() {
    assert_eq!(
        RecognizerError::Other { repr: BoxedError::Io(IoError::InvalidData) },
        RecognizerError::from(IoError::InvalidData)
    );
}
