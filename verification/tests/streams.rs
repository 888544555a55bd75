use fixed_width::data_type::BinarySupporter;
use fixed_width::error::{BoxedError, Error};
use fixed_width::formatter::IdentityFormatter;
use fixed_width::io::{ByteReader, ByteWriter};
use fixed_width::names::NameMap;
use fixed_width::parser::IdentityParser;
use fixed_width::reader::spec::ResolverSource as ReadResolverSource;
use fixed_width::reader::ReaderBuilder;
use fixed_width::record::Data;
use fixed_width::spec::resolver::IdFieldResolver;
use fixed_width::spec::{Builder, PaddingDirection, Spec, SpecBuilder};
use fixed_width::writer::spec::ResolverSource as WriteResolverSource;
use fixed_width::writer::{FieldWriter, RecordWriter, WriterBuilder};
use std::ops::Range;

fn id_spec() -> Spec {
    SpecBuilder::new()
        .with_record("r1")
        .with_line_ending("\n")
        .with_field("$id")
        .with_length(2)
        .with_padding(" ")
        .with_padding_direction(PaddingDirection::Right)
        .with_default("A1")
        .end()
        .with_field("x")
        .with_length(3)
        .with_padding(" ")
        .with_padding_direction(PaddingDirection::Right)
        .end()
        .end()
        .with_record("r2")
        .with_line_ending("\n")
        .with_field("$id")
        .with_length(2)
        .with_padding(" ")
        .with_padding_direction(PaddingDirection::Right)
        .with_default("B2")
        .end()
        .end()
        .build()
        .unwrap()
}

fn ranges(entries: &[(&str, Range<usize>)]) -> NameMap<Range<usize>> {
    let mut map = NameMap::new();
    for (name, range) in entries {
        map.insert(name.to_string(), range.clone());
    }
    map
}

#[test]
fn reader_reads_records_that_the_resolver_names() {
    let mut reader = ReaderBuilder::<IdentityParser, (), BinarySupporter, Option<Vec<u8>>>::new(BinarySupporter)
        .with_source(ByteReader::new("A1abc\nB2\n"))
        .with_field_parser(IdentityParser)
        .with_spec_source(ReadResolverSource::new(IdFieldResolver::new()))
        .with_record_specs(id_spec().record_specs)
        .build()
        .unwrap();
    let first = reader.read_record::<NameMap<Range<usize>>>().unwrap();
    assert_eq!(first.name, "r1");
    assert_eq!(first.data, Data { data: b"A1abc".to_vec(), ranges: ranges(&[("$id", 0..2), ("x", 2..5)]) });
    let second = reader.read_record::<NameMap<Range<usize>>>().unwrap();
    assert_eq!(second.name, "r2");
    assert_eq!(second.data.data, b"B2".to_vec());
    assert_eq!(reader.get_source().remaining().len(), 0);
    match reader.read_record::<NameMap<Range<usize>>>() {
        Err(e) => assert!(matches!(e.error, Error::SpecStreamReturnedNone)),
        Ok(_) => panic!("nothing was left to read"),
    }
}

#[test]
fn reader_read_named_record_outcomes() {
    let mut reader = ReaderBuilder::<IdentityParser, (), BinarySupporter, Option<Vec<u8>>>::new(BinarySupporter)
        .with_source(ByteReader::new("A1abc\n"))
        .with_field_parser(IdentityParser)
        .with_spec_source(ReadResolverSource::new(IdFieldResolver::new()))
        .with_record_specs(id_spec().record_specs)
        .build()
        .unwrap();
    match reader.read_named_record::<NameMap<Range<usize>>>(Err(BoxedError::Message("no".to_string())), Vec::new()) {
        Err(e) => {
            assert!(matches!(e.error, Error::SpecStreamError(BoxedError::Message(ref m)) if m == "no"));
            assert!(e.position.is_none());
        },
        Ok(_) => panic!("the spec source failed"),
    }
    match reader.read_named_record::<NameMap<Range<usize>>>(Ok(None), Vec::new()) {
        Err(e) => assert!(matches!(e.error, Error::SpecStreamReturnedNone)),
        Ok(_) => panic!("the spec source named nothing"),
    }
    match reader.read_named_record::<NameMap<Range<usize>>>(Ok(Some("zz".to_string())), Vec::new()) {
        Err(e) => assert!(matches!(e.error, Error::RecordSpecNotFound(ref n) if n == "zz")),
        Ok(_) => panic!("no record spec is named zz"),
    }
    assert_eq!(reader.get_source().position(), 0);
    let record = reader
        .read_named_record::<NameMap<Range<usize>>>(Ok(Some("r1".to_string())), b"pre".to_vec())
        .unwrap();
    assert_eq!(record.data.data, b"preA1abc".to_vec());
    assert_eq!(record.data.ranges, ranges(&[("$id", 3..5), ("x", 5..8)]));
}

#[test]
fn writer_writes_records_that_the_resolver_names() {
    let record_writer = RecordWriter::new(FieldWriter::new(IdentityFormatter, BinarySupporter));
    let mut writer = WriterBuilder::<IdentityFormatter, (), BinarySupporter>::new(record_writer)
        .with_source(ByteWriter::new())
        .with_spec_source(WriteResolverSource::new(IdFieldResolver::new()))
        .with_record_specs(id_spec().record_specs)
        .build();
    let data = Data { data: b"A1xyz".to_vec(), ranges: ranges(&[("$id", 0..2), ("x", 2..5)]) };
    assert_eq!(writer.write_record(&data).unwrap(), 6);
    let other = Data { data: b"B2".to_vec(), ranges: ranges(&[("$id", 0..2)]) };
    assert_eq!(writer.write_record(&other).unwrap(), 3);
    assert_eq!(writer.get_destination().get_ref(), &b"A1xyz\nB2\n".to_vec());
    let unknown = Data { data: b"C3".to_vec(), ranges: ranges(&[("$id", 0..2)]) };
    match writer.write_record(&unknown) {
        Err(e) => assert!(matches!(e.error, Error::RecordSpecNameRequired)),
        Ok(_) => panic!("no record spec has the id C3"),
    }
}

#[test]
fn writer_write_named_record_outcomes() {
    let record_writer = RecordWriter::new(FieldWriter::new(IdentityFormatter, BinarySupporter));
    let mut writer = WriterBuilder::<IdentityFormatter, (), BinarySupporter>::new(record_writer)
        .with_source(ByteWriter::new())
        .with_spec_source(WriteResolverSource::new(IdFieldResolver::new()))
        .with_record_specs(id_spec().record_specs)
        .build();
    let data = Data { data: b"xyz".to_vec(), ranges: ranges(&[("x", 0..3)]) };
    match writer.write_named_record(Ok(Some("zz".to_string())), &data) {
        Err(e) => assert!(matches!(e.error, Error::RecordSpecNotFound(ref n) if n == "zz")),
        Ok(_) => panic!("no record spec is named zz"),
    }
    match writer.write_named_record(Err(BoxedError::Message("no".to_string())), &data) {
        Err(e) => assert!(matches!(e.error, Error::SpecStreamError(_))),
        Ok(_) => panic!("the spec source failed"),
    }
    assert_eq!(writer.write_named_record(Ok(Some("r1".to_string())), &data).unwrap(), 6);
    assert_eq!(writer.get_destination().get_ref(), &b"A1xyz\n".to_vec());
    let empty = Data { data: Vec::new(), ranges: ranges(&[]) };
    match writer.write_named_record(Ok(Some("r1".to_string())), &empty) {
        Err(e) => {
            assert!(matches!(e.error, Error::FieldValueRequired));
            let position = e.position.unwrap();
            assert_eq!(position.record, "r1");
            assert_eq!(position.field, Some("x".to_string()));
        },
        Ok(_) => panic!("the field x has no value and no default"),
    }
}

fn build_message<T>(r: Result<T, Error>) -> &'static str {
    match r {
        Err(Error::BuildError(m)) => m,
        _ => panic!("building should have failed"),
    }
}

#[test]
fn reader_builder_names_the_first_missing_part() {
    let empty = || ReaderBuilder::<IdentityParser, ReadResolverSource<IdFieldResolver<&'static str>>, BinarySupporter, Option<Vec<u8>>>::new(BinarySupporter);
    assert_eq!(build_message(empty().build()), "source needs to be defined in order to build");
    assert_eq!(
        build_message(empty().with_field_parser(IdentityParser).with_record_specs(id_spec().record_specs).build()),
        "source needs to be defined in order to build"
    );
    assert_eq!(
        build_message(empty().with_source(ByteReader::new("")).build()),
        "field_parser needs to be defined in order to build"
    );
    assert_eq!(
        build_message(empty().with_source(ByteReader::new("")).with_field_parser(IdentityParser).build()),
        "spec_source needs to be defined in order to build"
    );
    assert_eq!(
        build_message(
            empty()
                .with_source(ByteReader::new(""))
                .with_field_parser(IdentityParser)
                .with_spec_source(ReadResolverSource::new(IdFieldResolver::new()))
                .build()
        ),
        "record_specs needs to be defined in order to build"
    );
}

#[test]
fn reader_builder_moves_the_parts_into_the_reader() {
    let reader = ReaderBuilder::<IdentityParser, (), BinarySupporter, Option<Vec<u8>>>::new(BinarySupporter)
        .with_source(ByteReader::new("A1abc\n"))
        .with_source(ByteReader::new("B2\n"))
        .with_field_parser(IdentityParser)
        .with_spec_source(ReadResolverSource::new(IdFieldResolver::new()))
        .with_record_specs(id_spec().record_specs)
        .build()
        .unwrap();
    assert_eq!(reader.get_source().remaining(), &b"B2\n"[..]);
    let mut reader = reader;
    let record = reader.read_record::<NameMap<Range<usize>>>().unwrap();
    assert_eq!(record.name, "r2");
    assert_eq!(record.data.data, b"B2".to_vec());
}

#[test]
fn writer_builder_moves_the_parts_into_the_writer() {
    let record_writer = RecordWriter::new(FieldWriter::new(IdentityFormatter, BinarySupporter));
    let mut writer = WriterBuilder::<IdentityFormatter, (), BinarySupporter>::new(record_writer)
        .with_source(ByteWriter::new())
        .with_spec_source(WriteResolverSource::new(IdFieldResolver::new()))
        .with_record_specs(id_spec().record_specs)
        .with_buffer(b"leftover".to_vec())
        .build();
    assert_eq!(writer.get_destination().get_ref(), &Vec::<u8>::new());
    let data = Data { data: b"B2".to_vec(), ranges: ranges(&[("$id", 0..2)]) };
    assert_eq!(writer.write_record(&data).unwrap(), 3);
    assert_eq!(writer.get_destination().get_ref(), &b"B2\n".to_vec());
}
