use fixed_width::data_type::BinarySupporter;
use fixed_width::formatter::DefaultFormatter;
use fixed_width::io::{ByteReader, ByteWriter};
use fixed_width::names::NameMap;
use fixed_width::parser::DefaultParser;
use fixed_width::reader::{FieldReader, RecordReader};
use fixed_width::record::Data;
use fixed_width::spec::{Builder, PaddingDirection, RecordSpecBuilder};
use fixed_width::writer::{FieldWriter, RecordWriter};
use std::ops::Range;

fn ranges(entries: &[(&str, Range<usize>)]) -> NameMap<Range<usize>> {
    let mut map = NameMap::new();
    for (name, range) in entries {
        map.insert(name.to_string(), range.clone());
    }
    map
}


#[test]
fn round_trip_read_gives_back_write() {
    let spec = RecordSpecBuilder::new()
        .with_line_ending("\n")
        .add_field(
            "field1",
            fixed_width::spec::FieldSpecBuilder::new()
                .with_length(5)
                .with_padding("-")
                .with_padding_direction(PaddingDirection::Left),
        )
        .add_field(
            "field2",
            fixed_width::spec::FieldSpecBuilder::new()
                .with_length(4)
                .with_padding(" ")
                .with_padding_direction(PaddingDirection::Right),
        )
        .build()
        .unwrap();
    let data = Data { data: b"abxyz".to_vec(), ranges: ranges(&[("field1", 0..2), ("field2", 2..5)]) };
    let record_writer = RecordWriter::new(FieldWriter::new(DefaultFormatter, BinarySupporter));
    let mut destination = ByteWriter::new();
    assert_eq!(record_writer.write(&mut destination, &spec, &data, &mut Vec::new()).unwrap(), 10);
    let written = destination.into_inner();
    assert_eq!(written, b"---abxyz \n".to_vec());
    let mut source = ByteReader::new(written);
    let record_reader = RecordReader::new(FieldReader::new(DefaultParser, BinarySupporter));
    let read = record_reader.read::<NameMap<Range<usize>>>(&mut source, &spec, Vec::new(), &mut Vec::new()).unwrap();
    assert_eq!(read, data);
}
