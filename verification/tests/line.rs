use fixed_width::io::{ByteReader, ByteWriter, IoError};
use fixed_width::line::{Error, HandlerBuilder, LineSpec, Position};

fn text(bytes: &[u8]) -> String {
    String::from_utf8(bytes.to_vec()).unwrap()
}

#[test]
fn read() {
    let spec = LineSpec { length: 10, separator: "h\n".to_string() };
    let mut handler = HandlerBuilder::new()
        .with_line_spec(&spec)
        .with_inner(ByteReader::new("1234567890h\n0987654321h\n1234567890"))
        .build();
    let mut buf = String::new();
    handler.read_to_string(&mut buf).unwrap();
    assert_eq!("123456789009876543211234567890".to_string(), buf);

    handler.seek(9);
    let mut buf = String::new();
    handler.read_to_string(&mut buf).unwrap();
    assert_eq!("009876543211234567890".to_string(), buf);

    handler.seek(10);
    let mut buf = String::new();
    handler.read_to_string(&mut buf).unwrap();
    assert_eq!("09876543211234567890".to_string(), buf);

    handler.seek(11);
    let mut buf = String::new();
    handler.read_to_string(&mut buf).unwrap();
    assert_eq!("09876543211234567890".to_string(), buf);

    handler.seek(12);
    let mut buf = String::new();
    handler.read_to_string(&mut buf).unwrap();
    assert_eq!("09876543211234567890".to_string(), buf);

    handler.seek(0);
    let mut buf = Vec::new();
    handler.read(11, &mut buf).unwrap();
    assert_eq!("12345678900".as_bytes(), &buf[..]);

    handler.seek(0);
    let mut buf = Vec::new();
    handler.read(10, &mut buf).unwrap();
    assert_eq!("1234567890".as_bytes(), &buf[..]);
    let mut buf = Vec::new();
    handler.read(10, &mut buf).unwrap();
    assert_eq!("0987654321".as_bytes(), &buf[..]);

    let mut handler = HandlerBuilder::new()
        .with_line_spec(&spec)
        .with_inner(ByteReader::new("1234567890h\n0987654321h\n1234567890"))
        .build()
        .into_line_handler();

    let mut buf = Vec::new();
    match handler.read_exact(11, &mut buf) {
        Err(_) => (),
        v => panic!("overflow end of line not returned {:?}", v),
    }

    let mut handler = HandlerBuilder::new()
        .with_line_spec(&spec)
        .with_inner(ByteReader::new("1234567890h20987654321h\n1234567890"))
        .build();

    handler.seek(0);
    let mut buf = String::new();
    match handler.read_to_string(&mut buf) {
        Err(_) => (),
        _ => panic!("bad line ending not returned"),
    }
}

#[test]
fn write() {
    let spec = LineSpec { length: 10, separator: "h\n".to_string() };
    let mut handler = HandlerBuilder::new().with_line_spec(&spec).with_inner(ByteWriter::new()).build();
    handler.write_all("123456789009876543211234567890".as_bytes()).unwrap();
    assert_eq!("1234567890h\n0987654321h\n1234567890h\n".to_string(), text(handler.get_ref().get_ref()));

    handler.seek(9);
    handler.write_all("009876543211234567890".as_bytes()).unwrap();
    assert_eq!("1234567890h\n0987654321h\n1234567890h\n".to_string(), text(handler.get_ref().get_ref()));

    handler.seek(10);
    handler.write_all("09876543211234567890".as_bytes()).unwrap();
    assert_eq!("1234567890h\n0987654321h\n1234567890h\n".to_string(), text(handler.get_ref().get_ref()));

    handler.seek(11);
    handler.write_all("09876543211234567890".as_bytes()).unwrap();
    assert_eq!("1234567890h\n0987654321h\n1234567890h\n".to_string(), text(handler.get_ref().get_ref()));

    handler.seek(12);
    handler.write_all("09876543211234567890".as_bytes()).unwrap();
    assert_eq!("1234567890h\n0987654321h\n1234567890h\n".to_string(), text(handler.get_ref().get_ref()));

    handler.seek(0);
    handler.write_all("1234567890".as_bytes()).unwrap();
    assert_eq!("1234567890h\n0987654321h\n1234567890h\n".to_string(), text(handler.get_ref().get_ref()));
    handler.write_all("0987654321".as_bytes()).unwrap();
    assert_eq!("1234567890h\n0987654321h\n1234567890h\n".to_string(), text(handler.get_ref().get_ref()));
    handler.write_all("0987654321".as_bytes()).unwrap();
    assert_eq!("1234567890h\n0987654321h\n0987654321h\n".to_string(), text(handler.get_ref().get_ref()));

    let mut handler = HandlerBuilder::new()
        .with_line_spec(&spec)
        .with_inner(ByteWriter::new())
        .build()
        .into_line_handler();

    match handler.write_all("12345678900".as_bytes()) {
        Err(_) => (),
        _ => panic!("overflow end of line not returned"),
    }

    assert_eq!("1234567890h\n".to_string(), text(handler.get_ref().get_ref().get_ref()));
    handler.realign();
    handler.write_all("0987654321".as_bytes()).unwrap();
    assert_eq!("1234567890h\n0987654321h\n".to_string(), text(handler.get_ref().get_ref().get_ref()));

    match handler.write_all("0".as_bytes()) {
        Err(_) => (),
        _ => panic!("overflow end of line not returned"),
    }
}

#[test]
fn positions_count_lines_and_columns() {
    let position = Position::new(23, 12);
    assert_eq!(1, position.get_line());
    assert_eq!(11, position.get_column());
    assert_eq!(23, position.get_position());
    assert!(!position.is_at_end_of_line());
    let next = position.add(1);
    assert_eq!(2, next.get_line());
    assert_eq!(0, next.get_column());
    assert_eq!(Position::new(5, 0), Position::from((5, 0)));
    assert_eq!(0, Position::new(5, 0).get_line());
    let pair: (usize, usize) = Position::new(7, 3).into();
    assert_eq!((7, 3), pair);
}

#[test]
fn separators_of_several_bytes_are_checked_part_by_part() {
    let spec = LineSpec { length: 2, separator: "\r\n".to_string() };
    let mut handler = HandlerBuilder::new()
        .with_line_spec(&spec)
        .with_inner(ByteReader::new("ab\r\ncd\rxef"))
        .build();
    let mut buf = Vec::new();
    match handler.read(6, &mut buf) {
        Err(Error::StringDoesntMatchLineSeparator(due, got)) => {
            assert_eq!("\r\n".as_bytes().to_owned(), due);
            assert_eq!("\rx".as_bytes().to_owned(), got);
        },
        v => panic!("Failed result returned was not the expected one {:?}", v),
    }
    assert_eq!("abcd".as_bytes(), &buf[..]);
}

#[test]
fn writing_stops_where_the_room_runs_out() {
    let spec = LineSpec { length: 3, separator: "|".to_string() };
    let mut handler = HandlerBuilder::new()
        .with_line_spec(&spec)
        .with_inner(ByteWriter::with_fixed_size(vec![0u8; 6]))
        .build();
    assert_eq!(Ok(5), handler.write("abcdefg".as_bytes()));
    assert_eq!("abc|de".as_bytes(), &handler.get_ref().get_ref()[..]);
    assert_eq!(Err(Error::Io(IoError::WriteZero)), handler.write_all("x".as_bytes()));
}

#[test]
fn line_get_mut_reaches_the_inner_source() {
    let spec = LineSpec { length: 4, separator: "\n".to_string() };
    let mut handler = HandlerBuilder::new()
        .with_line_spec(&spec)
        .with_inner(ByteReader::new("abcd\nefgh"))
        .build();
    assert_eq!(handler.get_mut().remaining().len(), 9);
    assert_eq!(handler.get_position().get_position(), 0);
    let mut line_handler = handler.into_line_handler();
    assert_eq!(line_handler.get_mut().get_ref().position(), 0);
}

#[test]
fn line_read_gives_back_write() {
    let spec = LineSpec { length: 4, separator: "\r\n".to_string() };
    let data = b"abcdefghij".to_vec();
    let mut writer = HandlerBuilder::new().with_line_spec(&spec).with_inner(ByteWriter::new()).build();
    writer.write_all(&data).unwrap();
    let written = writer.into_inner().into_inner();
    assert_eq!(text(&written), "abcd\r\nefgh\r\nij");
    let mut reader = HandlerBuilder::new().with_line_spec(&spec).with_inner(ByteReader::new(written.clone())).build();
    let mut buf = Vec::new();
    assert_eq!(reader.read(data.len(), &mut buf).unwrap(), data.len());
    assert_eq!(buf, data);
    assert_eq!(reader.get_ref().position(), written.len());
}

#[test]
fn handler_starts_where_it_is_told() {
    let spec = LineSpec { length: 10, separator: "h\n".to_string() };
    let handler = HandlerBuilder::new().with_line_spec(&spec).with_inner(ByteReader::new("")).build();
    assert_eq!(handler.get_position().get_position(), 0);
    assert_eq!(handler.get_position().get_line(), 0);
    assert_eq!(handler.get_position().get_column(), 0);
    let handler = HandlerBuilder::new()
        .with_line_spec(&spec)
        .with_inner(ByteReader::new(""))
        .with_position(Position::new(25, 7))
        .build();
    assert_eq!(handler.get_position().get_position(), 25);
    assert_eq!(handler.get_position().get_line(), 3);
    assert_eq!(handler.get_position().get_column(), 4);
}

#[test]
fn seek_past_the_end() {
    let spec = LineSpec { length: 10, separator: "h\n".to_string() };
    let mut reader = HandlerBuilder::new().with_line_spec(&spec).with_inner(ByteReader::new("123")).build();
    assert_eq!(reader.seek(10), 10);
    assert_eq!(reader.get_position().get_position(), 10);
    let mut buf = String::new();
    assert_eq!(reader.read_to_string(&mut buf).unwrap(), 0);
    assert_eq!(buf, "");

    let mut writer = HandlerBuilder::new().with_line_spec(&spec).with_inner(ByteWriter::new()).build();
    assert_eq!(writer.seek(3), 3);
    writer.write_all(b"ab").unwrap();
    assert_eq!(writer.get_ref().get_ref(), &vec![0u8, 0, 0, b'a', b'b']);

    let mut fixed = ByteWriter::with_fixed_size(vec![1u8, 2]);
    fixed.set_position(5);
    assert_eq!(fixed.write(b"xy"), 0);
    assert_eq!(fixed.get_ref(), &vec![1u8, 2]);
    assert!(fixed.write_all(b"xy").is_err());

    let mut bytes = ByteReader::new("abc");
    bytes.set_position(7);
    assert_eq!(bytes.position(), 7);
    assert_eq!(bytes.remaining().len(), 0);
}
