use fixed_width::in_memory::{Error, File, InvalidRangeError};
use std::iter::repeat;

fn all_lines(file: &File) -> Vec<String> {
    (0..file.len()).map(|i| file.get(i, 0..file.width()).unwrap()).collect()
}

#[test]
fn in_memory_file() {
    let width = 10;
    let mut file = File::new(width);
    let line1 = repeat("a").take(width).collect::<String>();
    let line2 = repeat(" ").take(width).collect::<String>();
    let line3 = repeat("c").take(width).collect::<String>();
    let index1 = file.add_line().unwrap();
    let _ = file.set(index1, 0, &line1);
    let index2 = file.add_line().unwrap();
    let _ = file.set(index2, 0, &line2);
    let index3 = file.add_line().unwrap();
    let _ = file.set(index3, 0, &line3);
    assert_eq!(line1, file.get(index1, 0..width).unwrap());
    assert_eq!(line2, file.get(index2, 0..width).unwrap());
    assert_eq!(line3, file.get(index3, 0..width).unwrap());
    assert_eq!(Error::InvalidIndex(3), file.get(3, 0..3).unwrap_err());
    assert_eq!(vec![line1.clone(), line2.clone(), line3.clone()], all_lines(&file));
    assert_eq!(vec![line1.clone(), line2.clone(), line3.clone()], all_lines(&file.clone()));
    assert_eq!(3, file.len());
    assert_eq!("aaaaaaaaaa\r\n          \r\ncccccccccc".to_string(), file.to_string());
    assert_eq!(line1, file.get(index1, 0..line1.len()).unwrap());
    assert_eq!("aaaa".to_string(), file.get(index1, 1..5).unwrap());
    assert_eq!(line2, file.get(index2, 0..line2.len()).unwrap());
    file.set(index1, 1, &"bbbb".to_string()).unwrap();
    assert_eq!("abbbbaaaaa".to_string(), file.get(index1, 0..width).unwrap());
    file.clear(index1, 6..8).unwrap();
    assert_eq!("abbbba  aa".to_string(), file.get(index1, 0..width).unwrap());
    file.set(index2, 3, &"a".to_string()).unwrap();
    assert_eq!("   a      ".to_string(), file.get(index2, 0..width).unwrap());
    file.set(index1, 7, &"b ".to_string()).unwrap();
    assert_eq!("abbbba b a".to_string(), file.get(index1, 0..width).unwrap());
    file.set(index2, 0, &"b".to_string()).unwrap();
    assert_eq!("b  a      ".to_string(), file.get(index2, 0..width).unwrap());
    file.set(index2, 9, &"b".to_string()).unwrap();
    assert_eq!("b  a     b".to_string(), file.get(index2, 0..width).unwrap());
    assert_eq!(2, file.remove_line().unwrap());
    assert_eq!("abbbba b a".to_string(), file.get(index1, 0..width).unwrap());
    assert_eq!(Error::InvalidIndex(index3), file.get(index3, 0..width).unwrap_err());
    assert_eq!("abbbba b a\r\nb  a     b".to_string(), file.to_string());
}

#[test]
fn in_memory_error() {
    let error = Error::InvalidRange(InvalidRangeError::EndOffEndOfLine);
    assert_eq!(true, error.is_invalid_range());
    assert_eq!(false, error.is_invalid_index());
    let error = Error::InvalidIndex(3);
    assert_eq!(false, error.is_invalid_range());
    assert_eq!(true, error.is_invalid_index());
    assert_eq!(Error::InvalidRange(InvalidRangeError::EndOffEndOfLine), Error::from(InvalidRangeError::EndOffEndOfLine));
}

#[test]
fn ranges_off_the_line_are_refused() {
    let mut file = File::new_with_line_separator(4, "\n".to_string());
    let index = file.add_line().unwrap();
    assert_eq!(Err(Error::InvalidRange(InvalidRangeError::EndOffEndOfLine)), file.get(index, 2..5));
    assert_eq!(Err(Error::InvalidRange(InvalidRangeError::StartAfterEnd)), file.get(index, 3..2));
    assert_eq!(
        Err(Error::InvalidRange(InvalidRangeError::EndOffEndOfLine)),
        file.set(index, 2, &"abc".to_string())
    );
    file.set(index, 1, &"\u{e9}".to_string()).unwrap();
    assert_eq!(" \u{e9} ".to_string(), file.get(index, 0..4).unwrap());
    assert_eq!(Err(Error::InvalidRange(InvalidRangeError::SplitsCharacter)), file.get(index, 0..2));
    assert_eq!(Err(Error::InvalidRange(InvalidRangeError::SplitsCharacter)), file.set(index, 2, &"x".to_string()));
}

#[test]
fn in_memory_get_gives_back_set() {
    let mut file = File::new(10);
    file.add_line().unwrap();
    file.add_line().unwrap();
    file.set(0, 2, &"héllo".to_string()).unwrap();
    assert_eq!(file.get(0, 2..8).unwrap(), "héllo");
    assert_eq!(file.get(0, 0..2).unwrap(), "  ");
    assert_eq!(file.get(0, 8..10).unwrap(), "  ");
    assert_eq!(file.get(1, 0..10).unwrap(), "          ");
    file.clear(0, 3..8).unwrap();
    assert_eq!(file.get(0, 3..8).unwrap(), "     ");
    assert_eq!(file.get(0, 2..3).unwrap(), "h");
}
