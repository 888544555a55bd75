use fixed_width::data_type::{BinarySupporter, StringSupporter};
use fixed_width::padder::{DefaultPadder, Error, IdentityPadder, Padder, PaddingError, UnPadder};
use fixed_width::spec::PaddingDirection;

#[test]
fn padder_default_padder() {
    let padder = DefaultPadder;
    let data = "qwer".as_bytes();
    let mut destination = Vec::new();
    let data_type = BinarySupporter;
    assert!(padder.pad(data, 10, "33".as_bytes(), PaddingDirection::Right, &mut destination, &data_type).is_ok());
    assert_eq!("qwer333333".as_bytes().to_owned(), destination);
    destination.clear();
    let data = "qwer".as_bytes();
    assert!(padder.pad(data, 10, "33".as_bytes(), PaddingDirection::Left, &mut destination, &data_type).is_ok());
    assert_eq!("333333qwer".as_bytes().to_owned(), destination);
    destination.clear();
    let data = "qwer333333".as_bytes();
    assert!(padder.unpad(data, "33".as_bytes(), PaddingDirection::Right, &mut destination, &data_type).is_ok());
    assert_eq!("qwer".as_bytes().to_owned(), destination);
    destination.clear();
    let data = "333333qwer".as_bytes();
    assert!(padder.unpad(data, "33".as_bytes(), PaddingDirection::Left, &mut destination, &data_type).is_ok());
    assert_eq!("qwer".as_bytes().to_owned(), destination);
    destination.clear();
    let data = "qwer333333".as_bytes();
    assert!(padder.unpad(data, "33".as_bytes(), PaddingDirection::Left, &mut destination, &data_type).is_ok());
    assert_eq!(data.to_owned(), destination);
    destination.clear();
    let data = "333333qwer".as_bytes();
    assert!(padder.unpad(data, "33".as_bytes(), PaddingDirection::Right, &mut destination, &data_type).is_ok());
    assert_eq!(data.to_owned(), destination);
}

#[test]
fn padder_identity_padder() {
    let padder = IdentityPadder;
    let data = "qwer".as_bytes();
    let mut destination = Vec::new();
    let data_type = BinarySupporter;
    assert!(padder.pad(data, 10, "3".as_bytes(), PaddingDirection::Right, &mut destination, &data_type).is_ok());
    assert_eq!(data.to_owned(), destination);
    destination.clear();
    assert!(padder.pad(data, 10, "3".as_bytes(), PaddingDirection::Left, &mut destination, &data_type).is_ok());
    assert_eq!(data.to_owned(), destination);
    let data_type = StringSupporter;
    destination.clear();
    assert!(padder.unpad(data, "3".as_bytes(), PaddingDirection::Right, &mut destination, &data_type).is_ok());
    assert_eq!(data.to_owned(), destination);
    destination.clear();
    assert!(padder.unpad(data, "3".as_bytes(), PaddingDirection::Left, &mut destination, &data_type).is_ok());
    assert_eq!(data.to_owned(), destination);
}

#[test]
fn padder_padder_reference() {
    let padder = IdentityPadder;
    let data = "qwer".as_bytes();
    let mut destination = Vec::new();
    let data_type = BinarySupporter;
    assert!(Padder::pad(&&padder, data, 10, "3".as_bytes(), PaddingDirection::Right, &mut destination, &data_type).is_ok());
    assert!(UnPadder::unpad(&&padder, data, "3".as_bytes(), PaddingDirection::Right, &mut destination, &data_type).is_ok());
    let data_type = StringSupporter;
    assert!(Padder::pad(&&padder, data, 10, "3".as_bytes(), PaddingDirection::Right, &mut destination, &data_type).is_ok());
    assert!(UnPadder::unpad(&&padder, data, "3".as_bytes(), PaddingDirection::Right, &mut destination, &data_type).is_ok());
}

#[test]
fn padder_error() {
    let error = Error::new(PaddingError::PaddingSplitNotOnCharBoundary(23));
    assert_eq!(Some(&PaddingError::PaddingSplitNotOnCharBoundary(23)), error.downcast_ref::<PaddingError>());
    assert_eq!(Some(&PaddingError::PaddingSplitNotOnCharBoundary(23)), error.downcast_ref::<PaddingError>());
    match error.downcast::<PaddingError>() {
        Ok(PaddingError::PaddingSplitNotOnCharBoundary(23)) => (),
        e => panic!("bad result returned {:?}", e),
    }
}

#[test]
fn padded_value_round_trips() {
    let padder = DefaultPadder;
    let mut padded = Vec::new();
    assert!(padder.pad(b"qwer", 10, b"ab", PaddingDirection::Left, &mut padded, &BinarySupporter).is_ok());
    assert_eq!(b"abababqwer".to_vec(), padded);
    let mut unpadded = Vec::new();
    assert!(padder.unpad(&padded, b"ab", PaddingDirection::Left, &mut unpadded, &BinarySupporter).is_ok());
    assert_eq!(b"qwer".to_vec(), unpadded);
}

#[test]
fn longer_values_are_cut() {
    let padder = DefaultPadder;
    let mut destination = Vec::new();
    assert!(padder.pad(b"qwertyuiop", 4, b"3", PaddingDirection::Left, &mut destination, &BinarySupporter).is_ok());
    assert_eq!(b"qwer".to_vec(), destination);
}

#[test]
fn odd_padding_is_cut_short() {
    let padder = DefaultPadder;
    let mut destination = Vec::new();
    assert!(padder.pad(b"qw", 5, b"ab", PaddingDirection::Right, &mut destination, &BinarySupporter).is_ok());
    assert_eq!(b"qwaba".to_vec(), destination);
    let mut unpadded = Vec::new();
    assert!(padder.unpad(&destination, b"ab", PaddingDirection::Right, &mut unpadded, &BinarySupporter).is_ok());
    assert_eq!(b"qwaba".to_vec(), unpadded);
}
