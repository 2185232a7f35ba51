use der::asn1::AnyRef;
use der::{Decode, Encode, Error, Length, SliceReader, Tag, Tagged};

#[test]
fn reader_reads_forward() {
    let bytes = [1u8, 2, 3, 4, 5];
    let mut reader = SliceReader::new(&bytes).unwrap();
    assert_eq!(reader.input_len().value(), 5);
    assert_eq!(reader.peek_byte(), Some(1));
    assert_eq!(reader.read_byte(), Ok(1));
    assert_eq!(reader.read_slice(Length::new(2)), Ok(&bytes[1..3]));
    assert_eq!(reader.position().value(), 3);
    assert_eq!(reader.remaining_len().value(), 2);
    assert!(!reader.is_finished());
    assert_eq!(reader.finish(), Err(Error::TrailingData));
    assert_eq!(reader.read_slice(Length::new(3)), Err(Error::TruncatedInput));
    assert_eq!(reader.position().value(), 3);
    assert_eq!(reader.read_slice(Length::new(2)), Ok(&bytes[3..]));
    assert!(reader.is_finished());
    assert_eq!(reader.finish(), Ok(()));
    assert_eq!(reader.peek_byte(), None);
    assert_eq!(reader.read_byte(), Err(Error::TruncatedInput));
}

#[test]
fn reader_peeks_tags() {
    let reader = SliceReader::new(&[]).unwrap();
    assert_eq!(reader.peek_tag(), Ok(None));
    let reader = SliceReader::new(&[0x04, 0x00]).unwrap();
    assert_eq!(reader.peek_tag(), Ok(Some(Tag::octet_string())));
    assert_eq!(reader.position().value(), 0);
    let reader = SliceReader::new(&[0x1f]).unwrap();
    assert_eq!(reader.peek_tag(), Err(Error::MalformedTag));
}

#[test]
fn nested_reader_is_bounded() {
    let bytes = [1u8, 2, 3, 4, 5];
    let mut reader = SliceReader::new(&bytes).unwrap();
    let mut sub = reader.nested(Length::new(3)).unwrap();
    assert_eq!(reader.position().value(), 3);
    assert_eq!(sub.input_len().value(), 3);
    assert_eq!(sub.read_slice(Length::new(4)), Err(Error::TruncatedInput));
    assert_eq!(sub.read_slice(Length::new(2)), Ok(&bytes[..2]));
    assert_eq!(sub.finish(), Err(Error::TrailingData));
    assert_eq!(sub.read_byte(), Ok(3));
    assert_eq!(sub.finish(), Ok(()));
    assert!(reader.nested(Length::new(3)).is_err());
    assert_eq!(reader.position().value(), 3);
}

#[test]
fn any_takes_whatever_unit() {
    let bytes = [0x30, 0x03, 0x02, 0x01, 0x05, 0xff];
    let mut reader = SliceReader::new(&bytes).unwrap();
    let any = AnyRef::decode(&mut reader).unwrap();
    assert_eq!(any.tag(), Tag::sequence());
    assert_eq!(any.value(), &[0x02, 0x01, 0x05]);
    assert!(!any.is_empty());
    assert_eq!(reader.remaining_len().value(), 1);
    assert_eq!(any.to_der().unwrap(), bytes[..5].to_vec());
    assert_eq!(any.encoded_len(), Ok(Length::new(5)));

    assert_eq!(AnyRef::from_der(&bytes), Err(Error::TrailingData));
    assert_eq!(AnyRef::from_der(&bytes[..4]), Err(Error::TruncatedInput));
    assert_eq!(AnyRef::new(Tag::integer(), &[7]).unwrap().to_der().unwrap(), vec![0x02, 0x01, 0x07]);
}
