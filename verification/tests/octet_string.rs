use der::asn1::{AnyRef, OctetString, OctetStringRef, PrintableStringRef};
use der::referenced::{OwnedToRef, RefToOwned};
use der::{Decode, Encode, Error, Tag, Tagged};

#[test]
fn octet_string_ref_round_trip() {
    let bytes = [0x04u8, 0x03, 0x01, 0x02, 0x03];
    let value = OctetStringRef::from_der(&bytes).unwrap();
    assert_eq!(value.as_bytes(), &[1u8, 2, 3]);
    assert_eq!(value.len().value(), 3);
    assert!(!value.is_empty());
    assert_eq!(value.to_der().unwrap(), bytes.to_vec());
}

#[test]
fn octet_string_owned_round_trip() {
    let value = OctetString::new(vec![0xde, 0xad]).unwrap();
    let encoded = value.to_der().unwrap();
    assert_eq!(encoded, vec![0x04, 0x02, 0xde, 0xad]);
    let decoded = OctetString::from_der(&encoded).unwrap();
    assert_eq!(decoded, value);
    assert_eq!(decoded.into_bytes(), vec![0xde, 0xad]);
}

#[test]
fn octet_string_rejects_other_tag() {
    let bytes = [0x02u8, 0x01, 0x00];
    assert_eq!(
        OctetStringRef::from_der(&bytes),
        Err(Error::UnexpectedTag { expected: Some(Tag::octet_string()), actual: Tag::integer() })
    );
}

#[test]
fn octet_string_decode_into() {
    // PrintableString "hi"
    let der = b"\x13\x02\x68\x69";
    let oct = OctetStringRef::new(der).unwrap();

    let res = oct.decode_into::<PrintableStringRef<'_>>().unwrap();
    assert_eq!(AsRef::<str>::as_ref(&res), "hi");
}

#[test]
fn octet_string_is_any_bytes() {
    let all: Vec<u8> = (0..=255u8).collect();
    let value = OctetStringRef::new(&all).unwrap();
    assert_eq!(value.len().value(), 256);
    let encoded = value.to_der().unwrap();
    assert_eq!(encoded[..4], [0x04, 0x82, 0x01, 0x00]);
    assert_eq!(encoded.len(), 260);
    assert_eq!(value.encoded_len().unwrap().value(), 260);
    assert_eq!(OctetStringRef::from_der(&encoded), Ok(value));
    let empty = OctetStringRef::new(&[]).unwrap();
    assert!(empty.is_empty());
    assert_eq!(empty.to_der().unwrap(), vec![0x04, 0x00]);
}

#[test]
fn octet_string_rejects_padding_and_truncation() {
    assert_eq!(OctetStringRef::from_der(&[0x04, 0x02, 0x01]), Err(Error::TruncatedInput));
    assert_eq!(OctetStringRef::from_der(&[0x04, 0x01, 0x01, 0x02]), Err(Error::TrailingData));
    assert_eq!(OctetStringRef::from_der(&[0x04, 0x81, 0x01, 0x01]), Err(Error::NonCanonicalLength));
    assert_eq!(OctetString::from_der(&[0x04, 0x02, 0x01]), Err(Error::TruncatedInput));
    assert_eq!(OctetStringRef::from_der(&[]), Err(Error::TruncatedInput));
}

#[test]
fn octet_string_decode_into_rejects_what_is_left() {
    let oct = OctetStringRef::new(&[0x13, 0x02, 0x68, 0x69, 0x00]).unwrap();
    assert_eq!(oct.decode_into::<PrintableStringRef<'_>>(), Err(Error::TrailingData));
    let oct = OctetStringRef::new(&[0x02, 0x01, 0x2a]).unwrap();
    assert_eq!(oct.decode_into::<u8>(), Ok(42));
}

#[test]
fn octet_string_owned_and_borrowed_convert() {
    let owned = OctetString::new(vec![1, 2, 3]).unwrap();
    let borrowed = owned.owned_to_ref();
    assert_eq!(borrowed.as_bytes(), &[1, 2, 3]);
    assert_eq!(borrowed.ref_to_owned(), owned);
    assert_eq!(OctetStringRef::from(&owned), borrowed);
    assert_eq!(OctetStringRef::from(&borrowed), borrowed);
    assert_eq!(owned.clone(), owned);
    assert_eq!(owned.as_bytes(), &[1, 2, 3]);
    assert_eq!(owned.len().value(), 3);
    assert!(!owned.is_empty());
    assert_eq!(AsRef::<[u8]>::as_ref(&owned), &[1, 2, 3]);
    assert_eq!(AsRef::<[u8]>::as_ref(&borrowed), &[1, 2, 3]);
    assert_eq!(Vec::<u8>::from(borrowed), vec![1, 2, 3]);
    assert_eq!(borrowed.to_vec(), vec![1, 2, 3]);
    assert_eq!(Vec::<u8>::from(owned), vec![1, 2, 3]);
}

#[test]
fn octet_string_from_slices_arrays_and_vectors() {
    let bytes = [7u8, 8, 9];
    let expected = OctetStringRef::new(&bytes).unwrap();
    assert_eq!(OctetStringRef::try_from(&bytes[..]), Ok(expected));
    assert_eq!(OctetStringRef::try_from(&&bytes[..]), Ok(expected));
    assert_eq!(OctetStringRef::try_from(&bytes), Ok(expected));
    let vec = bytes.to_vec();
    assert_eq!(OctetStringRef::try_from(&vec), Ok(expected));
    let slice: &[u8] = expected.into();
    assert_eq!(slice, &bytes);
}

#[test]
fn octet_string_to_any() {
    let value = OctetStringRef::new(&[1, 2]).unwrap();
    let any = AnyRef::from(value);
    assert_eq!(any.tag(), Tag::octet_string());
    assert_eq!(any.value(), &[1, 2]);
    assert_eq!(any, value.to_any());
    assert_eq!(any.to_der(), value.to_der());
}

#[test]
fn octet_string_to_array() {
    let value = OctetStringRef::new(&[1, 2, 3]).unwrap();
    assert_eq!(<[u8; 3]>::try_from(value), Ok([1, 2, 3]));
    let invalid = Error::InvalidContent { tag: Tag::octet_string() };
    assert_eq!(<[u8; 2]>::try_from(value), Err(invalid));
    assert_eq!(<[u8; 4]>::try_from(value), Err(invalid));
    assert_eq!(<[u8; 0]>::try_from(OctetStringRef::new(&[]).unwrap()), Ok([]));
}

#[test]
fn octet_string_to_and_from_fixed_capacity_vector() {
    let value = OctetStringRef::new(&[1, 2, 3]).unwrap();
    let vec = heapless::Vec::<u8, 4>::try_from(value).unwrap();
    assert_eq!(vec.as_slice(), &[1, 2, 3]);
    assert_eq!(vec.len(), 3);
    let exact = heapless::Vec::<u8, 3>::try_from(value).unwrap();
    assert_eq!(exact.as_slice(), &[1, 2, 3]);
    assert_eq!(
        heapless::Vec::<u8, 2>::try_from(value),
        Err(Error::InvalidContent { tag: Tag::octet_string() })
    );
    assert_eq!(OctetStringRef::try_from(&vec), Ok(value));
    let empty = heapless::Vec::<u8, 4>::new();
    assert!(OctetStringRef::try_from(&empty).unwrap().is_empty());
}

#[test]
fn octet_string_to_shared_buffer() {
    let value = OctetStringRef::new(&[4, 5, 6]).unwrap();
    let buffer = bytes::Bytes::from(value);
    assert_eq!(&buffer[..], &[4, 5, 6]);
    let owned = OctetString::new(vec![7, 8]).unwrap();
    let buffer = bytes::Bytes::from(owned);
    assert_eq!(&buffer[..], &[7, 8]);
}

#[test]
fn shared_buffer_is_coded_as_an_octet_string() {
    let input = [0x04, 0x03, 9, 8, 7, 0xff];
    let mut reader = der::SliceReader::new(&input).unwrap();
    let header = der::Header::decode(&mut reader).unwrap();
    assert_eq!(header.tag, der::asn1::bytes::fixed_tag());
    let buffer = der::asn1::bytes::decode_value(&mut reader, header).unwrap();
    assert_eq!(&buffer[..], &[9, 8, 7]);
    assert_eq!(reader.remaining_len().value(), 1);
    assert_eq!(der::asn1::bytes::value_len(&buffer), Ok(der::Length::new(3)));
    let mut out = vec![0x04, 0x03];
    der::asn1::bytes::encode_value(&buffer, &mut out).unwrap();
    assert_eq!(out, input[..5].to_vec());

    let mut reader = der::SliceReader::new(&input[2..4]).unwrap();
    assert_eq!(
        der::asn1::bytes::decode_value(&mut reader, header),
        Err(Error::TruncatedInput)
    );
}
