use der::{Error, Length, SliceReader};

fn encode(len: Length) -> Vec<u8> {
    let mut out = Vec::new();
    len.encode(&mut out).unwrap();
    out
}

fn decode(bytes: &[u8]) -> Result<Length, Error> {
    let mut reader = SliceReader::new(bytes).unwrap();
    Length::decode(&mut reader)
}

#[test]
fn length_short_form() {
    assert_eq!(encode(Length::zero()), vec![0x00]);
    assert_eq!(encode(Length::one()), vec![0x01]);
    assert_eq!(encode(Length::new(0x7f)), vec![0x7f]);
    assert_eq!(decode(&[0x00]), Ok(Length::zero()));
    assert_eq!(decode(&[0x7f]), Ok(Length::new(127)));
}

#[test]
fn length_long_form() {
    assert_eq!(encode(Length::new(0x80)), vec![0x81, 0x80]);
    assert_eq!(encode(Length::new(0xff)), vec![0x81, 0xff]);
    assert_eq!(encode(Length::new(0x100)), vec![0x82, 0x01, 0x00]);
    assert_eq!(encode(Length::new(0xffff)), vec![0x82, 0xff, 0xff]);
    assert_eq!(encode(Length::from_u32(0x1_0000).unwrap()), vec![0x83, 0x01, 0x00, 0x00]);
    assert_eq!(encode(Length::from_u32(0xff_ffff).unwrap()), vec![0x83, 0xff, 0xff, 0xff]);
    assert_eq!(encode(Length::from_u32(0x100_0000).unwrap()), vec![0x84, 0x01, 0x00, 0x00, 0x00]);
    assert_eq!(encode(Length::max()), vec![0x84, 0x0f, 0xff, 0xff, 0xff]);
}

#[test]
fn length_round_trip_at_the_boundaries() {
    for value in [0u32, 1, 127, 128, 255, 256, 65535, 65536, 0xff_ffff, 0x100_0000, 0x0fff_ffff] {
        let len = Length::from_u32(value).unwrap();
        let bytes = encode(len);
        assert_eq!(bytes.len() as u32, len.encoded_len().value());
        assert_eq!(decode(&bytes), Ok(len));
    }
}

#[test]
fn length_decode_leaves_the_rest() {
    let bytes = [0x82, 0x01, 0x00, 0xaa, 0xbb];
    let mut reader = SliceReader::new(&bytes).unwrap();
    assert_eq!(Length::decode(&mut reader), Ok(Length::new(256)));
    assert_eq!(reader.position().value(), 3);
    assert_eq!(reader.remaining_len().value(), 2);
}

#[test]
fn length_rejects_long_form_where_short_form_suffices() {
    assert_eq!(decode(&[0x81, 0x7f]), Err(Error::NonCanonicalLength));
    assert_eq!(decode(&[0x81, 0x00]), Err(Error::NonCanonicalLength));
}

#[test]
fn length_rejects_leading_zero() {
    assert_eq!(decode(&[0x82, 0x00, 0x80]), Err(Error::NonCanonicalLength));
    assert_eq!(decode(&[0x83, 0x00, 0x01, 0x00]), Err(Error::NonCanonicalLength));
    assert_eq!(decode(&[0x84, 0x00, 0x01, 0x00, 0x00]), Err(Error::NonCanonicalLength));
}

#[test]
fn length_rejects_indefinite_form() {
    assert_eq!(decode(&[0x80]), Err(Error::NonCanonicalLength));
}

#[test]
fn length_rejects_what_is_too_large() {
    assert_eq!(decode(&[0x84, 0x10, 0x00, 0x00, 0x00]), Err(Error::LengthOverflow));
    assert_eq!(decode(&[0x84, 0xff, 0xff, 0xff, 0xff]), Err(Error::LengthOverflow));
    assert_eq!(decode(&[0x85, 0x01, 0x00, 0x00, 0x00, 0x00]), Err(Error::LengthOverflow));
    assert_eq!(decode(&[0xff]), Err(Error::LengthOverflow));
}

#[test]
fn length_rejects_truncated_input() {
    assert_eq!(decode(&[]), Err(Error::TruncatedInput));
    assert_eq!(decode(&[0x81]), Err(Error::TruncatedInput));
    assert_eq!(decode(&[0x82, 0x01]), Err(Error::TruncatedInput));
    // Truncation is found before the leading zero is.
    assert_eq!(decode(&[0x82, 0x00]), Err(Error::TruncatedInput));
}

#[test]
fn length_arithmetic_is_checked() {
    assert_eq!(Length::new(2).checked_add(Length::new(3)), Ok(Length::new(5)));
    assert_eq!(Length::max().checked_add(Length::zero()), Ok(Length::max()));
    assert_eq!(Length::max().checked_add(Length::one()), Err(Error::LengthOverflow));
    assert_eq!(Length(u32::MAX).checked_add(Length(u32::MAX)), Err(Error::LengthOverflow));
    assert_eq!(Length::new(5).checked_sub(Length::new(3)), Ok(Length::new(2)));
    assert_eq!(Length::new(3).checked_sub(Length::new(5)), Err(Error::LengthOverflow));
}

#[test]
fn length_conversions() {
    assert_eq!(Length::from_usize(0x0fff_ffff), Ok(Length::max()));
    assert_eq!(Length::from_usize(0x1000_0000), Err(Error::LengthOverflow));
    assert_eq!(Length::from_u32(0x1000_0000), Err(Error::LengthOverflow));
    assert_eq!(Length::new(7).to_usize(), 7);
    assert!(Length::zero().is_zero());
    assert!(!Length::one().is_zero());
}

#[test]
fn length_that_is_not_valid_does_not_encode() {
    let mut out = vec![0xaa];
    assert_eq!(Length(0x1000_0000).encode(&mut out), Err(Error::LengthOverflow));
    assert_eq!(out, vec![0xaa]);
}
