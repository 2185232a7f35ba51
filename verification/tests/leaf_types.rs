use der::asn1::{BitStringRef, PrintableStringRef, Utf8StringRef};
use der::{Decode, Encode, EncodeValue, Error, Length, Tag};

#[test]
fn unsigned_integers_use_the_shortest_form() {
    assert_eq!(0u8.to_der().unwrap(), vec![0x02, 0x01, 0x00]);
    assert_eq!(127u8.to_der().unwrap(), vec![0x02, 0x01, 0x7f]);
    assert_eq!(128u8.to_der().unwrap(), vec![0x02, 0x02, 0x00, 0x80]);
    assert_eq!(255u8.to_der().unwrap(), vec![0x02, 0x02, 0x00, 0xff]);
    assert_eq!(256u16.to_der().unwrap(), vec![0x02, 0x02, 0x01, 0x00]);
    assert_eq!(0x7fffu16.to_der().unwrap(), vec![0x02, 0x02, 0x7f, 0xff]);
    assert_eq!(0x8000u16.to_der().unwrap(), vec![0x02, 0x03, 0x00, 0x80, 0x00]);
    assert_eq!(0xffffu16.to_der().unwrap(), vec![0x02, 0x03, 0x00, 0xff, 0xff]);
    assert_eq!(0x8000u16.value_len(), Ok(Length::new(3)));
    assert_eq!(0x7fu16.encoded_len(), Ok(Length::new(3)));
}

#[test]
fn unsigned_integers_round_trip() {
    for value in 0..=255u8 {
        assert_eq!(u8::from_der(&value.to_der().unwrap()), Ok(value));
    }
    for value in [0u16, 1, 127, 128, 255, 256, 0x7fff, 0x8000, 0xfffe, 0xffff] {
        assert_eq!(u16::from_der(&value.to_der().unwrap()), Ok(value));
    }
}

#[test]
fn unsigned_integers_reject_other_forms() {
    let invalid = Err(Error::InvalidContent { tag: Tag::integer() });
    // Empty, negative, with a zero too many, too large.
    assert_eq!(u8::from_der(&[0x02, 0x00]), invalid);
    assert_eq!(u8::from_der(&[0x02, 0x01, 0x80]), invalid);
    assert_eq!(u8::from_der(&[0x02, 0x02, 0x00, 0x7f]), invalid);
    assert_eq!(u8::from_der(&[0x02, 0x02, 0x01, 0x00]), invalid);
    assert_eq!(u16::from_der(&[0x02, 0x03, 0x01, 0x00, 0x00]), Err(Error::InvalidContent {
        tag: Tag::integer()
    }));
    assert_eq!(u16::from_der(&[0x02, 0x03, 0x00, 0x00, 0x80]), Err(Error::InvalidContent {
        tag: Tag::integer()
    }));
    assert_eq!(u16::from_der(&[0x02, 0x02, 0x00]), Err(Error::TruncatedInput));
}

#[test]
fn bit_string_round_trip() {
    let bits = BitStringRef::new(3, &[0xab, 0xc8]).unwrap();
    assert_eq!(bits.unused_bits(), 3);
    assert_eq!(bits.raw_bytes(), &[0xab, 0xc8]);
    assert_eq!(bits.as_bytes(), None);
    let bytes = bits.to_der().unwrap();
    assert_eq!(bytes, vec![0x03, 0x03, 0x03, 0xab, 0xc8]);
    assert_eq!(BitStringRef::from_der(&bytes), Ok(bits));

    let whole = BitStringRef::from_bytes(&[0xff]).unwrap();
    assert_eq!(whole.as_bytes(), Some(&[0xff][..]));
    assert_eq!(whole.to_der().unwrap(), vec![0x03, 0x02, 0x00, 0xff]);
    let empty = BitStringRef::from_bytes(&[]).unwrap();
    assert_eq!(empty.to_der().unwrap(), vec![0x03, 0x01, 0x00]);
}

#[test]
fn bit_string_rejects_invalid_content() {
    let invalid = Error::InvalidContent { tag: Tag::bit_string() };
    assert_eq!(BitStringRef::new(8, &[0xff]), Err(invalid));
    assert_eq!(BitStringRef::new(1, &[]), Err(invalid));
    assert_eq!(BitStringRef::from_der(&[0x03, 0x00]), Err(invalid));
    assert_eq!(BitStringRef::from_der(&[0x03, 0x01, 0x01]), Err(invalid));
    assert_eq!(BitStringRef::from_der(&[0x03, 0x02, 0x08, 0xff]), Err(invalid));
}

#[test]
fn utf8_string_round_trip() {
    let text = Utf8StringRef::new("h\u{e9}llo").unwrap();
    assert_eq!(text.as_str(), "h\u{e9}llo");
    assert_eq!(text.len(), Length::new(6));
    assert!(!text.is_empty());
    let bytes = text.to_der().unwrap();
    assert_eq!(bytes, vec![0x0c, 0x06, b'h', 0xc3, 0xa9, b'l', b'l', b'o']);
    let back = Utf8StringRef::from_der(&bytes).unwrap();
    assert_eq!(back, text);
    assert_eq!(back.as_str(), "h\u{e9}llo");
    assert_eq!(back.as_bytes(), "h\u{e9}llo".as_bytes());
}

#[test]
fn utf8_string_rejects_what_is_no_utf8() {
    let invalid = Err(Error::InvalidContent { tag: Tag::utf8_string() });
    assert_eq!(Utf8StringRef::from_der(&[0x0c, 0x01, 0xff]), invalid);
    assert_eq!(Utf8StringRef::from_der(&[0x0c, 0x02, 0xc3, 0x28]), invalid);
    // An overlong form of '/'.
    assert_eq!(Utf8StringRef::from_der(&[0x0c, 0x02, 0xc0, 0xaf]), invalid);
}

#[test]
fn printable_string_round_trip() {
    let text = PrintableStringRef::new(b"Test User 1").unwrap();
    assert_eq!(text.as_str(), "Test User 1");
    assert_eq!(text.as_bytes(), b"Test User 1");
    assert_eq!(text.len(), Length::new(11));
    let bytes = text.to_der().unwrap();
    assert_eq!(bytes[..2], [0x13, 0x0b]);
    assert_eq!(PrintableStringRef::from_der(&bytes), Ok(text));
    assert!(PrintableStringRef::new(b"").unwrap().is_empty());
}

#[test]
fn printable_string_knows_its_characters() {
    for byte in 0..=255u8 {
        let expected = byte.is_ascii_alphanumeric() || b" '()+,-./:=?".contains(&byte);
        assert_eq!(der::asn1::printable_string::is_printable(byte), expected);
        assert_eq!(PrintableStringRef::new(&[byte]).is_ok(), expected);
    }
    assert_eq!(
        PrintableStringRef::from_der(&[0x13, 0x02, b'a', b'@']),
        Err(Error::InvalidContent { tag: Tag::printable_string() })
    );
}
