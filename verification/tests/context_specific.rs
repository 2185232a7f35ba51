use der::asn1::{AnyRef, BitStringRef, ContextSpecific, ContextSpecificRef, OctetStringRef, SetOf};
use der::asn1::Utf8StringRef;
use der::{Decode, Encode, EncodeValue, Error, SliceReader, Tag, TagMode, TagNumber, Tagged};

// Public key data from an Ed25519 private key in PKCS#8 v2 form.
const EXAMPLE_BYTES: &[u8] = &[
    0xA1, 0x23, 0x03, 0x21, 0x00, 0xA3, 0xA7, 0xEA, 0xE3, 0xA8, 0x37, 0x38,
    0x30, 0xBC, 0x47, 0xE1, 0x16, 0x7B, 0xC5, 0x0E, 0x1D, 0xB5, 0x51, 0x99,
    0x96, 0x51, 0xE0, 0xE2, 0xDC, 0x58, 0x76, 0x23, 0x43, 0x8E, 0xAC, 0x3F,
    0x31,
];

#[test]
fn round_trip() {
    let field = ContextSpecific::<BitStringRef<'_>>::from_der(EXAMPLE_BYTES).unwrap();
    assert_eq!(field.tag_number.value(), 1);
    assert_eq!(
        field.value,
        BitStringRef::from_bytes(&EXAMPLE_BYTES[5..]).unwrap()
    );

    let mut buf = [0u8; 128];
    let encoded = field.encode_to_slice(&mut buf).unwrap();
    assert_eq!(encoded, EXAMPLE_BYTES);
}

#[test]
fn context_specific_with_explicit_field() {
    let tag_number = TagNumber(0);

    // Empty message
    let mut reader = SliceReader::new(&[]).unwrap();
    assert_eq!(
        ContextSpecific::<u8>::decode_explicit(&mut reader, tag_number).unwrap(),
        None
    );

    // Message containing a non-context-specific type
    let mut reader = SliceReader::new(&[0x02, 0x01, 0x00]).unwrap();
    assert_eq!(
        ContextSpecific::<u8>::decode_explicit(&mut reader, tag_number).unwrap(),
        None
    );

    // Message containing an EXPLICIT context-specific field
    let mut reader = SliceReader::new(&[0xA0, 0x03, 0x02, 0x01, 0x00]).unwrap();
    let field = ContextSpecific::<u8>::decode_explicit(&mut reader, tag_number)
        .unwrap()
        .unwrap();

    assert_eq!(field.tag_number, tag_number);
    assert_eq!(field.tag_mode, TagMode::Explicit);
    assert_eq!(field.value, 0);
}

#[test]
fn context_specific_with_implicit_field() {
    // From RFC 8410 Section 10.3:
    //
    //    81  33:   [1] 00 19 BF 44 09 69 84 CD FE 85 41 BA C1 67 DC 3B
    //                  96 C8 50 86 AA 30 B6 B6 CB 0C 5C 38 AD 70 31 66
    //                  E1
    let context_specific_implicit_bytes: [u8; 35] = [
    0x81, 0x21, 0x00, 0x19, 0xBF, 0x44, 0x09, 0x69, 0x84, 0xCD, 0xFE, 0x85,
    0x41, 0xBA, 0xC1, 0x67, 0xDC, 0x3B, 0x96, 0xC8, 0x50, 0x86, 0xAA, 0x30,
    0xB6, 0xB6, 0xCB, 0x0C, 0x5C, 0x38, 0xAD, 0x70, 0x31, 0x66, 0xE1,
];

    let tag_number = TagNumber(1);

    let mut reader = SliceReader::new(&context_specific_implicit_bytes).unwrap();
    let field = ContextSpecific::<BitStringRef<'_>>::decode_implicit(&mut reader, tag_number)
        .unwrap()
        .unwrap();

    assert_eq!(field.tag_number, tag_number);
    assert_eq!(field.tag_mode, TagMode::Implicit);
    assert_eq!(
        field.value.as_bytes().unwrap(),
        &context_specific_implicit_bytes[3..]
    );
}

#[test]
fn context_specific_skipping_unknown_field() {
    let tag = TagNumber(1);
    let mut reader =
        SliceReader::new(&[0xA0, 0x03, 0x02, 0x01, 0x00, 0xA1, 0x03, 0x02, 0x01, 0x01]).unwrap();
    let field = ContextSpecific::<u8>::decode_explicit(&mut reader, tag)
        .unwrap()
        .unwrap();
    assert_eq!(field.value, 1);
}

#[test]
fn context_specific_returns_none_on_greater_tag_number() {
    let tag = TagNumber(0);
    let mut reader = SliceReader::new(&[0xA1, 0x03, 0x02, 0x01, 0x01]).unwrap();
    assert_eq!(
        ContextSpecific::<u8>::decode_explicit(&mut reader, tag).unwrap(),
        None
    );
}

#[test]
fn context_specific_explicit_ref() {
    let mut set = SetOf::new();
    set.insert(8u16).unwrap();
    set.insert(7u16).unwrap();

    let field = ContextSpecificRef::<SetOf<u16, 2>> {
        value: &set,
        tag_number: TagNumber(2),
        tag_mode: TagMode::Explicit,
    };

    let mut buf = [0u8; 16];
    let encoded = field.encode_to_slice(&mut buf).unwrap();
    assert_eq!(
        encoded,
        &[
            /* CONTEXT-SPECIFIC [2] */ 0xA2, 0x08, /* SET 0x11 | 0x20 */ 0x31, 0x06,
            /* INTEGER */ 0x02, 0x01, 0x07, /* INTEGER */ 0x02, 0x01, 0x08
        ]
    );

    let mut reader = SliceReader::new(encoded).unwrap();
    let field = ContextSpecific::<SetOf<u16, 2>>::decode_explicit(&mut reader, TagNumber(2))
        .unwrap()
        .unwrap();

    assert_eq!(field.value.len(), 2);
    assert_eq!(field.value.get(0).cloned(), Some(7));
    assert_eq!(field.value.get(1).cloned(), Some(8));
}

#[test]
fn context_specific_implicit_ref() {
    let hello = Utf8StringRef::new("Hello").unwrap();
    let world = Utf8StringRef::new("world").unwrap();

    let mut set = SetOf::new();
    set.insert(hello).unwrap();
    set.insert(world).unwrap();

    let field = ContextSpecificRef::<SetOf<Utf8StringRef<'_>, 2>> {
        value: &set,
        tag_number: TagNumber(2),
        tag_mode: TagMode::Implicit,
    };

    let mut buf = [0u8; 16];
    let encoded = field.encode_to_slice(&mut buf).unwrap();
    assert_eq!(
        encoded,
        &[
            0xA2, 0x0E, // CONTEXT-SPECIFIC [2]
            0x0C, 0x05, b'H', b'e', b'l', b'l', b'o', // UTF8String "Hello"
            0x0C, 0x05, b'w', b'o', b'r', b'l', b'd', // UTF8String "world"
        ]
    );

    let mut reader = SliceReader::new(encoded).unwrap();
    let field = ContextSpecific::<SetOf<Utf8StringRef<'_>, 2>>::decode_implicit(
        &mut reader,
        TagNumber(2),
    )
    .unwrap()
    .unwrap();

    assert_eq!(field.value.len(), 2);
    assert_eq!(field.value.get(0).cloned(), Some(hello));
    assert_eq!(field.value.get(1).cloned(), Some(world));
}

#[test]
fn probe_skips_lower_numbered_fields_in_order() {
    // [0] INTEGER 0, [1] INTEGER 1
    let bytes = [0xA0, 0x03, 0x02, 0x01, 0x00, 0xA1, 0x03, 0x02, 0x01, 0x01];
    let mut reader = SliceReader::new(&bytes).unwrap();
    let field = ContextSpecific::<u8>::decode_explicit(&mut reader, TagNumber(1))
        .unwrap()
        .unwrap();
    assert_eq!(field.tag_number, TagNumber(1));
    assert_eq!(field.value, 1);
    assert!(reader.is_finished());
}

#[test]
fn probe_reads_fields_one_after_the_other() {
    let bytes = [0xA0, 0x03, 0x02, 0x01, 0x00, 0xA1, 0x03, 0x02, 0x01, 0x01];
    let mut reader = SliceReader::new(&bytes).unwrap();
    let first = ContextSpecific::<u8>::decode_explicit(&mut reader, TagNumber(0)).unwrap().unwrap();
    assert_eq!(first.value, 0);
    assert_eq!(reader.position().value(), 5);
    let second = ContextSpecific::<u8>::decode_explicit(&mut reader, TagNumber(1)).unwrap().unwrap();
    assert_eq!(second.value, 1);
    assert_eq!(
        ContextSpecific::<u8>::decode_explicit(&mut reader, TagNumber(2)),
        Ok(None)
    );
}

#[test]
fn probe_for_an_absent_field_reads_nothing() {
    let bytes = [0xA1, 0x03, 0x02, 0x01, 0x01];
    let mut reader = SliceReader::new(&bytes).unwrap();
    assert_eq!(
        ContextSpecific::<u8>::decode_explicit(&mut reader, TagNumber(0)),
        Ok(None)
    );
    assert_eq!(reader.position().value(), 0);
    // The field that stopped the search is still there to be found.
    let field = ContextSpecific::<u8>::decode_explicit(&mut reader, TagNumber(1))
        .unwrap()
        .unwrap();
    assert_eq!(field.value, 1);
    assert!(reader.is_finished());
}

#[test]
fn probe_of_empty_input_finds_nothing() {
    for number in [0u8, 1, 7, 30, 200] {
        let mut reader = SliceReader::new(&[]).unwrap();
        assert_eq!(
            ContextSpecific::<u8>::decode_explicit(&mut reader, TagNumber(number)),
            Ok(None)
        );
        assert_eq!(
            ContextSpecific::<BitStringRef<'_>>::decode_implicit(&mut reader, TagNumber(number)),
            Ok(None)
        );
    }
}

#[test]
fn probe_stops_after_the_skipped_fields() {
    // [0] INTEGER 0, then an INTEGER that is no context-specific field.
    let bytes = [0xA0, 0x03, 0x02, 0x01, 0x00, 0x02, 0x01, 0x05];
    let mut reader = SliceReader::new(&bytes).unwrap();
    assert_eq!(
        ContextSpecific::<u8>::decode_explicit(&mut reader, TagNumber(3)),
        Ok(None)
    );
    assert_eq!(reader.position().value(), 5);
    assert_eq!(u8::decode(&mut reader), Ok(5));
}

#[test]
fn probe_fails_where_a_skipped_field_does() {
    // The field to skip says it has five bytes of content, and has three.
    let bytes = [0xA0, 0x05, 0x02, 0x01, 0x00];
    let mut reader = SliceReader::new(&bytes).unwrap();
    assert_eq!(
        ContextSpecific::<u8>::decode_explicit(&mut reader, TagNumber(1)),
        Err(Error::TruncatedInput)
    );
    let mut reader = SliceReader::new(&[0x1f, 0x00]).unwrap();
    assert_eq!(
        ContextSpecific::<u8>::decode_explicit(&mut reader, TagNumber(1)),
        Err(Error::MalformedTag)
    );
    let mut reader = SliceReader::new(&[0xA0, 0x81, 0x03, 0x02, 0x01, 0x00]).unwrap();
    assert_eq!(
        ContextSpecific::<u8>::decode_explicit(&mut reader, TagNumber(1)),
        Err(Error::NonCanonicalLength)
    );
}

#[test]
fn explicit_field_must_be_constructed() {
    let bytes = [0x80, 0x03, 0x02, 0x01, 0x00];
    let mut reader = SliceReader::new(&bytes).unwrap();
    assert_eq!(
        ContextSpecific::<u8>::decode_explicit(&mut reader, TagNumber(0)),
        Err(Error::UnexpectedTag {
            expected: None,
            actual: Tag::ContextSpecific { constructed: false, number: TagNumber(0) }
        })
    );
    assert_eq!(
        ContextSpecific::<u8>::from_der(&[0x02, 0x01, 0x00]),
        Err(Error::UnexpectedTag { expected: None, actual: Tag::integer() })
    );
}

#[test]
fn explicit_field_rejects_padding_and_truncation() {
    // One byte of padding inside the field.
    assert_eq!(
        ContextSpecific::<u8>::from_der(&[0xA0, 0x04, 0x02, 0x01, 0x00, 0x00]),
        Err(Error::TrailingData)
    );
    // One byte of padding behind the field.
    assert_eq!(
        ContextSpecific::<u8>::from_der(&[0xA0, 0x03, 0x02, 0x01, 0x00, 0x00]),
        Err(Error::TrailingData)
    );
    // The field ends inside the inner value.
    assert_eq!(
        ContextSpecific::<u8>::from_der(&[0xA0, 0x02, 0x02, 0x01, 0x00]),
        Err(Error::TruncatedInput)
    );
    // The input ends inside the field.
    assert_eq!(
        ContextSpecific::<u8>::from_der(&[0xA0, 0x03, 0x02, 0x01]),
        Err(Error::TruncatedInput)
    );
    // The inner value is of another type.
    assert_eq!(
        ContextSpecific::<u8>::from_der(&[0xA0, 0x03, 0x04, 0x01, 0x00]),
        Err(Error::UnexpectedTag { expected: Some(Tag::integer()), actual: Tag::octet_string() })
    );
}

#[test]
fn implicit_field_checks_the_construction_flag() {
    // A constructed [1] around the content of a primitive type.
    let bytes = [0xA1, 0x02, 0x00, 0xff];
    let mut reader = SliceReader::new(&bytes).unwrap();
    assert_eq!(
        ContextSpecific::<BitStringRef<'_>>::decode_implicit(&mut reader, TagNumber(1)),
        Err(Error::ConstructedFlagMismatch {
            tag: Tag::ContextSpecific { constructed: true, number: TagNumber(1) }
        })
    );
    // A primitive [2] around the content of a constructed type.
    let bytes = [0x82, 0x03, 0x02, 0x01, 0x07];
    let mut reader = SliceReader::new(&bytes).unwrap();
    assert_eq!(
        ContextSpecific::<SetOf<u8, 2>>::decode_implicit(&mut reader, TagNumber(2)).map(|f| f.is_some()),
        Err(Error::ConstructedFlagMismatch {
            tag: Tag::ContextSpecific { constructed: false, number: TagNumber(2) }
        })
    );
}

#[test]
fn implicit_field_rejects_padding_and_truncation() {
    let mut reader = SliceReader::new(&[0x81, 0x03, 0x00, 0xff]).unwrap();
    assert_eq!(
        ContextSpecific::<BitStringRef<'_>>::decode_implicit(&mut reader, TagNumber(1)),
        Err(Error::TruncatedInput)
    );
    // The content of an INTEGER is shorter than the field says.
    let mut reader = SliceReader::new(&[0x81, 0x02, 0x05, 0x00]).unwrap();
    assert_eq!(
        ContextSpecific::<u8>::decode_implicit(&mut reader, TagNumber(1)),
        Err(Error::InvalidContent { tag: Tag::integer() })
    );
}

#[test]
fn explicit_is_longer_than_implicit_by_the_inner_header() {
    let value = OctetStringRef::new(&[1, 2, 3]).unwrap();
    let explicit = ContextSpecific { tag_number: TagNumber(5), tag_mode: TagMode::Explicit, value };
    let implicit = ContextSpecific { tag_number: TagNumber(5), tag_mode: TagMode::Implicit, value };
    let long = explicit.to_der().unwrap();
    let short = implicit.to_der().unwrap();
    assert_eq!(long, vec![0xA5, 0x05, 0x04, 0x03, 1, 2, 3]);
    assert_eq!(short, vec![0x85, 0x03, 1, 2, 3]);
    assert_eq!(long.len(), short.len() + 2);
    assert_eq!(explicit.value_len().unwrap().value(), implicit.value_len().unwrap().value() + 2);
    assert_eq!(explicit.encoded_len().unwrap().value(), 7);
    assert_eq!(implicit.encoded_len().unwrap().value(), 5);

    let mut reader = SliceReader::new(&long).unwrap();
    let back = ContextSpecific::<OctetStringRef<'_>>::decode_explicit(&mut reader, TagNumber(5));
    assert_eq!(back, Ok(Some(explicit)));
    let mut reader = SliceReader::new(&short).unwrap();
    let back = ContextSpecific::<OctetStringRef<'_>>::decode_implicit(&mut reader, TagNumber(5));
    assert_eq!(back, Ok(Some(implicit)));
}

#[test]
fn explicit_can_be_longer_by_more_than_the_inner_header() {
    // With 126 bytes of content the explicit field's own length needs the long form.
    let bytes = [0x5au8; 126];
    let value = OctetStringRef::new(&bytes).unwrap();
    let explicit = ContextSpecific { tag_number: TagNumber(0), tag_mode: TagMode::Explicit, value };
    let implicit = ContextSpecific { tag_number: TagNumber(0), tag_mode: TagMode::Implicit, value };
    assert_eq!(explicit.value_len().unwrap().value(), implicit.value_len().unwrap().value() + 2);
    assert_eq!(implicit.to_der().unwrap().len(), 128);
    assert_eq!(explicit.to_der().unwrap().len(), 131);
}

#[test]
fn field_with_a_number_that_has_no_octet_does_not_encode() {
    let value = OctetStringRef::new(&[1]).unwrap();
    let field = ContextSpecific { tag_number: TagNumber(31), tag_mode: TagMode::Explicit, value };
    assert_eq!(field.to_der(), Err(Error::MalformedTag));
    assert_eq!(field.encoded_len(), Err(Error::MalformedTag));
    let mut buf = [0u8; 8];
    assert_eq!(field.encode_to_slice(&mut buf), Err(Error::MalformedTag));
}

#[test]
fn encode_to_slice_needs_room() {
    let value = OctetStringRef::new(&[1, 2, 3]).unwrap();
    let mut buf = [0xeeu8; 4];
    assert_eq!(value.encode_to_slice(&mut buf), Err(Error::LengthOverflow));
    assert_eq!(buf, [0xee; 4]);
    let mut buf = [0xeeu8; 6];
    assert_eq!(value.encode_to_slice(&mut buf), Ok(&[0x04, 0x03, 1, 2, 3][..]));
    assert_eq!(buf, [0x04, 0x03, 1, 2, 3, 0xee]);
}

#[test]
fn field_from_a_unit_of_any_type() {
    let bytes = [0xA3, 0x03, 0x02, 0x01, 0x09];
    let any = AnyRef::from_der(&bytes).unwrap();
    let field = ContextSpecific::<u8>::try_from(any).unwrap();
    assert_eq!(field.tag_number, TagNumber(3));
    assert_eq!(field.tag_mode, TagMode::Explicit);
    assert_eq!(field.value, 9);

    let any = AnyRef::from_der(&[0x83, 0x03, 0x02, 0x01, 0x09]).unwrap();
    assert_eq!(
        ContextSpecific::<u8>::try_from(any),
        Err(Error::UnexpectedTag {
            expected: None,
            actual: Tag::ContextSpecific { constructed: false, number: TagNumber(3) }
        })
    );
    let any = AnyRef::from_der(&[0xA3, 0x04, 0x02, 0x01, 0x09, 0x00]).unwrap();
    assert_eq!(ContextSpecific::<u8>::try_from(any), Err(Error::TrailingData));
}

#[test]
fn context_specific_ref_encodes_as_the_owning_field() {
    let value = OctetStringRef::new(&[9, 8]).unwrap();
    for tag_mode in [TagMode::Explicit, TagMode::Implicit] {
        let owning = ContextSpecific { tag_number: TagNumber(1), tag_mode, value };
        let borrowing = ContextSpecificRef { tag_number: TagNumber(1), tag_mode, value: &value };
        assert_eq!(borrowing.to_der(), owning.to_der());
        assert_eq!(borrowing.tag(), owning.tag());
        assert_eq!(borrowing.value_len(), owning.value_len());
        assert_eq!(borrowing.encoder().tag_number, TagNumber(1));
    }
}

#[test]
fn nested_fields_round_trip() {
    let inner = ContextSpecific { tag_number: TagNumber(1), tag_mode: TagMode::Explicit, value: 200u8 };
    let outer = ContextSpecific { tag_number: TagNumber(0), tag_mode: TagMode::Explicit, value: inner };
    let bytes = outer.to_der().unwrap();
    assert_eq!(bytes, vec![0xA0, 0x06, 0xA1, 0x04, 0x02, 0x02, 0x00, 0xC8]);
    assert_eq!(ContextSpecific::<ContextSpecific<u8>>::from_der(&bytes), Ok(outer));
}

#[test]
fn search_tells_whether_the_field_comes_next() {
    let bytes = [0xA0, 0x03, 0x02, 0x01, 0x00, 0xA2, 0x03, 0x02, 0x01, 0x01];
    let mut reader = SliceReader::new(&bytes).unwrap();
    assert_eq!(ContextSpecific::<u8>::decode_with(&mut reader, TagNumber(1)), Ok(false));
    assert_eq!(reader.position().value(), 5);
    assert_eq!(ContextSpecific::<u8>::decode_with(&mut reader, TagNumber(2)), Ok(true));
    assert_eq!(reader.position().value(), 5);
    assert_eq!(ContextSpecific::<u8>::decode_with(&mut reader, TagNumber(3)), Ok(false));
    assert!(reader.is_finished());
}
