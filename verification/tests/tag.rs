use der::asn1::{ContextSpecific, OctetStringRef};
use der::{Choice, Class, Error, FixedTag, Header, Length, SliceReader, Tag, TagMode, TagNumber, Tagged};

#[test]
fn tag_octets_of_the_universal_types() {
    assert_eq!(Tag::integer().octet(), Ok(0x02));
    assert_eq!(Tag::bit_string().octet(), Ok(0x03));
    assert_eq!(Tag::octet_string().octet(), Ok(0x04));
    assert_eq!(Tag::utf8_string().octet(), Ok(0x0c));
    assert_eq!(Tag::printable_string().octet(), Ok(0x13));
    assert_eq!(Tag::sequence().octet(), Ok(0x30));
    assert_eq!(Tag::set().octet(), Ok(0x31));
}

#[test]
fn tag_octets_of_the_other_classes() {
    let number = TagNumber(5);
    assert_eq!(Tag::Application { constructed: false, number }.octet(), Ok(0x45));
    assert_eq!(Tag::Application { constructed: true, number }.octet(), Ok(0x65));
    assert_eq!(Tag::ContextSpecific { constructed: false, number }.octet(), Ok(0x85));
    assert_eq!(Tag::ContextSpecific { constructed: true, number }.octet(), Ok(0xa5));
    assert_eq!(Tag::Private { constructed: false, number }.octet(), Ok(0xc5));
    assert_eq!(Tag::Private { constructed: true, number }.octet(), Ok(0xe5));
    assert_eq!(
        Tag::ContextSpecific { constructed: true, number: TagNumber(30) }.octet(),
        Ok(0xbe)
    );
}

#[test]
fn tag_round_trip_over_every_octet() {
    let mut accepted = 0;
    for byte in 0..=255u8 {
        match Tag::from_octet(byte) {
            Ok(tag) => {
                accepted += 1;
                assert!(tag.is_well_formed());
                assert_eq!(tag.octet(), Ok(byte));
                assert_eq!(tag.number().value(), byte & 0x1f);
                assert_eq!(tag.is_constructed(), byte & 0x20 != 0);
            }
            Err(e) => assert_eq!(e, Error::MalformedTag),
        }
    }
    // 3 classes of 62 tags each, 27 primitive universal tags and 2 constructed ones.
    assert_eq!(accepted, 3 * 62 + 27 + 2);
}

#[test]
fn tag_rejects_reserved_and_unsupported_octets() {
    // End of contents, and the number kept for future use.
    assert_eq!(Tag::from_octet(0x00), Err(Error::MalformedTag));
    assert_eq!(Tag::from_octet(0x0f), Err(Error::MalformedTag));
    // A constructed OCTET STRING, a primitive SEQUENCE, a primitive SET.
    assert_eq!(Tag::from_octet(0x24), Err(Error::MalformedTag));
    assert_eq!(Tag::from_octet(0x10), Err(Error::MalformedTag));
    assert_eq!(Tag::from_octet(0x11), Err(Error::MalformedTag));
    // The marker of the multi-octet form, in every class.
    assert_eq!(Tag::from_octet(0x1f), Err(Error::MalformedTag));
    assert_eq!(Tag::from_octet(0x5f), Err(Error::MalformedTag));
    assert_eq!(Tag::from_octet(0x9f), Err(Error::MalformedTag));
    assert_eq!(Tag::from_octet(0xff), Err(Error::MalformedTag));
}

#[test]
fn tag_without_an_octet_does_not_encode() {
    let tag = Tag::ContextSpecific { constructed: false, number: TagNumber(31) };
    assert!(!tag.is_well_formed());
    assert_eq!(tag.octet(), Err(Error::MalformedTag));
    let tag = Tag::Universal { constructed: true, number: TagNumber(4) };
    assert_eq!(tag.octet(), Err(Error::MalformedTag));
}

#[test]
fn tag_parts() {
    let tag = Tag::ContextSpecific { constructed: true, number: TagNumber(3) };
    assert_eq!(tag.class(), Class::ContextSpecific);
    assert!(tag.is_context_specific());
    assert!(!tag.is_universal());
    assert!(!tag.is_application());
    assert!(!tag.is_private());
    assert_eq!(Tag::integer().class(), Class::Universal);
    assert!(Tag::integer().is_universal());
    assert_eq!(Tag::Application { constructed: false, number: TagNumber(1) }.class(), Class::Application);
    assert_eq!(Tag::Private { constructed: false, number: TagNumber(1) }.class(), Class::Private);
}

#[test]
fn tag_assert_eq_names_both_tags() {
    assert_eq!(Tag::integer().assert_eq(Tag::integer()), Ok(Tag::integer()));
    assert_eq!(
        Tag::integer().assert_eq(Tag::octet_string()),
        Err(Error::UnexpectedTag { expected: Some(Tag::octet_string()), actual: Tag::integer() })
    );
    assert_eq!(
        Tag::set().unexpected_error(None),
        Error::UnexpectedTag { expected: None, actual: Tag::set() }
    );
    assert_eq!(Tag::set().value_error(), Error::InvalidContent { tag: Tag::set() });
    assert_eq!(
        Tag::set().flag_mismatch_error(),
        Error::ConstructedFlagMismatch { tag: Tag::set() }
    );
}

#[test]
fn tag_mode_defaults_to_explicit() {
    assert_eq!(TagMode::default(), TagMode::Explicit);
}

#[test]
fn tagged_values_report_their_tag() {
    let value = OctetStringRef::new(&[1, 2]).unwrap();
    assert_eq!(value.tag(), Tag::octet_string());
    assert_eq!(OctetStringRef::fixed_tag(), Tag::octet_string());

    let explicit = ContextSpecific { tag_number: TagNumber(4), tag_mode: TagMode::Explicit, value };
    assert_eq!(explicit.tag(), Tag::ContextSpecific { constructed: true, number: TagNumber(4) });
    let implicit = ContextSpecific { tag_number: TagNumber(4), tag_mode: TagMode::Implicit, value };
    assert_eq!(implicit.tag(), Tag::ContextSpecific { constructed: false, number: TagNumber(4) });
}

#[test]
fn context_specific_can_decode_context_specific_tags_only() {
    assert!(ContextSpecific::<u8>::can_decode(Tag::ContextSpecific {
        constructed: true,
        number: TagNumber(0)
    }));
    assert!(!ContextSpecific::<u8>::can_decode(Tag::integer()));
    assert!(!ContextSpecific::<u8>::can_decode(Tag::Application {
        constructed: true,
        number: TagNumber(0)
    }));
}

#[test]
fn header_round_trip() {
    let header = Header::new(Tag::sequence(), Length::new(300));
    let mut out = Vec::new();
    header.encode(&mut out).unwrap();
    assert_eq!(out, vec![0x30, 0x82, 0x01, 0x2c]);
    assert_eq!(header.encoded_len(), Ok(Length::new(4)));

    let mut reader = SliceReader::new(&out).unwrap();
    assert_eq!(Header::peek(&reader), Ok(header));
    assert_eq!(reader.position().value(), 0);
    assert_eq!(Header::decode(&mut reader), Ok(header));
    assert!(reader.is_finished());
}

#[test]
fn header_failures() {
    let decode = |bytes: &[u8]| Header::decode(&mut SliceReader::new(bytes).unwrap());
    assert_eq!(decode(&[]), Err(Error::TruncatedInput));
    assert_eq!(decode(&[0x04]), Err(Error::TruncatedInput));
    assert_eq!(decode(&[0x1f, 0x00]), Err(Error::MalformedTag));
    assert_eq!(decode(&[0x04, 0x81, 0x05]), Err(Error::NonCanonicalLength));
    assert_eq!(decode(&[0x04, 0x85]), Err(Error::LengthOverflow));

    let bad_tag = Header::new(Tag::Private { constructed: false, number: TagNumber(40) }, Length::one());
    let mut out = vec![0x55];
    assert_eq!(bad_tag.encode(&mut out), Err(Error::MalformedTag));
    assert_eq!(out, vec![0x55]);
    assert_eq!(bad_tag.encoded_len(), Err(Error::MalformedTag));
    let bad_length = Header::new(Tag::integer(), Length(0x1000_0000));
    assert_eq!(bad_length.encode(&mut out), Err(Error::LengthOverflow));
    assert_eq!(bad_length.encoded_len(), Err(Error::LengthOverflow));
}
