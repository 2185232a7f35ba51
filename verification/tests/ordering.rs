use der::asn1::{ContextSpecific, OctetString, OctetStringRef};
use der::ord::bytes_order;
use der::{DerOrd, Header, Length, Order, Tag, TagMode, TagNumber, ValueOrd};

#[test]
fn bytes_are_ordered_lexicographically() {
    assert_eq!(bytes_order(&[], &[]), Order::Equal);
    assert_eq!(bytes_order(&[], &[0]), Order::Less);
    assert_eq!(bytes_order(&[0], &[]), Order::Greater);
    assert_eq!(bytes_order(&[1, 2, 3], &[1, 2, 3]), Order::Equal);
    assert_eq!(bytes_order(&[1, 2], &[1, 2, 0]), Order::Less);
    assert_eq!(bytes_order(&[1, 3], &[1, 2, 9]), Order::Greater);
    assert_eq!(bytes_order(&[0x7f], &[0x80]), Order::Less);
}

#[test]
fn bytes_order_is_a_strict_total_order() {
    let samples: [&[u8]; 6] = [&[], &[0], &[0, 0], &[0, 1], &[1], &[255, 0]];
    for a in samples {
        assert_eq!(bytes_order(a, a), Order::Equal);
        for b in samples {
            let ab = bytes_order(a, b);
            let ba = bytes_order(b, a);
            if a != b {
                assert!((ab == Order::Less) != (ba == Order::Less));
            }
            for c in samples {
                if ab == Order::Less && bytes_order(b, c) == Order::Less {
                    assert_eq!(bytes_order(a, c), Order::Less);
                }
            }
        }
    }
}

#[test]
fn headers_are_ordered_as_their_encodings() {
    let short = Header::new(Tag::octet_string(), Length::new(2));
    let long = Header::new(Tag::octet_string(), Length::new(200));
    assert_eq!(short.der_cmp(&long), Ok(Order::Less));
    assert_eq!(long.der_cmp(&short), Ok(Order::Greater));
    assert_eq!(long.der_cmp(&long), Ok(Order::Equal));
    let integer = Header::new(Tag::integer(), Length::new(200));
    assert_eq!(integer.der_cmp(&short), Ok(Order::Less));
}

#[test]
fn octet_strings_are_ordered_by_length_first() {
    let a = OctetStringRef::new(&[9]).unwrap();
    let b = OctetStringRef::new(&[1, 1]).unwrap();
    // By content alone the first byte decides.
    assert_eq!(a.value_cmp(&b), Ok(Order::Greater));
    // By encoding the header comes first, and the shorter length is less.
    assert_eq!(a.der_cmp(&b), Ok(Order::Less));
    assert_eq!(b.der_cmp(&a), Ok(Order::Greater));
    assert_eq!(a.der_cmp(&a), Ok(Order::Equal));

    let owned_a = OctetString::new(vec![1, 2]).unwrap();
    let owned_b = OctetString::new(vec![1, 3]).unwrap();
    assert_eq!(owned_a.value_cmp(&owned_b), Ok(Order::Less));
    assert_eq!(owned_a.der_cmp(&owned_b), Ok(Order::Less));
}

#[test]
fn integers_are_ordered_as_their_contents() {
    assert_eq!(1u8.value_cmp(&2u8), Ok(Order::Less));
    assert_eq!(200u8.value_cmp(&200u8), Ok(Order::Equal));
    // 128 is 00 80, 127 is 7F.
    assert_eq!(128u8.value_cmp(&127u8), Ok(Order::Less));
    assert_eq!(128u8.der_cmp(&127u8), Ok(Order::Greater));
    assert_eq!(7u16.der_cmp(&8u16), Ok(Order::Less));
    // 256 is 01 00, 255 is 00 FF: of equal length, so the first byte decides.
    assert_eq!(256u16.der_cmp(&255u16), Ok(Order::Greater));
    assert_eq!(256u16.value_cmp(&255u16), Ok(Order::Greater));
}

#[test]
fn explicit_fields_are_ordered_as_their_encodings() {
    let field = |number: u8, value: u8| ContextSpecific {
        tag_number: TagNumber(number),
        tag_mode: TagMode::Explicit,
        value,
    };
    assert_eq!(field(0, 5).value_cmp(&field(0, 5)), Ok(Order::Equal));
    assert_eq!(field(0, 5).value_cmp(&field(0, 6)), Ok(Order::Less));
    assert_eq!(field(0, 6).value_cmp(&field(0, 5)), Ok(Order::Greater));
    // The header counts: a lower number is less whatever is inside.
    assert_eq!(field(0, 9).value_cmp(&field(1, 1)), Ok(Order::Less));
    assert_eq!(field(1, 1).value_cmp(&field(0, 9)), Ok(Order::Greater));
    assert_eq!(field(0, 9).der_cmp(&field(1, 1)), Ok(Order::Less));
}

#[test]
fn implicit_fields_are_ordered_as_the_values_inside() {
    let field = |number: u8, value: u8| ContextSpecific {
        tag_number: TagNumber(number),
        tag_mode: TagMode::Implicit,
        value,
    };
    assert_eq!(field(0, 5).value_cmp(&field(0, 6)), Ok(Order::Less));
    assert_eq!(field(0, 6).value_cmp(&field(0, 5)), Ok(Order::Greater));
    assert_eq!(field(0, 5).value_cmp(&field(0, 5)), Ok(Order::Equal));
    // By content alone the number does not count; by encoding it does.
    assert_eq!(field(0, 5).value_cmp(&field(1, 5)), Ok(Order::Equal));
    assert_eq!(field(0, 5).der_cmp(&field(1, 5)), Ok(Order::Less));
}

#[test]
fn fields_of_different_modes_do_not_compare_consistently() {
    let explicit = ContextSpecific { tag_number: TagNumber(0), tag_mode: TagMode::Explicit, value: 5u8 };
    let implicit = ContextSpecific { tag_number: TagNumber(0), tag_mode: TagMode::Implicit, value: 5u8 };
    assert_eq!(explicit.value_cmp(&implicit), Ok(Order::Greater));
    assert_eq!(implicit.value_cmp(&explicit), Ok(Order::Equal));
}
