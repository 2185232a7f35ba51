//! Tags: class, construction flag and number, and their single-octet form.
use crate::error::Error;
use vstd::prelude::*;

verus! {

/// The largest tag number that fits the single-octet form of a tag.
pub const MAX_TAG_NUMBER: u8 = 30;

/// The number of a tag within its class.
///
/// Numbers `0..=30` have a single-octet form; larger numbers are representable
/// but no tag carrying one can be encoded or is ever decoded.
#[derive(Clone, Copy, Debug, PartialEq, Eq, PartialOrd, Ord, Structural)]
pub struct TagNumber(pub u8);

impl TagNumber {
    /// The number as an integer.
    pub fn value(self) -> (v: u8)
        ensures
            v == self.0,
    {
        self.0
    }
}

/// The class of a tag: bits 7 and 6 of its octet.
#[derive(Clone, Copy, Debug, PartialEq, Eq, Structural)]
pub enum Class {
    Universal,
    Application,
    ContextSpecific,
    Private,
}

/// How a context-specific field carries the value inside it.
#[derive(Clone, Copy, Debug, PartialEq, Eq, PartialOrd, Ord, Structural)]
pub enum TagMode {
    /// The field's content is the complete encoding of the inner value.
    Explicit,
    /// The field's tag replaces the inner value's own tag.
    Implicit,
}

impl Default for TagMode {
    fn default() -> (m: TagMode)
        ensures
            m == TagMode::Explicit,
    {
        TagMode::Explicit
    }
}

/// A tag: what identifies the type of an encoded value.
#[derive(Clone, Copy, Debug, PartialEq, Eq, Structural)]
pub enum Tag {
    Universal { constructed: bool, number: TagNumber },
    Application { constructed: bool, number: TagNumber },
    ContextSpecific { constructed: bool, number: TagNumber },
    Private { constructed: bool, number: TagNumber },
}

/// The two most significant bits of a tag octet, as a summand.
pub open spec fn spec_class_bits(class: Class) -> int {
    match class {
        Class::Universal => 0,
        Class::Application => 0x40,
        Class::ContextSpecific => 0x80,
        Class::Private => 0xc0,
    }
}

/// Whether `number` is a universal type whose content is a sequence of nested
/// units: SEQUENCE (16) and SET (17).
pub open spec fn spec_universal_is_constructed(number: u8) -> bool {
    number == 16 || number == 17
}

/// Whether `number` is a universal number reserved by the standard: 0 marks
/// the end of indefinite-length content, 15 is kept for future use.
pub open spec fn spec_universal_is_reserved(number: u8) -> bool {
    number == 0 || number == 15
}

impl Tag {
    /// The class of the tag.
    pub open spec fn spec_class(self) -> Class {
        match self {
            Tag::Universal { .. } => Class::Universal,
            Tag::Application { .. } => Class::Application,
            Tag::ContextSpecific { .. } => Class::ContextSpecific,
            Tag::Private { .. } => Class::Private,
        }
    }

    /// The number of the tag.
    pub open spec fn spec_number(self) -> TagNumber {
        match self {
            Tag::Universal { number, .. } => number,
            Tag::Application { number, .. } => number,
            Tag::ContextSpecific { number, .. } => number,
            Tag::Private { number, .. } => number,
        }
    }

    /// The construction flag of the tag.
    pub open spec fn spec_is_constructed(self) -> bool {
        match self {
            Tag::Universal { constructed, .. } => constructed,
            Tag::Application { constructed, .. } => constructed,
            Tag::ContextSpecific { constructed, .. } => constructed,
            Tag::Private { constructed, .. } => constructed,
        }
    }

    /// Builds a tag from its three parts.
    pub open spec fn spec_from_parts(class: Class, constructed: bool, number: TagNumber) -> Tag {
        match class {
            Class::Universal => Tag::Universal { constructed, number },
            Class::Application => Tag::Application { constructed, number },
            Class::ContextSpecific => Tag::ContextSpecific { constructed, number },
            Class::Private => Tag::Private { constructed, number },
        }
    }

    /// Whether the tag has a single-octet form.
    ///
    /// The number is at most 30. A universal tag is neither reserved nor at
    /// odds with its type: it is constructed exactly when it is SEQUENCE or SET.
    pub open spec fn wf(self) -> bool {
        &&& self.spec_number().0 <= MAX_TAG_NUMBER
        &&& self is Universal ==> {
            &&& !spec_universal_is_reserved(self.spec_number().0)
            &&& self.spec_is_constructed() == spec_universal_is_constructed(self.spec_number().0)
        }
    }

    /// The octet of a well-formed tag: class in bits 7-6, construction flag in
    /// bit 5, number in bits 4-0.
    pub open spec fn spec_octet(self) -> u8 {
        (spec_class_bits(self.spec_class()) + (if self.spec_is_constructed() {
            0x20int
        } else {
            0
        }) + self.spec_number().0) as u8
    }

    /// The tag that `byte` stands for, if it stands for one.
    pub open spec fn spec_from_octet(byte: u8) -> Option<Tag> {
        let class = if byte < 0x40 {
            Class::Universal
        } else if byte < 0x80 {
            Class::Application
        } else if byte < 0xc0 {
            Class::ContextSpecific
        } else {
            Class::Private
        };
        let tag = Tag::spec_from_parts(class, (byte / 0x20) % 2 == 1, TagNumber(byte % 0x20));
        if tag.wf() {
            Some(tag)
        } else {
            None
        }
    }

    /// Decoding the octet of a well-formed tag gives the tag back.
    pub proof fn lemma_octet_round_trip(tag: Tag)
        requires
            tag.wf(),
        ensures
            Tag::spec_from_octet(tag.spec_octet()) == Some(tag),
    {
    }

    /// A byte that stands for a tag is the octet of that tag, and of no other.
    pub proof fn lemma_from_octet_canonical(byte: u8)
        ensures
            Tag::spec_from_octet(byte) matches Some(tag) ==> tag.wf() && tag.spec_octet() == byte,
    {
    }

    /// The tag of INTEGER.
    #[verifier::allow_in_spec]
    pub fn integer() -> Tag
        returns
            (Tag::Universal { constructed: false, number: TagNumber(2) }),
    {
        Tag::Universal { constructed: false, number: TagNumber(2) }
    }

    /// The tag of BIT STRING.
    #[verifier::allow_in_spec]
    pub fn bit_string() -> Tag
        returns
            (Tag::Universal { constructed: false, number: TagNumber(3) }),
    {
        Tag::Universal { constructed: false, number: TagNumber(3) }
    }

    /// The tag of OCTET STRING.
    #[verifier::allow_in_spec]
    pub fn octet_string() -> Tag
        returns
            (Tag::Universal { constructed: false, number: TagNumber(4) }),
    {
        Tag::Universal { constructed: false, number: TagNumber(4) }
    }

    /// The tag of UTF8String.
    #[verifier::allow_in_spec]
    pub fn utf8_string() -> Tag
        returns
            (Tag::Universal { constructed: false, number: TagNumber(12) }),
    {
        Tag::Universal { constructed: false, number: TagNumber(12) }
    }

    /// The tag of PrintableString.
    #[verifier::allow_in_spec]
    pub fn printable_string() -> Tag
        returns
            (Tag::Universal { constructed: false, number: TagNumber(19) }),
    {
        Tag::Universal { constructed: false, number: TagNumber(19) }
    }

    /// The tag of SEQUENCE.
    #[verifier::allow_in_spec]
    pub fn sequence() -> Tag
        returns
            (Tag::Universal { constructed: true, number: TagNumber(16) }),
    {
        Tag::Universal { constructed: true, number: TagNumber(16) }
    }

    /// The tag of SET.
    #[verifier::allow_in_spec]
    pub fn set() -> Tag
        returns
            (Tag::Universal { constructed: true, number: TagNumber(17) }),
    {
        Tag::Universal { constructed: true, number: TagNumber(17) }
    }

    /// The class of the tag.
    pub fn class(self) -> (c: Class)
        ensures
            c == self.spec_class(),
    {
        match self {
            Tag::Universal { .. } => Class::Universal,
            Tag::Application { .. } => Class::Application,
            Tag::ContextSpecific { .. } => Class::ContextSpecific,
            Tag::Private { .. } => Class::Private,
        }
    }

    /// The number of the tag.
    pub fn number(self) -> (n: TagNumber)
        ensures
            n == self.spec_number(),
    {
        match self {
            Tag::Universal { number, .. } => number,
            Tag::Application { number, .. } => number,
            Tag::ContextSpecific { number, .. } => number,
            Tag::Private { number, .. } => number,
        }
    }

    /// Whether the content under this tag is a sequence of nested units.
    pub fn is_constructed(self) -> (c: bool)
        ensures
            c == self.spec_is_constructed(),
    {
        match self {
            Tag::Universal { constructed, .. } => constructed,
            Tag::Application { constructed, .. } => constructed,
            Tag::ContextSpecific { constructed, .. } => constructed,
            Tag::Private { constructed, .. } => constructed,
        }
    }

    /// Whether the tag is of the universal class.
    pub fn is_universal(self) -> (b: bool)
        ensures
            b == (self is Universal),
    {
        match self {
            Tag::Universal { .. } => true,
            _ => false,
        }
    }

    /// Whether the tag is of the application class.
    pub fn is_application(self) -> (b: bool)
        ensures
            b == (self is Application),
    {
        match self {
            Tag::Application { .. } => true,
            _ => false,
        }
    }

    /// Whether the tag is of the context-specific class.
    pub fn is_context_specific(self) -> (b: bool)
        ensures
            b == (self is ContextSpecific),
    {
        match self {
            Tag::ContextSpecific { .. } => true,
            _ => false,
        }
    }

    /// Whether the tag is of the private class.
    pub fn is_private(self) -> (b: bool)
        ensures
            b == (self is Private),
    {
        match self {
            Tag::Private { .. } => true,
            _ => false,
        }
    }

    /// Whether the tag has a single-octet form.
    pub fn is_well_formed(self) -> (b: bool)
        ensures
            b == self.wf(),
    {
        let number = self.number().0;
        if number > MAX_TAG_NUMBER {
            false
        } else if self.is_universal() {
            number != 0 && number != 15 && self.is_constructed() == (number == 16 || number == 17)
        } else {
            true
        }
    }

    /// The octet of the tag, or `MalformedTag` if it has none.
    pub fn octet(self) -> (r: Result<u8, Error>)
        ensures
            r == (if self.wf() {
                Ok::<u8, Error>(self.spec_octet())
            } else {
                Err(Error::MalformedTag)
            }),
    {
        if !self.is_well_formed() {
            return Err(Error::MalformedTag);
        }
        let class_bits: u8 = match self.class() {
            Class::Universal => 0x00,
            Class::Application => 0x40,
            Class::ContextSpecific => 0x80,
            Class::Private => 0xc0,
        };
        let flag: u8 = if self.is_constructed() {
            0x20
        } else {
            0x00
        };
        let number: u8 = self.number().0;
        assert(class_bits | flag | number == class_bits + flag + number) by (bit_vector)
            requires
                class_bits == 0x00 || class_bits == 0x40 || class_bits == 0x80 || class_bits == 0xc0,
                flag == 0x00 || flag == 0x20,
                number <= 30,
        ;
        Ok(class_bits | flag | number)
    }

    /// The tag that `byte` stands for, or `MalformedTag` if it stands for none.
    pub fn from_octet(byte: u8) -> (r: Result<Tag, Error>)
        ensures
            r == (match Tag::spec_from_octet(byte) {
                Some(tag) => Ok::<Tag, Error>(tag),
                None => Err(Error::MalformedTag),
            }),
    {
        let constructed = byte & 0x20 != 0;
        let number = TagNumber(byte & 0x1f);
        assert((byte & 0x20 != 0) == ((byte / 0x20) % 2 == 1)) by (bit_vector);
        assert(byte & 0x1f == byte % 0x20) by (bit_vector);
        assert(byte >> 6 == byte / 0x40) by (bit_vector);
        let tag = match byte >> 6 {
            0 => Tag::Universal { constructed, number },
            1 => Tag::Application { constructed, number },
            2 => Tag::ContextSpecific { constructed, number },
            _ => Tag::Private { constructed, number },
        };
        if tag.is_well_formed() {
            Ok(tag)
        } else {
            Err(Error::MalformedTag)
        }
    }

    /// `Ok(self)` if the tag equals `expected`, else `UnexpectedTag` naming both.
    pub fn assert_eq(self, expected: Tag) -> (r: Result<Tag, Error>)
        ensures
            r == (if self == expected {
                Ok::<Tag, Error>(self)
            } else {
                Err(self.spec_unexpected_error(Some(expected)))
            }),
    {
        if self == expected {
            Ok(self)
        } else {
            Err(self.unexpected_error(Some(expected)))
        }
    }

    /// The error for meeting this tag where `expected` was wanted.
    pub open spec fn spec_unexpected_error(self, expected: Option<Tag>) -> Error {
        Error::UnexpectedTag { expected, actual: self }
    }

    /// The error for meeting this tag where `expected` was wanted.
    pub fn unexpected_error(self, expected: Option<Tag>) -> (e: Error)
        ensures
            e == self.spec_unexpected_error(expected),
    {
        Error::UnexpectedTag { expected, actual: self }
    }

    /// The error for content that is not valid under this tag.
    pub fn value_error(self) -> (e: Error)
        ensures
            e == (Error::InvalidContent { tag: self }),
    {
        Error::InvalidContent { tag: self }
    }

    /// The error for a construction flag that disagrees with the value's own.
    pub fn flag_mismatch_error(self) -> (e: Error)
        ensures
            e == (Error::ConstructedFlagMismatch { tag: self }),
    {
        Error::ConstructedFlagMismatch { tag: self }
    }
}

/// Types that report the tag they are encoded under.
pub trait Tagged: View {
    /// The tag of the value that `v` models.
    spec fn spec_tag(v: Self::V) -> Tag;

    /// The tag of this value.
    fn tag(&self) -> (t: Tag)
        ensures
            t == Self::spec_tag(self@),
    ;
}

/// Types all of whose values are encoded under one tag.
pub trait FixedTag: View {
    /// The tag of every value of the type.
    spec fn spec_fixed_tag() -> Tag;

    /// The tag of every value of the type.
    fn fixed_tag() -> (t: Tag)
        ensures
            t == Self::spec_fixed_tag(),
    ;
}

impl<T: FixedTag> Tagged for T {
    open spec fn spec_tag(v: Self::V) -> Tag {
        T::spec_fixed_tag()
    }

    fn tag(&self) -> (t: Tag) {
        T::fixed_tag()
    }
}

/// Types that a decoder choosing among candidates can pick by the tag it
/// observes.
pub trait Choice {
    /// Whether a value of this type can begin with `tag`.
    spec fn spec_can_decode(tag: Tag) -> bool;

    /// Whether a value of this type can begin with `tag`.
    fn can_decode(tag: Tag) -> (b: bool)
        ensures
            b == Self::spec_can_decode(tag),
    ;
}

} // verus!
