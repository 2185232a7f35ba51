//! PrintableString: text over a small set of ASCII characters.
use crate::asn1::any::spec_raw_content;
use crate::asn1::utf8_string::str_from_utf8;
use crate::decode::{lemma_tagged_round_trip, spec_decode_tagged, DecodeValue};
use crate::encode::{spec_encode_unit, write_bytes, EncodeValue};
use crate::error::Error;
use crate::header::Header;
use crate::length::{Length, MAX_LENGTH};
use crate::ord::{bytes_order, spec_bytes_order, Order, ValueOrd};
use crate::reader::SliceReader;
use crate::tag::{FixedTag, Tag};
use vstd::prelude::*;
use vstd::string::StringSliceAdditionalSpecFns;
use vstd::utf8::valid_utf8;

verus! {

/// Whether `b` is a character of PrintableString: a letter, a digit, a
/// space, or one of `' ( ) + , - . / : = ?`.
pub open spec fn spec_is_printable(b: u8) -> bool {
    ||| 0x41 <= b <= 0x5a
    ||| 0x61 <= b <= 0x7a
    ||| 0x30 <= b <= 0x39
    ||| b == 0x20
    ||| 0x27 <= b <= 0x29
    ||| 0x2b <= b <= 0x2f
    ||| b == 0x3a
    ||| b == 0x3d
    ||| b == 0x3f
}

/// Whether `bytes` are the text of a PrintableString: every one a character
/// of the set, together valid UTF-8, and not too many to have a length.
pub open spec fn spec_is_printable_string(bytes: Seq<u8>) -> bool {
    &&& forall|i: int| 0 <= i < bytes.len() ==> spec_is_printable(#[trigger] bytes[i])
    &&& valid_utf8(bytes)
    &&& bytes.len() <= MAX_LENGTH
}

/// The PrintableString of `bytes`, or `InvalidContent`.
pub open spec fn spec_printable_string(bytes: Seq<u8>) -> Result<Seq<u8>, Error> {
    if spec_is_printable_string(bytes) {
        Ok(bytes)
    } else {
        Err(Error::InvalidContent { tag: Tag::printable_string() })
    }
}

/// Parses the content of a PrintableString announced by `header` at the
/// start of `s`.
pub open spec fn spec_decode_printable_string(header: Header, s: Seq<u8>) -> Result<
    (Seq<u8>, nat),
    Error,
> {
    match spec_raw_content(header, s) {
        Err(e) => Err(e),
        Ok((c, n)) => match spec_printable_string(c) {
            Err(e) => Err(e),
            Ok(v) => Ok((v, n)),
        },
    }
}

/// Whether `b` is a character of PrintableString.
pub fn is_printable(b: u8) -> (r: bool)
    ensures
        r == spec_is_printable(b),
{
    (0x41 <= b && b <= 0x5a) || (0x61 <= b && b <= 0x7a) || (0x30 <= b && b <= 0x39) || b == 0x20 || (0x27
        <= b && b <= 0x29) || (0x2b <= b && b <= 0x2f) || b == 0x3a || b == 0x3d || b == 0x3f
}

/// Whether every byte is a character of PrintableString.
fn all_printable(bytes: &[u8]) -> (r: bool)
    ensures
        r == (forall|i: int| 0 <= i < bytes@.len() ==> spec_is_printable(#[trigger] bytes@[i])),
{
    let mut i: usize = 0;
    while i < bytes.len()
        invariant
            i <= bytes@.len(),
            forall|j: int| 0 <= j < i ==> spec_is_printable(#[trigger] bytes@[j]),
        decreases bytes@.len() - i,
    {
        if !is_printable(bytes[i]) {
            return false;
        }
        i = i + 1;
    }
    true
}

/// A PrintableString that borrows its text.
///
/// Its view is the sequence of the bytes of the text.
#[derive(Clone, Copy, Debug, PartialEq, Eq, PartialOrd, Ord)]
pub struct PrintableStringRef<'a> {
    inner: &'a str,
}

impl<'a> View for PrintableStringRef<'a> {
    type V = Seq<u8>;

    closed spec fn view(&self) -> Seq<u8> {
        self.inner.spec_bytes()
    }
}

impl<'a> PrintableStringRef<'a> {
    #[verifier::type_invariant]
    closed spec fn wf(self) -> bool {
        self.inner.spec_bytes().len() <= MAX_LENGTH
    }

    /// The PrintableString of the given bytes, or `InvalidContent`.
    pub fn new(bytes: &'a [u8]) -> (r: Result<Self, Error>)
        ensures
            match spec_printable_string(bytes@) {
                Ok(v) => r matches Ok(s) && s@ == v,
                Err(e) => r matches Err(x) && x == e,
            },
    {
        if bytes.len() > MAX_LENGTH as usize || !all_printable(bytes) {
            return Err(Error::InvalidContent { tag: Tag::printable_string() });
        }
        match str_from_utf8(bytes) {
            Some(text) => Ok(PrintableStringRef { inner: text }),
            None => Err(Error::InvalidContent { tag: Tag::printable_string() }),
        }
    }

    /// The text.
    pub fn as_str(&self) -> (text: &'a str)
        ensures
            text.spec_bytes() == self@,
    {
        self.inner
    }

    /// The bytes of the text.
    pub fn as_bytes(&self) -> (bytes: &'a [u8])
        ensures
            bytes@ == self@,
    {
        self.inner.as_bytes()
    }

    /// The number of bytes of the text.
    pub fn len(&self) -> (l: Length)
        ensures
            l.0 == self@.len(),
            l.wf(),
    {
        proof {
            use_type_invariant(self);
        }
        Length(self.inner.as_bytes().len() as u32)
    }

    /// Whether the text is empty.
    pub fn is_empty(&self) -> (b: bool)
        ensures
            b == (self@.len() == 0),
    {
        self.inner.as_bytes().len() == 0
    }
}

impl<'a> DecodeValue<'a> for PrintableStringRef<'a> {
    open spec fn spec_decode_value(header: Header, s: Seq<u8>) -> Result<(Self::V, nat), Error> {
        spec_decode_printable_string(header, s)
    }

    fn decode_value(reader: &mut SliceReader<'a>, header: Header) -> (r: Result<Self, Error>) {
        let c = reader.read_slice(header.length)?;
        PrintableStringRef::new(c)
    }
}

impl<'a> EncodeValue for PrintableStringRef<'a> {
    open spec fn spec_encode_value(v: Self::V) -> Result<Seq<u8>, Error> {
        Ok(v)
    }

    fn value_len(&self) -> (r: Result<Length, Error>) {
        Ok(self.len())
    }

    fn encode_value(&self, out: &mut Vec<u8>) -> (r: Result<(), Error>) {
        write_bytes(out, self.inner.as_bytes());
        Ok(())
    }
}

impl<'a> FixedTag for PrintableStringRef<'a> {
    open spec fn spec_fixed_tag() -> Tag {
        Tag::printable_string()
    }

    fn fixed_tag() -> (t: Tag) {
        Tag::printable_string()
    }
}

impl<'a> ValueOrd for PrintableStringRef<'a> {
    /// PrintableStrings are ordered as their bytes are.
    open spec fn spec_value_cmp(a: Self::V, b: Self::V) -> Result<Order, Error> {
        Ok(spec_bytes_order(a, b))
    }

    fn value_cmp(&self, other: &Self) -> (r: Result<Order, Error>) {
        Ok(bytes_order(self.inner.as_bytes(), other.inner.as_bytes()))
    }
}

impl<'a> AsRef<str> for PrintableStringRef<'a> {
    fn as_ref(&self) -> (text: &str)
        ensures
            text.spec_bytes() == self@,
    {
        self.inner
    }
}

/// Round trip: the encoding of a PrintableString decodes back to the same
/// bytes, whatever follows it.
pub proof fn lemma_printable_string_round_trip(bytes: Seq<u8>, rest: Seq<u8>)
    requires
        spec_is_printable_string(bytes),
    ensures
        spec_encode_unit(Tag::printable_string(), Ok(bytes)) matches Ok(e) && spec_decode_tagged::<
            PrintableStringRef,
        >(e + rest) == Ok::<(Seq<u8>, nat), Error>((bytes, e.len())),
{
    assert(bytes.take(bytes.len() as int) =~= bytes);
    lemma_tagged_round_trip::<PrintableStringRef>(bytes, rest);
}

} // verus!
