//! UTF8String: text in the UTF-8 encoding.
use crate::asn1::any::spec_raw_content;
use crate::decode::{lemma_tagged_round_trip, spec_decode_tagged, DecodeValue};
use crate::encode::{spec_encode_unit, write_bytes, EncodeValue};
use crate::error::Error;
use crate::header::Header;
use crate::length::{Length, MAX_LENGTH};
use crate::ord::{bytes_order, spec_bytes_order, Order, ValueOrd};
use crate::reader::SliceReader;
use crate::tag::{FixedTag, Tag};
use vstd::prelude::*;
use vstd::string::StringSliceAdditionalSpecFns;
use vstd::utf8::valid_utf8;

verus! {

/// `core::str::from_utf8`: the text that `bytes` encode, if they are valid
/// UTF-8. The text found has exactly those bytes.
#[verifier::external_body]
pub(crate) fn str_from_utf8<'a>(bytes: &'a [u8]) -> (r: Option<&'a str>)
    ensures
        r is Some <==> valid_utf8(bytes@),
        r matches Some(s) ==> s.spec_bytes() == bytes@,
{
    match core::str::from_utf8(bytes) {
        Ok(s) => Some(s),
        Err(_) => None,
    }
}

/// A UTF-8 string that borrows its text.
///
/// Its view is the sequence of the bytes of the text.
#[derive(Clone, Copy, Debug, PartialEq, Eq, PartialOrd, Ord)]
pub struct Utf8StringRef<'a> {
    inner: &'a str,
}

impl<'a> View for Utf8StringRef<'a> {
    type V = Seq<u8>;

    closed spec fn view(&self) -> Seq<u8> {
        self.inner.spec_bytes()
    }
}

/// The UTF-8 string of `bytes`, or `InvalidContent` if they are no valid
/// UTF-8 or too many to have a length.
pub open spec fn spec_utf8_string(bytes: Seq<u8>) -> Result<Seq<u8>, Error> {
    if valid_utf8(bytes) && bytes.len() <= MAX_LENGTH {
        Ok(bytes)
    } else {
        Err(Error::InvalidContent { tag: Tag::utf8_string() })
    }
}

/// Parses the content of a UTF-8 string announced by `header` at the start
/// of `s`.
pub open spec fn spec_decode_utf8_string(header: Header, s: Seq<u8>) -> Result<(Seq<u8>, nat), Error> {
    match spec_raw_content(header, s) {
        Err(e) => Err(e),
        Ok((c, n)) => match spec_utf8_string(c) {
            Err(e) => Err(e),
            Ok(v) => Ok((v, n)),
        },
    }
}

impl<'a> Utf8StringRef<'a> {
    #[verifier::type_invariant]
    closed spec fn wf(self) -> bool {
        self.inner.spec_bytes().len() <= MAX_LENGTH
    }

    /// A UTF-8 string of the given text, or `InvalidContent` if it is too
    /// long to have a length.
    pub fn new(text: &'a str) -> (r: Result<Self, Error>)
        ensures
            match r {
                Ok(s) => s@ == text.spec_bytes() && s@.len() <= MAX_LENGTH,
                Err(e) => text.spec_bytes().len() > MAX_LENGTH && e == (Error::InvalidContent {
                    tag: Tag::utf8_string(),
                }),
            },
    {
        if text.as_bytes().len() <= MAX_LENGTH as usize {
            Ok(Utf8StringRef { inner: text })
        } else {
            Err(Error::InvalidContent { tag: Tag::utf8_string() })
        }
    }

    /// The text.
    pub fn as_str(&self) -> (text: &'a str)
        ensures
            text.spec_bytes() == self@,
    {
        self.inner
    }

    /// The bytes of the text.
    pub fn as_bytes(&self) -> (bytes: &'a [u8])
        ensures
            bytes@ == self@,
    {
        self.inner.as_bytes()
    }

    /// The number of bytes of the text.
    pub fn len(&self) -> (l: Length)
        ensures
            l.0 == self@.len(),
            l.wf(),
    {
        proof {
            use_type_invariant(self);
        }
        Length(self.inner.as_bytes().len() as u32)
    }

    /// Whether the text is empty.
    pub fn is_empty(&self) -> (b: bool)
        ensures
            b == (self@.len() == 0),
    {
        self.inner.as_bytes().len() == 0
    }
}

impl<'a> DecodeValue<'a> for Utf8StringRef<'a> {
    open spec fn spec_decode_value(header: Header, s: Seq<u8>) -> Result<(Self::V, nat), Error> {
        spec_decode_utf8_string(header, s)
    }

    fn decode_value(reader: &mut SliceReader<'a>, header: Header) -> (r: Result<Self, Error>) {
        let c = reader.read_slice(header.length)?;
        proof {
            use_type_invariant(&*reader);
        }
        match str_from_utf8(c) {
            Some(text) => Ok(Utf8StringRef { inner: text }),
            None => Err(Error::InvalidContent { tag: Tag::utf8_string() }),
        }
    }
}

impl<'a> EncodeValue for Utf8StringRef<'a> {
    open spec fn spec_encode_value(v: Self::V) -> Result<Seq<u8>, Error> {
        Ok(v)
    }

    fn value_len(&self) -> (r: Result<Length, Error>) {
        Ok(self.len())
    }

    fn encode_value(&self, out: &mut Vec<u8>) -> (r: Result<(), Error>) {
        write_bytes(out, self.inner.as_bytes());
        Ok(())
    }
}

impl<'a> FixedTag for Utf8StringRef<'a> {
    open spec fn spec_fixed_tag() -> Tag {
        Tag::utf8_string()
    }

    fn fixed_tag() -> (t: Tag) {
        Tag::utf8_string()
    }
}

impl<'a> ValueOrd for Utf8StringRef<'a> {
    /// UTF-8 strings are ordered as their bytes are.
    open spec fn spec_value_cmp(a: Self::V, b: Self::V) -> Result<Order, Error> {
        Ok(spec_bytes_order(a, b))
    }

    fn value_cmp(&self, other: &Self) -> (r: Result<Order, Error>) {
        Ok(bytes_order(self.inner.as_bytes(), other.inner.as_bytes()))
    }
}

/// Round trip: the encoding of a UTF-8 string decodes back to the same
/// bytes, whatever follows it.
pub proof fn lemma_utf8_string_round_trip(bytes: Seq<u8>, rest: Seq<u8>)
    requires
        valid_utf8(bytes),
        bytes.len() <= MAX_LENGTH,
    ensures
        spec_encode_unit(Tag::utf8_string(), Ok(bytes)) matches Ok(e) && spec_decode_tagged::<
            Utf8StringRef,
        >(e + rest) == Ok::<(Seq<u8>, nat), Error>((bytes, e.len())),
{
    assert(bytes.take(bytes.len() as int) =~= bytes);
    lemma_tagged_round_trip::<Utf8StringRef>(bytes, rest);
}

} // verus!
