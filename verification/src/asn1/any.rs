//! A value of any type: a tag and content that is taken as it is.
use crate::decode::{spec_after, Decode};
use crate::encode::{write_bytes, EncodeValue};
use crate::error::Error;
use crate::header::{spec_parse_header, Header};
use crate::length::{Length, MAX_LENGTH};
use crate::reader::SliceReader;
use crate::tag::{Tag, Tagged};
use vstd::prelude::*;

verus! {

/// A tag together with content bytes borrowed from the input.
#[derive(Clone, Copy, Debug, PartialEq, Eq)]
pub struct AnyRef<'a> {
    tag: Tag,
    value: &'a [u8],
}

impl<'a> View for AnyRef<'a> {
    type V = (Tag, Seq<u8>);

    /// The tag and the content bytes.
    closed spec fn view(&self) -> (Tag, Seq<u8>) {
        (self.tag, self.value@)
    }
}

/// Parses the content that `header` announces at the start of `s`, taken as
/// it is: exactly as many bytes as the header's length says.
pub open spec fn spec_raw_content(header: Header, s: Seq<u8>) -> Result<(Seq<u8>, nat), Error> {
    if s.len() < header.length.0 {
        Err(Error::TruncatedInput)
    } else {
        Ok((s.take(header.length.0 as int), header.length.0 as nat))
    }
}

/// Parses one unit of whatever type at the start of `s`.
pub open spec fn spec_decode_any(s: Seq<u8>) -> Result<((Tag, Seq<u8>), nat), Error> {
    match spec_parse_header(s) {
        Err(e) => Err(e),
        Ok((header, n)) => match spec_raw_content(header, s.skip(n as int)) {
            Err(e) => Err(e),
            Ok((content, m)) => Ok(((header.tag, content), n + m)),
        },
    }
}

impl<'a> AnyRef<'a> {
    /// The content is short enough to have a length.
    #[verifier::type_invariant]
    closed spec fn wf(self) -> bool {
        self.value@.len() <= MAX_LENGTH
    }

    /// A value with the given tag and content, or `InvalidContent` under that
    /// tag if the content is longer than the largest length.
    pub fn new(tag: Tag, bytes: &'a [u8]) -> (r: Result<Self, Error>)
        ensures
            match r {
                Ok(any) => bytes@.len() <= MAX_LENGTH && any@ == (tag, bytes@),
                Err(e) => bytes@.len() > MAX_LENGTH && e == (Error::InvalidContent { tag }),
            },
    {
        if bytes.len() <= MAX_LENGTH as usize {
            Ok(AnyRef { tag, value: bytes })
        } else {
            Err(Error::InvalidContent { tag })
        }
    }

    /// The value with the given tag and content.
    pub closed spec fn spec_from_tag_and_value(tag: Tag, bytes: &'a [u8]) -> AnyRef<'a> {
        AnyRef { tag, value: bytes }
    }

    /// A value with the given tag and content, where the content is known
    /// to be short enough.
    pub(crate) fn from_tag_and_value(tag: Tag, bytes: &'a [u8]) -> (any: Self)
        requires
            bytes@.len() <= MAX_LENGTH,
        ensures
            any == AnyRef::spec_from_tag_and_value(tag, bytes),
            any@ == (tag, bytes@),
    {
        AnyRef { tag, value: bytes }
    }

    /// The content bytes.
    pub fn value(&self) -> (bytes: &'a [u8])
        ensures
            bytes@ == self@.1,
            bytes@.len() <= MAX_LENGTH,
    {
        proof {
            use_type_invariant(self);
        }
        self.value
    }

    /// Whether there is no content.
    pub fn is_empty(&self) -> (b: bool)
        ensures
            b == (self@.1.len() == 0),
    {
        self.value.len() == 0
    }
}

impl<'a> Decode<'a> for AnyRef<'a> {
    open spec fn spec_decode(s: Seq<u8>) -> Result<(Self::V, nat), Error> {
        spec_decode_any(s)
    }

    fn decode(reader: &mut SliceReader<'a>) -> (r: Result<Self, Error>) {
        let header = Header::decode(reader)?;
        proof {
            let n = spec_parse_header(old(reader)@)->Ok_0.1;
            reader.lemma_advanced_view(*old(reader), n);
        }
        let value = reader.read_slice(header.length)?;
        proof {
            use_type_invariant(&*reader);
        }
        Ok(AnyRef { tag: header.tag, value })
    }
}

impl<'a> Tagged for AnyRef<'a> {
    open spec fn spec_tag(v: Self::V) -> Tag {
        v.0
    }

    fn tag(&self) -> (t: Tag) {
        self.tag
    }
}

impl<'a> EncodeValue for AnyRef<'a> {
    open spec fn spec_encode_value(v: Self::V) -> Result<Seq<u8>, Error> {
        Ok(v.1)
    }

    fn value_len(&self) -> (r: Result<Length, Error>) {
        proof {
            use_type_invariant(self);
        }
        Length::from_usize(self.value.len())
    }

    fn encode_value(&self, out: &mut Vec<u8>) -> (r: Result<(), Error>) {
        write_bytes(out, self.value);
        Ok(())
    }
}

} // verus!
