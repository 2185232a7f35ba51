//! Headers: the tag and length that prefix every encoded value.
use crate::error::Error;
use crate::length::{spec_length_bytes, spec_parse_length, Length};
use crate::length::{lemma_length_round_trip, lemma_parse_length_canonical};
use crate::reader::SliceReader;
use crate::tag::Tag;
use vstd::prelude::*;

verus! {

/// The tag and length of an encoded value.
#[derive(Clone, Copy, Debug, PartialEq, Eq, Structural)]
pub struct Header {
    /// What kind of value follows.
    pub tag: Tag,
    /// How many bytes of content follow.
    pub length: Length,
}

/// The encoding of a header: the tag's octet, then the canonical encoding of
/// the length. A tag without an octet is a `MalformedTag`, a length that is
/// not valid a `LengthOverflow`.
pub open spec fn spec_header_bytes(header: Header) -> Result<Seq<u8>, Error> {
    if !header.tag.wf() {
        Err(Error::MalformedTag)
    } else if !header.length.wf() {
        Err(Error::LengthOverflow)
    } else {
        Ok(seq![header.tag.spec_octet()] + spec_length_bytes(header.length.0 as nat))
    }
}

/// Parses a header at the start of `s`: the header and the number of bytes it
/// occupies.
pub open spec fn spec_parse_header(s: Seq<u8>) -> Result<(Header, nat), Error> {
    if s.len() == 0 {
        Err(Error::TruncatedInput)
    } else {
        match Tag::spec_from_octet(s[0]) {
            None => Err(Error::MalformedTag),
            Some(tag) => match spec_parse_length(s.skip(1)) {
                Err(e) => Err(e),
                Ok((length, n)) => Ok((Header { tag, length }, n + 1)),
            },
        }
    }
}

/// Parsing the encoding of a header gives the header back, whatever follows
/// the encoding.
pub proof fn lemma_header_round_trip(header: Header, rest: Seq<u8>)
    requires
        spec_header_bytes(header) is Ok,
    ensures
        spec_parse_header(spec_header_bytes(header)->Ok_0 + rest) == Ok::<(Header, nat), Error>(
            (header, spec_header_bytes(header)->Ok_0.len()),
        ),
{
    let l = spec_length_bytes(header.length.0 as nat);
    let s = spec_header_bytes(header)->Ok_0 + rest;
    Tag::lemma_octet_round_trip(header.tag);
    lemma_length_round_trip(header.length, rest);
    assert(s.skip(1) =~= l + rest);
}

/// A header is accepted only in its one encoding: the bytes that parsing
/// consumed are the encoding of the header it found.
pub proof fn lemma_parse_header_canonical(s: Seq<u8>)
    ensures
        spec_parse_header(s) matches Ok((header, n)) ==> 2 <= n <= s.len() && n <= 6
            && spec_header_bytes(header) == Ok::<Seq<u8>, Error>(s.subrange(0, n as int)),
{
    if let Ok((header, n)) = spec_parse_header(s) {
        Tag::lemma_from_octet_canonical(s[0]);
        lemma_parse_length_canonical(s.skip(1));
        assert(s.skip(1).subrange(0, n - 1) =~= s.subrange(1, n as int));
        assert(s.subrange(0, n as int) =~= seq![s[0]] + s.subrange(1, n as int));
    }
}

/// A header whose length is in the long form where the short form suffices
/// is rejected, as is one whose long form begins with a zero octet.
pub proof fn lemma_header_rejects_non_canonical_length(s: Seq<u8>)
    requires
        s.len() >= 3,
        Tag::spec_from_octet(s[0]) is Some,
        0x81 <= s[1] <= 0x84,
        s.len() >= 2 + (s[1] - 0x80),
        s[2] == 0 || (s[1] == 0x81 && s[2] < 0x80),
    ensures
        spec_parse_header(s) == Err::<(Header, nat), Error>(Error::NonCanonicalLength),
{
    let t = s.skip(1);
    let n = s[1] - 0x80;
    assert(t[0] == s[1] && t[1] == s[2]);
    if s[1] == 0x81 {
        assert(t.subrange(1, 2)[0] == s[2]);
    }
}

/// No header's encoding is the beginning of another's: if one encoding
/// begins with the other, the headers are the same.
pub proof fn lemma_header_bytes_prefix_free(a: Header, b: Header)
    requires
        spec_header_bytes(a) is Ok,
        spec_header_bytes(b) is Ok,
        spec_header_bytes(a)->Ok_0.is_prefix_of(spec_header_bytes(b)->Ok_0),
    ensures
        a == b,
{
    let ha = spec_header_bytes(a)->Ok_0;
    let hb = spec_header_bytes(b)->Ok_0;
    let rest = hb.skip(ha.len() as int);
    lemma_header_round_trip(a, rest);
    lemma_header_round_trip(b, Seq::empty());
    assert(ha + rest =~= hb);
    assert(hb + Seq::<u8>::empty() =~= hb);
}

impl Header {
    /// A header from its parts.
    pub fn new(tag: Tag, length: Length) -> (h: Header)
        ensures
            h == (Header { tag, length }),
    {
        Header { tag, length }
    }

    /// Reads a header.
    pub fn decode(reader: &mut SliceReader<'_>) -> (r: Result<Header, Error>)
        ensures
            match spec_parse_header(old(reader)@) {
                Ok((h, n)) => r == Ok::<Header, Error>(h) && final(reader).advanced(*old(reader), n),
                Err(e) => r == Err::<Header, Error>(e) && final(reader).not_behind(*old(reader)),
            },
    {
        let byte = reader.read_byte()?;
        let tag = Tag::from_octet(byte)?;
        proof {
            reader.lemma_advanced_view(*old(reader), 1);
        }
        let length = Length::decode(reader)?;
        Ok(Header { tag, length })
    }

    /// Parses the header that comes next, without reading it.
    pub fn peek(reader: &SliceReader<'_>) -> (r: Result<Header, Error>)
        ensures
            match spec_parse_header(reader@) {
                Ok((h, n)) => r == Ok::<Header, Error>(h),
                Err(e) => r == Err::<Header, Error>(e),
            },
    {
        let mut ahead = *reader;
        Header::decode(&mut ahead)
    }

    /// The number of bytes of the header's encoding.
    pub fn encoded_len(&self) -> (r: Result<Length, Error>)
        ensures
            match spec_header_bytes(*self) {
                Ok(b) => r == Ok::<Length, Error>(Length(b.len() as u32)) && 2 <= b.len() <= 6,
                Err(e) => r == Err::<Length, Error>(e),
            },
    {
        let _ = self.tag.octet()?;
        if self.length.0 > crate::length::MAX_LENGTH {
            return Err(Error::LengthOverflow);
        }
        let n = self.length.encoded_len();
        Ok(Length(1 + n.0))
    }

    /// Appends the header's encoding to `out`; on failure `out` is as it was.
    pub fn encode(&self, out: &mut Vec<u8>) -> (r: Result<(), Error>)
        ensures
            match spec_header_bytes(*self) {
                Ok(b) => r is Ok && final(out)@ == old(out)@ + b,
                Err(e) => r == Err::<(), Error>(e) && final(out)@ == old(out)@,
            },
    {
        let octet = self.tag.octet()?;
        if self.length.0 > crate::length::MAX_LENGTH {
            return Err(Error::LengthOverflow);
        }
        out.push(octet);
        let r = self.length.encode(out);
        assert(out@ =~= old(out)@ + spec_header_bytes(*self)->Ok_0);
        r
    }
}

} // verus!
