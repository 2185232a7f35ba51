//! BIT STRING: bytes of bits, the last of which may be partly unused.
use crate::asn1::any::spec_raw_content;
use crate::decode::{lemma_tagged_round_trip, spec_decode_tagged, DecodeValue};
use crate::encode::{spec_encode_unit, write_bytes, EncodeValue};
use crate::error::Error;
use crate::header::Header;
use crate::length::{Length, MAX_LENGTH};
use crate::ord::{bytes_order, spec_bytes_order, Order, ValueOrd};
use crate::reader::SliceReader;
use crate::tag::{FixedTag, Tag};
use vstd::prelude::*;
use vstd::slice::slice_subrange;

verus! {

/// A bit string that borrows its bytes.
///
/// Its view is the number of unused bits in the last byte, and the bytes.
#[derive(Clone, Copy, Debug, PartialEq, Eq, PartialOrd, Ord)]
pub struct BitStringRef<'a> {
    unused_bits: u8,
    inner: &'a [u8],
}

impl<'a> View for BitStringRef<'a> {
    type V = (u8, Seq<u8>);

    closed spec fn view(&self) -> (u8, Seq<u8>) {
        (self.unused_bits, self.inner@)
    }
}

/// Whether `unused` unused bits and `bytes` make a bit string: at most
/// seven bits are unused, none where there is no byte, and the content, one
/// byte longer than `bytes`, has a length.
pub open spec fn spec_is_bit_string(unused: u8, bytes: Seq<u8>) -> bool {
    &&& unused <= 7
    &&& bytes.len() == 0 ==> unused == 0
    &&& bytes.len() < MAX_LENGTH
}

/// The bit string of `unused` unused bits and `bytes`, or `InvalidContent`.
pub open spec fn spec_bit_string(unused: u8, bytes: Seq<u8>) -> Result<(u8, Seq<u8>), Error> {
    if spec_is_bit_string(unused, bytes) {
        Ok((unused, bytes))
    } else {
        Err(Error::InvalidContent { tag: Tag::bit_string() })
    }
}

/// Parses the content of a bit string announced by `header` at the start of
/// `s`: one byte that counts the unused bits, then the bytes.
pub open spec fn spec_decode_bit_string(header: Header, s: Seq<u8>) -> Result<((u8, Seq<u8>), nat), Error> {
    match spec_raw_content(header, s) {
        Err(e) => Err(e),
        Ok((c, n)) => if c.len() == 0 {
            Err(Error::InvalidContent { tag: Tag::bit_string() })
        } else {
            match spec_bit_string(c[0], c.skip(1)) {
                Err(e) => Err(e),
                Ok(v) => Ok((v, n)),
            }
        },
    }
}

impl<'a> BitStringRef<'a> {
    #[verifier::type_invariant]
    closed spec fn wf(self) -> bool {
        spec_is_bit_string(self.unused_bits, self.inner@)
    }

    /// A bit string of the given bytes, the last `unused_bits` bits of which
    /// do not count.
    pub fn new(unused_bits: u8, bytes: &'a [u8]) -> (r: Result<Self, Error>)
        ensures
            match spec_bit_string(unused_bits, bytes@) {
                Ok(v) => r matches Ok(s) && s@ == v,
                Err(e) => r matches Err(x) && x == e,
            },
    {
        if unused_bits > 7 || (bytes.len() == 0 && unused_bits != 0) || bytes.len()
            >= MAX_LENGTH as usize {
            Err(Error::InvalidContent { tag: Tag::bit_string() })
        } else {
            Ok(BitStringRef { unused_bits, inner: bytes })
        }
    }

    /// A bit string of all the bits of the given bytes.
    pub fn from_bytes(bytes: &'a [u8]) -> (r: Result<Self, Error>)
        ensures
            match spec_bit_string(0, bytes@) {
                Ok(v) => r matches Ok(s) && s@ == v,
                Err(e) => r matches Err(x) && x == e,
            },
    {
        BitStringRef::new(0, bytes)
    }

    /// The number of bits of the last byte that do not count.
    pub fn unused_bits(&self) -> (n: u8)
        ensures
            n == self@.0,
            n <= 7,
    {
        proof {
            use_type_invariant(self);
        }
        self.unused_bits
    }

    /// The bytes, if all of their bits count.
    pub fn as_bytes(&self) -> (r: Option<&'a [u8]>)
        ensures
            match r {
                Some(bytes) => self@.0 == 0 && bytes@ == self@.1,
                None => self@.0 != 0,
            },
    {
        if self.unused_bits == 0 {
            Some(self.inner)
        } else {
            None
        }
    }

    /// The bytes, whether or not all of their bits count.
    pub fn raw_bytes(&self) -> (bytes: &'a [u8])
        ensures
            bytes@ == self@.1,
    {
        self.inner
    }
}

impl<'a> DecodeValue<'a> for BitStringRef<'a> {
    open spec fn spec_decode_value(header: Header, s: Seq<u8>) -> Result<(Self::V, nat), Error> {
        spec_decode_bit_string(header, s)
    }

    fn decode_value(reader: &mut SliceReader<'a>, header: Header) -> (r: Result<Self, Error>) {
        let c = reader.read_slice(header.length)?;
        if c.len() == 0 {
            return Err(Error::InvalidContent { tag: Tag::bit_string() });
        }
        let bytes = slice_subrange(c, 1, c.len());
        assert(bytes@ =~= c@.skip(1));
        BitStringRef::new(c[0], bytes)
    }
}

impl<'a> EncodeValue for BitStringRef<'a> {
    open spec fn spec_encode_value(v: Self::V) -> Result<Seq<u8>, Error> {
        Ok(seq![v.0] + v.1)
    }

    fn value_len(&self) -> (r: Result<Length, Error>) {
        proof {
            use_type_invariant(self);
        }
        Length::from_usize(self.inner.len() + 1)
    }

    fn encode_value(&self, out: &mut Vec<u8>) -> (r: Result<(), Error>) {
        out.push(self.unused_bits);
        write_bytes(out, self.inner);
        assert(out@ =~= old(out)@ + (seq![self@.0] + self@.1));
        Ok(())
    }
}

impl<'a> FixedTag for BitStringRef<'a> {
    open spec fn spec_fixed_tag() -> Tag {
        Tag::bit_string()
    }

    fn fixed_tag() -> (t: Tag) {
        Tag::bit_string()
    }
}

/// The content of a bit string.
pub open spec fn spec_bit_string_bytes(v: (u8, Seq<u8>)) -> Seq<u8> {
    seq![v.0] + v.1
}

impl<'a> ValueOrd for BitStringRef<'a> {
    /// Bit strings are ordered as their contents are.
    open spec fn spec_value_cmp(a: Self::V, b: Self::V) -> Result<Order, Error> {
        Ok(spec_bytes_order(spec_bit_string_bytes(a), spec_bit_string_bytes(b)))
    }

    fn value_cmp(&self, other: &Self) -> (r: Result<Order, Error>) {
        let mut mine: Vec<u8> = Vec::new();
        let _ = self.encode_value(&mut mine);
        let mut theirs: Vec<u8> = Vec::new();
        let _ = other.encode_value(&mut theirs);
        assert(mine@ =~= spec_bit_string_bytes(self@));
        assert(theirs@ =~= spec_bit_string_bytes(other@));
        Ok(bytes_order(mine.as_slice(), theirs.as_slice()))
    }
}

/// Round trip: the encoding of a bit string decodes back to the bit string,
/// whatever follows it.
pub proof fn lemma_bit_string_round_trip(unused: u8, bytes: Seq<u8>, rest: Seq<u8>)
    requires
        spec_is_bit_string(unused, bytes),
    ensures
        spec_encode_unit(Tag::bit_string(), Ok(seq![unused] + bytes)) matches Ok(e)
            && spec_decode_tagged::<BitStringRef>(e + rest) == Ok::<((u8, Seq<u8>), nat), Error>(
            ((unused, bytes), e.len()),
        ),
{
    let c = seq![unused] + bytes;
    assert(c.take(c.len() as int) =~= c);
    assert(c.skip(1) =~= bytes);
    lemma_tagged_round_trip::<BitStringRef>((unused, bytes), rest);
}

} // verus!
