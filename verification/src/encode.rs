//! The encoding contract that every value type meets.
use crate::error::Error;
use crate::header::{spec_header_bytes, Header};
use crate::length::{spec_length_of, Length};
use crate::tag::{Tag, Tagged};
use vstd::prelude::*;

verus! {

/// The length of an encoding, where there is one: `LengthOverflow` if it is
/// longer than the largest length.
pub open spec fn spec_encoding_len(encoding: Result<Seq<u8>, Error>) -> Result<Length, Error> {
    match encoding {
        Ok(bytes) => spec_length_of(bytes.len()),
        Err(e) => Err(e),
    }
}

/// What an encoder owes: `expected` decides the outcome.
///
/// If it is a byte string, the encoder appended exactly that. If it is an
/// error, the encoder returned that error, and what was in the output before
/// is still its beginning.
pub open spec fn encode_outcome(
    before: Seq<u8>,
    after: Seq<u8>,
    r: Result<(), Error>,
    expected: Result<Seq<u8>, Error>,
) -> bool {
    match expected {
        Ok(bytes) => r is Ok && after == before + bytes,
        Err(e) => r matches Err(x) && x == e && before.is_prefix_of(after),
    }
}

/// Appends `bytes` to `out`.
pub fn write_bytes(out: &mut Vec<u8>, bytes: &[u8])
    ensures
        final(out)@ == old(out)@ + bytes@,
{
    out.extend_from_slice(bytes);
    assert(out@ =~= old(out)@ + bytes@);
}

/// Copies `bytes` to the start of `buf` and returns that part of `buf`, or
/// fails with `LengthOverflow`, leaving `buf` as it was, if `buf` is too
/// short.
pub fn copy_to_slice<'b>(bytes: &[u8], buf: &'b mut [u8]) -> (r: Result<&'b [u8], Error>)
    ensures
        match r {
            Ok(written) => bytes@.len() <= old(buf)@.len() && written@ == bytes@ && final(buf)@
                == bytes@ + old(buf)@.skip(bytes@.len() as int),
            Err(e) => bytes@.len() > old(buf)@.len() && e == Error::LengthOverflow && final(buf)@
                == old(buf)@,
        },
{
    if bytes.len() > buf.len() {
        return Err(Error::LengthOverflow);
    }
    let mut i: usize = 0;
    while i < bytes.len()
        invariant
            i <= bytes@.len() <= buf@.len(),
            buf@.len() == old(buf)@.len(),
            forall|j: int| 0 <= j < i ==> buf@[j] == bytes@[j],
            forall|j: int| i <= j < buf@.len() ==> buf@[j] == old(buf)@[j],
        decreases bytes@.len() - i,
    {
        buf[i] = bytes[i];
        i = i + 1;
    }
    assert(buf@ =~= bytes@ + old(buf)@.skip(bytes@.len() as int));
    let written: &'b [u8] = buf;
    let written = vstd::slice::slice_subrange(written, 0, bytes.len());
    assert(written@ =~= bytes@);
    Ok(written)
}

/// Types that encode their own content, and know its length beforehand.
pub trait EncodeValue: View {
    /// The content bytes of the value that `v` models.
    spec fn spec_encode_value(v: Self::V) -> Result<Seq<u8>, Error>;

    /// The number of content bytes.
    fn value_len(&self) -> (r: Result<Length, Error>)
        ensures
            r == spec_encoding_len(Self::spec_encode_value(self@)),
    ;

    /// Appends the content bytes to `out`.
    fn encode_value(&self, out: &mut Vec<u8>) -> (r: Result<(), Error>)
        ensures
            encode_outcome(old(out)@, final(out)@, r, Self::spec_encode_value(self@)),
    ;
}

/// A complete unit: the header made of `tag` and the content's length, then
/// the content.
pub open spec fn spec_encode_unit(tag: Tag, content: Result<Seq<u8>, Error>) -> Result<Seq<u8>, Error> {
    match content {
        Err(e) => Err(e),
        Ok(bytes) => match spec_length_of(bytes.len()) {
            Err(e) => Err(e),
            Ok(length) => match spec_header_bytes(Header { tag, length }) {
                Err(e) => Err(e),
                Ok(header) => Ok(header + bytes),
            },
        },
    }
}

/// Types that encode a complete unit: header and content.
pub trait Encode: View {
    /// The encoding of the value that `v` models.
    spec fn spec_encode(v: Self::V) -> Result<Seq<u8>, Error>;

    /// The number of bytes of the encoding.
    fn encoded_len(&self) -> (r: Result<Length, Error>)
        ensures
            r == spec_encoding_len(Self::spec_encode(self@)),
    ;

    /// Appends the encoding to `out`.
    fn encode(&self, out: &mut Vec<u8>) -> (r: Result<(), Error>)
        ensures
            encode_outcome(old(out)@, final(out)@, r, Self::spec_encode(self@)),
    ;

    /// Writes the encoding to the start of `buf` and returns that part of
    /// `buf`; a `buf` too short for it is a `LengthOverflow`. On failure
    /// `buf` is as it was.
    fn encode_to_slice<'b>(&self, buf: &'b mut [u8]) -> (r: Result<&'b [u8], Error>)
        ensures
            match Self::spec_encode(self@) {
                Ok(bytes) => if bytes.len() <= old(buf)@.len() {
                    r matches Ok(written) && written@ == bytes && final(buf)@ == bytes + old(buf)@.skip(
                        bytes.len() as int,
                    )
                } else {
                    r matches Err(x) && x == Error::LengthOverflow && final(buf)@ == old(buf)@
                },
                Err(e) => r matches Err(x) && x == e && final(buf)@ == old(buf)@,
            },
    {
        let mut out: Vec<u8> = Vec::new();
        self.encode(&mut out)?;
        assert(out@ =~= Self::spec_encode(self@)->Ok_0);
        copy_to_slice(out.as_slice(), buf)
    }

    /// The encoding as a vector of its own.
    fn to_der(&self) -> (r: Result<Vec<u8>, Error>)
        ensures
            match Self::spec_encode(self@) {
                Ok(bytes) => r matches Ok(v) && v@ == bytes,
                Err(e) => r matches Err(x) && x == e,
            },
    {
        let mut out: Vec<u8> = Vec::new();
        self.encode(&mut out)?;
        assert(out@ =~= Self::spec_encode(self@)->Ok_0);
        Ok(out)
    }
}

impl<T: EncodeValue + Tagged> Encode for T {
    open spec fn spec_encode(v: Self::V) -> Result<Seq<u8>, Error> {
        spec_encode_unit(T::spec_tag(v), T::spec_encode_value(v))
    }

    fn encoded_len(&self) -> (r: Result<Length, Error>) {
        let content = self.value_len()?;
        let header = Header::new(self.tag(), content).encoded_len()?;
        header.checked_add(content)
    }

    fn encode(&self, out: &mut Vec<u8>) -> (r: Result<(), Error>) {
        let content = self.value_len()?;
        Header::new(self.tag(), content).encode(out)?;
        let ghost mid = out@;
        let r = self.encode_value(out);
        proof {
            let bytes = T::spec_encode_value(self@)->Ok_0;
            assert(mid + bytes =~= old(out)@ + spec_encode_unit(T::spec_tag(self@), Ok(bytes))->Ok_0);
        }
        r
    }
}

/// A unit is as long as its header and its content together, and its
/// header is the one made of the tag and the content's length.
pub proof fn lemma_unit_length(tag: Tag, content: Result<Seq<u8>, Error>)
    requires
        spec_encode_unit(tag, content) is Ok,
    ensures
        content matches Ok(c) && c.len() <= crate::length::MAX_LENGTH && (spec_header_bytes(
            Header { tag, length: Length(c.len() as u32) },
        ) matches Ok(h) && spec_encode_unit(tag, content) == Ok::<Seq<u8>, Error>(h + c)
            && spec_encode_unit(tag, content)->Ok_0.len() == h.len() + c.len() && 2 <= h.len() <= 6),
{
}

} // verus!
