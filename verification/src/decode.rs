//! The decoding contract that every value type meets.
use crate::encode::{spec_encode_unit, EncodeValue};
use crate::error::Error;
use crate::header::{lemma_header_round_trip, lemma_parse_header_canonical};
use crate::header::{spec_header_bytes, spec_parse_header, Header};
use crate::length::{Length, MAX_LENGTH};
use crate::reader::{decode_outcome, spec_finish, SliceReader};
use crate::tag::FixedTag;
use vstd::prelude::*;

verus! {

/// Reading a region bounded to `len` bytes where `avail` bytes are left, when
/// parsing those `len` bytes gives `inner`.
///
/// The region must be available in full (else `TruncatedInput`), and what is
/// parsed inside must use all of it (else `TrailingData`).
pub open spec fn spec_read_nested<V>(avail: nat, len: nat, inner: Result<(V, nat), Error>) -> Result<
    (V, nat),
    Error,
> {
    if avail < len {
        Err(Error::TruncatedInput)
    } else {
        match inner {
            Err(e) => Err(e),
            Ok((v, n)) => if n == len {
                Ok((v, len))
            } else {
                Err(Error::TrailingData)
            },
        }
    }
}

/// The outcome for a buffer `s` that must hold one unit and nothing else,
/// when parsing a unit at its start gives `unit`.
///
/// A buffer longer than the largest length is a `LengthOverflow`; bytes after
/// the unit are `TrailingData`.
pub open spec fn spec_whole_input<V>(s: Seq<u8>, unit: Result<(V, nat), Error>) -> Result<V, Error> {
    if s.len() > MAX_LENGTH {
        Err(Error::LengthOverflow)
    } else {
        match unit {
            Err(e) => Err(e),
            Ok((v, n)) => match spec_finish(s.skip(n as int)) {
                Err(e) => Err(e),
                Ok(_) => Ok(v),
            },
        }
    }
}

/// A buffer that a unit fills exactly, and that is short enough to have a
/// length, is accepted as a whole.
pub proof fn lemma_whole_input_accepts<V>(s: Seq<u8>, v: V)
    requires
        s.len() <= MAX_LENGTH,
    ensures
        spec_whole_input(s, Ok::<(V, nat), Error>((v, s.len()))) == Ok::<V, Error>(v),
{
}

/// The outcome `body`, found behind `n` bytes that were read before it,
/// with those bytes counted in.
pub open spec fn spec_after<V>(n: nat, body: Result<(V, nat), Error>) -> Result<(V, nat), Error> {
    match body {
        Err(e) => Err(e),
        Ok((v, m)) => Ok((v, n + m)),
    }
}

/// Types that decode their own content, given the header that announced it.
pub trait DecodeValue<'a>: Sized + View {
    /// Parses the content of a value announced by `header` at the start of
    /// `s`: the value and the number of bytes it occupies.
    spec fn spec_decode_value(header: Header, s: Seq<u8>) -> Result<(Self::V, nat), Error>;

    /// Decodes the content of a value announced by `header`.
    fn decode_value(reader: &mut SliceReader<'a>, header: Header) -> (r: Result<Self, Error>)
        ensures
            decode_outcome(
                *old(reader),
                *final(reader),
                r,
                Self::spec_decode_value(header, old(reader)@),
            ),
    ;
}

/// Parses the content announced by `header` in a region bounded to the
/// header's length, at the start of `s`.
pub open spec fn spec_nested_value<'a, T: DecodeValue<'a>>(header: Header, s: Seq<u8>) -> Result<
    (T::V, nat),
    Error,
> {
    spec_read_nested(
        s.len(),
        header.length.0 as nat,
        T::spec_decode_value(header, s.take(header.length.0 as int)),
    )
}

/// Decodes the content announced by `header` in a region bounded to the
/// header's length: the content must be there in full, and the value must use
/// all of it.
pub fn read_nested_value<'a, T: DecodeValue<'a>>(reader: &mut SliceReader<'a>, header: Header) -> (r:
    Result<T, Error>)
    ensures
        decode_outcome(*old(reader), *final(reader), r, spec_nested_value::<T>(header, old(reader)@)),
{
    let mut sub = reader.nested(header.length)?;
    let ghost opened = sub;
    assert(opened@ =~= old(reader)@.take(header.length.0 as int));
    let value = T::decode_value(&mut sub, header)?;
    proof {
        let n = T::spec_decode_value(header, opened@)->Ok_0.1;
        sub.lemma_advanced_view(opened, n);
    }
    sub.finish()?;
    Ok(value)
}

/// Types that decode a complete unit: header and content.
pub trait Decode<'a>: Sized + View {
    /// Parses one unit at the start of `s`: the value and the number of bytes
    /// the unit occupies.
    spec fn spec_decode(s: Seq<u8>) -> Result<(Self::V, nat), Error>;

    /// Decodes one unit.
    fn decode(reader: &mut SliceReader<'a>) -> (r: Result<Self, Error>)
        ensures
            decode_outcome(*old(reader), *final(reader), r, Self::spec_decode(old(reader)@)),
    ;

    /// Decodes a value from a buffer that must hold one unit and nothing
    /// else: a buffer longer than the largest length is a `LengthOverflow`,
    /// bytes after the unit are `TrailingData`.
    fn from_der(bytes: &'a [u8]) -> (r: Result<Self, Error>)
        ensures
            match spec_whole_input(bytes@, Self::spec_decode(bytes@)) {
                Ok(v) => r matches Ok(x) && x@ == v,
                Err(e) => r matches Err(x) && x == e,
            },
    {
        let mut reader = SliceReader::new(bytes)?;
        let ghost start = reader;
        assert(start@ =~= bytes@);
        let value = Self::decode(&mut reader)?;
        proof {
            let n = Self::spec_decode(bytes@)->Ok_0.1;
            reader.lemma_advanced_view(start, n);
        }
        reader.finish()?;
        Ok(value)
    }
}

/// Parses a buffer that must hold one unit and nothing else.
pub open spec fn spec_from_der<'a, T: Decode<'a>>(s: Seq<u8>) -> Result<T::V, Error> {
    spec_whole_input(s, T::spec_decode(s))
}

/// Parses one unit of a `T` in a region bounded to `len` bytes at the start
/// of `s`.
pub open spec fn spec_nested_unit<'a, T: Decode<'a>>(len: Length, s: Seq<u8>) -> Result<(T::V, nat), Error> {
    spec_read_nested(s.len(), len.0 as nat, T::spec_decode(s.take(len.0 as int)))
}

/// Decodes one unit of a `T` in a region bounded to `len` bytes: the region
/// must be there in full, and the unit must use all of it.
pub fn read_nested_unit<'a, T: Decode<'a>>(reader: &mut SliceReader<'a>, len: Length) -> (r: Result<
    T,
    Error,
>)
    ensures
        decode_outcome(*old(reader), *final(reader), r, spec_nested_unit::<T>(len, old(reader)@)),
{
    let mut sub = reader.nested(len)?;
    let ghost opened = sub;
    assert(opened@ =~= old(reader)@.take(len.0 as int));
    let value = T::decode(&mut sub)?;
    proof {
        let n = T::spec_decode(opened@)->Ok_0.1;
        sub.lemma_advanced_view(opened, n);
    }
    sub.finish()?;
    Ok(value)
}

/// Parses one unit of a type with a fixed tag at the start of `s`: a header
/// with that tag, then the content in a region bounded to the header's
/// length.
pub open spec fn spec_decode_tagged<'a, T: DecodeValue<'a> + FixedTag>(s: Seq<u8>) -> Result<
    (T::V, nat),
    Error,
> {
    match spec_parse_header(s) {
        Err(e) => Err(e),
        Ok((header, n)) => if header.tag != T::spec_fixed_tag() {
            Err(header.tag.spec_unexpected_error(Some(T::spec_fixed_tag())))
        } else {
            spec_after(n, spec_nested_value::<T>(header, s.skip(n as int)))
        },
    }
}

impl<'a, T: DecodeValue<'a> + FixedTag> Decode<'a> for T {
    open spec fn spec_decode(s: Seq<u8>) -> Result<(Self::V, nat), Error> {
        spec_decode_tagged::<T>(s)
    }

    fn decode(reader: &mut SliceReader<'a>) -> (r: Result<Self, Error>) {
        let header = Header::decode(reader)?;
        let _ = header.tag.assert_eq(T::fixed_tag())?;
        proof {
            let n = spec_parse_header(old(reader)@)->Ok_0.1;
            reader.lemma_advanced_view(*old(reader), n);
        }
        read_nested_value::<T>(reader, header)
    }
}

/// Round trip of a type with a fixed tag: if the content of `v` decodes back
/// to `v`, the complete encoding of `v` does too, whatever follows it.
pub proof fn lemma_tagged_round_trip<'a, T: DecodeValue<'a> + EncodeValue + FixedTag>(
    v: T::V,
    rest: Seq<u8>,
)
    requires
        spec_encode_unit(T::spec_fixed_tag(), T::spec_encode_value(v)) is Ok,
        T::spec_decode_value(
            Header { tag: T::spec_fixed_tag(), length: Length(T::spec_encode_value(v)->Ok_0.len() as u32) },
            T::spec_encode_value(v)->Ok_0,
        ) == Ok::<(T::V, nat), Error>((v, T::spec_encode_value(v)->Ok_0.len())),
    ensures
        spec_decode_tagged::<T>(spec_encode_unit(T::spec_fixed_tag(), T::spec_encode_value(v))->Ok_0 + rest)
            == Ok::<(T::V, nat), Error>(
            (v, spec_encode_unit(T::spec_fixed_tag(), T::spec_encode_value(v))->Ok_0.len()),
        ),
{
    let tag = T::spec_fixed_tag();
    let c = T::spec_encode_value(v)->Ok_0;
    let header = Header { tag, length: Length(c.len() as u32) };
    let h = spec_header_bytes(header)->Ok_0;
    let s = h + c + rest;
    lemma_header_round_trip(header, c + rest);
    assert(s =~= h + (c + rest));
    assert(s.skip(h.len() as int) =~= c + rest);
    assert((c + rest).take(c.len() as int) =~= c);
}

/// A buffer that is shorter or longer than the header at its start says is
/// never accepted as the encoding of a value with a fixed tag.
pub proof fn lemma_tagged_rejects_wrong_length<'a, T: DecodeValue<'a> + FixedTag>(s: Seq<u8>)
    requires
        spec_parse_header(s) matches Ok((header, n)) && s.len() != n + header.length.0,
    ensures
        spec_whole_input(s, spec_decode_tagged::<T>(s)) is Err,
{
    lemma_parse_header_canonical(s);
}

/// What the header parser rejects, the decoder of a type with a fixed tag
/// rejects with the same error.
pub proof fn lemma_tagged_rejects_bad_header<'a, T: DecodeValue<'a> + FixedTag>(s: Seq<u8>)
    requires
        spec_parse_header(s) is Err,
    ensures
        spec_decode_tagged::<T>(s) == Err::<(T::V, nat), Error>(spec_parse_header(s)->Err_0),
        spec_whole_input(s, spec_decode_tagged::<T>(s)) is Err,
{
}

/// A unit of a type with a fixed tag is accepted in one encoding only: if
/// the content that was accepted is the content of the value found, the
/// bytes that were read are the encoding of that value.
pub proof fn lemma_tagged_decode_canonical<'a, T: DecodeValue<'a> + EncodeValue + FixedTag>(s: Seq<u8>)
    requires
        spec_decode_tagged::<T>(s) is Ok,
        spec_parse_header(s) matches Ok((header, n)) && T::spec_encode_value(
            spec_decode_tagged::<T>(s)->Ok_0.0,
        ) == Ok::<Seq<u8>, Error>(s.subrange(n as int, n + header.length.0)),
    ensures
        spec_decode_tagged::<T>(s)->Ok_0.1 <= s.len(),
        spec_encode_unit(T::spec_fixed_tag(), T::spec_encode_value(spec_decode_tagged::<T>(s)->Ok_0.0))
            == Ok::<Seq<u8>, Error>(s.subrange(0, spec_decode_tagged::<T>(s)->Ok_0.1 as int)),
{
    lemma_parse_header_canonical(s);
    let (header, n) = spec_parse_header(s)->Ok_0;
    let m = spec_decode_tagged::<T>(s)->Ok_0.1;
    assert(s.subrange(0, m as int) =~= s.subrange(0, n as int) + s.subrange(n as int, n + header.length.0));
}

} // verus!
