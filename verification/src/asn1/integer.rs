//! INTEGER, for the unsigned types of up to sixteen bits.
use crate::asn1::any::spec_raw_content;
use crate::decode::{lemma_tagged_round_trip, spec_decode_tagged, DecodeValue};
use crate::encode::{spec_encode_unit, EncodeValue};
use crate::error::Error;
use crate::header::Header;
use crate::length::Length;
use crate::ord::{bytes_order, spec_bytes_order, Order, ValueOrd};
use crate::reader::SliceReader;
use crate::tag::{FixedTag, Tag};
use vstd::prelude::*;

verus! {

/// The content of the INTEGER `n`, for `n` below 2^16: the shortest
/// big-endian two's-complement form, which for an unsigned number means a
/// leading zero octet wherever the top bit would otherwise be set.
pub open spec fn spec_uint_bytes(n: nat) -> Seq<u8> {
    if n < 0x80 {
        seq![n as u8]
    } else if n < 0x100 {
        seq![0u8, n as u8]
    } else if n < 0x8000 {
        seq![(n / 0x100) as u8, (n % 0x100) as u8]
    } else {
        seq![0u8, (n / 0x100) as u8, (n % 0x100) as u8]
    }
}

/// The unsigned number below 2^16 whose content is `c`, if `c` is the
/// content of one: not empty, not negative, not longer than needed.
pub open spec fn spec_parse_uint(c: Seq<u8>) -> Option<nat> {
    if c.len() == 1 && c[0] < 0x80 {
        Some(c[0] as nat)
    } else if c.len() == 2 && c[0] == 0 && c[1] >= 0x80 {
        Some(c[1] as nat)
    } else if c.len() == 2 && 0 < c[0] < 0x80 {
        Some((c[0] * 0x100 + c[1]) as nat)
    } else if c.len() == 3 && c[0] == 0 && c[1] >= 0x80 {
        Some((c[1] * 0x100 + c[2]) as nat)
    } else {
        None
    }
}

/// Parses the content of an unsigned INTEGER of at most `max`, announced by
/// `header`, at the start of `s`.
pub open spec fn spec_decode_uint(header: Header, s: Seq<u8>, max: nat) -> Result<(nat, nat), Error> {
    match spec_raw_content(header, s) {
        Err(e) => Err(e),
        Ok((c, n)) => match spec_parse_uint(c) {
            Some(v) => if v <= max {
                Ok((v, n))
            } else {
                Err(Error::InvalidContent { tag: Tag::integer() })
            },
            None => Err(Error::InvalidContent { tag: Tag::integer() }),
        },
    }
}

/// The content of an unsigned INTEGER is accepted in one form only, and
/// that form parses back to the number.
pub proof fn lemma_uint_round_trip(n: nat)
    requires
        n < 0x1_0000,
    ensures
        spec_parse_uint(spec_uint_bytes(n)) == Some(n),
{
}

/// What parses as an unsigned INTEGER is the content of the number found.
pub proof fn lemma_parse_uint_canonical(c: Seq<u8>)
    ensures
        spec_parse_uint(c) matches Some(n) ==> n < 0x1_0000 && spec_uint_bytes(n) == c,
{
    if let Some(n) = spec_parse_uint(c) {
        assert(spec_uint_bytes(n) =~= c);
    }
}

/// Decodes the content of an unsigned INTEGER of at most `max`.
fn decode_uint(reader: &mut SliceReader<'_>, header: Header, max: u16) -> (r: Result<u16, Error>)
    ensures
        match spec_decode_uint(header, old(reader)@, max as nat) {
            Ok((v, n)) => r == Ok::<u16, Error>(v as u16) && final(reader).advanced(*old(reader), n),
            Err(e) => r == Err::<u16, Error>(e) && final(reader).not_behind(*old(reader)),
        },
{
    let c = reader.read_slice(header.length)?;
    let value: u16 = if c.len() == 1 && c[0] < 0x80 {
        c[0] as u16
    } else if c.len() == 2 && c[0] == 0 && c[1] >= 0x80 {
        c[1] as u16
    } else if c.len() == 2 && 0 < c[0] && c[0] < 0x80 {
        c[0] as u16 * 0x100 + c[1] as u16
    } else if c.len() == 3 && c[0] == 0 && c[1] >= 0x80 {
        c[1] as u16 * 0x100 + c[2] as u16
    } else {
        return Err(Error::InvalidContent { tag: Tag::integer() });
    };
    if value <= max {
        Ok(value)
    } else {
        Err(Error::InvalidContent { tag: Tag::integer() })
    }
}

/// Appends the content of the unsigned INTEGER `n`.
fn encode_uint(n: u16, out: &mut Vec<u8>)
    ensures
        final(out)@ == old(out)@ + spec_uint_bytes(n as nat),
{
    if n < 0x80 {
        out.push(n as u8);
    } else if n < 0x100 {
        out.push(0);
        out.push(n as u8);
    } else if n < 0x8000 {
        out.push((n / 0x100) as u8);
        out.push((n % 0x100) as u8);
    } else {
        out.push(0);
        out.push((n / 0x100) as u8);
        out.push((n % 0x100) as u8);
    }
    assert(out@ =~= old(out)@ + spec_uint_bytes(n as nat));
}

/// The number of content octets of the unsigned INTEGER `n`.
fn uint_len(n: u16) -> (l: Length)
    ensures
        l.0 == spec_uint_bytes(n as nat).len(),
        l.wf(),
{
    if n < 0x80 {
        Length(1)
    } else if n < 0x8000 {
        Length(2)
    } else {
        Length(3)
    }
}

/// Orders two unsigned INTEGERs as their contents are ordered.
fn uint_order(a: u16, b: u16) -> (o: Order)
    ensures
        o == spec_bytes_order(spec_uint_bytes(a as nat), spec_uint_bytes(b as nat)),
{
    let mut mine: Vec<u8> = Vec::new();
    encode_uint(a, &mut mine);
    let mut theirs: Vec<u8> = Vec::new();
    encode_uint(b, &mut theirs);
    assert(mine@ =~= spec_uint_bytes(a as nat));
    assert(theirs@ =~= spec_uint_bytes(b as nat));
    bytes_order(mine.as_slice(), theirs.as_slice())
}

impl<'a> DecodeValue<'a> for u8 {
    open spec fn spec_decode_value(header: Header, s: Seq<u8>) -> Result<(u8, nat), Error> {
        match spec_decode_uint(header, s, 0xff) {
            Ok((v, n)) => Ok((v as u8, n)),
            Err(e) => Err(e),
        }
    }

    fn decode_value(reader: &mut SliceReader<'a>, header: Header) -> (r: Result<u8, Error>) {
        let v = decode_uint(reader, header, 0xff)?;
        Ok(v as u8)
    }
}

impl EncodeValue for u8 {
    open spec fn spec_encode_value(v: u8) -> Result<Seq<u8>, Error> {
        Ok(spec_uint_bytes(v as nat))
    }

    fn value_len(&self) -> (r: Result<Length, Error>) {
        Ok(uint_len(*self as u16))
    }

    fn encode_value(&self, out: &mut Vec<u8>) -> (r: Result<(), Error>) {
        encode_uint(*self as u16, out);
        Ok(())
    }
}

impl FixedTag for u8 {
    open spec fn spec_fixed_tag() -> Tag {
        Tag::integer()
    }

    fn fixed_tag() -> (t: Tag) {
        Tag::integer()
    }
}

impl<'a> DecodeValue<'a> for u16 {
    open spec fn spec_decode_value(header: Header, s: Seq<u8>) -> Result<(u16, nat), Error> {
        match spec_decode_uint(header, s, 0xffff) {
            Ok((v, n)) => Ok((v as u16, n)),
            Err(e) => Err(e),
        }
    }

    fn decode_value(reader: &mut SliceReader<'a>, header: Header) -> (r: Result<u16, Error>) {
        decode_uint(reader, header, 0xffff)
    }
}

impl EncodeValue for u16 {
    open spec fn spec_encode_value(v: u16) -> Result<Seq<u8>, Error> {
        Ok(spec_uint_bytes(v as nat))
    }

    fn value_len(&self) -> (r: Result<Length, Error>) {
        Ok(uint_len(*self))
    }

    fn encode_value(&self, out: &mut Vec<u8>) -> (r: Result<(), Error>) {
        encode_uint(*self, out);
        Ok(())
    }
}

impl FixedTag for u16 {
    open spec fn spec_fixed_tag() -> Tag {
        Tag::integer()
    }

    fn fixed_tag() -> (t: Tag) {
        Tag::integer()
    }
}

/// The content of the INTEGER that `v` is.
pub open spec fn spec_u8_bytes(v: u8) -> Seq<u8> {
    spec_uint_bytes(v as nat)
}

/// The content of the INTEGER that `v` is.
pub open spec fn spec_u16_bytes(v: u16) -> Seq<u8> {
    spec_uint_bytes(v as nat)
}

/// Widens without loss.
fn widen(v: u8) -> (w: u16)
    ensures
        w == v,
{
    v as u16
}

impl ValueOrd for u8 {
    /// INTEGERs are ordered as their contents are.
    open spec fn spec_value_cmp(a: u8, b: u8) -> Result<Order, Error> {
        Ok(spec_bytes_order(spec_u8_bytes(a), spec_u8_bytes(b)))
    }

    fn value_cmp(&self, other: &Self) -> (r: Result<Order, Error>) {
        Ok(uint_order(widen(*self), widen(*other)))
    }
}

impl ValueOrd for u16 {
    /// INTEGERs are ordered as their contents are.
    open spec fn spec_value_cmp(a: u16, b: u16) -> Result<Order, Error> {
        Ok(spec_bytes_order(spec_u16_bytes(a), spec_u16_bytes(b)))
    }

    fn value_cmp(&self, other: &Self) -> (r: Result<Order, Error>) {
        Ok(uint_order(*self, *other))
    }
}

/// Round trip: the encoding of an unsigned INTEGER decodes back to the
/// number, whatever follows it.
pub proof fn lemma_integer_round_trip(v: u16, rest: Seq<u8>)
    ensures
        spec_encode_unit(Tag::integer(), Ok(spec_uint_bytes(v as nat))) matches Ok(e) && spec_decode_tagged::<
            u16,
        >(e + rest) == Ok::<(u16, nat), Error>((v, e.len())) && (v <= 0xff ==> spec_decode_tagged::<u8>(
            e + rest,
        ) == Ok::<(u8, nat), Error>((v as u8, e.len()))),
{
    let c = spec_uint_bytes(v as nat);
    assert(c.take(c.len() as int) =~= c);
    lemma_uint_round_trip(v as nat);
    lemma_tagged_round_trip::<u16>(v, rest);
    if v <= 0xff {
        lemma_tagged_round_trip::<u8>(v as u8, rest);
    }
}

} // verus!
