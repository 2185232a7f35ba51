//! Octet strings held in a `bytes::Bytes` buffer.
use crate::asn1::any::spec_raw_content;
use crate::asn1::octet_string::{OctetString, OctetStringRef};
use crate::decode::DecodeValue;
use crate::encode::write_bytes;
use crate::error::Error;
use crate::header::Header;
use crate::length::{spec_length_of, Length};
use crate::reader::SliceReader;
use crate::tag::Tag;
use vstd::prelude::*;
use vstd::std_specs::convert::FromSpecImpl;

verus! {

/// `bytes::Bytes`, a shared buffer of bytes: known by its contents alone.
#[verifier::external_type_specification]
#[verifier::external_body]
pub struct ExBytes(::bytes::Bytes);

/// The bytes that a `bytes::Bytes` holds, in order.
pub uninterp spec fn bytes_contents(buffer: ::bytes::Bytes) -> Seq<u8>;

/// `From<Vec<u8>>` for `bytes::Bytes`: a buffer that takes over the
/// elements of the vector.
#[verifier::external_body]
fn buffer_from_vec(vec: Vec<u8>) -> (buffer: ::bytes::Bytes)
    ensures
        bytes_contents(buffer) == vec@,
{
    ::bytes::Bytes::from(vec)
}

/// `AsRef<[u8]>` for `bytes::Bytes`: the bytes that the buffer holds, as a
/// slice.
#[verifier::external_body]
fn buffer_as_slice(buffer: &::bytes::Bytes) -> (bytes: &[u8])
    ensures
        bytes@ == bytes_contents(*buffer),
{
    buffer.as_ref()
}

/// The tag under which a buffer is encoded: that of OCTET STRING.
pub fn fixed_tag() -> (t: Tag)
    ensures
        t == Tag::octet_string(),
{
    Tag::octet_string()
}

/// Decodes the content of an octet string announced by `header` into a
/// buffer.
pub fn decode_value(reader: &mut SliceReader<'_>, header: Header) -> (r: Result<::bytes::Bytes, Error>)
    ensures
        match spec_raw_content(header, old(reader)@) {
            Ok((content, n)) => r matches Ok(buffer) && bytes_contents(buffer) == content && final(reader).advanced(*old(reader), n),
            Err(e) => r matches Err(x) && x == e && final(reader).not_behind(*old(reader)),
        },
{
    match OctetString::decode_value(reader, header) {
        Ok(octet_string) => Ok(buffer_from_vec(octet_string.into_bytes())),
        Err(e) => Err(e),
    }
}

/// The number of content bytes of a buffer, or `LengthOverflow` if they are
/// too many to have a length.
pub fn value_len(buffer: &::bytes::Bytes) -> (r: Result<Length, Error>)
    ensures
        r == spec_length_of(bytes_contents(*buffer).len()),
{
    Length::from_usize(buffer_as_slice(buffer).len())
}

/// Appends the bytes of a buffer to `out`.
pub fn encode_value(buffer: &::bytes::Bytes, out: &mut Vec<u8>) -> (r: Result<(), Error>)
    ensures
        r is Ok,
        final(out)@ == old(out)@ + bytes_contents(*buffer),
{
    write_bytes(out, buffer_as_slice(buffer));
    Ok(())
}

impl<'a> From<OctetStringRef<'a>> for ::bytes::Bytes {
    fn from(octet_string: OctetStringRef<'a>) -> (buffer: ::bytes::Bytes)
        ensures
            bytes_contents(buffer) == octet_string@,
    {
        buffer_from_vec(octet_string.to_vec())
    }
}

/// The conversion is stated by the `ensures` of `from`, over the contents.
impl<'a> FromSpecImpl<OctetStringRef<'a>> for ::bytes::Bytes {
    open spec fn obeys_from_spec() -> bool {
        false
    }

    open spec fn from_spec(octet_string: OctetStringRef<'a>) -> ::bytes::Bytes {
        vstd::pervasive::arbitrary()
    }
}

impl From<OctetString> for ::bytes::Bytes {
    fn from(octet_string: OctetString) -> (buffer: ::bytes::Bytes)
        ensures
            bytes_contents(buffer) == octet_string@,
    {
        buffer_from_vec(octet_string.into_bytes())
    }
}

/// The conversion is stated by the `ensures` of `from`, over the contents.
impl FromSpecImpl<OctetString> for ::bytes::Bytes {
    open spec fn obeys_from_spec() -> bool {
        false
    }

    open spec fn from_spec(octet_string: OctetString) -> ::bytes::Bytes {
        vstd::pervasive::arbitrary()
    }
}

} // verus!
