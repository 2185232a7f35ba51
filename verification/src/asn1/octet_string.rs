//! OCTET STRING: an arbitrary sequence of bytes, borrowed or owned.
use crate::asn1::any::{spec_raw_content, AnyRef};
use crate::decode::{lemma_tagged_decode_canonical, lemma_tagged_round_trip, spec_decode_tagged};
use crate::decode::{Decode, DecodeValue};
use crate::encode::{spec_encode_unit, write_bytes, EncodeValue};
use crate::error::Error;
use crate::header::{lemma_parse_header_canonical, spec_header_bytes, spec_parse_header, Header};
use crate::length::{Length, MAX_LENGTH};
use crate::ord::{bytes_order, lemma_bytes_order_strict_total, lemma_der_order_is_bytes_order};
use crate::ord::{spec_bytes_order, spec_encoding_of, DerOrd, Order, ValueOrd};
use crate::reader::SliceReader;
use crate::referenced::{OwnedToRef, RefToOwned};
use crate::tag::{FixedTag, Tag};
use vstd::prelude::*;
use vstd::slice::slice_to_vec;
use vstd::std_specs::convert::{FromSpecImpl, TryFromSpecImpl};

verus! {

/// An octet string that borrows its bytes.
///
/// Its view is the sequence of its bytes, which is never longer than the
/// largest length.
#[derive(Clone, Copy, Debug, PartialEq, Eq, PartialOrd, Ord)]
pub struct OctetStringRef<'a> {
    inner: &'a [u8],
}

impl<'a> View for OctetStringRef<'a> {
    type V = Seq<u8>;

    closed spec fn view(&self) -> Seq<u8> {
        self.inner@
    }
}

/// What constructing an octet string from `bytes` gives: the bytes
/// themselves, unless they are too many to have a length.
pub open spec fn spec_octet_string(bytes: Seq<u8>) -> Result<Seq<u8>, Error> {
    if bytes.len() <= MAX_LENGTH {
        Ok(bytes)
    } else {
        Err(Error::InvalidContent { tag: Tag::octet_string() })
    }
}

impl<'a> OctetStringRef<'a> {
    #[verifier::type_invariant]
    closed spec fn wf(self) -> bool {
        self.inner@.len() <= MAX_LENGTH
    }

    /// The slice that the octet string borrows.
    pub closed spec fn spec_slice(self) -> &'a [u8] {
        self.inner
    }

    /// The octet string that borrows `slice`.
    pub closed spec fn spec_from_slice(slice: &'a [u8]) -> OctetStringRef<'a> {
        OctetStringRef { inner: slice }
    }

    /// An octet string of the bytes of `slice`, or `InvalidContent` if they
    /// are too many to have a length.
    pub fn new(slice: &'a [u8]) -> (r: Result<Self, Error>)
        ensures
            match spec_octet_string(slice@) {
                Ok(bytes) => r matches Ok(s) && s@ == bytes && s == OctetStringRef::spec_from_slice(slice),
                Err(e) => r matches Err(x) && x == e,
            },
    {
        if slice.len() <= MAX_LENGTH as usize {
            Ok(OctetStringRef { inner: slice })
        } else {
            Err(Error::InvalidContent { tag: Tag::octet_string() })
        }
    }

    /// The bytes.
    pub fn as_bytes(&self) -> (bytes: &'a [u8])
        ensures
            bytes == self.spec_slice(),
            bytes@ == self@,
            bytes@.len() <= MAX_LENGTH,
    {
        proof {
            use_type_invariant(self);
        }
        self.inner
    }

    /// The number of bytes.
    pub fn len(&self) -> (l: Length)
        ensures
            l.0 == self@.len(),
            l.wf(),
    {
        proof {
            use_type_invariant(self);
        }
        Length(self.inner.len() as u32)
    }

    /// Whether there are no bytes.
    pub fn is_empty(&self) -> (b: bool)
        ensures
            b == (self@.len() == 0),
    {
        self.inner.len() == 0
    }

    /// Decodes the bytes as the complete encoding of a `T`.
    pub fn decode_into<T: Decode<'a>>(&self) -> (r: Result<T, Error>)
        ensures
            match crate::decode::spec_from_der::<T>(self@) {
                Ok(v) => r matches Ok(x) && x@ == v,
                Err(e) => r matches Err(x) && x == e,
            },
    {
        T::from_der(self.as_bytes())
    }

    /// The same octet string as a value of any type.
    pub fn to_any(&self) -> (any: AnyRef<'a>)
        ensures
            any == AnyRef::spec_from_tag_and_value(Tag::octet_string(), self.spec_slice()),
            any@ == (Tag::octet_string(), self@),
    {
        AnyRef::from_tag_and_value(Tag::octet_string(), self.as_bytes())
    }

    /// A vector of the same bytes.
    pub fn to_vec(&self) -> (bytes: Vec<u8>)
        ensures
            bytes@ == self@,
    {
        slice_to_vec(self.inner)
    }
}

impl<'a> DecodeValue<'a> for OctetStringRef<'a> {
    open spec fn spec_decode_value(header: Header, s: Seq<u8>) -> Result<(Self::V, nat), Error> {
        spec_raw_content(header, s)
    }

    fn decode_value(reader: &mut SliceReader<'a>, header: Header) -> (r: Result<Self, Error>) {
        let inner = reader.read_slice(header.length)?;
        proof {
            use_type_invariant(&*reader);
        }
        Ok(OctetStringRef { inner })
    }
}

impl<'a> EncodeValue for OctetStringRef<'a> {
    open spec fn spec_encode_value(v: Self::V) -> Result<Seq<u8>, Error> {
        Ok(v)
    }

    fn value_len(&self) -> (r: Result<Length, Error>) {
        Ok(self.len())
    }

    fn encode_value(&self, out: &mut Vec<u8>) -> (r: Result<(), Error>) {
        write_bytes(out, self.inner);
        Ok(())
    }
}

impl<'a> FixedTag for OctetStringRef<'a> {
    open spec fn spec_fixed_tag() -> Tag {
        Tag::octet_string()
    }

    fn fixed_tag() -> (t: Tag) {
        Tag::octet_string()
    }
}

impl<'a> ValueOrd for OctetStringRef<'a> {
    /// Octet strings are ordered as their bytes are.
    open spec fn spec_value_cmp(a: Self::V, b: Self::V) -> Result<Order, Error> {
        Ok(spec_bytes_order(a, b))
    }

    fn value_cmp(&self, other: &Self) -> (r: Result<Order, Error>) {
        Ok(bytes_order(self.inner, other.inner))
    }
}

/// An octet string that owns its bytes.
///
/// Its view is the sequence of its bytes, which is never longer than the
/// largest length.
#[derive(Debug, PartialEq, Eq, PartialOrd, Ord)]
pub struct OctetString {
    inner: Vec<u8>,
}

impl View for OctetString {
    type V = Seq<u8>;

    closed spec fn view(&self) -> Seq<u8> {
        self.inner@
    }
}

impl Clone for OctetString {
    fn clone(&self) -> (copy: Self)
        ensures
            copy@ == self@,
    {
        proof {
            use_type_invariant(self);
        }
        OctetString { inner: slice_to_vec(self.inner.as_slice()) }
    }
}

impl OctetString {
    #[verifier::type_invariant]
    closed spec fn wf(self) -> bool {
        self.inner@.len() <= MAX_LENGTH
    }

    /// An octet string of `bytes`, or `InvalidContent` if they are too many
    /// to have a length.
    pub fn new(bytes: Vec<u8>) -> (r: Result<Self, Error>)
        ensures
            match spec_octet_string(bytes@) {
                Ok(b) => r matches Ok(s) && s@ == b,
                Err(e) => r matches Err(x) && x == e,
            },
    {
        // What is accepted here is what the borrowed form accepts.
        let _ = OctetStringRef::new(bytes.as_slice())?;
        Ok(OctetString { inner: bytes })
    }

    /// The bytes.
    pub fn as_bytes(&self) -> (bytes: &[u8])
        ensures
            bytes@ == self@,
            bytes@.len() <= MAX_LENGTH,
    {
        proof {
            use_type_invariant(self);
        }
        self.inner.as_slice()
    }

    /// The bytes, given up by the octet string.
    pub fn into_bytes(self) -> (bytes: Vec<u8>)
        ensures
            bytes@ == self@,
            bytes@.len() <= MAX_LENGTH,
    {
        proof {
            use_type_invariant(&self);
        }
        self.inner
    }

    /// The number of bytes.
    pub fn len(&self) -> (l: Length)
        ensures
            l.0 == self@.len(),
            l.wf(),
    {
        proof {
            use_type_invariant(self);
        }
        Length(self.inner.len() as u32)
    }

    /// Whether there are no bytes.
    pub fn is_empty(&self) -> (b: bool)
        ensures
            b == (self@.len() == 0),
    {
        self.inner.len() == 0
    }
}

impl<'a> DecodeValue<'a> for OctetString {
    open spec fn spec_decode_value(header: Header, s: Seq<u8>) -> Result<(Self::V, nat), Error> {
        spec_raw_content(header, s)
    }

    fn decode_value(reader: &mut SliceReader<'a>, header: Header) -> (r: Result<Self, Error>) {
        let bytes = reader.read_slice(header.length)?;
        proof {
            use_type_invariant(&*reader);
        }
        Ok(OctetString { inner: slice_to_vec(bytes) })
    }
}

impl EncodeValue for OctetString {
    open spec fn spec_encode_value(v: Self::V) -> Result<Seq<u8>, Error> {
        Ok(v)
    }

    fn value_len(&self) -> (r: Result<Length, Error>) {
        Ok(self.len())
    }

    fn encode_value(&self, out: &mut Vec<u8>) -> (r: Result<(), Error>) {
        write_bytes(out, self.inner.as_slice());
        Ok(())
    }
}

impl FixedTag for OctetString {
    open spec fn spec_fixed_tag() -> Tag {
        Tag::octet_string()
    }

    fn fixed_tag() -> (t: Tag) {
        Tag::octet_string()
    }
}

impl ValueOrd for OctetString {
    /// Octet strings are ordered as their bytes are.
    open spec fn spec_value_cmp(a: Self::V, b: Self::V) -> Result<Order, Error> {
        Ok(spec_bytes_order(a, b))
    }

    fn value_cmp(&self, other: &Self) -> (r: Result<Order, Error>) {
        Ok(bytes_order(self.inner.as_slice(), other.inner.as_slice()))
    }
}

/// Round trip: the encoding of an octet string decodes back to the same
/// bytes, whatever follows it, and is as long as header and bytes together.
pub proof fn lemma_octet_string_round_trip(bytes: Seq<u8>, rest: Seq<u8>)
    requires
        bytes.len() <= MAX_LENGTH,
    ensures
        spec_encode_unit(Tag::octet_string(), Ok(bytes)) matches Ok(e) && spec_decode_tagged::<
            OctetStringRef,
        >(e + rest) == Ok::<(Seq<u8>, nat), Error>((bytes, e.len())) && spec_decode_tagged::<OctetString>(
            e + rest,
        ) == Ok::<(Seq<u8>, nat), Error>((bytes, e.len())) && e.len() == bytes.len()
            + spec_header_bytes(
            Header { tag: Tag::octet_string(), length: Length(bytes.len() as u32) },
        )->Ok_0.len(),
{
    assert(bytes.take(bytes.len() as int) =~= bytes);
    lemma_tagged_round_trip::<OctetStringRef>(bytes, rest);
    lemma_tagged_round_trip::<OctetString>(bytes, rest);
}

/// An octet string is accepted in one encoding only, and encoding what was
/// decoded reproduces the bytes that were read.
pub proof fn lemma_octet_string_decode_canonical(s: Seq<u8>)
    requires
        spec_decode_tagged::<OctetStringRef>(s) is Ok,
    ensures
        spec_decode_tagged::<OctetStringRef>(s)->Ok_0.1 <= s.len(),
        spec_encode_unit(Tag::octet_string(), Ok(spec_decode_tagged::<OctetStringRef>(s)->Ok_0.0)) == Ok::<
            Seq<u8>,
            Error,
        >(s.subrange(0, spec_decode_tagged::<OctetStringRef>(s)->Ok_0.1 as int)),
        spec_decode_tagged::<OctetString>(s) == spec_decode_tagged::<OctetStringRef>(s),
{
    lemma_parse_header_canonical(s);
    let (header, n) = spec_parse_header(s)->Ok_0;
    let rest = s.skip(n as int);
    assert(rest.take(header.length.0 as int).take(header.length.0 as int) =~= s.subrange(
        n as int,
        n + header.length.0,
    ));
    lemma_tagged_decode_canonical::<OctetStringRef>(s);
}

/// The canonical order of octet strings is a strict total order: each is
/// equal to itself, of two different ones exactly one is less than the
/// other, and being less is transitive.
pub proof fn lemma_octet_string_order_strict_total(a: Seq<u8>, b: Seq<u8>, c: Seq<u8>)
    requires
        a.len() <= MAX_LENGTH,
        b.len() <= MAX_LENGTH,
        c.len() <= MAX_LENGTH,
    ensures
        OctetStringRef::spec_der_cmp(a, a) == Ok::<Order, Error>(Order::Equal),
        a != b ==> (OctetStringRef::spec_der_cmp(a, b) == Ok::<Order, Error>(Order::Less))
            != (OctetStringRef::spec_der_cmp(b, a) == Ok::<Order, Error>(Order::Less)),
        OctetStringRef::spec_der_cmp(a, b) == Ok::<Order, Error>(Order::Less)
            && OctetStringRef::spec_der_cmp(b, c) == Ok::<Order, Error>(Order::Less)
            ==> OctetStringRef::spec_der_cmp(a, c) == Ok::<Order, Error>(Order::Less),
{
    let ea = spec_encoding_of::<OctetStringRef>(a)->Ok_0;
    let eb = spec_encoding_of::<OctetStringRef>(b)->Ok_0;
    let ec = spec_encoding_of::<OctetStringRef>(c)->Ok_0;
    lemma_der_order_is_bytes_order::<OctetStringRef>(a, a);
    lemma_der_order_is_bytes_order::<OctetStringRef>(a, b);
    lemma_der_order_is_bytes_order::<OctetStringRef>(b, a);
    lemma_der_order_is_bytes_order::<OctetStringRef>(b, c);
    lemma_der_order_is_bytes_order::<OctetStringRef>(a, c);
    lemma_bytes_order_strict_total(ea, eb, ec);
    lemma_bytes_order_strict_total(ea, ea, ea);
    lemma_octet_string_round_trip(a, Seq::empty());
    lemma_octet_string_round_trip(b, Seq::empty());
}

impl<'a> RefToOwned<'a> for OctetStringRef<'a> {
    type Owned = OctetString;

    fn ref_to_owned(&self) -> (owned: OctetString) {
        proof {
            use_type_invariant(self);
        }
        OctetString { inner: slice_to_vec(self.inner) }
    }
}

impl OwnedToRef for OctetString {
    type Borrowed<'a> = OctetStringRef<'a>;

    fn owned_to_ref(&self) -> (borrowed: OctetStringRef<'_>) {
        proof {
            use_type_invariant(self);
        }
        OctetStringRef { inner: self.inner.as_slice() }
    }
}

impl<'a> AsRef<[u8]> for OctetStringRef<'a> {
    fn as_ref(&self) -> (bytes: &[u8])
        ensures
            bytes@ == self@,
    {
        self.as_bytes()
    }
}

impl AsRef<[u8]> for OctetString {
    fn as_ref(&self) -> (bytes: &[u8])
        ensures
            bytes@ == self@,
    {
        self.as_bytes()
    }
}

impl<'a> From<&OctetStringRef<'a>> for OctetStringRef<'a> {
    fn from(value: &OctetStringRef<'a>) -> (r: OctetStringRef<'a>) {
        *value
    }
}

impl<'a> FromSpecImpl<&OctetStringRef<'a>> for OctetStringRef<'a> {
    open spec fn obeys_from_spec() -> bool {
        true
    }

    open spec fn from_spec(value: &OctetStringRef<'a>) -> OctetStringRef<'a> {
        *value
    }
}

impl<'a> From<OctetStringRef<'a>> for AnyRef<'a> {
    fn from(octet_string: OctetStringRef<'a>) -> (any: AnyRef<'a>)
        ensures
            any@ == (Tag::octet_string(), octet_string@),
    {
        octet_string.to_any()
    }
}

impl<'a> FromSpecImpl<OctetStringRef<'a>> for AnyRef<'a> {
    open spec fn obeys_from_spec() -> bool {
        true
    }

    open spec fn from_spec(octet_string: OctetStringRef<'a>) -> AnyRef<'a> {
        AnyRef::spec_from_tag_and_value(Tag::octet_string(), octet_string.spec_slice())
    }
}

impl<'a> From<OctetStringRef<'a>> for &'a [u8] {
    fn from(octet_string: OctetStringRef<'a>) -> (bytes: &'a [u8])
        ensures
            bytes@ == octet_string@,
    {
        octet_string.as_bytes()
    }
}

impl<'a> FromSpecImpl<OctetStringRef<'a>> for &'a [u8] {
    open spec fn obeys_from_spec() -> bool {
        true
    }

    open spec fn from_spec(octet_string: OctetStringRef<'a>) -> &'a [u8] {
        octet_string.spec_slice()
    }
}

/// What converting `bytes` to a borrowed octet string gives.
pub open spec fn spec_try_from_slice<'a>(bytes: &'a [u8]) -> Result<OctetStringRef<'a>, Error> {
    if bytes@.len() <= MAX_LENGTH {
        Ok(OctetStringRef::spec_from_slice(bytes))
    } else {
        Err(Error::InvalidContent { tag: Tag::octet_string() })
    }
}

impl<'a> TryFrom<&'a [u8]> for OctetStringRef<'a> {
    type Error = Error;

    fn try_from(byte_slice: &'a [u8]) -> (r: Result<Self, Error>)
        ensures
            match spec_octet_string(byte_slice@) {
                Ok(bytes) => r matches Ok(s) && s@ == bytes,
                Err(e) => r matches Err(x) && x == e,
            },
    {
        OctetStringRef::new(byte_slice)
    }
}

impl<'a> TryFromSpecImpl<&'a [u8]> for OctetStringRef<'a> {
    open spec fn obeys_try_from_spec() -> bool {
        true
    }

    open spec fn try_from_spec(byte_slice: &'a [u8]) -> Result<Self, Error> {
        spec_try_from_slice(byte_slice)
    }
}

impl<'a> TryFrom<&&'a [u8]> for OctetStringRef<'a> {
    type Error = Error;

    fn try_from(byte_slice: &&'a [u8]) -> (r: Result<Self, Error>)
        ensures
            match spec_octet_string(byte_slice@) {
                Ok(bytes) => r matches Ok(s) && s@ == bytes,
                Err(e) => r matches Err(x) && x == e,
            },
    {
        OctetStringRef::new(*byte_slice)
    }
}

impl<'a> TryFromSpecImpl<&&'a [u8]> for OctetStringRef<'a> {
    open spec fn obeys_try_from_spec() -> bool {
        true
    }

    open spec fn try_from_spec(byte_slice: &&'a [u8]) -> Result<Self, Error> {
        spec_try_from_slice(*byte_slice)
    }
}

impl<'a, const N: usize> TryFrom<&'a [u8; N]> for OctetStringRef<'a> {
    type Error = Error;

    fn try_from(byte_slice: &'a [u8; N]) -> (r: Result<Self, Error>)
        ensures
            match spec_octet_string(byte_slice@) {
                Ok(bytes) => r matches Ok(s) && s@ == bytes,
                Err(e) => r matches Err(x) && x == e,
            },
    {
        let slice: &'a [u8] = byte_slice;
        OctetStringRef::new(slice)
    }
}

impl<'a, const N: usize> TryFromSpecImpl<&'a [u8; N]> for OctetStringRef<'a> {
    open spec fn obeys_try_from_spec() -> bool {
        true
    }

    open spec fn try_from_spec(byte_slice: &'a [u8; N]) -> Result<Self, Error> {
        spec_try_from_slice(vstd::array::spec_array_as_slice(byte_slice))
    }
}

/// `TryFrom<&[u8]>` for `[u8; N]`, of std: the array that copies `bytes`,
/// which there is exactly when `bytes` has `N` elements.
#[verifier::external_body]
fn array_from_slice<const N: usize>(bytes: &[u8]) -> (r: Option<[u8; N]>)
    ensures
        r is Some <==> bytes@.len() == N,
        r matches Some(array) ==> array@ == bytes@,
{
    match <[u8; N]>::try_from(bytes) {
        Ok(array) => Some(array),
        Err(_) => None,
    }
}

impl<'a, const N: usize> TryFrom<OctetStringRef<'a>> for [u8; N] {
    type Error = Error;

    /// The bytes as an array, or `InvalidContent` if they are not `N`.
    fn try_from(octet_string: OctetStringRef<'a>) -> (r: Result<Self, Error>)
        ensures
            match r {
                Ok(array) => octet_string@.len() == N && array@ == octet_string@,
                Err(e) => octet_string@.len() != N && e == (Error::InvalidContent {
                    tag: Tag::octet_string(),
                }),
            },
    {
        match array_from_slice::<N>(octet_string.as_bytes()) {
            Some(array) => Ok(array),
            None => Err(Tag::octet_string().value_error()),
        }
    }
}

/// The conversion is stated by the `ensures` of `try_from`, over views.
impl<'a, const N: usize> TryFromSpecImpl<OctetStringRef<'a>> for [u8; N] {
    open spec fn obeys_try_from_spec() -> bool {
        false
    }

    open spec fn try_from_spec(octet_string: OctetStringRef<'a>) -> Result<Self, Error> {
        vstd::pervasive::arbitrary()
    }
}

/// `heapless::Vec`, a vector of fixed capacity: carried through as it is.
#[verifier::external_type_specification]
#[verifier::external_body]
#[verifier::reject_recursive_types(T)]
pub struct ExHeaplessVec<T, const N: usize>(heapless::Vec<T, N>);

/// `TryFrom<&[T]>` for `heapless::Vec<T, N>`, which is `Vec::from_slice`:
/// a vector filled from `bytes`, which there is exactly when `bytes` has at
/// most `N` elements, the capacity.
#[verifier::external_body]
fn heapless_from_slice<const N: usize>(bytes: &[u8]) -> (r: Result<heapless::Vec<u8, N>, ()>)
    ensures
        r is Ok <==> bytes@.len() <= N,
{
    heapless::Vec::try_from(bytes)
}

/// `heapless::Vec::as_slice`: the elements of the vector, which are never
/// more than `N`, the capacity.
#[verifier::external_body]
fn heapless_as_slice<'a, const N: usize>(vec: &'a heapless::Vec<u8, N>) -> (bytes: &'a [u8])
    ensures
        bytes@.len() <= N,
{
    vec.as_slice()
}

impl<'a, const N: usize> TryFrom<OctetStringRef<'a>> for heapless::Vec<u8, N> {
    type Error = Error;

    /// A vector of capacity `N` filled from the bytes, or `InvalidContent`
    /// if they are more than `N`.
    fn try_from(octet_string: OctetStringRef<'a>) -> (r: Result<Self, Error>)
        ensures
            r is Ok <==> octet_string@.len() <= N,
            r matches Err(e) ==> e == (Error::InvalidContent { tag: Tag::octet_string() }),
    {
        match heapless_from_slice::<N>(octet_string.as_bytes()) {
            Ok(vec) => Ok(vec),
            Err(_) => Err(Tag::octet_string().value_error()),
        }
    }
}

/// The conversion is stated by the `ensures` of `try_from`.
impl<'a, const N: usize> TryFromSpecImpl<OctetStringRef<'a>> for heapless::Vec<u8, N> {
    open spec fn obeys_try_from_spec() -> bool {
        false
    }

    open spec fn try_from_spec(octet_string: OctetStringRef<'a>) -> Result<Self, Error> {
        vstd::pervasive::arbitrary()
    }
}

impl<'a, const N: usize> TryFrom<&'a heapless::Vec<u8, N>> for OctetStringRef<'a> {
    type Error = Error;

    /// An octet string of the elements of the vector, or `InvalidContent` if
    /// they are too many to have a length, which they are not wherever the
    /// capacity `N` is a length.
    fn try_from(byte_vec: &'a heapless::Vec<u8, N>) -> (r: Result<Self, Error>)
        ensures
            N <= MAX_LENGTH ==> r is Ok,
            r matches Ok(s) ==> s@.len() <= N,
            r matches Err(e) ==> e == (Error::InvalidContent { tag: Tag::octet_string() }),
    {
        OctetStringRef::new(heapless_as_slice(byte_vec))
    }
}

/// The conversion is stated by the `ensures` of `try_from`.
impl<'a, const N: usize> TryFromSpecImpl<&'a heapless::Vec<u8, N>> for OctetStringRef<'a> {
    open spec fn obeys_try_from_spec() -> bool {
        false
    }

    open spec fn try_from_spec(byte_vec: &'a heapless::Vec<u8, N>) -> Result<Self, Error> {
        vstd::pervasive::arbitrary()
    }
}

impl<'a> From<&'a OctetString> for OctetStringRef<'a> {
    fn from(octet_string: &'a OctetString) -> (r: OctetStringRef<'a>)
        ensures
            r@ == octet_string@,
    {
        octet_string.owned_to_ref()
    }
}

/// The conversion is stated by the `ensures` of `from`, over views.
impl<'a> FromSpecImpl<&'a OctetString> for OctetStringRef<'a> {
    open spec fn obeys_from_spec() -> bool {
        false
    }

    open spec fn from_spec(octet_string: &'a OctetString) -> OctetStringRef<'a> {
        vstd::pervasive::arbitrary()
    }
}

impl<'a> From<OctetStringRef<'a>> for Vec<u8> {
    fn from(octet_string: OctetStringRef<'a>) -> (bytes: Vec<u8>)
        ensures
            bytes@ == octet_string@,
    {
        octet_string.to_vec()
    }
}

/// The conversion is stated by the `ensures` of `from`, over views.
impl<'a> FromSpecImpl<OctetStringRef<'a>> for Vec<u8> {
    open spec fn obeys_from_spec() -> bool {
        false
    }

    open spec fn from_spec(octet_string: OctetStringRef<'a>) -> Vec<u8> {
        vstd::pervasive::arbitrary()
    }
}

impl<'a> TryFrom<&'a Vec<u8>> for OctetStringRef<'a> {
    type Error = Error;

    fn try_from(byte_vec: &'a Vec<u8>) -> (r: Result<Self, Error>)
        ensures
            match spec_octet_string(byte_vec@) {
                Ok(bytes) => r matches Ok(s) && s@ == bytes,
                Err(e) => r matches Err(x) && x == e,
            },
    {
        OctetStringRef::new(byte_vec.as_slice())
    }
}

/// The conversion is stated by the `ensures` of `try_from`, over views.
impl<'a> TryFromSpecImpl<&'a Vec<u8>> for OctetStringRef<'a> {
    open spec fn obeys_try_from_spec() -> bool {
        false
    }

    open spec fn try_from_spec(byte_vec: &'a Vec<u8>) -> Result<Self, Error> {
        vstd::pervasive::arbitrary()
    }
}

impl From<OctetString> for Vec<u8> {
    fn from(octet_string: OctetString) -> (bytes: Vec<u8>)
        ensures
            bytes@ == octet_string@,
    {
        octet_string.into_bytes()
    }
}

/// The conversion is stated by the `ensures` of `from`, over views.
impl FromSpecImpl<OctetString> for Vec<u8> {
    open spec fn obeys_from_spec() -> bool {
        false
    }

    open spec fn from_spec(octet_string: OctetString) -> Vec<u8> {
        vstd::pervasive::arbitrary()
    }
}

} // verus!
