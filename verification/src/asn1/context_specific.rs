//! Context-specific fields: values tagged by their position in a schema.
use crate::asn1::any::{spec_decode_any, AnyRef};
use crate::asn1::octet_string::{lemma_octet_string_round_trip, OctetStringRef};
use crate::decode::{read_nested_unit, read_nested_value, spec_after, spec_nested_unit};
use crate::decode::{spec_nested_value, spec_whole_input, Decode, DecodeValue};
use crate::encode::{lemma_unit_length, spec_encode_unit, Encode, EncodeValue};
use crate::error::Error;
use crate::header::{lemma_header_round_trip, lemma_parse_header_canonical};
use crate::header::{spec_header_bytes, spec_parse_header, Header};
use crate::length::Length;
use crate::ord::{bytes_order, lemma_bytes_order_strict_total, spec_encoding_order, Order, ValueOrd};
use crate::reader::{spec_peek_tag, SliceReader};
use crate::tag::{Choice, Tag, TagMode, TagNumber, Tagged};
use vstd::prelude::*;
use vstd::std_specs::convert::TryFromSpecImpl;

verus! {

/// A context-specific field that owns the value inside it.
///
/// Its view is the same field around the view of the value.
#[derive(Copy, Clone, Debug, Eq, PartialEq, PartialOrd, Ord)]
pub struct ContextSpecific<T> {
    /// The number of the field's tag, without class and construction flag.
    pub tag_number: TagNumber,
    /// Whether the field wraps the inner value's encoding or replaces its tag.
    pub tag_mode: TagMode,
    /// The value of the field.
    pub value: T,
}

impl<T: View> View for ContextSpecific<T> {
    type V = ContextSpecific<T::V>;

    open spec fn view(&self) -> ContextSpecific<T::V> {
        ContextSpecific { tag_number: self.tag_number, tag_mode: self.tag_mode, value: self.value@ }
    }
}

/// The view of a field that may be absent.
pub open spec fn spec_field_view<T: View>(field: Option<ContextSpecific<T>>) -> Option<
    ContextSpecific<T::V>,
> {
    match field {
        Some(f) => Some(f@),
        None => None,
    }
}

/// Whether a field with `tag` ends the search for the field numbered
/// `target`: it is no context-specific field, or its number is higher.
pub open spec fn spec_stops_search(tag: Tag, target: TagNumber) -> bool {
    !(tag is ContextSpecific) || tag.spec_number().0 > target.0
}

/// Searches `s` for the context-specific field numbered `target`: whether it
/// comes next once the lower-numbered context-specific fields before it are
/// skipped, and how many bytes those occupy.
///
/// The search ends without a find at the end of the input and at the first
/// unit that is no context-specific field or has a higher number; that unit
/// is not skipped. A skipped field is parsed as a unit of any type, and its
/// failure to parse fails the search. (A unit occupies at least its header
/// and at most the input, see [`lemma_seek_skips_lower`]; to ask for that
/// again here is what lets the definition be seen to terminate.)
pub open spec fn spec_seek_field(s: Seq<u8>, target: TagNumber) -> Result<(bool, nat), Error>
    decreases s.len(),
{
    match spec_peek_tag(s) {
        Err(e) => Err(e),
        Ok(None) => Ok((false, 0)),
        Ok(Some(tag)) => if spec_stops_search(tag, target) {
            Ok((false, 0))
        } else if tag.spec_number() == target {
            Ok((true, 0))
        } else {
            match spec_decode_any(s) {
                Err(e) => Err(e),
                Ok((_, n)) => if 0 < n <= s.len() {
                    spec_after(n, spec_seek_field(s.skip(n as int), target))
                } else {
                    Err(Error::TruncatedInput)
                },
            }
        },
    }
}

/// The outcome of a probe for a field: the search decides whether the field
/// is absent; if it is found, `field` is what decoding it gives.
pub open spec fn spec_probe<V>(seek: Result<(bool, nat), Error>, field: Result<(V, nat), Error>) -> Result<
    (Option<V>, nat),
    Error,
> {
    match seek {
        Err(e) => Err(e),
        Ok((false, k)) => Ok((None, k)),
        Ok((true, k)) => match field {
            Err(e) => Err(e),
            Ok((v, n)) => Ok((Some(v), k + n)),
        },
    }
}

/// The input that is left once the search has skipped what it skips.
pub open spec fn spec_after_seek(s: Seq<u8>, seek: Result<(bool, nat), Error>) -> Seq<u8> {
    match seek {
        Ok((_, k)) => s.skip(k as int),
        Err(_) => s,
    }
}

/// Parses one explicitly tagged field at the start of `s`.
///
/// The header must carry a constructed context-specific tag, else the tag is
/// unexpected. The content is a region bounded to the header's length that
/// holds one complete unit of the inner type and nothing else.
pub open spec fn spec_explicit_field<'a, T: Decode<'a>>(s: Seq<u8>) -> Result<
    (ContextSpecific<T::V>, nat),
    Error,
> {
    match spec_parse_header(s) {
        Err(e) => Err(e),
        Ok((header, n)) => match header.tag {
            Tag::ContextSpecific { constructed: true, number } => match spec_nested_unit::<T>(
                header.length,
                s.skip(n as int),
            ) {
                Err(e) => Err(e),
                Ok((v, m)) => Ok(
                    (ContextSpecific { tag_number: number, tag_mode: TagMode::Explicit, value: v }, n + m),
                ),
            },
            tag => Err(tag.spec_unexpected_error(None)),
        },
    }
}

/// Parses one implicitly tagged field at the start of `s`, to be numbered
/// `tag_number`.
///
/// The header's tag stands in for the inner type's own. The content is a
/// region bounded to the header's length that holds the inner value's
/// content and nothing else. The header's construction flag must be the
/// natural one of the value found, else it is a `ConstructedFlagMismatch`.
pub open spec fn spec_implicit_field<'a, T: DecodeValue<'a> + Tagged>(
    s: Seq<u8>,
    tag_number: TagNumber,
) -> Result<(ContextSpecific<T::V>, nat), Error> {
    match spec_parse_header(s) {
        Err(e) => Err(e),
        Ok((header, n)) => match spec_nested_value::<T>(header, s.skip(n as int)) {
            Err(e) => Err(e),
            Ok((v, m)) => if header.tag.spec_is_constructed() != T::spec_tag(v).spec_is_constructed() {
                Err(Error::ConstructedFlagMismatch { tag: header.tag })
            } else {
                Ok((ContextSpecific { tag_number, tag_mode: TagMode::Implicit, value: v }, n + m))
            },
        },
    }
}

/// A probe of `s` for the explicitly tagged field numbered `target`.
pub open spec fn spec_decode_explicit<'a, T: Decode<'a>>(s: Seq<u8>, target: TagNumber) -> Result<
    (Option<ContextSpecific<T::V>>, nat),
    Error,
> {
    let seek = spec_seek_field(s, target);
    spec_probe(seek, spec_explicit_field::<T>(spec_after_seek(s, seek)))
}

/// A probe of `s` for the implicitly tagged field numbered `target`.
pub open spec fn spec_decode_implicit<'a, T: DecodeValue<'a> + Tagged>(
    s: Seq<u8>,
    target: TagNumber,
) -> Result<(Option<ContextSpecific<T::V>>, nat), Error> {
    let seek = spec_seek_field(s, target);
    spec_probe(seek, spec_implicit_field::<T>(spec_after_seek(s, seek), target))
}

/// A field that the search finds carries a context-specific tag with the
/// number searched for.
pub proof fn lemma_seek_finds_target(s: Seq<u8>, target: TagNumber)
    ensures
        spec_seek_field(s, target) matches Ok((true, k)) ==> k < s.len() && (spec_peek_tag(
            s.skip(k as int),
        ) matches Ok(Some(tag)) && tag is ContextSpecific && tag.spec_number() == target),
        spec_seek_field(s, target) matches Ok((false, k)) ==> k <= s.len() && (spec_peek_tag(
            s.skip(k as int),
        ) matches Ok(found) && (found matches Some(tag) ==> spec_stops_search(tag, target))),
    decreases s.len(),
{
    if let Ok(Some(tag)) = spec_peek_tag(s) {
        if !spec_stops_search(tag, target) && tag.spec_number() != target {
            if let Ok((_, n)) = spec_decode_any(s) {
                if 0 < n <= s.len() {
                    let rest = s.skip(n as int);
                    lemma_seek_finds_target(rest, target);
                    if let Ok((_, k)) = spec_seek_field(rest, target) {
                        assert(rest.skip(k as int) =~= s.skip((n + k) as int));
                    }
                }
            }
        } else {
            assert(s.skip(0) =~= s);
        }
    } else {
        assert(s.skip(0) =~= s);
    }
}

/// The search skips a context-specific field with a lower number: it goes
/// on behind the field as if it had started there.
pub proof fn lemma_seek_skips_lower(s: Seq<u8>, target: TagNumber)
    requires
        spec_peek_tag(s) matches Ok(Some(tag)) && tag is ContextSpecific && tag.spec_number().0
            < target.0,
        spec_decode_any(s) is Ok,
    ensures
        0 < spec_decode_any(s)->Ok_0.1 <= s.len(),
        spec_seek_field(s, target) == spec_after(
            spec_decode_any(s)->Ok_0.1,
            spec_seek_field(s.skip(spec_decode_any(s)->Ok_0.1 as int), target),
        ),
{
    lemma_parse_header_canonical(s);
}

/// The search stops, having read nothing, at the end of the input and
/// before a unit that is no context-specific field or has a higher number:
/// a probe then reports the field absent and reads nothing.
pub proof fn lemma_probe_absent<'a, T: Decode<'a> + DecodeValue<'a> + Tagged>(
    s: Seq<u8>,
    target: TagNumber,
)
    requires
        spec_peek_tag(s) matches Ok(next) && (next matches Some(tag) ==> spec_stops_search(tag, target)),
    ensures
        spec_seek_field(s, target) == Ok::<(bool, nat), Error>((false, 0)),
        spec_decode_explicit::<T>(s, target) == Ok::<(Option<ContextSpecific<T::V>>, nat), Error>(
            (None, 0),
        ),
        spec_decode_implicit::<T>(s, target) == Ok::<(Option<ContextSpecific<T::V>>, nat), Error>(
            (None, 0),
        ),
{
}

/// A probe for a field behind a lower-numbered one: the lower-numbered
/// field is skipped, and the outcome is that of the probe behind it, with
/// the skipped bytes counted in.
pub proof fn lemma_probe_skips_lower<'a, T: Decode<'a> + DecodeValue<'a> + Tagged>(
    s: Seq<u8>,
    target: TagNumber,
)
    requires
        spec_peek_tag(s) matches Ok(Some(tag)) && tag is ContextSpecific && tag.spec_number().0
            < target.0,
        spec_decode_any(s) is Ok,
    ensures
        spec_decode_explicit::<T>(s, target) == spec_after(
            spec_decode_any(s)->Ok_0.1,
            spec_decode_explicit::<T>(s.skip(spec_decode_any(s)->Ok_0.1 as int), target),
        ),
        spec_decode_implicit::<T>(s, target) == spec_after(
            spec_decode_any(s)->Ok_0.1,
            spec_decode_implicit::<T>(s.skip(spec_decode_any(s)->Ok_0.1 as int), target),
        ),
{
    lemma_seek_skips_lower(s, target);
    let n = spec_decode_any(s)->Ok_0.1;
    let rest = s.skip(n as int);
    if let Ok((_, k)) = spec_seek_field(rest, target) {
        lemma_seek_finds_target(rest, target);
        assert(rest.skip(k as int) =~= s.skip((n + k) as int));
    }
}

/// What the header parser rejects where a field is sought, both probes
/// reject with the same error.
pub proof fn lemma_field_rejects_bad_header<'a, T: Decode<'a> + DecodeValue<'a> + Tagged>(
    s: Seq<u8>,
    tag_number: TagNumber,
)
    requires
        spec_parse_header(s) is Err,
    ensures
        spec_explicit_field::<T>(s) == Err::<(ContextSpecific<T::V>, nat), Error>(
            spec_parse_header(s)->Err_0,
        ),
        spec_implicit_field::<T>(s, tag_number) == Err::<(ContextSpecific<T::V>, nat), Error>(
            spec_parse_header(s)->Err_0,
        ),
{
}

impl<T> ContextSpecific<T> {
    /// Probes for the explicitly tagged field numbered `tag_number`.
    ///
    /// Context-specific fields with a lower number are skipped and dropped.
    /// The result is `None`, and nothing more is read, at the end of the
    /// input and before a unit that is no context-specific field or has a
    /// higher number. A field with the number sought is decoded.
    pub fn decode_explicit<'a>(reader: &mut SliceReader<'a>, tag_number: TagNumber) -> (r: Result<
        Option<Self>,
        Error,
    >) where T: Decode<'a>
        ensures
            match spec_decode_explicit::<T>(old(reader)@, tag_number) {
                Ok((v, n)) => r matches Ok(x) && spec_field_view(x) == v && final(reader).advanced(
                    *old(reader),
                    n,
                ),
                Err(e) => r matches Err(x) && x == e && final(reader).not_behind(*old(reader)),
            },
            r matches Ok(Some(field)) ==> field.tag_number == tag_number && field.tag_mode
                == TagMode::Explicit,
    {
        let found = Self::decode_with(reader, tag_number)?;
        if !found {
            return Ok(None);
        }
        let ghost mid = *reader;
        proof {
            let k = spec_seek_field(old(reader)@, tag_number)->Ok_0.1;
            mid.lemma_advanced_view(*old(reader), k);
            lemma_seek_finds_target(old(reader)@, tag_number);
        }
        let field = Self::decode(reader)?;
        Ok(Some(field))
    }

    /// Probes for the implicitly tagged field numbered `tag_number`.
    ///
    /// The search is that of [`decode_explicit`](ContextSpecific::decode_explicit);
    /// a field with the number sought is decoded as an implicitly tagged one.
    pub fn decode_implicit<'a>(reader: &mut SliceReader<'a>, tag_number: TagNumber) -> (r: Result<
        Option<Self>,
        Error,
    >) where T: DecodeValue<'a> + Tagged
        ensures
            match spec_decode_implicit::<T>(old(reader)@, tag_number) {
                Ok((v, n)) => r matches Ok(x) && spec_field_view(x) == v && final(reader).advanced(
                    *old(reader),
                    n,
                ),
                Err(e) => r matches Err(x) && x == e && final(reader).not_behind(*old(reader)),
            },
            r matches Ok(Some(field)) ==> field.tag_number == tag_number && field.tag_mode
                == TagMode::Implicit,
    {
        let found = Self::decode_with(reader, tag_number)?;
        if !found {
            return Ok(None);
        }
        let ghost mid = *reader;
        proof {
            let k = spec_seek_field(old(reader)@, tag_number)->Ok_0.1;
            mid.lemma_advanced_view(*old(reader), k);
        }
        let header = Header::decode(reader)?;
        proof {
            let n = spec_parse_header(mid@)->Ok_0.1;
            reader.lemma_advanced_view(mid, n);
        }
        let value = read_nested_value::<T>(reader, header)?;
        if header.tag.is_constructed() != value.tag().is_constructed() {
            return Err(header.tag.flag_mismatch_error());
        }
        Ok(Some(ContextSpecific { tag_number, tag_mode: TagMode::Implicit, value }))
    }

    /// Skips the context-specific fields numbered below `tag_number` and
    /// tells whether the field numbered `tag_number` comes next.
    pub fn decode_with<'a>(reader: &mut SliceReader<'a>, tag_number: TagNumber) -> (r: Result<bool, Error>)
        ensures
            match spec_seek_field(old(reader)@, tag_number) {
                Ok((found, n)) => r == Ok::<bool, Error>(found) && final(reader).advanced(
                    *old(reader),
                    n,
                ),
                Err(e) => r == Err::<bool, Error>(e) && final(reader).not_behind(*old(reader)),
            },
    {
        let ghost start = *reader;
        let ghost mut skipped: nat = 0;
        proof {
            use_type_invariant(&*reader);
        }
        loop
            invariant
                start == *old(reader),
                reader.advanced(start, skipped),
                spec_seek_field(start@, tag_number) == spec_after(
                    skipped,
                    spec_seek_field(reader@, tag_number),
                ),
            decreases reader@.len(),
        {
            let ghost before = *reader;
            match reader.peek_tag()? {
                None => {
                    return Ok(false);
                },
                Some(tag) => {
                    if !tag.is_context_specific() || tag.number().0 > tag_number.0 {
                        return Ok(false);
                    } else if tag.number().0 == tag_number.0 {
                        return Ok(true);
                    } else {
                        let _ = AnyRef::decode(reader)?;
                        proof {
                            let n = spec_decode_any(before@)->Ok_0.1;
                            lemma_parse_header_canonical(before@);
                            reader.lemma_advanced_view(before, n);
                            skipped = skipped + n;
                        }
                    }
                },
            }
        }
    }
}

impl<'a, T: Decode<'a> + Tagged> Choice for ContextSpecific<T> {
    open spec fn spec_can_decode(tag: Tag) -> bool {
        tag is ContextSpecific
    }

    fn can_decode(tag: Tag) -> (b: bool) {
        tag.is_context_specific()
    }
}

impl<'a, T: Decode<'a>> Decode<'a> for ContextSpecific<T> {
    open spec fn spec_decode(s: Seq<u8>) -> Result<(Self::V, nat), Error> {
        spec_explicit_field::<T>(s)
    }

    fn decode(reader: &mut SliceReader<'a>) -> (r: Result<Self, Error>) {
        let header = Header::decode(reader)?;
        proof {
            let n = spec_parse_header(old(reader)@)->Ok_0.1;
            reader.lemma_advanced_view(*old(reader), n);
        }
        match header.tag {
            Tag::ContextSpecific { number, constructed: true } => {
                let value = read_nested_unit::<T>(reader, header.length)?;
                Ok(ContextSpecific { tag_number: number, tag_mode: TagMode::default(), value })
            },
            tag => Err(tag.unexpected_error(None)),
        }
    }
}

impl<T: EncodeValue + Tagged> EncodeValue for ContextSpecific<T> {
    /// An explicit field's content is the complete encoding of the inner
    /// value; an implicit field's content is the inner value's content.
    open spec fn spec_encode_value(v: Self::V) -> Result<Seq<u8>, Error> {
        match v.tag_mode {
            TagMode::Explicit => spec_encode_unit(T::spec_tag(v.value), T::spec_encode_value(v.value)),
            TagMode::Implicit => T::spec_encode_value(v.value),
        }
    }

    fn value_len(&self) -> (r: Result<Length, Error>) {
        match self.tag_mode {
            TagMode::Explicit => self.value.encoded_len(),
            TagMode::Implicit => self.value.value_len(),
        }
    }

    fn encode_value(&self, out: &mut Vec<u8>) -> (r: Result<(), Error>) {
        match self.tag_mode {
            TagMode::Explicit => self.value.encode(out),
            TagMode::Implicit => self.value.encode_value(out),
        }
    }
}

impl<T: Tagged> Tagged for ContextSpecific<T> {
    /// A context-specific tag with the field's number. An explicit field is
    /// always constructed; an implicit one borrows the flag of the inner
    /// value.
    open spec fn spec_tag(v: Self::V) -> Tag {
        Tag::ContextSpecific {
            number: v.tag_number,
            constructed: match v.tag_mode {
                TagMode::Explicit => true,
                TagMode::Implicit => T::spec_tag(v.value).spec_is_constructed(),
            },
        }
    }

    fn tag(&self) -> (t: Tag) {
        let constructed = match self.tag_mode {
            TagMode::Explicit => true,
            TagMode::Implicit => self.value.tag().is_constructed(),
        };
        Tag::ContextSpecific { number: self.tag_number, constructed }
    }
}

impl<T: EncodeValue + ValueOrd + Tagged> ValueOrd for ContextSpecific<T> {
    /// The mode of the first field decides. Explicit fields are ordered as
    /// their complete encodings are, header included; implicit fields as the
    /// inner type orders the values inside them.
    open spec fn spec_value_cmp(a: Self::V, b: Self::V) -> Result<Order, Error> {
        match a.tag_mode {
            TagMode::Explicit => spec_encoding_order(
                spec_encode_unit(Self::spec_tag(a), Self::spec_encode_value(a)),
                spec_encode_unit(Self::spec_tag(b), Self::spec_encode_value(b)),
            ),
            TagMode::Implicit => T::spec_value_cmp(a.value, b.value),
        }
    }

    fn value_cmp(&self, other: &Self) -> (r: Result<Order, Error>) {
        match self.tag_mode {
            TagMode::Explicit => {
                let mine = self.to_der()?;
                let theirs = other.to_der()?;
                Ok(bytes_order(mine.as_slice(), theirs.as_slice()))
            },
            TagMode::Implicit => self.value.value_cmp(&other.value),
        }
    }
}

/// What converting a unit of any type, with tag `tag` and content `content`,
/// to an explicitly tagged field gives.
///
/// The tag must be a constructed context-specific one, else it is
/// unexpected; the content must be one complete unit of the inner type and
/// nothing else.
pub open spec fn spec_field_from_any<'a, T: Decode<'a>>(tag: Tag, content: Seq<u8>) -> Result<
    ContextSpecific<T::V>,
    Error,
> {
    match tag {
        Tag::ContextSpecific { constructed: true, number } => match spec_whole_input(
            content,
            T::spec_decode(content),
        ) {
            Err(e) => Err(e),
            Ok(v) => Ok(ContextSpecific { tag_number: number, tag_mode: TagMode::Explicit, value: v }),
        },
        tag => Err(tag.spec_unexpected_error(None)),
    }
}

impl<'a, T: Decode<'a>> TryFrom<AnyRef<'a>> for ContextSpecific<T> {
    type Error = Error;

    /// Converts a unit of any type to the explicitly tagged field it holds.
    fn try_from(any: AnyRef<'a>) -> (r: Result<ContextSpecific<T>, Error>)
        ensures
            match spec_field_from_any::<T>(any@.0, any@.1) {
                Ok(v) => r matches Ok(x) && x@ == v,
                Err(e) => r matches Err(x) && x == e,
            },
    {
        match any.tag() {
            Tag::ContextSpecific { number, constructed: true } => {
                let value = T::from_der(any.value())?;
                Ok(ContextSpecific { tag_number: number, tag_mode: TagMode::default(), value })
            },
            tag => Err(tag.unexpected_error(None)),
        }
    }
}

/// The conversion is stated by the `ensures` of `try_from`, over views.
impl<'a, T: Decode<'a>> TryFromSpecImpl<AnyRef<'a>> for ContextSpecific<T> {
    open spec fn obeys_try_from_spec() -> bool {
        false
    }

    open spec fn try_from_spec(any: AnyRef<'a>) -> Result<Self, Error> {
        vstd::pervasive::arbitrary()
    }
}

/// A reference to a value, which encodes as the value does.
#[derive(Debug)]
pub struct EncodeValueRef<'a, T>(pub &'a T);

impl<'a, T: View> View for EncodeValueRef<'a, T> {
    type V = T::V;

    open spec fn view(&self) -> T::V {
        self.0@
    }
}

impl<'a, T: EncodeValue> EncodeValue for EncodeValueRef<'a, T> {
    open spec fn spec_encode_value(v: Self::V) -> Result<Seq<u8>, Error> {
        T::spec_encode_value(v)
    }

    fn value_len(&self) -> (r: Result<Length, Error>) {
        self.0.value_len()
    }

    fn encode_value(&self, out: &mut Vec<u8>) -> (r: Result<(), Error>) {
        self.0.encode_value(out)
    }
}

impl<'a, T: Tagged> Tagged for EncodeValueRef<'a, T> {
    open spec fn spec_tag(v: Self::V) -> Tag {
        T::spec_tag(v)
    }

    fn tag(&self) -> (t: Tag) {
        self.0.tag()
    }
}

/// A context-specific field that borrows the value inside it, for encoding.
///
/// Its view is that of the owning field with the same parts.
#[derive(Copy, Clone, Debug, Eq, PartialEq, PartialOrd, Ord)]
pub struct ContextSpecificRef<'a, T> {
    /// The number of the field's tag, without class and construction flag.
    pub tag_number: TagNumber,
    /// Whether the field wraps the inner value's encoding or replaces its tag.
    pub tag_mode: TagMode,
    /// The value of the field.
    pub value: &'a T,
}

impl<'a, T: View> View for ContextSpecificRef<'a, T> {
    type V = ContextSpecific<T::V>;

    open spec fn view(&self) -> ContextSpecific<T::V> {
        ContextSpecific { tag_number: self.tag_number, tag_mode: self.tag_mode, value: self.value@ }
    }
}

impl<'a, T> ContextSpecificRef<'a, T> {
    /// The owning field around a reference to the value.
    pub fn encoder(&self) -> (field: ContextSpecific<EncodeValueRef<'a, T>>) where T: View
        ensures
            field@ == self@,
    {
        ContextSpecific {
            tag_number: self.tag_number,
            tag_mode: self.tag_mode,
            value: EncodeValueRef(self.value),
        }
    }
}

impl<'a, T: EncodeValue + Tagged> EncodeValue for ContextSpecificRef<'a, T> {
    open spec fn spec_encode_value(v: Self::V) -> Result<Seq<u8>, Error> {
        ContextSpecific::<T>::spec_encode_value(v)
    }

    fn value_len(&self) -> (r: Result<Length, Error>) {
        self.encoder().value_len()
    }

    fn encode_value(&self, out: &mut Vec<u8>) -> (r: Result<(), Error>) {
        self.encoder().encode_value(out)
    }
}

impl<'a, T: Tagged> Tagged for ContextSpecificRef<'a, T> {
    open spec fn spec_tag(v: Self::V) -> Tag {
        ContextSpecific::<T>::spec_tag(v)
    }

    fn tag(&self) -> (t: Tag) {
        self.encoder().tag()
    }
}

/// The complete encoding of a field: its header, then its content.
pub open spec fn spec_encode_field<T: EncodeValue + Tagged>(field: ContextSpecific<T::V>) -> Result<
    Seq<u8>,
    Error,
> {
    spec_encode_unit(ContextSpecific::<T>::spec_tag(field), ContextSpecific::<T>::spec_encode_value(field))
}

/// Round trip of an explicit field: if the encoding of the inner value
/// decodes back to that value, then a probe for the field's number, on the
/// field's encoding and whatever follows it, finds the field.
pub proof fn lemma_explicit_round_trip<'a, T: Decode<'a> + EncodeValue + Tagged>(
    field: ContextSpecific<T::V>,
    rest: Seq<u8>,
)
    requires
        field.tag_mode == TagMode::Explicit,
        spec_encode_field::<T>(field) is Ok,
        T::spec_decode(spec_encode_unit(T::spec_tag(field.value), T::spec_encode_value(field.value))->Ok_0)
            == Ok::<(T::V, nat), Error>(
            (
                field.value,
                spec_encode_unit(T::spec_tag(field.value), T::spec_encode_value(field.value))->Ok_0.len(),
            ),
        ),
    ensures
        spec_explicit_field::<T>(spec_encode_field::<T>(field)->Ok_0 + rest) == Ok::<
            (ContextSpecific<T::V>, nat),
            Error,
        >((field, spec_encode_field::<T>(field)->Ok_0.len())),
        spec_decode_explicit::<T>(spec_encode_field::<T>(field)->Ok_0 + rest, field.tag_number) == Ok::<
            (Option<ContextSpecific<T::V>>, nat),
            Error,
        >((Some(field), spec_encode_field::<T>(field)->Ok_0.len())),
{
    let tag = ContextSpecific::<T>::spec_tag(field);
    let c = spec_encode_unit(T::spec_tag(field.value), T::spec_encode_value(field.value))->Ok_0;
    let header = Header { tag, length: Length(c.len() as u32) };
    let h = spec_header_bytes(header)->Ok_0;
    let s = h + c + rest;
    lemma_header_round_trip(header, c + rest);
    Tag::lemma_octet_round_trip(tag);
    assert(s =~= h + (c + rest));
    assert(s.skip(h.len() as int) =~= c + rest);
    assert((c + rest).take(c.len() as int) =~= c);
    assert(s.skip(0) =~= s);
    assert(s[0] == tag.spec_octet());
}

/// Round trip of an implicit field: if the content of the inner value
/// decodes back to that value under the field's header, and the inner type
/// reports the same tag for it, then a probe for the field's number, on the
/// field's encoding and whatever follows it, finds the field.
pub proof fn lemma_implicit_round_trip<'a, T: DecodeValue<'a> + EncodeValue + Tagged>(
    field: ContextSpecific<T::V>,
    rest: Seq<u8>,
)
    requires
        field.tag_mode == TagMode::Implicit,
        spec_encode_field::<T>(field) is Ok,
        T::spec_decode_value(
            Header {
                tag: ContextSpecific::<T>::spec_tag(field),
                length: Length(T::spec_encode_value(field.value)->Ok_0.len() as u32),
            },
            T::spec_encode_value(field.value)->Ok_0,
        ) == Ok::<(T::V, nat), Error>((field.value, T::spec_encode_value(field.value)->Ok_0.len())),
    ensures
        spec_implicit_field::<T>(spec_encode_field::<T>(field)->Ok_0 + rest, field.tag_number) == Ok::<
            (ContextSpecific<T::V>, nat),
            Error,
        >((field, spec_encode_field::<T>(field)->Ok_0.len())),
        spec_decode_implicit::<T>(spec_encode_field::<T>(field)->Ok_0 + rest, field.tag_number) == Ok::<
            (Option<ContextSpecific<T::V>>, nat),
            Error,
        >((Some(field), spec_encode_field::<T>(field)->Ok_0.len())),
{
    let tag = ContextSpecific::<T>::spec_tag(field);
    let c = T::spec_encode_value(field.value)->Ok_0;
    let header = Header { tag, length: Length(c.len() as u32) };
    let h = spec_header_bytes(header)->Ok_0;
    let s = h + c + rest;
    lemma_header_round_trip(header, c + rest);
    Tag::lemma_octet_round_trip(tag);
    assert(s =~= h + (c + rest));
    assert(s.skip(h.len() as int) =~= c + rest);
    assert((c + rest).take(c.len() as int) =~= c);
    assert(s.skip(0) =~= s);
    assert(s[0] == tag.spec_octet());
}

/// Round trip of a field around an octet string, in either mode: a probe
/// for the field's number, on the field's encoding and whatever follows it,
/// finds the field, and has then read exactly the encoding.
pub proof fn lemma_octet_string_field_round_trip(field: ContextSpecific<Seq<u8>>, rest: Seq<u8>)
    requires
        spec_encode_field::<OctetStringRef>(field) is Ok,
    ensures
        field.tag_mode == TagMode::Explicit ==> spec_decode_explicit::<OctetStringRef>(
            spec_encode_field::<OctetStringRef>(field)->Ok_0 + rest,
            field.tag_number,
        ) == Ok::<(Option<ContextSpecific<Seq<u8>>>, nat), Error>(
            (Some(field), spec_encode_field::<OctetStringRef>(field)->Ok_0.len()),
        ),
        field.tag_mode == TagMode::Implicit ==> spec_decode_implicit::<OctetStringRef>(
            spec_encode_field::<OctetStringRef>(field)->Ok_0 + rest,
            field.tag_number,
        ) == Ok::<(Option<ContextSpecific<Seq<u8>>>, nat), Error>(
            (Some(field), spec_encode_field::<OctetStringRef>(field)->Ok_0.len()),
        ),
{
    let bytes = field.value;
    assert(bytes.take(bytes.len() as int) =~= bytes);
    match field.tag_mode {
        TagMode::Explicit => {
            lemma_octet_string_round_trip(bytes, Seq::empty());
            let inner = spec_encode_unit(Tag::octet_string(), Ok(bytes))->Ok_0;
            assert(inner + Seq::<u8>::empty() =~= inner);
            lemma_explicit_round_trip::<OctetStringRef>(field, rest);
        },
        TagMode::Implicit => {
            lemma_implicit_round_trip::<OctetStringRef>(field, rest);
        },
    }
}

/// An explicit field is accepted in one encoding only: if the content that
/// was accepted is the encoding of the inner value found, the bytes that
/// were read are the encoding of the field found.
pub proof fn lemma_explicit_decode_canonical<'a, T: Decode<'a> + EncodeValue + Tagged>(s: Seq<u8>)
    requires
        spec_explicit_field::<T>(s) is Ok,
        spec_parse_header(s) matches Ok((header, n)) && spec_encode_unit(
            T::spec_tag(spec_explicit_field::<T>(s)->Ok_0.0.value),
            T::spec_encode_value(spec_explicit_field::<T>(s)->Ok_0.0.value),
        ) == Ok::<Seq<u8>, Error>(s.subrange(n as int, n + header.length.0)),
    ensures
        spec_explicit_field::<T>(s)->Ok_0.1 <= s.len(),
        spec_encode_field::<T>(spec_explicit_field::<T>(s)->Ok_0.0) == Ok::<Seq<u8>, Error>(
            s.subrange(0, spec_explicit_field::<T>(s)->Ok_0.1 as int),
        ),
{
    lemma_parse_header_canonical(s);
    let (header, n) = spec_parse_header(s)->Ok_0;
    let m = spec_explicit_field::<T>(s)->Ok_0.1;
    assert(s.subrange(0, m as int) =~= s.subrange(0, n as int) + s.subrange(n as int, n + header.length.0));
}

/// An implicit field that a probe finds is accepted in one encoding only:
/// if the content that was accepted is the content of the inner value
/// found, the bytes that were read are the encoding of the field found.
pub proof fn lemma_implicit_decode_canonical<'a, T: DecodeValue<'a> + EncodeValue + Tagged>(
    s: Seq<u8>,
    tag_number: TagNumber,
)
    requires
        spec_implicit_field::<T>(s, tag_number) is Ok,
        spec_peek_tag(s) matches Ok(Some(tag)) && tag is ContextSpecific && tag.spec_number()
            == tag_number,
        spec_parse_header(s) matches Ok((header, n)) && T::spec_encode_value(
            spec_implicit_field::<T>(s, tag_number)->Ok_0.0.value,
        ) == Ok::<Seq<u8>, Error>(s.subrange(n as int, n + header.length.0)),
    ensures
        spec_implicit_field::<T>(s, tag_number)->Ok_0.1 <= s.len(),
        spec_encode_field::<T>(spec_implicit_field::<T>(s, tag_number)->Ok_0.0) == Ok::<Seq<u8>, Error>(
            s.subrange(0, spec_implicit_field::<T>(s, tag_number)->Ok_0.1 as int),
        ),
{
    lemma_parse_header_canonical(s);
    let (header, n) = spec_parse_header(s)->Ok_0;
    let m = spec_implicit_field::<T>(s, tag_number)->Ok_0.1;
    assert(s.subrange(0, m as int) =~= s.subrange(0, n as int) + s.subrange(n as int, n + header.length.0));
}

/// A buffer that is shorter or longer than the header at its start says is
/// never accepted as one field, explicit or implicit.
pub proof fn lemma_field_rejects_wrong_length<'a, T: Decode<'a> + DecodeValue<'a> + Tagged>(
    s: Seq<u8>,
    tag_number: TagNumber,
)
    requires
        spec_parse_header(s) matches Ok((header, n)) && s.len() != n + header.length.0,
    ensures
        spec_whole_input(s, spec_explicit_field::<T>(s)) is Err,
        spec_whole_input(s, spec_implicit_field::<T>(s, tag_number)) is Err,
{
    lemma_parse_header_canonical(s);
}

/// An explicit field is longer than the implicit field around the same
/// value: its content is longer by exactly the inner value's own header, and
/// its complete encoding by at least that.
pub proof fn lemma_explicit_longer_than_implicit<T: EncodeValue + Tagged>(
    tag_number: TagNumber,
    value: T::V,
)
    requires
        spec_encode_field::<T>(
            ContextSpecific { tag_number, tag_mode: TagMode::Explicit, value },
        ) is Ok,
        spec_encode_field::<T>(
            ContextSpecific { tag_number, tag_mode: TagMode::Implicit, value },
        ) is Ok,
    ensures
        ({
            let explicit = ContextSpecific { tag_number, tag_mode: TagMode::Explicit, value };
            let implicit = ContextSpecific { tag_number, tag_mode: TagMode::Implicit, value };
            let inner_header = spec_header_bytes(
                Header {
                    tag: T::spec_tag(value),
                    length: Length(T::spec_encode_value(value)->Ok_0.len() as u32),
                },
            );
            &&& inner_header is Ok
            &&& ContextSpecific::<T>::spec_encode_value(explicit)->Ok_0.len() == ContextSpecific::<
                T,
            >::spec_encode_value(implicit)->Ok_0.len() + inner_header->Ok_0.len()
            &&& spec_encode_field::<T>(explicit)->Ok_0.len() >= spec_encode_field::<T>(implicit)->Ok_0.len()
                + inner_header->Ok_0.len()
            &&& spec_encode_field::<T>(explicit)->Ok_0.len() > spec_encode_field::<T>(implicit)->Ok_0.len()
        }),
{
    let explicit = ContextSpecific { tag_number, tag_mode: TagMode::Explicit, value };
    let implicit = ContextSpecific { tag_number, tag_mode: TagMode::Implicit, value };
    lemma_unit_length(ContextSpecific::<T>::spec_tag(explicit), ContextSpecific::<T>::spec_encode_value(explicit));
    lemma_unit_length(ContextSpecific::<T>::spec_tag(implicit), ContextSpecific::<T>::spec_encode_value(implicit));
    lemma_unit_length(T::spec_tag(value), T::spec_encode_value(value));
}

/// The order of explicit fields is a strict total order, where the inner
/// values' encodings decode back to them: each field is equal to itself, of
/// two different fields exactly one is less than the other, and being less
/// is transitive.
pub proof fn lemma_explicit_order_strict_total<'a, T: Decode<'a> + EncodeValue + ValueOrd + Tagged>(
    a: ContextSpecific<T::V>,
    b: ContextSpecific<T::V>,
    c: ContextSpecific<T::V>,
)
    requires
        a.tag_mode == TagMode::Explicit,
        b.tag_mode == TagMode::Explicit,
        c.tag_mode == TagMode::Explicit,
        spec_encode_field::<T>(a) is Ok,
        spec_encode_field::<T>(b) is Ok,
        spec_encode_field::<T>(c) is Ok,
        T::spec_decode(spec_encode_unit(T::spec_tag(a.value), T::spec_encode_value(a.value))->Ok_0)
            == Ok::<(T::V, nat), Error>(
            (a.value, spec_encode_unit(T::spec_tag(a.value), T::spec_encode_value(a.value))->Ok_0.len()),
        ),
        T::spec_decode(spec_encode_unit(T::spec_tag(b.value), T::spec_encode_value(b.value))->Ok_0)
            == Ok::<(T::V, nat), Error>(
            (b.value, spec_encode_unit(T::spec_tag(b.value), T::spec_encode_value(b.value))->Ok_0.len()),
        ),
    ensures
        ContextSpecific::<T>::spec_value_cmp(a, a) == Ok::<Order, Error>(Order::Equal),
        a != b ==> (ContextSpecific::<T>::spec_value_cmp(a, b) == Ok::<Order, Error>(Order::Less))
            != (ContextSpecific::<T>::spec_value_cmp(b, a) == Ok::<Order, Error>(Order::Less)),
        ContextSpecific::<T>::spec_value_cmp(a, b) == Ok::<Order, Error>(Order::Less)
            && ContextSpecific::<T>::spec_value_cmp(b, c) == Ok::<Order, Error>(Order::Less)
            ==> ContextSpecific::<T>::spec_value_cmp(a, c) == Ok::<Order, Error>(Order::Less),
{
    let ea = spec_encode_field::<T>(a)->Ok_0;
    let eb = spec_encode_field::<T>(b)->Ok_0;
    let ec = spec_encode_field::<T>(c)->Ok_0;
    lemma_bytes_order_strict_total(ea, eb, ec);
    lemma_bytes_order_strict_total(ea, ea, ea);
    lemma_explicit_round_trip::<T>(a, Seq::empty());
    lemma_explicit_round_trip::<T>(b, Seq::empty());
}

/// The order of implicit fields is the order of the values inside them, so
/// it is a strict total order on fields of one number wherever the inner
/// type's order of contents is one on their values.
pub proof fn lemma_implicit_order_strict_total<T: EncodeValue + ValueOrd + Tagged>(
    a: ContextSpecific<T::V>,
    b: ContextSpecific<T::V>,
    c: ContextSpecific<T::V>,
)
    requires
        a.tag_mode == TagMode::Implicit,
        b.tag_mode == TagMode::Implicit,
        c.tag_mode == TagMode::Implicit,
        a.tag_number == b.tag_number,
        T::spec_value_cmp(a.value, a.value) == Ok::<Order, Error>(Order::Equal),
        a.value != b.value ==> (T::spec_value_cmp(a.value, b.value) == Ok::<Order, Error>(Order::Less))
            != (T::spec_value_cmp(b.value, a.value) == Ok::<Order, Error>(Order::Less)),
        T::spec_value_cmp(a.value, b.value) == Ok::<Order, Error>(Order::Less) && T::spec_value_cmp(
            b.value,
            c.value,
        ) == Ok::<Order, Error>(Order::Less) ==> T::spec_value_cmp(a.value, c.value) == Ok::<
            Order,
            Error,
        >(Order::Less),
    ensures
        ContextSpecific::<T>::spec_value_cmp(a, b) == T::spec_value_cmp(a.value, b.value),
        ContextSpecific::<T>::spec_value_cmp(a, a) == Ok::<Order, Error>(Order::Equal),
        a != b ==> (ContextSpecific::<T>::spec_value_cmp(a, b) == Ok::<Order, Error>(Order::Less))
            != (ContextSpecific::<T>::spec_value_cmp(b, a) == Ok::<Order, Error>(Order::Less)),
        ContextSpecific::<T>::spec_value_cmp(a, b) == Ok::<Order, Error>(Order::Less)
            && ContextSpecific::<T>::spec_value_cmp(b, c) == Ok::<Order, Error>(Order::Less)
            ==> ContextSpecific::<T>::spec_value_cmp(a, c) == Ok::<Order, Error>(Order::Less),
{
}

} // verus!
