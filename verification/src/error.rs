//! The error taxonomy shared by every decoder and encoder.
use crate::tag::Tag;
use vstd::prelude::*;

verus! {

/// Why a decode or an encode step failed.
///
/// Every step either completes or yields exactly one of these; there is no
/// partial result.
#[derive(Clone, Copy, Debug, PartialEq, Eq)]
pub enum Error {
    /// The observed tag is not the expected one, or not one of the candidates.
    UnexpectedTag { expected: Option<Tag>, actual: Tag },
    /// The tag has no single-octet form: a reserved or unsupported combination
    /// of class, construction flag and number.
    MalformedTag,
    /// A length was not written in its shortest form, or used the indefinite
    /// form.
    NonCanonicalLength,
    /// A bounded region was closed with bytes left unread.
    TrailingData,
    /// Fewer bytes are available than a length declares.
    TruncatedInput,
    /// A size exceeds the largest representable [`Length`](crate::length::Length).
    LengthOverflow,
    /// An implicitly tagged field's construction flag disagrees with the
    /// natural flag of the value inside.
    ConstructedFlagMismatch { tag: Tag },
    /// The content is not valid for the type named by `tag`.
    InvalidContent { tag: Tag },
}

} // verus!
