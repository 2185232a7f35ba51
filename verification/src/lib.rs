//! Codec core for the distinguished tag-length-value encoding of ASN.1.
//!
//! Every operation carries a contract over a mathematical model of the
//! encoding: byte strings are `Seq<u8>`, decoders are specified by `spec`
//! parsers from a byte string to a value and a count of bytes, and encoders by
//! `spec` serialisers from a value to a byte string.
pub mod asn1;
pub mod decode;
pub mod encode;
pub mod error;
pub mod header;
pub mod length;
pub mod ord;
pub mod reader;
pub mod referenced;
pub mod tag;

pub use crate::decode::{Decode, DecodeValue};
pub use crate::encode::{Encode, EncodeValue};
pub use crate::error::Error;
pub use crate::header::Header;
pub use crate::length::Length;
pub use crate::ord::{DerOrd, Order, ValueOrd};
pub use crate::reader::SliceReader;
pub use crate::tag::{Choice, Class, FixedTag, Tag, TagMode, TagNumber, Tagged};
