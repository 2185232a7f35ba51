//! Value types.
pub mod any;
pub mod bit_string;
pub mod bytes;
pub mod context_specific;
pub mod integer;
pub mod octet_string;
pub mod printable_string;
pub mod set_of;
pub mod utf8_string;

pub use crate::asn1::any::AnyRef;
pub use crate::asn1::bit_string::BitStringRef;
pub use crate::asn1::context_specific::{ContextSpecific, ContextSpecificRef};
pub use crate::asn1::octet_string::{OctetString, OctetStringRef};
pub use crate::asn1::printable_string::PrintableStringRef;
pub use crate::asn1::set_of::SetOf;
pub use crate::asn1::utf8_string::Utf8StringRef;
