//! A library for reading and writing ASN.1 data in the BER, CER and DER
//! byte formats of ITU-T X.690.
//!
//! The decoder consumes a byte slice and yields typed values while
//! enforcing the length, identifier and canonicity rules of the selected
//! mode; the encoder serializes values in strict DER form. Every rule of
//! the wire grammar is stated as a specification over byte sequences, and
//! the executable code is verified against those statements.

use vstd::prelude::*;

pub mod basics;
pub mod encoding;
pub mod laws;
pub mod models;
pub mod deserializer;
pub mod reader;
pub mod serializer;
pub mod writer;

pub use deserializer::{decode_ber, decode_ber_general, decode_der, BERDecodable};
pub use reader::{
    parse_ber, parse_ber_general, parse_der, ASN1Error, ASN1Result, BERMode, BERReader, FromBER,
};
pub use serializer::{encode_der, DEREncodable};
pub use writer::{construct_der, construct_der_seq, DERWriter, DERWriterSeq, DERWriterSet};

verus! {

/// An ASN.1 tag class.
///
/// A tag class is one of UNIVERSAL, APPLICATION, context specific, or
/// PRIVATE.
#[derive(Clone, Copy, PartialEq, Eq, Structural, Debug, Hash)]
pub enum TagClass {
    Universal,
    Application,
    ContextSpecific,
    Private,
}

/// An ASN.1 tag: a pair of a tag class and a nonnegative tag number.
///
/// Tag numbers are assumed to fit in `u64`.
#[derive(Clone, Copy, PartialEq, Eq, Structural, Debug, Hash)]
pub struct Tag {
    pub tag_class: TagClass,
    pub tag_number: u64,
}

impl Tag {
    /// Constructs an APPLICATION tag, namely \[APPLICATION n\].
    pub fn application(tag_number: u64) -> (t: Tag)
        ensures
            t == (Tag { tag_class: TagClass::Application, tag_number }),
    {
        Tag { tag_class: TagClass::Application, tag_number }
    }

    /// Constructs a context specific tag, namely \[n\].
    pub fn context(tag_number: u64) -> (t: Tag)
        ensures
            t == (Tag { tag_class: TagClass::ContextSpecific, tag_number }),
    {
        Tag { tag_class: TagClass::ContextSpecific, tag_number }
    }

    /// Constructs a PRIVATE tag, namely \[PRIVATE n\].
    pub fn private(tag_number: u64) -> (t: Tag)
        ensures
            t == (Tag { tag_class: TagClass::Private, tag_number }),
    {
        Tag { tag_class: TagClass::Private, tag_number }
    }
}

/// The primitive/constructed bit of an identifier octet.
///
/// Primitive values carry raw content octets; constructed values carry
/// nested TLVs.
#[derive(Clone, Copy, PartialEq, Eq, Structural, Debug, Hash)]
pub enum PCBit {
    Primitive,
    Constructed,
}

/// How a wrapping tag relates to the value it wraps.
///
/// An implicit tag replaces the inner identifier while keeping the inner
/// primitive/constructed bit and length; an explicit tag adds an outer
/// constructed TLV around the complete inner encoding.
#[derive(Clone, Copy, PartialEq, Eq, Structural, Debug, Hash)]
pub enum TagType {
    Implicit,
    Explicit,
}

} // verus!
