//! An opaque DER fragment: a tag, a PC bit, and raw payload octets.

use vstd::prelude::*;
use crate::{PCBit, Tag, TagClass};

verus! {

/// Container for a tag and an arbitrary DER payload.
///
/// Carries values whose schema the caller does not know: the payload
/// octets are kept verbatim and re-emitted verbatim.
#[derive(Debug, Clone, PartialEq, Eq, Hash)]
pub struct TaggedDerValue {
    tag: Tag,
    pcbit: PCBit,
    value: Vec<u8>,
}

impl TaggedDerValue {
    /// Constructs an OCTETSTRING fragment from raw bytes.
    pub fn from_octetstring(bytes: Vec<u8>) -> (r: TaggedDerValue)
        ensures
            r.tagv() == (Tag { tag_class: TagClass::Universal, tag_number: 4 }),
            r.pcbitv() == PCBit::Primitive,
            r.valuev() == bytes@,
    {
        TaggedDerValue {
            tag: Tag { tag_class: TagClass::Universal, tag_number: 4 },
            pcbit: PCBit::Primitive,
            value: bytes,
        }
    }

    /// Constructs a fragment from a tag and its payload; SEQUENCE and
    /// SET are constructed, everything else is taken as primitive.
    pub fn from_tag_and_bytes(tag: Tag, bytes: Vec<u8>) -> (r: TaggedDerValue)
        ensures
            r.tagv() == tag,
            r.pcbitv() == (if tag == (Tag { tag_class: TagClass::Universal, tag_number: 16 })
                || tag == (Tag { tag_class: TagClass::Universal, tag_number: 17 }) {
                PCBit::Constructed
            } else {
                PCBit::Primitive
            }),
            r.valuev() == bytes@,
    {
        let pcbit = if (tag.tag_class == TagClass::Universal && tag.tag_number == 16) || (
        tag.tag_class == TagClass::Universal && tag.tag_number == 17) {
            PCBit::Constructed
        } else {
            PCBit::Primitive
        };
        TaggedDerValue { tag, pcbit, value: bytes }
    }

    /// Constructs a fragment from a tag, an explicit PC bit, and its
    /// payload.
    pub fn from_tag_pc_and_bytes(tag: Tag, pcbit: PCBit, bytes: Vec<u8>) -> (r: TaggedDerValue)
        ensures
            r.tagv() == tag,
            r.pcbitv() == pcbit,
            r.valuev() == bytes@,
    {
        TaggedDerValue { tag, pcbit, value: bytes }
    }

    /// The payload octets as a mathematical sequence.
    pub closed spec fn valuev(self) -> Seq<u8> {
        self.value@
    }

    /// The tag.
    pub fn tag(&self) -> (r: Tag)
        ensures
            r == self.tagv(),
    {
        self.tag
    }

    /// The tag, in specifications.
    pub closed spec fn tagv(self) -> Tag {
        self.tag
    }

    /// The PC bit.
    pub fn pcbit(&self) -> (r: PCBit)
        ensures
            r == self.pcbitv(),
    {
        self.pcbit
    }

    /// The PC bit, in specifications.
    pub closed spec fn pcbitv(self) -> PCBit {
        self.pcbit
    }

    /// The payload octets.
    pub fn value(&self) -> (r: &[u8])
        ensures
            r@ == self.valuev(),
    {
        self.value.as_slice()
    }
}

} // verus!
