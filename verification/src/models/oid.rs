//! The OBJECT IDENTIFIER model: a nonempty ordered sequence of
//! unsigned 64-bit sub-identifiers.

use vstd::prelude::*;

verus! {

/// An ASN.1 OBJECT IDENTIFIER: an ordered sequence of unsigned 64-bit
/// sub-identifiers.
///
/// On the wire the first two sub-identifiers fold into one octet
/// group, so an encodable value has at least two sub-identifiers, the
/// first in `{0, 1, 2}`, and the second below 40 when the first is 0
/// or 1.
#[derive(Debug, Clone, PartialEq, Eq, Hash)]
pub struct ObjectIdentifier {
    ids: Vec<u64>,
}

impl ObjectIdentifier {
    /// The sub-identifiers as a mathematical sequence.
    pub closed spec fn idsv(self) -> Seq<u64> {
        self.ids@
    }

    /// Constructs an OBJECT IDENTIFIER from its sub-identifiers.
    pub fn new(ids: Vec<u64>) -> (r: ObjectIdentifier)
        ensures
            r.idsv() == ids@,
    {
        ObjectIdentifier { ids }
    }

    /// An iterator over the sub-identifiers, in order.
    pub fn iter(&self) -> std::slice::Iter<'_, u64> {
        self.ids.iter()
    }

    /// The sub-identifiers, in order.
    pub fn components(&self) -> (r: &Vec<u64>)
        ensures
            r@ == self.idsv(),
    {
        &self.ids
    }

    /// The number of sub-identifiers.
    pub fn len(&self) -> (r: usize)
        ensures
            r == self.idsv().len(),
    {
        self.ids.len()
    }

    /// The sub-identifier at the given position.
    pub fn get(&self, i: usize) -> (r: u64)
        requires
            i < self.idsv().len(),
        ensures
            r == self.idsv()[i as int],
    {
        self.ids[i]
    }
}

} // verus!
