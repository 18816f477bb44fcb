//! The first-generation value models kept for the callback reader:
//! a growable bit string, a plain set container, the printable-string
//! charset, and raw UTCTime bytes.

use vstd::prelude::*;

pub use crate::models::ObjectIdentifier;

verus! {

/// A bit string under construction: `unused_bits` counts the free low
/// bits of the final octet, from 0 (full) down through 8 (just
/// opened).
#[derive(Debug, Clone, PartialEq, Eq, Hash)]
pub struct BitString {
    /// Free bits remaining in the final octet.
    pub unused_bits: usize,
    /// The octets written so far.
    pub buf: Vec<u8>,
}

impl BitString {
    /// Constructs an empty bit string.
    pub fn new() -> (r: BitString)
        ensures
            r.unused_bits == 0,
            r.buf@ == Seq::<u8>::empty(),
    {
        BitString { unused_bits: 0, buf: Vec::new() }
    }

    /// Constructs a bit string from its parts.
    pub fn from_buf(unused_bits: usize, buf: Vec<u8>) -> (r: BitString)
        ensures
            r.unused_bits == unused_bits,
            r.buf@ == buf@,
    {
        BitString { unused_bits, buf }
    }

    /// Appends one bit, opening a new octet when the last one is full.
    pub fn push(&mut self, b: bool)
        requires
            old(self).unused_bits <= 8,
            old(self).unused_bits > 0 ==> old(self).buf@.len() > 0,
        ensures
            final(self).unused_bits == (if old(self).unused_bits == 0 {
                8int
            } else {
                old(self).unused_bits as int
            }) - 1,
            final(self).buf@ == ({
                let base = if old(self).unused_bits == 0 {
                    old(self).buf@.push(0u8)
                } else {
                    old(self).buf@
                };
                base.update(
                    base.len() - 1,
                    base.last() | ((if b {
                        1u8
                    } else {
                        0u8
                    }) << (final(self).unused_bits as u8)),
                )
            }),
    {
        if self.unused_bits == 0 {
            self.buf.push(0);
            self.unused_bits = 8;
        }
        let len = self.buf.len();
        let last = self.buf[len - 1];
        self.unused_bits = self.unused_bits - 1;
        let bit: u8 = if b {
            1u8
        } else {
            0u8
        };
        let updated = last | (bit << (self.unused_bits as u8));
        self.buf.set(len - 1, updated);
    }
}

/// An unordered collection whose canonical encoding lists the elements
/// in ascending order of their encoded bytes.
#[derive(Debug, Clone, PartialEq, Eq, Hash)]
pub struct SetOf<T> {
    /// The elements, in the order they were collected.
    pub vec: Vec<T>,
}

impl<T> SetOf<T> {
    /// Constructs an empty collection.
    pub fn new() -> (r: SetOf<T>)
        ensures
            r.vec@ == Seq::<T>::empty(),
    {
        SetOf { vec: Vec::new() }
    }
}

/// Whether an octet belongs to the X.680 printable-string charset:
/// letters, digits, space, and `'()+,-./:=?`.
pub open spec fn spec_printable(b: u8) -> bool {
    ||| 48 <= b <= 57  // digits
    ||| 65 <= b <= 90  // upper case
    ||| 97 <= b <= 122  // lower case
    ||| b == 32 || b == 39 || b == 40 || b == 41  // space ' ( )
    ||| b == 43 || b == 44 || b == 45 || b == 46  // + , - .
    ||| b == 47 || b == 58 || b == 61 || b == 63  // / : = ?
}

/// A string restricted to the X.680 printable charset.
#[derive(Debug, Clone, PartialEq, Eq, Hash)]
pub struct PrintableString {
    bytes: Vec<u8>,
}

impl PrintableString {
    /// The octets as a mathematical sequence.
    pub closed spec fn bytesv(self) -> Seq<u8> {
        self.bytes@
    }

    /// Builds a printable string, refusing any octet outside the
    /// charset.
    pub fn from_bytes(bytes: Vec<u8>) -> (r: Option<PrintableString>)
        ensures
            r is Some <==> (forall|i: int| 0 <= i < bytes@.len() ==> spec_printable(#[trigger] bytes@[i])),
            r matches Some(p) ==> p.bytesv() == bytes@,
    {
        let mut i: usize = 0;
        while i < bytes.len()
            invariant
                0 <= i <= bytes@.len(),
                forall|j: int| 0 <= j < i ==> spec_printable(#[trigger] bytes@[j]),
            decreases bytes@.len() - i,
        {
            let b = bytes[i];
            let ok = (48 <= b && b <= 57) || (65 <= b && b <= 90) || (97 <= b && b <= 122) || b
                == 32 || b == 39 || b == 40 || b == 41 || b == 43 || b == 44 || b == 45 || b == 46
                || b == 47 || b == 58 || b == 61 || b == 63;
            if !ok {
                return None;
            }
            i = i + 1;
        }
        Some(PrintableString { bytes })
    }

    /// The octets of the string.
    pub fn as_bytes(&self) -> (r: &[u8])
        ensures
            r@ == self.bytesv(),
    {
        self.bytes.as_slice()
    }
}

/// A UTCTime value, retained as its raw octets.
#[derive(Debug, Clone, PartialEq, Eq, Hash)]
pub struct UtcTime {
    bytes: Vec<u8>,
}

impl UtcTime {
    /// The octets as a mathematical sequence.
    pub closed spec fn bytesv(self) -> Seq<u8> {
        self.bytes@
    }

    /// Wraps raw UTCTime octets.
    pub fn new(bytes: Vec<u8>) -> (r: UtcTime)
        ensures
            r.bytesv() == bytes@,
    {
        UtcTime { bytes }
    }

    /// The octets of the value.
    pub fn as_bytes(&self) -> (r: &[u8])
        ensures
            r@ == self.bytesv(),
    {
        self.bytes.as_slice()
    }
}

} // verus!
