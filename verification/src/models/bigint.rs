//! The arbitrary-precision INTEGER model: the minimal two's-complement
//! content octets, held as plain values.

use vstd::prelude::*;
use crate::encoding::{int_of_twos, lemma_int_of_twos_decomp, twos_minimal};

verus! {

/// An INTEGER of arbitrary precision: its minimal two's-complement
/// big-endian content octets. The mathematical value is
/// `int_of_twos` of the octets; arithmetic on it is outside this
/// library's scope.
#[derive(Debug, Clone, PartialEq, Eq, Hash)]
pub struct BigIntBytes {
    content: Vec<u8>,
}

impl BigIntBytes {
    /// The content octets as a mathematical sequence.
    pub closed spec fn contentv(self) -> Seq<u8> {
        self.content@
    }

    /// The invariant: the octets are nonempty and minimal, so each
    /// value has exactly one representation.
    pub open spec fn wf(self) -> bool {
        twos_minimal(self.contentv())
    }

    /// The integer this value denotes.
    pub open spec fn valuev(self) -> int {
        int_of_twos(self.contentv())
    }

    /// Wraps content octets, refusing an empty or non-minimal string.
    pub fn from_content(content: Vec<u8>) -> (r: Option<BigIntBytes>)
        ensures
            r is Some <==> twos_minimal(content@),
            r matches Some(b) ==> b.contentv() == content@ && b.wf(),
    {
        if content.len() == 0 {
            return None;
        }
        if content.len() >= 2 {
            let first = content[0];
            let second = content[1];
            if (first == 0 && second < 128) || (first == 255 && second >= 128) {
                return None;
            }
        }
        Some(BigIntBytes { content })
    }

    /// The content octets.
    pub fn as_bytes(&self) -> (r: &[u8])
        ensures
            r@ == self.contentv(),
    {
        self.content.as_slice()
    }

    /// Whether the value is nonnegative: the top bit of the first
    /// octet is clear.
    pub fn is_nonnegative(&self) -> (r: bool)
        requires
            self.wf(),
        ensures
            r == (self.valuev() >= 0),
    {
        proof {
            lemma_int_of_twos_decomp(self.contentv());
        }
        self.content[0] < 128
    }
}

} // verus!
