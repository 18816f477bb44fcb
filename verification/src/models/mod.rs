//! The value models: object identifiers, bit strings, and opaque
//! tagged DER fragments.

mod bigint;
mod bitstring;
mod der;
mod oid;
mod utf8;

pub use bigint::BigIntBytes;
pub use bitstring::{bits_of, lemma_extend_aligned_bits, mask_tail, mask_unused, pow2u, spec_bit, BitString};
pub use der::TaggedDerValue;
pub use oid::ObjectIdentifier;
pub use utf8::{utf8_cont, valid_utf8, Utf8String};
