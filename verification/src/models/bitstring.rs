//! The BITSTRING model: content octets plus a count of unused bits in
//! the final octet.

use vstd::prelude::*;

verus! {

/// Small powers of two, for the unused-bits mask.
pub open spec fn pow2u(k: nat) -> nat
    decreases k,
{
    if k == 0 {
        1
    } else {
        2 * pow2u((k - 1) as nat)
    }
}

/// An ASN.1 BITSTRING: content octets and the number of unused bits in
/// the final octet.
///
/// Invariant: the unused-bit count is below 8, it is zero when there
/// are no octets, and the unused low bits of the final octet are zero.
#[derive(Debug, Clone, PartialEq, Eq, Hash)]
pub struct BitString {
    unused_bits: usize,
    bytes: Vec<u8>,
}

impl BitString {
    /// The number of unused bits, as a mathematical value.
    pub closed spec fn unusedv(self) -> int {
        self.unused_bits as int
    }

    /// The content octets as a mathematical sequence.
    pub closed spec fn bytesv(self) -> Seq<u8> {
        self.bytes@
    }

    /// The invariant of the model.
    pub open spec fn wf(self) -> bool {
        &&& 0 <= self.unusedv() < 8
        &&& self.bytesv().len() == 0 ==> self.unusedv() == 0
        &&& self.bytesv().len() > 0 ==> self.bytesv().last() as nat % pow2u(
            self.unusedv() as nat,
        ) == 0
    }

    /// Constructs an empty BITSTRING.
    pub fn new() -> (r: BitString)
        ensures
            r.wf(),
            r.unusedv() == 0,
            r.bytesv() == Seq::<u8>::empty(),
    {
        BitString { unused_bits: 0, bytes: Vec::new() }
    }

    /// Constructs a BITSTRING from octets, clearing the unused low
    /// bits of the final octet.
    pub fn from_bytes(unused_bits: usize, bytes: Vec<u8>) -> (r: BitString)
        requires
            unused_bits < 8,
            bytes@.len() == 0 ==> unused_bits == 0,
        ensures
            r.wf(),
            r.unusedv() == unused_bits,
            bytes@.len() == 0 ==> r.bytesv() == Seq::<u8>::empty(),
            bytes@.len() > 0 ==> r.bytesv() == bytes@.update(
                bytes@.len() - 1,
                mask_unused(bytes@.last(), unused_bits as nat),
            ),
    {
        let mut bytes = bytes;
        if bytes.len() > 0 {
            let len = bytes.len();
            let last = bytes[len - 1];
            let masked = mask_low_zero(last, unused_bits as u8);
            bytes.set(len - 1, masked);
        }
        BitString { unused_bits, bytes }
    }

    /// The number of content octets.
    pub fn byte_len(&self) -> (r: usize)
        ensures
            r == self.bytesv().len(),
    {
        self.bytes.len()
    }

    /// The number of bits.
    pub fn len(&self) -> (r: usize)
        requires
            self.wf(),
            self.bytesv().len() * 8 <= usize::MAX,
        ensures
            r == self.bytesv().len() * 8 - self.unusedv(),
    {
        self.bytes.len() * 8 - self.unused_bits
    }

    /// The number of unused bits in the final octet.
    pub fn unused_bits(&self) -> (r: usize)
        ensures
            r == self.unusedv(),
    {
        self.unused_bits
    }

    /// Gives up the content octets.
    pub fn into_bytes(self) -> (r: Vec<u8>)
        ensures
            r@ == self.bytesv(),
    {
        self.bytes
    }

    /// The content octets.
    pub fn bytes(&self) -> (r: &[u8])
        ensures
            r@ == self.bytesv(),
    {
        self.bytes.as_slice()
    }

    /// The fully used octets: all of them when no bits are unused,
    /// else all but the final one.
    pub fn full_bytes(&self) -> (r: &[u8])
        requires
            self.wf(),
        ensures
            self.unusedv() == 0 ==> r@ == self.bytesv(),
            self.unusedv() != 0 ==> r@ == self.bytesv().drop_last(),
    {
        if self.unused_bits == 0 {
            self.bytes.as_slice()
        } else {
            let len = self.bytes.len();
            vstd::slice::slice_subrange(self.bytes.as_slice(), 0, len - 1)
        }
    }

    /// Declares the unused bits of the final octet to be part of the
    /// value.
    pub fn fill_unused_bits(&mut self)
        ensures
            final(self).unusedv() == 0,
            final(self).bytesv() == old(self).bytesv(),
            final(self).wf(),
    {
        self.unused_bits = 0;
    }

    /// Drops a partially used final octet altogether.
    pub fn remove_trailing_bits(&mut self)
        requires
            old(self).wf(),
        ensures
            final(self).wf(),
            final(self).unusedv() == 0,
            old(self).unusedv() == 0 ==> final(self).bytesv() == old(self).bytesv(),
            old(self).unusedv() != 0 ==> final(self).bytesv() == old(self).bytesv().drop_last(),
    {
        if self.unused_bits > 0 {
            self.bytes.pop();
            self.unused_bits = 0;
        }
    }

    /// Appends the bits of `other` after the bits of `self`: when no
    /// bits of the final octet are unused the octets are concatenated
    /// as they are, else the appended octets are shifted into the free
    /// bits. The unused low bits of the new final octet are cleared.
    pub fn extend_from_bytes(&mut self, other_unused_bits: usize, other_bytes: &[u8])
        requires
            old(self).wf(),
            other_unused_bits < 8,
            other_bytes@.len() == 0 ==> other_unused_bits == 0,
        ensures
            final(self).wf(),
            old(self).unusedv() == 0 ==> final(self).unusedv() == other_unused_bits && final(self).bytesv() == mask_tail(old(self).bytesv() + other_bytes@, other_unused_bits as nat),
            old(self).unusedv() != 0 ==> ({
                let total = old(self).unusedv() + other_unused_bits;
                &&& final(self).unusedv() == (if total >= 8 {
                    total - 8
                } else {
                    total
                })
                &&& final(self).bytesv().len() == (if total >= 8 {
                    old(self).bytesv().len() + other_bytes@.len() - 1
                } else {
                    old(self).bytesv().len() + other_bytes@.len() as int
                })
            }),
    {
        if self.unused_bits == 0 {
            let mut extra = vstd::slice::slice_to_vec(other_bytes);
            self.bytes.append(&mut extra);
            self.unused_bits = other_unused_bits;
        } else {
            let ghost l1 = self.bytes@.len();
            let u = self.unused_bits;
            let mut last_byte = match self.bytes.pop() {
                Some(b) => b,
                None => 0,
            };
            let mut i: usize = 0;
            while i < other_bytes.len()
                invariant
                    0 <= i <= other_bytes@.len(),
                    0 < u < 8,
                    self.bytes@.len() == l1 - 1 + i,
                    l1 >= 1,
                decreases other_bytes@.len() - i,
            {
                let b = other_bytes[i];
                let x: usize = ((last_byte as usize) << 8usize) | ((b as usize) << u);
                proof {
                    assert(((last_byte as usize) << 8usize) | ((b as usize) << u) < 65536)
                        by (bit_vector)
                        requires
                            last_byte < 256usize,
                            b < 256usize,
                            u < 8usize,
                    ;
                }
                self.bytes.push(((x >> 8usize) % 256) as u8);
                last_byte = (x % 256) as u8;
                i = i + 1;
            }
            let total = u + other_unused_bits;
            if total >= 8 {
                self.unused_bits = total - 8;
            } else {
                self.unused_bits = total;
                self.bytes.push(last_byte);
            }
        }
        if self.bytes.len() > 0 {
            let len = self.bytes.len();
            let last = self.bytes[len - 1];
            let masked = mask_low_zero(last, self.unused_bits as u8);
            self.bytes.set(len - 1, masked);
        }
        proof {
            if old(self).unusedv() == 0 {
                assert(final(self).bytesv() =~= mask_tail(
                    old(self).bytesv() + other_bytes@,
                    other_unused_bits as nat,
                ));
            }
        }
    }

    /// Appends the bits of another BITSTRING after the bits of `self`.
    pub fn extend_from_bitstring(&mut self, other: &BitString)
        requires
            old(self).wf(),
            other.wf(),
        ensures
            final(self).wf(),
            old(self).unusedv() == 0 ==> final(self).unusedv() == other.unusedv() && final(self).bytesv() == mask_tail(old(self).bytesv() + other.bytesv(), other.unusedv() as nat),
            old(self).unusedv() != 0 ==> ({
                let total = old(self).unusedv() + other.unusedv();
                &&& final(self).unusedv() == (if total >= 8 {
                    total - 8
                } else {
                    total
                })
                &&& final(self).bytesv().len() == (if total >= 8 {
                    old(self).bytesv().len() + other.bytesv().len() - 1
                } else {
                    old(self).bytesv().len() + other.bytesv().len() as int
                })
            }),
    {
        let u = other.unused_bits();
        let bytes = other.bytes();
        self.extend_from_bytes(u, bytes)
    }
}


/// A byte string with the unused low bits of its final octet cleared;
/// the empty string is left as it is.
pub open spec fn mask_tail(s: Seq<u8>, u: nat) -> Seq<u8> {
    if s.len() == 0 {
        s
    } else {
        s.update(s.len() - 1, mask_unused(s.last(), u))
    }
}

/// The final octet with its `u` unused low bits cleared.
pub open spec fn mask_unused(b: u8, u: nat) -> u8 {
    (b as nat - b as nat % pow2u(u)) as u8
}

/// Clears the low `u` bits of an octet.
fn mask_low_zero(b: u8, u: u8) -> (r: u8)
    requires
        u < 8,
    ensures
        r == mask_unused(b, u as nat),
        r as nat % pow2u(u as nat) == 0,
{
    let mask: u8 = 0xFFu8 << u;
    let r = b & mask;
    proof {
        lemma_pow2u_shift(u);
        assert((b & (0xFFu8 << u)) % (1u8 << u) == 0) by (bit_vector)
            requires
                u < 8,
        ;
        assert((b & (0xFFu8 << u)) + (b % (1u8 << u)) == b) by (bit_vector)
            requires
                u < 8,
        ;
    }
    r
}

/// `1 << u` equals the `u`-th power of two, for small `u`.
proof fn lemma_pow2u_shift(u: u8)
    requires
        u < 8,
    ensures
        (1u8 << u) as nat == pow2u(u as nat),
{
    assert((u == 0 ==> (1u8 << u) == 1) && (u == 1 ==> (1u8 << u) == 2) && (u == 2 ==> (1u8
        << u) == 4) && (u == 3 ==> (1u8 << u) == 8) && (u == 4 ==> (1u8 << u) == 16) && (u == 5
        ==> (1u8 << u) == 32) && (u == 6 ==> (1u8 << u) == 64) && (u == 7 ==> (1u8 << u)
        == 128)) by (bit_vector);
    assert(pow2u(0) == 1);
    assert(pow2u(1) == 2);
    assert(pow2u(2) == 4);
    assert(pow2u(3) == 8);
    assert(pow2u(4) == 16);
    assert(pow2u(5) == 32);
    assert(pow2u(6) == 64);
    assert(pow2u(7) == 128);
}

/// Bit `k` of a byte string: bit `7 - k % 8` of octet `k / 8`.
pub open spec fn spec_bit(bytes: Seq<u8>, k: int) -> bool {
    (bytes[k / 8] >> ((7 - (k % 8)) as u8)) & 1 == 1
}

/// The bits a byte string carries under an unused-bit count: all bits
/// in order, except the trailing unused ones of the final octet.
pub open spec fn bits_of(bytes: Seq<u8>, unused: int) -> Seq<bool> {
    Seq::new((bytes.len() * 8 - unused) as nat, |k: int| spec_bit(bytes, k))
}

impl BitString {
    /// The bit sequence of the value.
    pub open spec fn bitsv(self) -> Seq<bool> {
        bits_of(self.bytesv(), self.unusedv())
    }
}

/// The unused-bit mask in its bitwise form, and the bits it keeps:
/// every bit position at or above `u` is unchanged.
proof fn lemma_mask_unused_bit(b: u8, u: u8, p: u8)
    requires
        u < 8,
        u <= p < 8,
    ensures
        (mask_unused(b, u as nat) >> p) & 1 == (b >> p) & 1,
{
    lemma_pow2u_shift(u);
    assert((b & (0xFFu8 << u)) % (1u8 << u) == 0) by (bit_vector)
        requires
            u < 8,
    ;
    assert((b & (0xFFu8 << u)) + (b % (1u8 << u)) == b) by (bit_vector)
        requires
            u < 8,
    ;
    assert(mask_unused(b, u as nat) == b & (0xFFu8 << u));
    assert(((b & (0xFFu8 << u)) >> p) & 1 == (b >> p) & 1) by (bit_vector)
        requires
            u < 8,
            u <= p < 8,
    ;
}

/// Appending a byte-aligned bit string concatenates the bits: when no
/// bits of the final octet are unused, the bits of the extension
/// result are the bits of the left value followed by the bits of the
/// right one. This is the bit-level statement of the aligned branch
/// of `extend_from_bytes` and `extend_from_bitstring`.
pub proof fn lemma_extend_aligned_bits(a_bytes: Seq<u8>, b_bytes: Seq<u8>, bu: int)
    requires
        0 <= bu < 8,
        b_bytes.len() == 0 ==> bu == 0,
    ensures
        bits_of(mask_tail(a_bytes + b_bytes, bu as nat), bu) == bits_of(a_bytes, 0) + bits_of(
            b_bytes,
            bu,
        ),
{
    let cat = mask_tail(a_bytes + b_bytes, bu as nat);
    let la = a_bytes.len() as int;
    let lb = b_bytes.len() as int;
    assert(cat.len() == la + lb);
    let lhs = bits_of(cat, bu);
    let rhs = bits_of(a_bytes, 0) + bits_of(b_bytes, bu);
    assert(lhs.len() == rhs.len());
    assert forall|k: int| 0 <= k < lhs.len() implies lhs[k] == rhs[k] by {
        if k < 8 * la {
            assert(k / 8 < la);
            assert(cat[k / 8] == a_bytes[k / 8]) by {
                if lb == 0 && bu == 0 && k / 8 == la + lb - 1 {
                    lemma_mask_unused_bit((a_bytes + b_bytes)[k / 8], 0, (7 - (k % 8)) as u8);
                }
            }
        } else {
            let j = k - 8 * la;
            assert(k / 8 == la + j / 8 && k % 8 == j % 8);
            assert(rhs[k] == spec_bit(b_bytes, j));
            if j / 8 == lb - 1 {
                assert(cat[k / 8] == mask_unused(b_bytes[j / 8], bu as nat));
                // Inside the bit length, the position is at or above
                // the unused count, which the mask leaves unchanged.
                assert(j < 8 * lb - bu);
                assert(7 - (j % 8) >= bu);
                lemma_mask_unused_bit(b_bytes[j / 8], bu as u8, (7 - (j % 8)) as u8);
            } else {
                assert(cat[k / 8] == b_bytes[j / 8]);
            }
        }
    }
    assert(lhs =~= rhs);
}

} // verus!
