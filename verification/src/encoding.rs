//! The canonical (DER) byte forms of X.690, as specification functions,
//! together with the lemmas that make them usable: decoding inverts
//! encoding, encodings are injective, and every canonical form is minimal.
//!
//! Everything here is at the level of mathematical byte sequences; the
//! executable reader and writer are specified against these functions.

use vstd::prelude::*;
use crate::{PCBit, Tag, TagClass};

verus! {

/// The two class bits of an identifier octet.
pub open spec fn class_bits(c: TagClass) -> u8 {
    match c {
        TagClass::Universal => 0,
        TagClass::Application => 1,
        TagClass::ContextSpecific => 2,
        TagClass::Private => 3,
    }
}

/// The tag class encoded by the two top bits of an identifier octet.
pub open spec fn class_of_bits(b: u8) -> TagClass {
    if b == 0 {
        TagClass::Universal
    } else if b == 1 {
        TagClass::Application
    } else if b == 2 {
        TagClass::ContextSpecific
    } else {
        TagClass::Private
    }
}

/// The primitive/constructed bit of an identifier octet.
pub open spec fn pc_bit(pc: PCBit) -> u8 {
    match pc {
        PCBit::Primitive => 0,
        PCBit::Constructed => 1,
    }
}

/// All octets of the base-128 form of `n` except the last one: big-endian
/// seven-bit groups, each with the continuation bit set.
pub open spec fn base128_rest(n: nat) -> Seq<u8>
    decreases n,
{
    if n == 0 {
        seq![]
    } else {
        base128_rest(n / 128) + seq![(128 + n % 128) as u8]
    }
}

/// The minimal big-endian base-128 form of `n`: every octet but the last
/// has the continuation bit set, and the first octet is not `0x80`.
pub open spec fn base128(n: nat) -> Seq<u8> {
    base128_rest(n / 128) + seq![(n % 128) as u8]
}

/// The identifier octets for a tag with the given class, PC bit and
/// number: one octet for numbers below 31, else the long form.
pub open spec fn spec_identifier(c: TagClass, pc: PCBit, n: nat) -> Seq<u8> {
    if n < 31 {
        seq![(class_bits(c) * 64 + pc_bit(pc) * 32 + n) as u8]
    } else {
        seq![(class_bits(c) * 64 + pc_bit(pc) * 32 + 31) as u8] + base128(n)
    }
}

/// The identifier octets of a `Tag` value.
pub open spec fn spec_tag_identifier(tag: Tag, pc: PCBit) -> Seq<u8> {
    spec_identifier(tag.tag_class, pc, tag.tag_number as nat)
}

/// The minimal big-endian base-256 form of `n`; empty for zero.
pub open spec fn be_bytes(n: nat) -> Seq<u8>
    decreases n,
{
    if n == 0 {
        seq![]
    } else {
        be_bytes(n / 256) + seq![(n % 256) as u8]
    }
}

/// The value of a big-endian base-256 byte string.
pub open spec fn uint_of_be(s: Seq<u8>) -> nat
    decreases s.len(),
{
    if s.len() == 0 {
        0
    } else {
        uint_of_be(s.drop_last()) * 256 + s.last() as nat
    }
}

/// The minimal DER length octets for a content length `n`: the short
/// form below 128, else `0x80 | k` followed by the `k` base-256 octets.
pub open spec fn spec_len(n: nat) -> Seq<u8> {
    if n < 128 {
        seq![n as u8]
    } else {
        seq![(128 + be_bytes(n).len()) as u8] + be_bytes(n)
    }
}

/// The minimal two's-complement big-endian form of an integer: the
/// fewest octets whose sign extension reproduces the value.
pub open spec fn twos_bytes(v: int) -> Seq<u8>
    decreases (if v < 0 { -v } else { v }),
{
    if -128 <= v < 128 {
        seq![(v % 256) as u8]
    } else {
        twos_bytes(v / 256) + seq![(v % 256) as u8]
    }
}

/// The signed value of one octet read as a two's-complement byte.
pub open spec fn sign8(b: u8) -> int {
    if b >= 128 {
        b - 256
    } else {
        b as int
    }
}

/// The signed value of a two's-complement big-endian byte string: the
/// first octet carries the sign, later octets extend the value.
/// Empty strings are given the value zero (the grammar never produces
/// them).
pub open spec fn int_of_twos(s: Seq<u8>) -> int
    decreases s.len(),
{
    if s.len() == 0 {
        0
    } else if s.len() == 1 {
        sign8(s.first())
    } else {
        int_of_twos(s.drop_last()) * 256 + s.last()
    }
}

/// The value of a big-endian base-128 byte string, continuation bits
/// ignored.
pub open spec fn b128_value(s: Seq<u8>) -> nat
    decreases s.len(),
{
    if s.len() == 0 {
        0
    } else {
        b128_value(s.drop_last()) * 128 + (s.last() % 128) as nat
    }
}

/// A well-formed base-128 byte string: nonempty, a continuation bit on
/// every octet but the last, and no redundant leading `0x80`.
pub open spec fn is_b128(s: Seq<u8>) -> bool {
    &&& s.len() >= 1
    &&& s.first() != 128
    &&& forall|i: int| 0 <= i < s.len() - 1 ==> #[trigger] s[i] >= 128
    &&& s.last() < 128
}

/// A complete TLV: identifier octets, minimal DER length octets, then
/// the content octets.
pub open spec fn spec_tlv(tag: Tag, pc: PCBit, content: Seq<u8>) -> Seq<u8> {
    spec_tag_identifier(tag, pc) + spec_len(content.len()) + content
}

/// The universal tag with the given number.
pub open spec fn spec_univ(n: u64) -> Tag {
    Tag { tag_class: TagClass::Universal, tag_number: n }
}

/// The DER form of a BOOLEAN under the given tag: one content octet,
/// `0xFF` for true and `0x00` for false.
pub open spec fn spec_der_bool_tagged(tag: Tag, b: bool) -> Seq<u8> {
    spec_tlv(tag, PCBit::Primitive, seq![if b { 255u8 } else { 0u8 }])
}

/// The DER form of a BOOLEAN, universal tag 1.
pub open spec fn spec_der_bool(b: bool) -> Seq<u8> {
    spec_der_bool_tagged(spec_univ(1), b)
}

/// The DER form of an INTEGER under the given tag: minimal
/// two's-complement content octets.
pub open spec fn spec_der_int_tagged(tag: Tag, v: int) -> Seq<u8> {
    spec_tlv(tag, PCBit::Primitive, twos_bytes(v))
}

/// The DER form of an INTEGER, universal tag 2.
pub open spec fn spec_der_int(v: int) -> Seq<u8> {
    spec_der_int_tagged(spec_univ(2), v)
}

/// The DER form of an OCTETSTRING under the given tag: the primitive
/// form whose content octets are the string itself.
pub open spec fn spec_der_octets_tagged(tag: Tag, s: Seq<u8>) -> Seq<u8> {
    spec_tlv(tag, PCBit::Primitive, s)
}

/// The DER form of an OCTETSTRING, universal tag 4.
pub open spec fn spec_der_octets(s: Seq<u8>) -> Seq<u8> {
    spec_der_octets_tagged(spec_univ(4), s)
}

/// The DER form of NULL under the given tag: empty content.
pub open spec fn spec_der_null_tagged(tag: Tag) -> Seq<u8> {
    spec_tlv(tag, PCBit::Primitive, seq![])
}

/// The DER form of NULL, universal tag 5.
pub open spec fn spec_der_null() -> Seq<u8> {
    spec_der_null_tagged(spec_univ(5))
}

/// The content octets of an OBJECT IDENTIFIER: the first two
/// sub-identifiers fold into `40 * id0 + id1`, and every sub-identifier
/// is written in base 128.
pub open spec fn spec_oid_content(ids: Seq<u64>) -> Seq<u8>
    decreases ids.len(),
{
    if ids.len() < 2 {
        seq![]
    } else if ids.len() == 2 {
        base128((40 * ids[0] + ids[1]) as nat)
    } else {
        spec_oid_content(ids.drop_last()) + base128(ids.last() as nat)
    }
}

/// The DER form of an OBJECT IDENTIFIER under the given tag.
pub open spec fn spec_der_oid_tagged(tag: Tag, ids: Seq<u64>) -> Seq<u8> {
    spec_tlv(tag, PCBit::Primitive, spec_oid_content(ids))
}

/// The DER form of an OBJECT IDENTIFIER, universal tag 6.
pub open spec fn spec_der_oid(ids: Seq<u64>) -> Seq<u8> {
    spec_der_oid_tagged(spec_univ(6), ids)
}

// ------------------------------------------------------------------
// Lemmas: decoding inverts encoding.
// ------------------------------------------------------------------

/// `uint_of_be` inverts `be_bytes`.
pub proof fn lemma_be_bytes_value(n: nat)
    ensures
        uint_of_be(be_bytes(n)) == n,
    decreases n,
{
    if n == 0 {
    } else {
        lemma_be_bytes_value(n / 256);
        assert(be_bytes(n).drop_last() =~= be_bytes(n / 256));
    }
}

/// The base-256 form of a positive number does not begin with a zero
/// octet, and its length grows with the value.
pub proof fn lemma_be_bytes_first(n: nat)
    ensures
        n > 0 ==> be_bytes(n).len() > 0 && be_bytes(n).first() != 0,
        n < 256 ==> be_bytes(n).len() <= 1,
    decreases n,
{
    if n > 0 {
        lemma_be_bytes_first(n / 256);
        if n / 256 == 0 {
            assert(be_bytes(n) =~= seq![(n % 256) as u8]);
        } else {
            assert(be_bytes(n).first() == be_bytes(n / 256).first());
        }
    }
}

/// `int_of_twos` inverts `twos_bytes`.
pub proof fn lemma_twos_bytes_value(v: int)
    ensures
        int_of_twos(twos_bytes(v)) == v,
        twos_bytes(v).len() >= 1,
    decreases (if v < 0 { -v } else { v }),
{
    if -128 <= v < 128 {
        assert(int_of_twos(twos_bytes(v)) == v) by {
            assert(twos_bytes(v) =~= seq![(v % 256) as u8]);
            if v < 0 {
                assert(v % 256 == v + 256);
            }
        }
    } else {
        let hi = v / 256;
        let lo = v % 256;
        lemma_twos_bytes_value(hi);
        let s = twos_bytes(hi);
        assert(twos_bytes(v) =~= s.push((lo) as u8));
        assert(s.push(lo as u8).drop_last() =~= s);
        assert(int_of_twos(twos_bytes(v)) == hi * 256 + lo);
    }
}

/// The two's-complement form is minimal: with two or more octets, the
/// top nine bits are neither all zero nor all one.
pub proof fn lemma_twos_bytes_minimal(v: int)
    ensures
        twos_bytes(v).len() >= 2 ==> !(twos_bytes(v).first() == 0 && twos_bytes(v)[1] < 128)
            && !(twos_bytes(v).first() == 255 && twos_bytes(v)[1] >= 128),
    decreases (if v < 0 { -v } else { v }),
{
    if -128 <= v < 128 {
    } else {
        let hi = v / 256;
        let lo = v % 256;
        lemma_twos_bytes_minimal(hi);
        lemma_twos_bytes_value(hi);
        let s = twos_bytes(hi);
        assert(twos_bytes(v) =~= s.push(lo as u8));
        if s.len() == 1 {
            assert(s.first() == (hi % 256) as u8);
            if -128 <= hi < 0 {
                assert(hi % 256 == hi + 256);
                if hi == -1 {
                    // v is in [-32768, -129]: after the leading 0xFF the
                    // next octet has its top bit clear.
                    assert(v == -256 + lo);
                    assert(lo < 128);
                }
            } else {
                if hi == 0 {
                    assert(v == lo);
                    assert(lo >= 128);
                }
            }
        } else {
            assert(twos_bytes(v).first() == s.first());
            assert(twos_bytes(v)[1] == s[1]);
        }
    }
}

/// Two's-complement length bounds the value: `k` octets hold exactly the
/// integers in `[-(256^k)/2, (256^k)/2)`.
pub proof fn lemma_twos_bytes_len(v: int, k: nat)
    requires
        twos_bytes(v).len() == k,
    ensures
        k >= 1,
        -pow256(k) / 2 <= v < pow256(k) / 2,
    decreases (if v < 0 { -v } else { v }),
{
    if -128 <= v < 128 {
        lemma_pow256_small();
    } else {
        let hi = v / 256;
        assert(twos_bytes(v) =~= twos_bytes(hi).push((v % 256) as u8));
        lemma_twos_bytes_len(hi, (k - 1) as nat);
        assert(pow256(k) == 256 * pow256((k - 1) as nat));
    }
}

/// Powers of 256.
pub open spec fn pow256(k: nat) -> int
    decreases k,
{
    if k == 0 {
        1
    } else {
        256 * pow256((k - 1) as nat)
    }
}

/// The first few powers of 256, unfolded.
pub proof fn lemma_pow256_small()
    ensures
        pow256(0) == 1,
        pow256(1) == 0x100,
        pow256(2) == 0x10000,
        pow256(3) == 0x1000000,
        pow256(4) == 0x100000000,
        pow256(5) == 0x10000000000,
        pow256(6) == 0x1000000000000,
        pow256(7) == 0x100000000000000,
        pow256(8) == 0x10000000000000000,
        pow256(9) == 0x1000000000000000000,
{
    assert(pow256(9) == 256 * pow256(8));
    assert(pow256(0) == 1);
    assert(pow256(1) == 0x100);
    assert(pow256(2) == 0x10000);
    assert(pow256(3) == 0x1000000);
    assert(pow256(4) == 0x100000000);
    assert(pow256(5) == 0x10000000000);
    assert(pow256(6) == 0x1000000000000);
    assert(pow256(7) == 0x100000000000000);
    assert(pow256(8) == 0x10000000000000000);
}

/// A value inside the symmetric range of `k` octets has a
/// two's-complement form of at most `k` octets.
pub proof fn lemma_twos_bytes_len_le(v: int, k: nat)
    requires
        k >= 1,
        -128 * pow256((k - 1) as nat) <= v < 128 * pow256((k - 1) as nat),
    ensures
        twos_bytes(v).len() <= k,
    decreases k,
{
    if -128 <= v < 128 {
    } else {
        let q = pow256((k - 2) as nat);
        assert(k >= 2);
        assert(pow256((k - 1) as nat) == 256 * q);
        let hi = v / 256;
        let lo = v % 256;
        assert(q >= 1) by {
            lemma_pow256_pos((k - 2) as nat);
        }
        assert(v == 256 * hi + lo && 0 <= lo < 256);
        assert(-128 * q <= hi < 128 * q);
        lemma_twos_bytes_len_le(hi, (k - 1) as nat);
        assert(twos_bytes(v) =~= twos_bytes(hi).push(lo as u8));
    }
}

/// Powers of 256 are positive.
pub proof fn lemma_pow256_pos(k: nat)
    ensures
        pow256(k) >= 1,
    decreases k,
{
    if k > 0 {
        lemma_pow256_pos((k - 1) as nat);
    }
}

/// Values in i64 range have two's-complement forms of at most eight
/// octets.
pub proof fn lemma_twos_bytes_i64(v: int)
    requires
        i64::MIN <= v <= i64::MAX,
    ensures
        1 <= twos_bytes(v).len() <= 8,
{
    lemma_twos_bytes_value(v);
    lemma_pow256_small();
    lemma_twos_bytes_len_le(v, 8);
}

/// Encoding is injective: distinct integers have distinct
/// two's-complement forms.
pub proof fn lemma_twos_bytes_injective(v: int, w: int)
    requires
        twos_bytes(v) == twos_bytes(w),
    ensures
        v == w,
{
    lemma_twos_bytes_value(v);
    lemma_twos_bytes_value(w);
}

/// A minimal two's-complement byte string: nonempty, and never a
/// redundant leading octet (top nine bits neither all zero nor all one).
pub open spec fn twos_minimal(s: Seq<u8>) -> bool {
    &&& s.len() >= 1
    &&& s.len() >= 2 ==> !(s[0] == 0 && s[1] < 128) && !(s[0] == 255 && s[1] >= 128)
}

/// A minimal byte string is the canonical form of its own value.
pub proof fn lemma_twos_of_minimal(s: Seq<u8>)
    requires
        twos_minimal(s),
    ensures
        twos_bytes(int_of_twos(s)) == s,
    decreases s.len(),
{
    if s.len() == 1 {
        let b = s.first();
        assert(twos_bytes(sign8(b)) =~= s) by {
            if b >= 128 {
                assert(sign8(b) % 256 == b);
            }
        }
    } else {
        let s0 = s.drop_last();
        let b = s.last();
        assert(s0.len() >= 1);
        assert(twos_minimal(s0)) by {
            if s0.len() >= 2 {
                assert(s0[0] == s[0] && s0[1] == s[1]);
            }
        }
        lemma_twos_of_minimal(s0);
        let v0 = int_of_twos(s0);
        let v = v0 * 256 + b;
        assert(int_of_twos(s) == v);
        assert(!(-128 <= v < 128)) by {
            if -128 <= v < 128 {
                lemma_int_of_twos_range(s0);
                if v0 == 0 {
                    assert(s0 =~= seq![0u8]);
                    assert(s[0] == 0 && s[1] < 128);
                } else if v0 == -1 {
                    assert(s0 =~= seq![255u8]);
                    assert(s[0] == 255 && s[1] >= 128);
                } else {
                    assert(v >= 256 || v < -256);
                }
            }
        }
        assert(v / 256 == v0 && v % 256 == b);
        assert(twos_bytes(v) =~= twos_bytes(v0).push(b));
        assert(twos_bytes(v) =~= s);
    }
}

/// The value of a `k`-octet two's-complement string lies in the
/// symmetric range of `k` octets.
pub proof fn lemma_int_of_twos_range(s: Seq<u8>)
    requires
        s.len() >= 1,
    ensures
        -128 * pow256((s.len() - 1) as nat) <= int_of_twos(s) < 128 * pow256(
            (s.len() - 1) as nat,
        ),
    decreases s.len(),
{
    if s.len() == 1 {
    } else {
        let s0 = s.drop_last();
        lemma_int_of_twos_range(s0);
        lemma_pow256_pos((s0.len() - 1) as nat);
        assert(pow256((s.len() - 1) as nat) == 256 * pow256((s0.len() - 1) as nat));
    }
}

/// The value of a `k`-octet base-256 string is below the `k`-th power
/// of 256.
pub proof fn lemma_uint_of_be_range(s: Seq<u8>)
    ensures
        0 <= uint_of_be(s) < pow256(s.len()),
    decreases s.len(),
{
    if s.len() == 0 {
    } else {
        let s0 = s.drop_last();
        lemma_uint_of_be_range(s0);
        lemma_pow256_pos(s0.len());
        assert(pow256(s.len()) == 256 * pow256(s0.len()));
    }
}

/// A base-256 string with no leading zero octet is the canonical form
/// of its own value.
pub proof fn lemma_be_of_nonzero(s: Seq<u8>)
    requires
        s.len() == 0 || s.first() != 0,
    ensures
        be_bytes(uint_of_be(s)) == s,
    decreases s.len(),
{
    if s.len() == 0 {
        assert(be_bytes(0) =~= Seq::<u8>::empty());
    } else {
        let s0 = s.drop_last();
        let b = s.last();
        assert(s0.len() == 0 || s0.first() != 0);
        lemma_be_of_nonzero(s0);
        let n0 = uint_of_be(s0);
        let n: nat = (n0 * 256 + b) as nat;
        assert(uint_of_be(s) == n);
        assert(n0 > 0 || (s0.len() == 0 && n0 == 0)) by {
            if s0.len() > 0 {
                lemma_uint_of_be_first(s0);
            }
        }
        assert(n / 256 == n0 && n % 256 == b);
        if n == 0 {
            assert(s0.len() == 0);
            assert(b == 0);
            assert(s =~= seq![0u8]);
            assert(s.first() == 0);
        } else {
            assert(be_bytes(n) =~= be_bytes(n0).push(b));
            assert(be_bytes(n) =~= s);
        }
    }
}

/// A base-256 string whose first octet is nonzero has a positive value.
pub proof fn lemma_uint_of_be_first(s: Seq<u8>)
    requires
        s.len() >= 1,
        s.first() != 0,
    ensures
        uint_of_be(s) >= 1,
    decreases s.len(),
{
    if s.len() == 1 {
        assert(s.drop_last() =~= Seq::<u8>::empty());
    } else {
        let s0 = s.drop_last();
        lemma_uint_of_be_first(s0);
    }
}

/// `b128_value` inverts `base128`, and the canonical base-128 form is
/// well formed.
pub proof fn lemma_base128_value(n: nat)
    ensures
        b128_value(base128(n)) == n,
        is_b128(base128(n)),
        base128(n).len() >= 1,
    decreases n,
{
    lemma_b128_rest(n / 128);
    let r = base128_rest(n / 128);
    assert(base128(n).drop_last() =~= r);
    assert(base128(n).last() == (n % 128) as u8);
    assert(b128_value(base128(n)) == (n / 128) * 128 + n % 128);
    if n / 128 == 0 {
        assert(base128(n) =~= seq![(n % 128) as u8]);
    } else {
        assert(base128(n).first() == r.first());
    }
}

/// The continuation octets of the base-128 form: each has the high bit
/// set, the first is not `0x80`, and the value folds back.
proof fn lemma_b128_rest(m: nat)
    ensures
        b128_value(base128_rest(m)) == m,
        m > 0 ==> base128_rest(m).len() >= 1 && base128_rest(m).first() != 128,
        forall|i: int|
            0 <= i < base128_rest(m).len() ==> #[trigger] base128_rest(m)[i] >= 128,
    decreases m,
{
    if m == 0 {
    } else {
        lemma_b128_rest(m / 128);
        let r0 = base128_rest(m / 128);
        let r = base128_rest(m);
        assert(r =~= r0.push((128 + m % 128) as u8));
        assert(r.drop_last() =~= r0);
        if m / 128 == 0 {
            assert(r =~= seq![(128 + m % 128) as u8]);
            assert(r.first() == 128 + m % 128);
            assert(m % 128 != 0);
        } else {
            assert(r.first() == r0.first());
        }
        assert(forall|i: int| 0 <= i < r.len() - 1 ==> r[i] == r0[i]);
    }
}

/// A well-formed base-128 string is the canonical form of its own
/// value.
pub proof fn lemma_b128_of_minimal(s: Seq<u8>)
    requires
        is_b128(s),
    ensures
        base128(b128_value(s)) == s,
    decreases s.len(),
{
    let n = b128_value(s);
    if s.len() == 1 {
        assert(s =~= seq![s.first()]);
        assert(s.drop_last() =~= Seq::<u8>::empty());
        assert(b128_value(s.drop_last()) == 0);
        assert(n == b128_value(s.drop_last()) * 128 + (s.last() % 128) as nat);
        assert(n == s.first() % 128);
        assert(n < 128);
        assert(base128(n) =~= seq![(n % 128) as u8]);
        assert(s.first() < 128);
    } else {
        let s0 = s.drop_last();
        let b = s.last();
        assert(n == b128_value(s0) * 128 + b % 128);
        assert(b < 128);
        // The front part, with its final continuation bit stripped, is
        // itself well formed.
        let c = s0.last();
        assert(c >= 128) by {
            assert(s[s.len() - 2] >= 128);
        }
        let s1 = s0.drop_last().push((c - 128) as u8);
        assert(is_b128(s1)) by {
            assert(s1.last() == c - 128);
            assert(forall|i: int| 0 <= i < s1.len() - 1 ==> s1[i] == s0[i] && s[i] == s0[i]);
            if s1.len() >= 1 {
                if s1.len() == 1 {
                    assert(s1.first() == c - 128);
                    assert(s.first() == c);
                    assert(c != 128);
                } else {
                    assert(s1.first() == s.first());
                }
            }
        }
        lemma_b128_of_minimal(s1);
        let m: nat = b128_value(s1);
        assert(b128_value(s0) == m) by {
            assert(s1.drop_last() =~= s0.drop_last());
            assert(s1.last() % 128 == c % 128);
        }
        assert(n == m * 128 + b);
        assert(n / 128 == m && n % 128 == b as nat);
        // Rebuild the canonical form.
        assert(base128(m) =~= s1);
        assert(base128_rest(m / 128).push((m % 128) as u8) =~= s1);
        assert(s1.last() == (m % 128) as u8);
        if m == 0 {
            assert(base128_rest(0) =~= Seq::<u8>::empty());
            assert(s1.len() == 1);
            assert(s0 =~= seq![c]);
            assert(c == 128 + m % 128);
            assert(c != 128);
            assert(false);
        } else {
            assert(base128_rest(m) =~= base128_rest(m / 128).push((128 + m % 128) as u8));
            assert(base128_rest(m / 128) =~= s1.drop_last());
            assert(base128_rest(m) =~= s0) by {
                assert(s0.drop_last() =~= s1.drop_last());
                assert(s0.last() == c);
                assert(c == 128 + m % 128) by {
                    assert(s1.last() == (c - 128) as u8);
                    assert(m % 128 == c - 128);
                }
            }
            assert(base128(n) =~= base128_rest(n / 128) + seq![(n % 128) as u8]);
            assert(base128(n) =~= s0.push(b));
            assert(s0.push(b) =~= s);
        }
    }
}

/// The front decomposition of a two's-complement string: the first
/// octet carries the sign and the rest is an unsigned tail.
proof fn lemma_int_of_twos_decomp_eq(s: Seq<u8>)
    requires
        s.len() >= 1,
    ensures
        int_of_twos(s) == sign8(s.first()) * pow256((s.len() - 1) as nat) + uint_of_be(
            s.drop_first(),
        ),
    decreases s.len(),
{
    if s.len() == 1 {
        assert(s.drop_first() =~= Seq::<u8>::empty());
        assert(uint_of_be(s.drop_first()) == 0);
        assert(int_of_twos(s) == sign8(s.first()));
        assert(pow256(0) == 1);
    } else {
        let s0 = s.drop_last();
        lemma_int_of_twos_decomp_eq(s0);
        assert(s0.first() == s.first());
        assert(pow256((s.len() - 1) as nat) == 256 * pow256((s0.len() - 1) as nat));
        assert(s.drop_first().drop_last() =~= s0.drop_first());
        assert(s.drop_first().last() == s.last());
        assert(uint_of_be(s.drop_first()) == uint_of_be(s0.drop_first()) * 256 + s.last());
        assert(int_of_twos(s) == int_of_twos(s0) * 256 + s.last());
        let f = sign8(s.first());
        let p0 = pow256((s0.len() - 1) as nat);
        let u0 = uint_of_be(s0.drop_first());
        assert(int_of_twos(s0) == f * p0 + u0);
        assert((f * p0 + u0) * 256 == (f * p0) * 256 + u0 * 256) by (nonlinear_arith);
        assert((f * p0) * 256 == f * (256 * p0)) by (nonlinear_arith);
        assert(int_of_twos(s) == f * (256 * p0) + (u0 * 256 + s.last()));
        assert(f * (256 * p0) == f * pow256((s.len() - 1) as nat));
    }
}

/// The front decomposition of a two's-complement string: the first
/// octet carries the sign and the rest is an unsigned tail, so the
/// first octet alone decides the sign of the value.
pub proof fn lemma_int_of_twos_decomp(s: Seq<u8>)
    requires
        s.len() >= 1,
    ensures
        int_of_twos(s) == sign8(s.first()) * pow256((s.len() - 1) as nat) + uint_of_be(
            s.drop_first(),
        ),
        s.first() < 128 ==> 0 <= int_of_twos(s),
        s.first() >= 128 ==> int_of_twos(s) < 0,
{
    lemma_int_of_twos_decomp_eq(s);
    lemma_uint_of_be_range(s.drop_first());
    lemma_pow256_pos((s.len() - 1) as nat);
    if s.first() >= 128 {
        assert(sign8(s.first()) <= -1);
        assert(sign8(s.first()) * pow256((s.len() - 1) as nat) <= -pow256(
            (s.len() - 1) as nat,
        )) by (nonlinear_arith)
            requires
                sign8(s.first()) <= -1,
                pow256((s.len() - 1) as nat) >= 1,
        ;
    } else {
        assert(sign8(s.first()) >= 0);
        assert(sign8(s.first()) * pow256((s.len() - 1) as nat) >= 0) by (nonlinear_arith)
            requires
                sign8(s.first()) >= 0,
                pow256((s.len() - 1) as nat) >= 1,
        ;
    }
}

/// Multiplication reassociation for the decomposition step.
proof fn lemma_mul_assoc_256(a: int, b: int)
    ensures
        a * (256 * b) == (a * b) * 256,
    decreases 0int,
{
    assert(a * (256 * b) == (a * b) * 256) by (nonlinear_arith);
}

/// Powers of 256 are monotone.
pub proof fn lemma_pow256_mono(j: nat, k: nat)
    requires
        j <= k,
    ensures
        pow256(j) <= pow256(k),
    decreases k,
{
    if j < k {
        lemma_pow256_mono(j, (k - 1) as nat);
        lemma_pow256_pos((k - 1) as nat);
    }
}

/// Lexicographic comparison of byte strings: -1, 0 or 1. A strict
/// prefix orders before its extensions.
pub open spec fn lex_cmp(a: Seq<u8>, b: Seq<u8>) -> int
    decreases a.len(),
{
    if a.len() == 0 && b.len() == 0 {
        0
    } else if a.len() == 0 {
        -1
    } else if b.len() == 0 {
        1
    } else if a.first() < b.first() {
        -1
    } else if a.first() > b.first() {
        1
    } else {
        lex_cmp(a.drop_first(), b.drop_first())
    }
}

/// Swapping the arguments of the comparison negates it.
pub proof fn lemma_lex_flip(a: Seq<u8>, b: Seq<u8>)
    ensures
        lex_cmp(a, b) == -lex_cmp(b, a),
    decreases a.len(),
{
    if a.len() > 0 && b.len() > 0 && a.first() == b.first() {
        lemma_lex_flip(a.drop_first(), b.drop_first());
    }
}

/// The comparison is transitive.
pub proof fn lemma_lex_trans(a: Seq<u8>, b: Seq<u8>, c: Seq<u8>)
    requires
        lex_cmp(a, b) <= 0,
        lex_cmp(b, c) <= 0,
    ensures
        lex_cmp(a, c) <= 0,
    decreases a.len(),
{
    if a.len() == 0 {
    } else {
        assert(b.len() > 0);
        assert(c.len() > 0);
        if a.first() == c.first() {
            if a.first() == b.first() && b.first() == c.first() {
                lemma_lex_trans(a.drop_first(), b.drop_first(), c.drop_first());
            } else {
                assert(a.first() <= b.first() && b.first() <= c.first());
            }
        } else {
            assert(a.first() <= b.first() && b.first() <= c.first());
        }
    }
}

/// Equal comparison means equal strings.
pub proof fn lemma_lex_eq(a: Seq<u8>, b: Seq<u8>)
    requires
        lex_cmp(a, b) == 0,
    ensures
        a == b,
    decreases a.len(),
{
    if a.len() == 0 {
        assert(b.len() == 0);
        assert(a =~= b);
    } else {
        assert(b.len() > 0);
        assert(a.first() == b.first());
        lemma_lex_eq(a.drop_first(), b.drop_first());
        assert(a =~= b) by {
            assert(a.drop_first() == b.drop_first());
            assert(forall|i: int| 1 <= i < a.len() ==> a[i] == a.drop_first()[i - 1]
                && #[trigger] b[i] == b.drop_first()[i - 1]);
        }
    }
}

} // verus!
