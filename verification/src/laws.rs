//! The laws of the codec: parsing inverts the canonical forms, the
//! canonical forms are the only accepted ones in the canonical modes,
//! and the boundary rules of the grammar, each stated over the
//! specification mirrors of the reader and the canonical byte forms.

use vstd::prelude::*;
use crate::encoding::{
    be_bytes, lemma_be_of_nonzero, lemma_pow256_pos, lemma_pow256_small, lemma_twos_bytes_minimal,
    lemma_twos_bytes_value, lemma_twos_of_minimal, lemma_uint_of_be_range, pow256,
    spec_der_bool, spec_der_int, spec_der_null, spec_der_octets, spec_len,
    spec_tag_identifier, spec_tlv, twos_bytes, twos_minimal, uint_of_be,
};
use crate::reader::{
    sp_header, sp_header_fin, sp_lenacc, sp_length, sp_identifier, sp_int_content,
    sp_read_bool, sp_read_integer, sp_read_null, sp_read_octets_der, spec_univ_tag, ASN1Error,
    BERMode, HeadStep, RStep, Step, TagState,
};
use crate::{PCBit, Tag, TagClass, TagType};

verus! {

/// The front decomposition of a base-256 string.
proof fn lemma_uint_of_be_decomp(s: Seq<u8>)
    requires
        s.len() >= 1,
    ensures
        uint_of_be(s) == s.first() * pow256((s.len() - 1) as nat) + uint_of_be(s.drop_first()),
    decreases s.len(),
{
    if s.len() == 1 {
        assert(s.drop_first() =~= Seq::<u8>::empty());
        assert(s.drop_last() =~= Seq::<u8>::empty());
        assert(pow256(0) == 1);
    } else {
        let s0 = s.drop_last();
        lemma_uint_of_be_decomp(s0);
        assert(s0.first() == s.first());
        assert(pow256((s.len() - 1) as nat) == 256 * pow256((s0.len() - 1) as nat));
        assert(s.drop_first().drop_last() =~= s0.drop_first());
        assert(s.drop_first().last() == s.last());
        assert(uint_of_be(s.drop_first()) == uint_of_be(s0.drop_first()) * 256 + s.last());
        assert(uint_of_be(s) == uint_of_be(s0) * 256 + s.last());
        let f = s.first() as int;
        let p0 = pow256((s0.len() - 1) as nat);
        let u0 = uint_of_be(s0.drop_first()) as int;
        assert(uint_of_be(s0) == f * p0 + u0);
        assert((f * p0 + u0) * 256 == (f * p0) * 256 + u0 * 256) by (nonlinear_arith);
        assert((f * p0) * 256 == f * (256 * p0)) by (nonlinear_arith);
    }
}

/// The long-form length loop accepts exactly the big-endian octets it
/// is shown: parsing `s` from accumulator `acc` yields the combined
/// value, when that value fits.
proof fn lemma_sp_lenacc_complete(
    data: Seq<u8>,
    pos: int,
    limit: int,
    s: Seq<u8>,
    acc: nat,
    first: bool,
    strict: bool,
)
    requires
        0 <= pos,
        pos + s.len() <= limit <= data.len(),
        data.subrange(pos, pos + s.len()) == s,
        acc * pow256(s.len()) + uint_of_be(s) <= usize::MAX,
        s.len() >= 1 && first && strict ==> s.first() != 0,
    ensures
        sp_lenacc(data, pos, limit, s.len(), acc, first, strict) == (Step::Done::<usize> {
            v: ((acc * pow256(s.len()) + uint_of_be(s)) as usize),
            end: pos + s.len(),
        }),
    decreases s.len(),
{
    lemma_pow256_pos(s.len());
    if s.len() == 0 {
        assert(pow256(0) == 1);
    } else {
        let b = s.first();
        assert(data[pos] == b);
        lemma_uint_of_be_decomp(s);
        lemma_uint_of_be_range(s.drop_first());
        lemma_pow256_pos((s.len() - 1) as nat);
        let p0 = pow256((s.len() - 1) as nat);
        let acc2: nat = (acc * 256 + b) as nat;
        // The combined value is preserved by one accumulation step.
        assert(acc * pow256(s.len()) == (acc * 256) * p0) by (nonlinear_arith)
            requires
                pow256(s.len()) == 256 * p0,
        ;
        assert(acc2 * p0 == (acc * 256) * p0 + b * p0) by (nonlinear_arith)
            requires
                acc2 == acc * 256 + b,
        ;
        assert(acc2 * p0 + uint_of_be(s.drop_first()) == acc * pow256(s.len()) + uint_of_be(s));
        // The overflow guard does not fire.
        assert(!(acc > (usize::MAX as nat) / 256)) by {
            if acc > (usize::MAX as nat) / 256 {
                assert(acc * 256 >= ((usize::MAX as nat) / 256 + 1) * 256);
                assert(((usize::MAX as nat) / 256 + 1) * 256 > usize::MAX);
                assert(acc2 * p0 >= acc2) by (nonlinear_arith)
                    requires
                        p0 >= 1,
                        acc2 >= 0,
                ;
            }
        }
        assert(data.subrange(pos + 1, pos + 1 + s.drop_first().len()) =~= s.drop_first());
        lemma_sp_lenacc_complete(data, pos + 1, limit, s.drop_first(), acc2, false, strict);
    }
}

/// The long-form length loop yields only the value of the octets it
/// consumed, and in the canonical modes their first octet is not zero.
proof fn lemma_sp_lenacc_sound(
    data: Seq<u8>,
    pos: int,
    limit: int,
    k: nat,
    acc: nat,
    first: bool,
    strict: bool,
)
    requires
        0 <= pos <= limit <= data.len(),
        acc <= usize::MAX,
    ensures
        match sp_lenacc(data, pos, limit, k, acc, first, strict) {
            Step::Done { v, end } => {
                &&& end == pos + k
                &&& end <= limit
                &&& v == acc * pow256(k) + uint_of_be(data.subrange(pos, pos + k))
                &&& (k >= 1 && first && strict ==> data[pos] != 0)
            },
            Step::Fail { kind, end } => pos <= end <= limit,
        },
    decreases k,
{
    if k == 0 {
        assert(pow256(0) == 1);
        assert(data.subrange(pos, pos) =~= Seq::<u8>::empty());
    } else if pos >= limit {
    } else {
        let b = data[pos];
        if first && strict && b == 0 {
        } else if acc > (usize::MAX as nat) / 256 {
        } else {
            let acc2: nat = (acc * 256 + b) as nat;
            lemma_sp_lenacc_sound(data, pos + 1, limit, (k - 1) as nat, acc2, false, strict);
            match sp_lenacc(data, pos + 1, limit, (k - 1) as nat, acc2, false, strict) {
                Step::Done { v, end } => {
                    let s = data.subrange(pos, pos + k);
                    let p0 = pow256((k - 1) as nat);
                    assert(s[0] == data[pos]);
                    assert(s.first() == b);
                    assert(s.drop_first() =~= data.subrange(pos + 1, pos + k));
                    assert(data.subrange(pos + 1, pos + 1 + ((k - 1) as nat) as int) =~= data.subrange(
                        pos + 1,
                        pos + k,
                    ));
                    lemma_uint_of_be_decomp(s);
                    assert(acc * pow256(k) == (acc * 256) * p0) by (nonlinear_arith)
                        requires
                            pow256(k) == 256 * p0,
                    ;
                    assert(acc2 * p0 == (acc * 256) * p0 + b * p0) by (nonlinear_arith)
                        requires
                            acc2 == acc * 256 + b,
                    ;
                },
                Step::Fail { kind, end } => {},
            }
        }
    }
}

/// Length parsing accepts the canonical length octets of any length
/// that fits the machine, in every mode.
pub proof fn lemma_sp_length_complete(data: Seq<u8>, pos: int, limit: int, mode: BERMode, n: usize)
    requires
        0 <= pos,
        pos + spec_len(n as nat).len() <= limit <= data.len(),
        data.subrange(pos, pos + spec_len(n as nat).len()) == spec_len(n as nat),
    ensures
        sp_length(data, pos, limit, mode) == (Step::Done::<Option<usize>> {
            v: Some(n),
            end: pos + spec_len(n as nat).len(),
        }),
{
    let s = spec_len(n as nat);
    if n < 128 {
        assert(s =~= seq![n as u8]);
        assert(data.subrange(pos, pos + s.len())[0] == data[pos]);
        assert(data[pos] == n as u8);
    } else {
        let b = be_bytes(n as nat);
        crate::encoding::lemma_be_bytes_value(n as nat);
        crate::encoding::lemma_be_bytes_first(n as nat);
        lemma_be_bytes_le_usize(n);
        assert(s.first() == (128 + b.len()) as u8);
        assert(data.subrange(pos, pos + s.len())[0] == data[pos]);
        assert(data[pos] == (128 + b.len()) as u8);
        assert(data.subrange(pos + 1, pos + 1 + b.len()) =~= b) by {
            assert(forall|j: int|
                0 <= j < b.len() ==> data.subrange(pos, pos + s.len())[j + 1] == #[trigger] data[
                    pos + 1 + j
                ]);
            assert(forall|j: int| 0 <= j < b.len() ==> s[j + 1] == #[trigger] b[j]);
        }
        lemma_pow256_pos(b.len());
        assert(0 * pow256(b.len()) + uint_of_be(b) == n as nat) by (nonlinear_arith)
            requires
                uint_of_be(b) == n as nat,
        ;
        lemma_sp_lenacc_complete(
            data,
            pos + 1,
            limit,
            b,
            0,
            true,
            mode == BERMode::Der || mode == BERMode::Cer,
        );
    }
}

/// The number of base-256 octets of a `usize` value is at most eight.
proof fn lemma_be_bytes_le_usize(n: usize)
    ensures
        be_bytes(n as nat).len() <= 8,
{
    lemma_pow256_small();
    lemma_be_bytes_len_rec(n as nat, 8);
}

/// A value below the `k`-th power of 256 takes at most `k` octets.
proof fn lemma_be_bytes_len_rec(n: nat, k: nat)
    requires
        n < pow256(k),
    ensures
        be_bytes(n).len() <= k,
    decreases k,
{
    if n == 0 {
    } else {
        assert(k >= 1) by {
            if k == 0 {
                assert(pow256(0) == 1);
            }
        }
        assert(pow256(k) == 256 * pow256((k - 1) as nat));
        assert(n / 256 < pow256((k - 1) as nat));
        lemma_be_bytes_len_rec(n / 256, (k - 1) as nat);
    }
}

/// In the canonical modes a definite length is accepted only in its
/// canonical octets: what length parsing consumed is `spec_len` of the
/// value it returned.
pub proof fn lemma_sp_length_sound(data: Seq<u8>, pos: int, limit: int, mode: BERMode)
    requires
        0 <= pos <= limit <= data.len(),
        mode == BERMode::Der || mode == BERMode::Cer,
    ensures
        match sp_length(data, pos, limit, mode) {
            Step::Done { v: Some(n), end } => pos < end <= limit && data.subrange(pos, end)
                == spec_len(n as nat),
            _ => true,
        },
{
    if pos >= limit {
    } else {
        let b = data[pos];
        if b == 128 || b == 255 {
        } else if b < 128 {
            match sp_length(data, pos, limit, mode) {
                Step::Done { v: Some(n), end } => {
                    assert(n == b as usize);
                    assert(data.subrange(pos, pos + 1) =~= seq![b]);
                    assert(spec_len(n as nat) =~= seq![b]);
                },
                _ => {},
            }
        } else {
            let k = (b - 128) as nat;
            lemma_sp_lenacc_sound(data, pos + 1, limit, k, 0, true, true);
            match sp_lenacc(data, pos + 1, limit, k, 0, true, true) {
                Step::Done { v, end } => {
                    if v < 128 {
                    } else {
                        let s = data.subrange(pos + 1, pos + 1 + k);
                        assert(v == 0 * pow256(k) + uint_of_be(s));
                        assert(v == uint_of_be(s)) by (nonlinear_arith)
                            requires
                                v == 0 * pow256(k) + uint_of_be(s),
                        ;
                        if k >= 1 {
                            assert(s.first() != 0);
                            lemma_be_of_nonzero(s);
                            assert(be_bytes(v as nat) == s);
                            assert(spec_len(v as nat) =~= seq![b] + s) by {
                                assert(be_bytes(v as nat).len() == k);
                            }
                            assert(data.subrange(pos, pos + 1 + k) =~= seq![b] + s);
                        } else {
                            // A zero-octet long form carries the value
                            // zero, which the short-form rule refuses.
                            assert(s =~= Seq::<u8>::empty());
                        }
                    }
                },
                Step::Fail { kind, end } => {},
            }
        }
    }
}

/// The one-octet identifier of a tag with a short number is decoded
/// to exactly that tag.
proof fn lemma_short_identifier(data: Seq<u8>, pos: int, limit: int, tag: Tag, pc: PCBit)
    requires
        0 <= pos < limit <= data.len(),
        tag.tag_number < 31,
        data[pos] == spec_tag_identifier(tag, pc)[0],
    ensures
        sp_identifier(data, pos, limit) == (Step::Done::<(Tag, PCBit)> {
            v: (tag, pc),
            end: pos + 1,
        }),
{
    let c = crate::encoding::class_bits(tag.tag_class);
    let p = crate::encoding::pc_bit(pc);
    let n = tag.tag_number as u8;
    let b = data[pos];
    assert(b == c * 64 + p * 32 + n);
    assert(c <= 3 && p <= 1 && n <= 30);
    assert(b / 64 == c && (b / 32) % 2 == p && b % 32 == n) by (bit_vector)
        requires
            b == c * 64 + p * 32 + n,
            c <= 3,
            p <= 1,
            n <= 30,
    ;
    assert(crate::encoding::class_of_bits(c) == tag.tag_class);
}

/// A one-octet identifier determines its class octet.
proof fn lemma_identifier_octet_rebuilt(b: u8)
    ensures
        b == (b / 64) * 64 + ((b / 32) % 2) * 32 + b % 32,
{
    assert(b == (b / 64) * 64 + ((b / 32) % 2) * 32 + b % 32) by (bit_vector);
}

/// Entering a TLV accepts the canonical header octets: identifier,
/// minimal length, and a content region inside the scope. This is the
/// acceptance half of the round trip for every type with a short tag
/// number.
pub proof fn lemma_sp_header_complete(
    data: Seq<u8>,
    pos: int,
    limit: int,
    mode: BERMode,
    depth: int,
    tag: Tag,
    pc: PCBit,
    n: usize,
)
    requires
        0 <= depth <= 100,
        0 <= pos,
        pos + spec_tag_identifier(tag, pc).len() + spec_len(n as nat).len() + n <= limit
            <= data.len(),
        data.subrange(pos, pos + spec_tag_identifier(tag, pc).len() + spec_len(n as nat).len())
            == spec_tag_identifier(tag, pc) + spec_len(n as nat),
        mode == BERMode::Cer ==> pc == PCBit::Primitive,
    ensures
        sp_header(data, pos, limit, mode, depth, TagState::Fresh, tag, TagType::Explicit)
            == (HeadStep::HeadOk {
            pc,
            length: Some(n),
            end: pos + spec_tag_identifier(tag, pc).len() + spec_len(n as nat).len(),
            limit2: pos + spec_tag_identifier(tag, pc).len() + spec_len(n as nat).len() + n,
            st: TagState::Fresh,
        }),
{
    let id = spec_tag_identifier(tag, pc);
    lemma_subrange_cat(data, pos, id, spec_len(n as nat));
    lemma_sp_identifier_complete(data, pos, limit, tag, pc);
    lemma_sp_length_complete(data, pos + id.len(), limit, mode, n);
}

/// In DER a TLV header is accepted only in its canonical octets: what
/// was consumed is the identifier and the minimal length of the
/// declared content region. This is the uniqueness half of the round
/// trip for every type with a short tag number.
pub proof fn lemma_sp_header_sound(
    data: Seq<u8>,
    pos: int,
    limit: int,
    depth: int,
    tag: Tag,
)
    requires
        0 <= pos <= limit <= data.len(),
    ensures
        match sp_header(
            data,
            pos,
            limit,
            BERMode::Der,
            depth,
            TagState::Fresh,
            tag,
            TagType::Explicit,
        ) {
            HeadStep::HeadOk { pc, length, end, limit2, st } => {
                &&& length matches Some(l) && limit2 == end + l && l == limit2 - end
                &&& data.subrange(pos, end) == spec_tag_identifier(tag, pc) + spec_len(
                    (limit2 - end) as nat,
                )
                &&& end == pos + spec_tag_identifier(tag, pc).len() + spec_len(
                    (limit2 - end) as nat,
                ).len()
                &&& st == TagState::Fresh
                &&& limit2 <= limit
                &&& depth <= 100
            },
            HeadStep::HeadFail { kind, end, st } => true,
        },
{
    if depth > 100 {
    } else {
        lemma_sp_identifier_sound(data, pos, limit);
        match sp_identifier(data, pos, limit) {
            Step::Done { v: (t2, pc2), end: e1 } => {
                if t2 == tag {
                    lemma_sp_length_sound(data, e1, limit, BERMode::Der);
                    match sp_length(data, e1, limit, BERMode::Der) {
                        Step::Done { v: lenspec, end: e2 } => {
                            match lenspec {
                                Some(l) => {
                                    assert(data.subrange(pos, e2) =~= data.subrange(pos, e1)
                                        + data.subrange(e1, e2));
                                },
                                None => {},
                            }
                        },
                        Step::Fail { kind, end } => {},
                    }
                }
            },
            Step::Fail { kind, end } => {},
        }
    }
}

/// A subrange equal to a concatenation splits at the seam.
proof fn lemma_subrange_cat(data: Seq<u8>, pos: int, x: Seq<u8>, y: Seq<u8>)
    requires
        0 <= pos,
        pos + x.len() + y.len() <= data.len(),
        data.subrange(pos, pos + x.len() + y.len()) == x + y,
    ensures
        data.subrange(pos, pos + x.len()) == x,
        data.subrange(pos + x.len(), pos + x.len() + y.len()) == y,
{
    let whole = data.subrange(pos, pos + x.len() + y.len());
    assert(data.subrange(pos, pos + x.len()) =~= x) by {
        assert(forall|j: int| 0 <= j < x.len() ==> whole[j] == #[trigger] data[pos + j]);
        assert(forall|j: int| 0 <= j < x.len() ==> (x + y)[j] == #[trigger] x[j]);
    }
    assert(data.subrange(pos + x.len(), pos + x.len() + y.len()) =~= y) by {
        assert(forall|j: int|
            0 <= j < y.len() ==> whole[x.len() + j] == #[trigger] data[pos + x.len() + j]);
        assert(forall|j: int| 0 <= j < y.len() ==> (x + y)[x.len() + j] == #[trigger] y[j]);
    }
}

/// Acceptance of canonical BOOLEAN bytes, in every mode: decoding the
/// canonical form of `b` yields `b` and consumes exactly those bytes.
/// Together with `lemma_read_bool_sound` this is the decode-encode
/// round trip for BOOLEAN.
pub proof fn lemma_read_bool_complete(
    data: Seq<u8>,
    pos: int,
    limit: int,
    mode: BERMode,
    depth: int,
    b: bool,
)
    requires
        0 <= depth <= 100,
        0 <= pos,
        pos + 3 <= limit <= data.len(),
        data.subrange(pos, pos + 3) == spec_der_bool(b),
    ensures
        sp_read_bool(data, pos, limit, mode, depth, TagState::Fresh) == (RStep::RDone::<bool> {
            v: b,
            end: pos + 3,
            st: TagState::Fresh,
        }),
{
    let tag = spec_univ_tag(1);
    let content = seq![if b { 255u8 } else { 0u8 }];
    let hdr = spec_tag_identifier(tag, PCBit::Primitive) + spec_len(1);
    assert(spec_der_bool(b) =~= hdr + content);
    assert(data.subrange(pos, pos + 3) =~= data.subrange(pos, pos + hdr.len() + content.len()));
    lemma_subrange_cat(data, pos, hdr, content);
    lemma_sp_header_complete(data, pos, limit, mode, depth, tag, PCBit::Primitive, 1);
    assert(data.subrange(pos + 2, pos + 3)[0] == data[pos + 2]);
    assert(data[pos + 2] == (if b { 255u8 } else { 0u8 }));
}

/// Uniqueness of accepted BOOLEAN bytes in DER: whatever decodes as a
/// BOOLEAN was written in its canonical form. Together with
/// `lemma_read_bool_complete` this is the encode-decode round trip.
pub proof fn lemma_read_bool_sound(data: Seq<u8>, pos: int, limit: int, depth: int)
    requires
        0 <= pos <= limit <= data.len(),
    ensures
        match sp_read_bool(data, pos, limit, BERMode::Der, depth, TagState::Fresh) {
            RStep::RDone { v, end, st } => data.subrange(pos, end) == spec_der_bool(v) && st
                == TagState::Fresh && end == pos + 3,
            RStep::RFail { kind, end, st } => true,
        },
{
    let tag = spec_univ_tag(1);
    lemma_sp_header_sound(data, pos, limit, depth, tag);
    match sp_header(data, pos, limit, BERMode::Der, depth, TagState::Fresh, tag, TagType::Explicit) {
        HeadStep::HeadOk { pc, length, end, limit2, st } => {
            if pc == PCBit::Primitive && limit2 - end == 1 {
                let c = data[end];
                if c == 0 || c == 255 {
                    assert(data.subrange(end, limit2) =~= seq![c]);
                    assert(data.subrange(pos, limit2) =~= data.subrange(pos, end) + data.subrange(
                        end,
                        limit2,
                    ));
                    assert(spec_der_bool(c != 0) =~= (spec_tag_identifier(tag, PCBit::Primitive)
                        + spec_len(1)) + seq![c]);
                }
            }
        },
        HeadStep::HeadFail { kind, end, st } => {},
    }
}

/// Acceptance of canonical INTEGER bytes, in every mode, for every
/// bounded target whose width and range admit the value.
pub proof fn lemma_read_integer_complete(
    data: Seq<u8>,
    pos: int,
    limit: int,
    mode: BERMode,
    depth: int,
    v: int,
    width: int,
    lo: int,
    hi: int,
)
    requires
        0 <= depth <= 100,
        0 <= pos,
        pos + spec_der_int(v).len() <= limit <= data.len(),
        data.subrange(pos, pos + spec_der_int(v).len()) == spec_der_int(v),
        twos_bytes(v).len() <= width <= 9,
        lo <= v <= hi,
    ensures
        sp_read_integer(data, pos, limit, mode, depth, TagState::Fresh, width, lo, hi)
            == (RStep::RDone::<int> { v, end: pos + spec_der_int(v).len(), st: TagState::Fresh }),
{
    let tag = spec_univ_tag(2);
    let content = twos_bytes(v);
    lemma_twos_bytes_value(v);
    lemma_twos_bytes_minimal(v);
    let hdr = spec_tag_identifier(tag, PCBit::Primitive) + spec_len(content.len());
    assert(spec_der_int(v) =~= hdr + content);
    assert(data.subrange(pos, pos + spec_der_int(v).len()) =~= data.subrange(
        pos,
        pos + hdr.len() + content.len(),
    ));
    lemma_subrange_cat(data, pos, hdr, content);
    assert(content.len() < 128);
    lemma_sp_header_complete(
        data,
        pos,
        limit,
        mode,
        depth,
        tag,
        PCBit::Primitive,
        content.len() as usize,
    );
    let end = pos + hdr.len();
    let limit2 = end + content.len();
    assert(data.subrange(end, limit2) == content);
    if content.len() >= 2 {
        assert(content[0] == data.subrange(end, limit2)[0]);
        assert(content[1] == data.subrange(end, limit2)[1]);
        assert(data.subrange(end, limit2)[0] == data[end]);
        assert(data.subrange(end, limit2)[1] == data[end + 1]);
    }
}

/// Uniqueness of accepted INTEGER bytes in DER.
pub proof fn lemma_read_integer_sound(
    data: Seq<u8>,
    pos: int,
    limit: int,
    depth: int,
    width: int,
    lo: int,
    hi: int,
)
    requires
        0 <= pos <= limit <= data.len(),
    ensures
        match sp_read_integer(data, pos, limit, BERMode::Der, depth, TagState::Fresh, width, lo, hi) {
            RStep::RDone { v, end, st } => data.subrange(pos, end) == spec_der_int(v) && st
                == TagState::Fresh,
            RStep::RFail { kind, end, st } => true,
        },
{
    let tag = spec_univ_tag(2);
    lemma_sp_header_sound(data, pos, limit, depth, tag);
    match sp_header(data, pos, limit, BERMode::Der, depth, TagState::Fresh, tag, TagType::Explicit) {
        HeadStep::HeadOk { pc, length, end, limit2, st } => {
            if pc == PCBit::Primitive {
                let content = data.subrange(end, limit2);
                let n = limit2 - end;
                if n >= 1 && !(n >= 2 && ((content[0] == 0 && content[1] < 128) || (content[0]
                    == 255 && content[1] >= 128))) {
                    let v = crate::encoding::int_of_twos(content);
                    assert(twos_minimal(content));
                    lemma_twos_of_minimal(content);
                    assert(twos_bytes(v) == content);
                    assert(data.subrange(pos, limit2) =~= data.subrange(pos, end) + content);
                    assert(spec_der_int(v) =~= (spec_tag_identifier(tag, PCBit::Primitive)
                        + spec_len(content.len())) + content);
                }
            }
        },
        HeadStep::HeadFail { kind, end, st } => {},
    }
}

/// Acceptance of canonical NULL bytes, in every mode.
pub proof fn lemma_read_null_complete(
    data: Seq<u8>,
    pos: int,
    limit: int,
    mode: BERMode,
    depth: int,
)
    requires
        0 <= depth <= 100,
        0 <= pos,
        pos + 2 <= limit <= data.len(),
        data.subrange(pos, pos + 2) == spec_der_null(),
    ensures
        sp_read_null(data, pos, limit, mode, depth, TagState::Fresh) == (RStep::RDone::<()> {
            v: (),
            end: pos + 2,
            st: TagState::Fresh,
        }),
{
    let tag = spec_univ_tag(5);
    let hdr = spec_tag_identifier(tag, PCBit::Primitive) + spec_len(0);
    assert(spec_der_null() =~= hdr + Seq::<u8>::empty());
    assert(data.subrange(pos, pos + 2) =~= data.subrange(pos, pos + hdr.len() + 0));
    lemma_subrange_cat(data, pos, hdr, Seq::<u8>::empty());
    lemma_sp_header_complete(data, pos, limit, mode, depth, tag, PCBit::Primitive, 0);
}

/// Uniqueness of accepted NULL bytes in DER.
pub proof fn lemma_read_null_sound(data: Seq<u8>, pos: int, limit: int, depth: int)
    requires
        0 <= pos <= limit <= data.len(),
    ensures
        match sp_read_null(data, pos, limit, BERMode::Der, depth, TagState::Fresh) {
            RStep::RDone { v, end, st } => data.subrange(pos, end) == spec_der_null() && st
                == TagState::Fresh && end == pos + 2,
            RStep::RFail { kind, end, st } => true,
        },
{
    let tag = spec_univ_tag(5);
    lemma_sp_header_sound(data, pos, limit, depth, tag);
    match sp_header(data, pos, limit, BERMode::Der, depth, TagState::Fresh, tag, TagType::Explicit) {
        HeadStep::HeadOk { pc, length, end, limit2, st } => {
            if pc == PCBit::Primitive && limit2 - end == 0 {
                assert(data.subrange(pos, limit2) =~= data.subrange(pos, end));
                assert(spec_der_null() =~= (spec_tag_identifier(tag, PCBit::Primitive) + spec_len(
                    0,
                )) + Seq::<u8>::empty());
                assert(spec_der_null() =~= spec_tag_identifier(tag, PCBit::Primitive) + spec_len(
                    0,
                ));
            }
        },
        HeadStep::HeadFail { kind, end, st } => {},
    }
}

/// Acceptance of canonical OCTETSTRING bytes in DER: the primitive
/// form with the content itself.
pub proof fn lemma_read_octets_complete(
    data: Seq<u8>,
    pos: int,
    limit: int,
    depth: int,
    s: Seq<u8>,
)
    requires
        0 <= depth <= 100,
        0 <= pos,
        s.len() <= usize::MAX,
        pos + spec_der_octets(s).len() <= limit <= data.len(),
        data.subrange(pos, pos + spec_der_octets(s).len()) == spec_der_octets(s),
    ensures
        sp_read_octets_der(data, pos, limit, BERMode::Der, depth, TagState::Fresh)
            == (RStep::RDone::<Seq<u8>> {
            v: s,
            end: pos + spec_der_octets(s).len(),
            st: TagState::Fresh,
        }),
{
    let tag = spec_univ_tag(4);
    let hdr = spec_tag_identifier(tag, PCBit::Primitive) + spec_len(s.len());
    assert(spec_der_octets(s) =~= hdr + s);
    assert(data.subrange(pos, pos + spec_der_octets(s).len()) =~= data.subrange(
        pos,
        pos + hdr.len() + s.len(),
    ));
    lemma_subrange_cat(data, pos, hdr, s);
    lemma_sp_header_complete(data, pos, limit, BERMode::Der, depth, tag, PCBit::Primitive, s.len() as usize);
}

/// Uniqueness of accepted OCTETSTRING bytes in DER.
pub proof fn lemma_read_octets_sound(data: Seq<u8>, pos: int, limit: int, depth: int)
    requires
        0 <= pos <= limit <= data.len(),
    ensures
        match sp_read_octets_der(data, pos, limit, BERMode::Der, depth, TagState::Fresh) {
            RStep::RDone { v, end, st } => data.subrange(pos, end) == spec_der_octets(v) && st
                == TagState::Fresh,
            RStep::RFail { kind, end, st } => true,
        },
{
    let tag = spec_univ_tag(4);
    lemma_sp_header_sound(data, pos, limit, depth, tag);
    match sp_header(data, pos, limit, BERMode::Der, depth, TagState::Fresh, tag, TagType::Explicit) {
        HeadStep::HeadOk { pc, length, end, limit2, st } => {
            if pc == PCBit::Primitive {
                let content = data.subrange(end, limit2);
                assert(data.subrange(pos, limit2) =~= data.subrange(pos, end) + content);
                assert(spec_der_octets(content) =~= (spec_tag_identifier(tag, PCBit::Primitive)
                    + spec_len(content.len())) + content);
            }
        },
        HeadStep::HeadFail { kind, end, st } => {},
    }
}

/// DER acceptance implies BER acceptance: an input that decodes as a
/// BOOLEAN in DER decodes to the same value in BER. The same holds for
/// the other canonical forms through their acceptance laws.
pub proof fn lemma_bool_der_within_ber(data: Seq<u8>, pos: int, limit: int, depth: int)
    requires
        0 <= pos <= limit <= data.len(),
        0 <= depth <= 100,
    ensures
        match sp_read_bool(data, pos, limit, BERMode::Der, depth, TagState::Fresh) {
            RStep::RDone { v, end, st } => sp_read_bool(
                data,
                pos,
                limit,
                BERMode::Ber,
                depth,
                TagState::Fresh,
            ) == (RStep::RDone::<bool> { v, end, st }),
            RStep::RFail { kind, end, st } => true,
        },
{
    lemma_read_bool_sound(data, pos, limit, depth);
    match sp_read_bool(data, pos, limit, BERMode::Der, depth, TagState::Fresh) {
        RStep::RDone { v, end, st } => {
            lemma_read_bool_complete(data, pos, limit, BERMode::Ber, depth, v);
        },
        RStep::RFail { kind, end, st } => {},
    }
}

/// The reserved length octet `0xFF` is refused in every mode.
pub proof fn lemma_length_reserved(data: Seq<u8>, pos: int, limit: int, mode: BERMode)
    requires
        0 <= pos < limit <= data.len(),
        data[pos] == 255,
    ensures
        sp_length(data, pos, limit, mode) == (Step::Fail::<Option<usize>> {
            kind: ASN1Error::Invalid,
            end: pos + 1,
        }),
{
}

/// The length octet `0x80` declares an indefinite length; in DER that
/// is refused outright, and in BER it is only allowed on a constructed
/// value.
pub proof fn lemma_length_indefinite(
    data: Seq<u8>,
    pos: int,
    limit: int,
    mode: BERMode,
    pc: PCBit,
    tt: TagType,
)
    requires
        0 <= pos < limit <= data.len(),
        data[pos] == 128,
    ensures
        sp_length(data, pos, limit, mode) == (Step::Done::<Option<usize>> {
            v: None,
            end: pos + 1,
        }),
        mode == BERMode::Der ==> (sp_header_fin(data, pos + 1, limit, mode, pc, None, tt)
            matches HeadStep::HeadFail { kind: ASN1Error::Invalid, .. }),
        mode == BERMode::Ber && pc == PCBit::Primitive ==> (sp_header_fin(
            data,
            pos + 1,
            limit,
            mode,
            pc,
            None,
            tt,
        ) matches HeadStep::HeadFail { kind: ASN1Error::Invalid, .. }),
        mode == BERMode::Ber && pc == PCBit::Constructed ==> (sp_header_fin(
            data,
            pos + 1,
            limit,
            mode,
            pc,
            None,
            tt,
        ) matches HeadStep::HeadOk { .. }),
{
}

/// An INTEGER whose top nine bits are all zero or all one is refused:
/// its leading octet would be redundant.
pub proof fn lemma_integer_minimality_rule(
    data: Seq<u8>,
    end: int,
    limit2: int,
    st: TagState,
    width: int,
    lo: int,
    hi: int,
)
    requires
        limit2 - end >= 2,
        0 <= end,
        limit2 <= data.len(),
        (data[end] == 0 && data[end + 1] < 128) || (data[end] == 255 && data[end + 1] >= 128),
    ensures
        sp_int_content(data, end, limit2, st, width, lo, hi) == (RStep::RFail::<int> {
            kind: ASN1Error::Invalid,
            end: limit2,
            st,
        }),
{
}

/// An OBJECT IDENTIFIER sub-identifier must not start with the padding
/// octet `0x80`.
pub proof fn lemma_oid_leading_zero(content: Seq<u8>, i: int, ids: Seq<u64>)
    requires
        0 <= i < content.len(),
        content[i] == 128,
    ensures
        crate::reader::sp_oid_ids(content, i, 0, ids) == Err::<Seq<u64>, ASN1Error>(
            ASN1Error::Invalid,
        ),
{
}

/// An OBJECT IDENTIFIER must not end inside a sub-identifier: content
/// ending with a continuation octet is refused.
pub proof fn lemma_oid_trailing_continuation(
    data: Seq<u8>,
    pos: int,
    limit: int,
    mode: BERMode,
    depth: int,
    st0: TagState,
)
    requires
        0 <= pos <= limit <= data.len(),
    ensures
        match sp_header(data, pos, limit, mode, depth, st0, spec_univ_tag(6), TagType::Explicit) {
            HeadStep::HeadOk { pc, length, end, limit2, st } => (pc == PCBit::Primitive && limit2
                - end > 0 && 0 <= end < limit2 <= data.len() && data[limit2 - 1] >= 128)
                ==> crate::reader::sp_read_oid(data, pos, limit, mode, depth, st0)
                == (RStep::RFail::<Seq<u64>> { kind: ASN1Error::Invalid, end: limit2, st }),
            HeadStep::HeadFail { kind, end, st } => true,
        },
{
    match sp_header(data, pos, limit, mode, depth, st0, spec_univ_tag(6), TagType::Explicit) {
        HeadStep::HeadOk { pc, length, end, limit2, st } => {
            if pc == PCBit::Primitive && limit2 - end > 0 && 0 <= end < limit2 <= data.len()
                && data[limit2 - 1] >= 128 {
                let content = data.subrange(end, limit2);
                assert(content.last() == data[limit2 - 1]);
            }
        },
        HeadStep::HeadFail { kind, end, st } => {},
    }
}

/// Recursion past the depth limit is always refused with
/// `StackOverflow`, before anything is consumed.
pub proof fn lemma_depth_limit(
    data: Seq<u8>,
    pos: int,
    limit: int,
    mode: BERMode,
    depth: int,
    st0: TagState,
    tag: Tag,
    tt: TagType,
)
    requires
        depth > 100,
    ensures
        sp_header(data, pos, limit, mode, depth, st0, tag, tt) == (HeadStep::HeadFail {
            kind: ASN1Error::StackOverflow,
            end: pos,
            st: st0,
        }),
        sp_read_bool(data, pos, limit, mode, depth, st0) == (RStep::RFail::<bool> {
            kind: ASN1Error::StackOverflow,
            end: pos,
            st: st0,
        }),
        sp_read_null(data, pos, limit, mode, depth, st0) == (RStep::RFail::<()> {
            kind: ASN1Error::StackOverflow,
            end: pos,
            st: st0,
        }),
{
}

/// The canonical forms the encoder emits are strict DER: the length
/// octets are minimal, and a true BOOLEAN is the octet `0xFF`.
pub proof fn lemma_emitted_forms_minimal(n: nat, v: int)
    ensures
        n < 128 ==> spec_len(n) == seq![n as u8],
        n >= 128 ==> spec_len(n).first() == (128 + be_bytes(n).len()) as u8 && be_bytes(
            n,
        ).first() != 0,
        twos_bytes(v).len() >= 2 ==> !(twos_bytes(v).first() == 0 && twos_bytes(v)[1] < 128) && !(
        twos_bytes(v).first() == 255 && twos_bytes(v)[1] >= 128),
        spec_der_bool(true) == seq![1u8, 1u8, 255u8],
        spec_der_bool(false) == seq![1u8, 1u8, 0u8],
{
    crate::encoding::lemma_be_bytes_first(n);
    lemma_twos_bytes_minimal(v);
    if n < 128 {
        assert(spec_len(n) =~= seq![n as u8]);
    } else {
        assert(spec_len(n).first() == (128 + be_bytes(n).len()) as u8);
    }
    assert(spec_der_bool(true) =~= seq![1u8, 1u8, 255u8]);
    assert(spec_der_bool(false) =~= seq![1u8, 1u8, 0u8]);
}

/// Front-to-back accumulation of base-128 digits.
pub open spec fn b128_fold(acc: nat, s: Seq<u8>) -> nat
    decreases s.len(),
{
    if s.len() == 0 {
        acc
    } else {
        b128_fold((acc * 128 + (s.first() % 128)) as nat, s.drop_first())
    }
}

/// Accumulation never loses what was already gathered.
proof fn lemma_b128_fold_lb(acc: nat, s: Seq<u8>)
    ensures
        b128_fold(acc, s) >= acc,
    decreases s.len(),
{
    if s.len() > 0 {
        lemma_b128_fold_lb((acc * 128 + (s.first() % 128)) as nat, s.drop_first());
    }
}

/// Appending a digit multiplies the folded value by 128 and adds the
/// digit.
proof fn lemma_b128_fold_push(acc: nat, s: Seq<u8>, b: u8)
    ensures
        b128_fold(acc, s.push(b)) == b128_fold(acc, s) * 128 + (b % 128),
    decreases s.len(),
{
    if s.len() == 0 {
        assert(s.push(b) =~= seq![b]);
        assert(seq![b].drop_first() =~= Seq::<u8>::empty());
        assert(b128_fold(acc, seq![b]) == b128_fold((acc * 128 + (b % 128)) as nat, seq![b].drop_first()));
    } else {
        assert(s.push(b).first() == s.first());
        assert(s.push(b).drop_first() =~= s.drop_first().push(b));
        lemma_b128_fold_push((acc * 128 + (s.first() % 128)) as nat, s.drop_first(), b);
    }
}

/// Folding the canonical base-128 form of `n` yields `n`.
proof fn lemma_b128_fold_base128(n: nat)
    ensures
        b128_fold(0, crate::encoding::base128(n)) == n,
{
    lemma_b128_fold_rest(n / 128);
    assert(crate::encoding::base128(n) =~= crate::encoding::base128_rest(n / 128).push(
        (n % 128) as u8,
    ));
    lemma_b128_fold_push(0, crate::encoding::base128_rest(n / 128), (n % 128) as u8);
}

/// Folding the continuation octets of the base-128 form of `m` yields
/// `m`.
proof fn lemma_b128_fold_rest(m: nat)
    ensures
        b128_fold(0, crate::encoding::base128_rest(m)) == m,
    decreases m,
{
    if m == 0 {
    } else {
        lemma_b128_fold_rest(m / 128);
        assert(crate::encoding::base128_rest(m) =~= crate::encoding::base128_rest(m / 128).push(
            (128 + m % 128) as u8,
        ));
        lemma_b128_fold_push(0, crate::encoding::base128_rest(m / 128), (128 + m % 128) as u8);
    }
}

/// How one complete sub-identifier value extends the decoded list:
/// the first one unfolds into the leading two arcs.
pub open spec fn oid_next_ids(ids: Seq<u64>, v: u64) -> Seq<u64> {
    if ids.len() == 0 {
        let id0: u64 = if v < 40 {
            0
        } else if v < 80 {
            1
        } else {
            2
        };
        seq![id0, (v - 40 * id0) as u64]
    } else {
        ids.push(v)
    }
}

/// Parsing one well-formed base-128 group consumes exactly its octets
/// and folds its value into the list.
proof fn lemma_oid_group(content: Seq<u8>, i: int, s: Seq<u8>, acc: nat, ids: Seq<u64>)
    requires
        s.len() >= 1,
        0 <= i,
        i + s.len() <= content.len(),
        content.subrange(i, i + s.len()) == s,
        forall|j: int| 0 <= j < s.len() - 1 ==> #[trigger] s[j] >= 128,
        s.last() < 128,
        acc == 0 ==> s.first() != 128,
        b128_fold(acc, s) <= u64::MAX,
    ensures
        crate::reader::sp_oid_ids(content, i, acc, ids) == crate::reader::sp_oid_ids(
            content,
            i + s.len(),
            0,
            oid_next_ids(ids, b128_fold(acc, s) as u64),
        ),
    decreases s.len(),
{
    let b = s.first();
    assert(content[i] == s[0]);
    let acc2: nat = (acc * 128 + (b % 128)) as nat;
    lemma_b128_fold_lb(acc2, s.drop_first());
    assert(b128_fold(acc, s) == b128_fold(acc2, s.drop_first()));
    assert(!(acc > crate::reader::tagnum_cap())) by {
        assert(acc * 128 <= acc2);
        if acc > (u64::MAX as nat) / 128 {
            assert(acc * 128 >= ((u64::MAX as nat) / 128 + 1) * 128);
            assert(((u64::MAX as nat) / 128 + 1) * 128 > u64::MAX);
        }
    }
    if s.len() == 1 {
        assert(b < 128);
        assert(b128_fold(acc, s) == acc2) by {
            assert(s.drop_first() =~= Seq::<u8>::empty());
        }
    } else {
        assert(s[s.len() - 2] >= 128);
        assert(b >= 128);
        assert(acc2 >= 1) by {
            if acc == 0 {
                assert(b != 128);
                assert(b % 128 >= 1);
            }
        }
        assert(content.subrange(i + 1, i + 1 + s.drop_first().len()) =~= s.drop_first());
        assert(s.drop_first().last() == s.last());
        assert(forall|j: int|
            0 <= j < s.drop_first().len() - 1 ==> #[trigger] s.drop_first()[j] == s[j + 1]);
        lemma_oid_group(content, i + 1, s.drop_first(), acc2, ids);
    }
}

/// Whether a sub-identifier list is encodable: at least two entries,
/// the first at most 2, the second below 40 when the first is 0 or 1,
/// and the folded leading pair within `u64`.
pub open spec fn oid_encodable(ids: Seq<u64>) -> bool {
    &&& ids.len() >= 2
    &&& ids[0] <= 2
    &&& ids[0] < 2 ==> ids[1] < 40
    &&& ids[1] <= u64::MAX - 80
}

/// Parsing the canonical content of a sub-identifier list yields the
/// list back.
proof fn lemma_oid_content_complete(content: Seq<u8>, i: int, ids: Seq<u64>)
    requires
        oid_encodable(ids),
        0 <= i,
        i + crate::encoding::spec_oid_content(ids).len() <= content.len(),
        content.subrange(i, i + crate::encoding::spec_oid_content(ids).len())
            == crate::encoding::spec_oid_content(ids),
    ensures
        crate::reader::sp_oid_ids(content, i, 0, seq![]) == crate::reader::sp_oid_ids(
            content,
            i + crate::encoding::spec_oid_content(ids).len(),
            0,
            ids,
        ),
    decreases ids.len(),
{
    if ids.len() == 2 {
        let x: u64 = (40 * ids[0] + ids[1]) as u64;
        let g = crate::encoding::base128(x as nat);
        crate::encoding::lemma_base128_value(x as nat);
        lemma_b128_fold_base128(x as nat);
        assert(crate::encoding::spec_oid_content(ids) == g);
        lemma_oid_group(content, i, g, 0, seq![]);
        assert(oid_next_ids(seq![], x) =~= ids) by {
            if ids[0] == 0 {
                assert(x < 40);
            } else if ids[0] == 1 {
                assert(40 <= x < 80);
            } else {
                assert(x >= 80);
            }
        }
    } else {
        let ids0 = ids.drop_last();
        let lastid = ids.last();
        assert(oid_encodable(ids0)) by {
            assert(ids0[0] == ids[0] && ids0[1] == ids[1]);
        }
        let c0 = crate::encoding::spec_oid_content(ids0);
        let g = crate::encoding::base128(lastid as nat);
        assert(crate::encoding::spec_oid_content(ids) == c0 + g);
        assert(content.subrange(i, i + c0.len()) =~= c0) by {
            assert(forall|j: int|
                0 <= j < c0.len() ==> content.subrange(i, i + (c0 + g).len())[j] == #[trigger] content[
                    i + j
                ]);
            assert(forall|j: int| 0 <= j < c0.len() ==> (c0 + g)[j] == #[trigger] c0[j]);
        }
        lemma_oid_content_complete(content, i, ids0);
        assert(content.subrange(i + c0.len(), i + c0.len() + g.len()) =~= g) by {
            assert(forall|j: int|
                0 <= j < g.len() ==> content.subrange(i, i + (c0 + g).len())[c0.len() + j]
                    == #[trigger] content[i + c0.len() + j]);
            assert(forall|j: int| 0 <= j < g.len() ==> (c0 + g)[c0.len() + j] == #[trigger] g[j]);
        }
        crate::encoding::lemma_base128_value(lastid as nat);
        lemma_b128_fold_base128(lastid as nat);
        lemma_oid_group(content, i + c0.len(), g, 0, ids0);
        assert(oid_next_ids(ids0, lastid) =~= ids);
    }
}

/// Acceptance of canonical OBJECT IDENTIFIER bytes, in every mode.
/// Together with the leading-zero and trailing-continuation rules this
/// is the decode-encode round trip for OBJECT IDENTIFIER.
pub proof fn lemma_read_oid_complete(
    data: Seq<u8>,
    pos: int,
    limit: int,
    mode: BERMode,
    depth: int,
    ids: Seq<u64>,
)
    requires
        0 <= depth <= 100,
        0 <= pos,
        oid_encodable(ids),
        crate::encoding::spec_oid_content(ids).len() < 128,
        pos + crate::encoding::spec_der_oid(ids).len() <= limit <= data.len(),
        data.subrange(pos, pos + crate::encoding::spec_der_oid(ids).len())
            == crate::encoding::spec_der_oid(ids),
    ensures
        crate::reader::sp_read_oid(data, pos, limit, mode, depth, TagState::Fresh)
            == (RStep::RDone::<Seq<u64>> {
            v: ids,
            end: pos + crate::encoding::spec_der_oid(ids).len(),
            st: TagState::Fresh,
        }),
{
    let tag = spec_univ_tag(6);
    let content = crate::encoding::spec_oid_content(ids);
    let hdr = spec_tag_identifier(tag, PCBit::Primitive) + spec_len(content.len());
    assert(crate::encoding::spec_der_oid(ids) =~= hdr + content);
    assert(data.subrange(pos, pos + crate::encoding::spec_der_oid(ids).len()) =~= data.subrange(
        pos,
        pos + hdr.len() + content.len(),
    ));
    lemma_subrange_cat(data, pos, hdr, content);
    lemma_sp_header_complete(
        data,
        pos,
        limit,
        mode,
        depth,
        tag,
        PCBit::Primitive,
        content.len() as usize,
    );
    let end = pos + hdr.len();
    let limit2 = end + content.len();
    let region = data.subrange(end, limit2);
    assert(region == content);
    assert(content.len() >= 1) by {
        crate::encoding::lemma_base128_value((40 * ids[0] + ids[1]) as nat);
        if ids.len() == 2 {
        } else {
            lemma_oid_content_len(ids);
        }
    }
    assert(region.last() < 128) by {
        lemma_oid_content_last(ids);
    }
    assert(region.subrange(0, content.len() as int) =~= region);
    lemma_oid_content_complete(region, 0, ids);
    assert(crate::reader::sp_oid_ids(region, content.len() as int, 0, ids) == Ok::<
        Seq<u64>,
        ASN1Error,
    >(ids));
}

/// The canonical content of an encodable list is nonempty.
proof fn lemma_oid_content_len(ids: Seq<u64>)
    requires
        ids.len() >= 2,
    ensures
        crate::encoding::spec_oid_content(ids).len() >= 1,
    decreases ids.len(),
{
    if ids.len() == 2 {
        crate::encoding::lemma_base128_value((40 * ids[0] + ids[1]) as nat);
    } else {
        lemma_oid_content_len(ids.drop_last());
    }
}

/// The canonical content of an encodable list ends below 128: the
/// final octet of a base-128 group has no continuation bit.
proof fn lemma_oid_content_last(ids: Seq<u64>)
    requires
        ids.len() >= 2,
    ensures
        crate::encoding::spec_oid_content(ids).len() >= 1,
        crate::encoding::spec_oid_content(ids).last() < 128,
    decreases ids.len(),
{
    if ids.len() == 2 {
        crate::encoding::lemma_base128_value((40 * ids[0] + ids[1]) as nat);
    } else {
        lemma_oid_content_last(ids.drop_last());
        crate::encoding::lemma_base128_value(ids.last() as nat);
        let c0 = crate::encoding::spec_oid_content(ids.drop_last());
        let g = crate::encoding::base128(ids.last() as nat);
        assert(crate::encoding::spec_oid_content(ids) == c0 + g);
        assert((c0 + g).last() == g.last());
    }
}

/// Front and back accumulation of base-128 digits agree.
proof fn lemma_b128_fold_is_value(s: Seq<u8>)
    ensures
        b128_fold(0, s) == crate::encoding::b128_value(s),
    decreases s.len(),
{
    if s.len() > 0 {
        let s0 = s.drop_last();
        lemma_b128_fold_is_value(s0);
        assert(s =~= s0.push(s.last()));
        lemma_b128_fold_push(0, s0, s.last());
    }
}

/// The long-form tag-number loop accepts only well-shaped base-128
/// octets: every octet but the last carries the continuation bit, the
/// first is not the padding octet, and the result is their value.
proof fn lemma_sp_tagnum_sound(data: Seq<u8>, pos: int, limit: int, acc: nat)
    requires
        0 <= pos <= limit <= data.len(),
    ensures
        match crate::reader::sp_tagnum(data, pos, limit, acc) {
            Step::Done { v, end } => {
                &&& pos < end <= limit
                &&& (forall|j: int| pos <= j < end - 1 ==> #[trigger] data[j] >= 128)
                &&& data[end - 1] < 128
                &&& (acc == 0 ==> data[pos] != 128)
                &&& v == b128_fold(acc, data.subrange(pos, end))
            },
            Step::Fail { kind, end } => true,
        },
    decreases limit - pos,
{
    if pos >= limit {
    } else {
        let b = data[pos];
        if acc == 0 && b == 128 {
        } else if acc > crate::reader::tagnum_cap() {
        } else {
            let acc2: nat = (acc * 128 + (b % 128)) as nat;
            assert(acc * 128 <= ((u64::MAX as nat) / 128) * 128);
            assert(acc2 <= u64::MAX);
            if b < 128 {
                assert(data.subrange(pos, pos + 1) =~= seq![b]);
                assert(seq![b].drop_first() =~= Seq::<u8>::empty());
                assert(b128_fold(acc, seq![b]) == b128_fold(acc2, seq![b].drop_first()));
                assert(b128_fold(acc2, Seq::<u8>::empty()) == acc2);
            } else {
                lemma_sp_tagnum_sound(data, pos + 1, limit, acc2);
                match crate::reader::sp_tagnum(data, pos + 1, limit, acc2) {
                    Step::Done { v, end } => {
                        let s = data.subrange(pos, end);
                        assert(s.first() == b);
                        assert(s.drop_first() =~= data.subrange(pos + 1, end));
                    },
                    Step::Fail { kind, end } => {},
                }
            }
        }
    }
}

/// An identifier is accepted only in its canonical octets, whatever
/// the tag number: the short form for numbers below 31, the minimal
/// long form above.
pub proof fn lemma_sp_identifier_sound(data: Seq<u8>, pos: int, limit: int)
    requires
        0 <= pos <= limit <= data.len(),
    ensures
        match sp_identifier(data, pos, limit) {
            Step::Done { v: (t, pc), end } => pos < end <= limit && data.subrange(pos, end)
                == spec_tag_identifier(t, pc),
            Step::Fail { kind, end } => true,
        },
{
    if pos >= limit {
    } else {
        let b = data[pos];
        lemma_identifier_octet_rebuilt(b);
        assert(b / 64 <= 3 && (b / 32) % 2 <= 1 && b % 32 <= 31) by (bit_vector);
        if b % 32 < 31 {
            match sp_identifier(data, pos, limit) {
                Step::Done { v: (t, pc), end } => {
                    assert(data.subrange(pos, pos + 1) =~= seq![b]);
                    assert(crate::encoding::class_bits(t.tag_class) == b / 64);
                    assert(crate::encoding::pc_bit(pc) == (b / 32) % 2);
                    assert(spec_tag_identifier(t, pc) =~= seq![b]);
                },
                Step::Fail { kind, end } => {},
            }
        } else {
            lemma_sp_tagnum_sound(data, pos + 1, limit, 0);
            match crate::reader::sp_tagnum(data, pos + 1, limit, 0) {
                Step::Done { v, end } => {
                    if v >= 31 {
                        let s = data.subrange(pos + 1, end);
                        lemma_b128_fold_is_value(s);
                        assert(crate::encoding::is_b128(s)) by {
                            assert(s.first() == data[pos + 1]);
                            assert(s.last() == data[end - 1]);
                            assert(forall|j: int|
                                0 <= j < s.len() - 1 ==> #[trigger] s[j] == data[pos + 1 + j]);
                        }
                        crate::encoding::lemma_b128_of_minimal(s);
                        assert(crate::encoding::base128(v as nat) == s);
                        match sp_identifier(data, pos, limit) {
                            Step::Done { v: (t, pc), end: e2 } => {
                                assert(crate::encoding::class_bits(t.tag_class) == b / 64);
                                assert(crate::encoding::pc_bit(pc) == (b / 32) % 2);
                                assert(spec_tag_identifier(t, pc) =~= seq![b] + s);
                                assert(data.subrange(pos, end) =~= seq![b] + s);
                            },
                            Step::Fail { kind, end: e2 } => {},
                        }
                    }
                },
                Step::Fail { kind, end } => {},
            }
        }
    }
}

/// In the canonical modes an opaque fragment is accepted only in
/// canonical octets: what `read_tagged_der` consumed is the TLV of
/// the fragment it returned, so re-emitting the fragment reproduces
/// the input exactly.
pub proof fn lemma_read_tagged_der_sound(
    data: Seq<u8>,
    pos: int,
    limit: int,
    mode: BERMode,
    depth: int,
)
    requires
        0 <= pos <= limit <= data.len(),
        mode == BERMode::Der || mode == BERMode::Cer,
    ensures
        match crate::reader::sp_read_tagged_der(data, pos, limit, mode, depth, TagState::Fresh) {
            RStep::RDone { v, end, st } => data.subrange(pos, end) == spec_tlv(v.0, v.1, v.2)
                && st == TagState::Fresh,
            RStep::RFail { kind, end, st } => true,
        },
{
    if depth > 100 {
    } else {
        lemma_sp_identifier_sound(data, pos, limit);
        match sp_identifier(data, pos, limit) {
            Step::Done { v: (t, pc), end: e1 } => {
                lemma_sp_length_sound(data, e1, limit, mode);
                match sp_length(data, e1, limit, mode) {
                    Step::Done { v: Some(l), end: e2 } => {
                        if e2 + l <= limit {
                            let content = data.subrange(e2, e2 + l);
                            assert(data.subrange(pos, e2 + l) =~= (data.subrange(pos, e1)
                                + data.subrange(e1, e2)) + content);
                            assert(spec_tlv(t, pc, content) == (spec_tag_identifier(t, pc)
                                + spec_len(l as nat)) + content);
                        }
                    },
                    Step::Done { v: None, end: e2 } => {},
                    Step::Fail { kind, end: e2 } => {},
                }
            },
            Step::Fail { kind, end } => {},
        }
    }
}

/// The long-form tag-number loop accepts a well-shaped base-128 group
/// and folds its value.
proof fn lemma_sp_tagnum_complete(data: Seq<u8>, pos: int, limit: int, s: Seq<u8>, acc: nat)
    requires
        s.len() >= 1,
        0 <= pos,
        pos + s.len() <= limit <= data.len(),
        data.subrange(pos, pos + s.len()) == s,
        forall|j: int| 0 <= j < s.len() - 1 ==> #[trigger] s[j] >= 128,
        s.last() < 128,
        acc == 0 ==> s.first() != 128,
        b128_fold(acc, s) <= u64::MAX,
    ensures
        crate::reader::sp_tagnum(data, pos, limit, acc) == (Step::Done::<u64> {
            v: b128_fold(acc, s) as u64,
            end: pos + s.len(),
        }),
    decreases s.len(),
{
    let b = s.first();
    assert(data[pos] == s[0]);
    let acc2: nat = (acc * 128 + (b % 128)) as nat;
    lemma_b128_fold_lb(acc2, s.drop_first());
    assert(b128_fold(acc, s) == b128_fold(acc2, s.drop_first()));
    assert(!(acc > crate::reader::tagnum_cap())) by {
        assert(acc * 128 <= acc2);
        if acc > (u64::MAX as nat) / 128 {
            assert(acc * 128 >= ((u64::MAX as nat) / 128 + 1) * 128);
            assert(((u64::MAX as nat) / 128 + 1) * 128 > u64::MAX);
        }
    }
    if s.len() == 1 {
        assert(b < 128);
        assert(b128_fold(acc, s) == acc2) by {
            assert(s.drop_first() =~= Seq::<u8>::empty());
        }
    } else {
        assert(s[s.len() - 2] >= 128);
        assert(b >= 128);
        assert(acc2 >= 1) by {
            if acc == 0 {
                assert(b != 128);
                assert(b % 128 >= 1);
            }
        }
        assert(data.subrange(pos + 1, pos + 1 + s.drop_first().len()) =~= s.drop_first());
        assert(s.drop_first().last() == s.last());
        assert(forall|j: int|
            0 <= j < s.drop_first().len() - 1 ==> #[trigger] s.drop_first()[j] == s[j + 1]);
        lemma_sp_tagnum_complete(data, pos + 1, limit, s.drop_first(), acc2);
    }
}

/// An identifier in its canonical octets is decoded to exactly its
/// tag and PC bit, whatever the tag number.
pub proof fn lemma_sp_identifier_complete(data: Seq<u8>, pos: int, limit: int, tag: Tag, pc: PCBit)
    requires
        0 <= pos,
        pos + spec_tag_identifier(tag, pc).len() <= limit <= data.len(),
        data.subrange(pos, pos + spec_tag_identifier(tag, pc).len()) == spec_tag_identifier(
            tag,
            pc,
        ),
    ensures
        sp_identifier(data, pos, limit) == (Step::Done::<(Tag, PCBit)> {
            v: (tag, pc),
            end: pos + spec_tag_identifier(tag, pc).len(),
        }),
{
    let id = spec_tag_identifier(tag, pc);
    assert(data.subrange(pos, pos + id.len())[0] == data[pos]);
    if tag.tag_number < 31 {
        lemma_short_identifier(data, pos, limit, tag, pc);
    } else {
        let c = crate::encoding::class_bits(tag.tag_class);
        let p = crate::encoding::pc_bit(pc);
        let b = data[pos];
        assert(b == c * 64 + p * 32 + 31);
        assert(b / 64 == c && (b / 32) % 2 == p && b % 32 == 31) by (bit_vector)
            requires
                b == c * 64 + p * 32 + 31,
                c <= 3,
                p <= 1,
        ;
        assert(crate::encoding::class_of_bits(c) == tag.tag_class);
        let g = crate::encoding::base128(tag.tag_number as nat);
        crate::encoding::lemma_base128_value(tag.tag_number as nat);
        lemma_b128_fold_base128(tag.tag_number as nat);
        assert(data.subrange(pos + 1, pos + 1 + g.len()) =~= g) by {
            assert(forall|j: int|
                0 <= j < g.len() ==> data.subrange(pos, pos + id.len())[j + 1] == #[trigger] data[
                    pos + 1 + j
                ]);
            assert(forall|j: int| 0 <= j < g.len() ==> id[j + 1] == #[trigger] g[j]);
        }
        lemma_sp_tagnum_complete(data, pos + 1, limit, g, 0);
    }
}

/// Acceptance of a canonical TLV as an opaque fragment, in every
/// mode: decoding the canonical form yields the fragment back.
/// Together with `lemma_read_tagged_der_sound` this is the round trip
/// for pass-through values.
pub proof fn lemma_read_tagged_der_complete(
    data: Seq<u8>,
    pos: int,
    limit: int,
    mode: BERMode,
    depth: int,
    t: Tag,
    pc: PCBit,
    content: Seq<u8>,
)
    requires
        0 <= depth <= 100,
        0 <= pos,
        content.len() <= usize::MAX,
        pos + spec_tlv(t, pc, content).len() <= limit <= data.len(),
        data.subrange(pos, pos + spec_tlv(t, pc, content).len()) == spec_tlv(t, pc, content),
    ensures
        crate::reader::sp_read_tagged_der(data, pos, limit, mode, depth, TagState::Fresh)
            == (RStep::RDone::<(Tag, PCBit, Seq<u8>)> {
            v: (t, pc, content),
            end: pos + spec_tlv(t, pc, content).len(),
            st: TagState::Fresh,
        }),
{
    let id = spec_tag_identifier(t, pc);
    let lenoct = spec_len(content.len());
    assert(spec_tlv(t, pc, content) =~= (id + lenoct) + content);
    assert(data.subrange(pos, pos + spec_tlv(t, pc, content).len()) =~= data.subrange(
        pos,
        pos + (id + lenoct).len() + content.len(),
    ));
    lemma_subrange_cat(data, pos, id + lenoct, content);
    assert(data.subrange(pos, pos + id.len() + lenoct.len()) == id + lenoct);
    lemma_subrange_cat(data, pos, id, lenoct);
    lemma_sp_identifier_complete(data, pos, limit, t, pc);
    lemma_sp_length_complete(data, pos + id.len(), limit, mode, content.len() as usize);
}

/// DER acceptance implies BER acceptance for INTEGER values.
pub proof fn lemma_integer_der_within_ber(
    data: Seq<u8>,
    pos: int,
    limit: int,
    depth: int,
    width: int,
    lo: int,
    hi: int,
)
    requires
        0 <= pos <= limit <= data.len(),
        0 <= depth <= 100,
        1 <= width <= 9,
    ensures
        match sp_read_integer(data, pos, limit, BERMode::Der, depth, TagState::Fresh, width, lo, hi) {
            RStep::RDone { v, end, st } => sp_read_integer(
                data,
                pos,
                limit,
                BERMode::Ber,
                depth,
                TagState::Fresh,
                width,
                lo,
                hi,
            ) == (RStep::RDone::<int> { v, end, st }),
            RStep::RFail { kind, end, st } => true,
        },
{
    lemma_read_integer_sound(data, pos, limit, depth, width, lo, hi);
    match sp_read_integer(data, pos, limit, BERMode::Der, depth, TagState::Fresh, width, lo, hi) {
        RStep::RDone { v, end, st } => {
            match sp_header(
                data,
                pos,
                limit,
                BERMode::Der,
                depth,
                TagState::Fresh,
                spec_univ_tag(2),
                TagType::Explicit,
            ) {
                HeadStep::HeadOk { pc, length, end: e2, limit2, st: st2 } => {
                    let content = data.subrange(e2, limit2);
                    assert(twos_minimal(content));
                    lemma_twos_of_minimal(content);
                    assert(twos_bytes(v) == content);
                },
                HeadStep::HeadFail { kind, end: e2, st: st2 } => {},
            }
            lemma_read_integer_complete(data, pos, limit, BERMode::Ber, depth, v, width, lo, hi);
        },
        RStep::RFail { kind, end, st } => {},
    }
}

/// DER acceptance implies BER acceptance for NULL.
pub proof fn lemma_null_der_within_ber(data: Seq<u8>, pos: int, limit: int, depth: int)
    requires
        0 <= pos <= limit <= data.len(),
        0 <= depth <= 100,
    ensures
        match sp_read_null(data, pos, limit, BERMode::Der, depth, TagState::Fresh) {
            RStep::RDone { v, end, st } => sp_read_null(
                data,
                pos,
                limit,
                BERMode::Ber,
                depth,
                TagState::Fresh,
            ) == (RStep::RDone::<()> { v: (), end, st }),
            RStep::RFail { kind, end, st } => true,
        },
{
    lemma_read_null_sound(data, pos, limit, depth);
    match sp_read_null(data, pos, limit, BERMode::Der, depth, TagState::Fresh) {
        RStep::RDone { v, end, st } => {
            lemma_read_null_complete(data, pos, limit, BERMode::Ber, depth);
        },
        RStep::RFail { kind, end, st } => {},
    }
}

} // verus!
