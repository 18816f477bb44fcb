//! The BER/CER/DER decoder: a byte-slice cursor with a tag-state
//! machine, recursive descent, and mode-specific canonicity checks.
//!
//! Every step of the decoder is mirrored by a specification function
//! over byte sequences (`sp_*`); the executable methods are verified to
//! return exactly what the mirror says, including the error kind and
//! the final cursor position.

use vstd::prelude::*;
use vstd::std_specs::cmp::PartialEqSpec;
use crate::encoding::{
    class_of_bits, int_of_twos, lemma_int_of_twos_decomp, lemma_int_of_twos_range,
    lemma_pow256_mono, lemma_pow256_small, lemma_uint_of_be_range, pow256, sign8,
};
use crate::basics::{BitString, PrintableString, SetOf, UtcTime};
use crate::models::{BigIntBytes, ObjectIdentifier, TaggedDerValue, Utf8String};
use crate::{PCBit, Tag, TagClass, TagType};

verus! {

/// An error that occurred while decoding.
#[derive(Debug, Clone, Copy, PartialEq, Eq, Structural, Hash)]
pub enum ASN1Error {
    /// The input ended in the middle of a TLV, or a declared length
    /// overruns the input.
    Eof,
    /// Bytes remain after the top-level value.
    Extra,
    /// A tag number, length accumulator, sub-identifier or bounded
    /// integer exceeds its target width.
    IntegerOverflow,
    /// The recursion depth limit was exceeded.
    StackOverflow,
    /// Any structural or canonicity violation.
    Invalid,
}

/// The result of a decoding operation.
pub type ASN1Result<T> = Result<T, ASN1Error>;

/// The encoding mode enforced while decoding.
#[derive(Debug, Clone, Copy, PartialEq, Eq, Structural, Hash)]
pub enum BERMode {
    /// Basic Encoding Rules: permissive.
    Ber,
    /// Canonical Encoding Rules: canonical, with chunked long strings.
    Cer,
    /// Distinguished Encoding Rules: canonical, definite lengths only.
    Der,
}

/// Where the cursor stands relative to the next identifier octets.
#[derive(Debug, Clone, Copy, PartialEq, Eq, Structural)]
pub enum TagState {
    /// The next identifier has not been read.
    Fresh,
    /// An identifier has been read and remembered, but its value not
    /// yet consumed.
    Cached(Tag, PCBit),
    /// An implicit wrapper already fixed the PC bit and length, so the
    /// inner parser must not read an identifier.
    Implicit(PCBit, Option<usize>),
}

/// One step of the specification-level decoder: the value produced and
/// the cursor position after it, or the error and the position where
/// decoding stopped.
pub enum Step<V> {
    /// The step succeeded.
    Done { v: V, end: int },
    /// The step failed.
    Fail { kind: ASN1Error, end: int },
}

/// Whether an executable outcome (result and new position) is the one
/// the specification step describes.
pub open spec fn step_matches<V>(st: Step<V>, r: Result<V, ASN1Error>, end: int) -> bool {
    match st {
        Step::Done { v, end: e } => r == Ok::<V, ASN1Error>(v) && end == e,
        Step::Fail { kind, end: e } => r == Err::<V, ASN1Error>(kind) && end == e,
    }
}

/// The bound above which one more base-128 digit overflows a `u64`.
pub open spec fn tagnum_cap() -> nat {
    (u64::MAX as nat) / 128
}

/// The mirror of the long-form tag-number loop: big-endian base-128
/// accumulation with a continuation bit, rejecting a leading `0x80`
/// octet and accumulator overflow.
pub open spec fn sp_tagnum(data: Seq<u8>, pos: int, limit: int, acc: nat) -> Step<u64>
    decreases limit - pos,
{
    if pos >= limit {
        Step::Fail { kind: ASN1Error::Eof, end: pos }
    } else {
        let b = data[pos];
        if acc == 0 && b == 128 {
            Step::Fail { kind: ASN1Error::Invalid, end: pos + 1 }
        } else if acc > tagnum_cap() {
            Step::Fail { kind: ASN1Error::IntegerOverflow, end: pos + 1 }
        } else {
            let acc2: nat = (acc * 128 + (b % 128)) as nat;
            if b < 128 {
                Step::Done { v: acc2 as u64, end: pos + 1 }
            } else {
                sp_tagnum(data, pos + 1, limit, acc2)
            }
        }
    }
}

/// The mirror of identifier parsing: class and PC bit from the first
/// octet, a short tag number below 31, or the long form which must
/// encode a number of at least 31.
pub open spec fn sp_identifier(data: Seq<u8>, pos: int, limit: int) -> Step<(Tag, PCBit)> {
    if pos >= limit {
        Step::Fail { kind: ASN1Error::Eof, end: pos }
    } else {
        let b = data[pos];
        let class = class_of_bits(b / 64);
        let pc = if (b / 32) % 2 == 1 {
            PCBit::Constructed
        } else {
            PCBit::Primitive
        };
        let n = b % 32;
        if n < 31 {
            Step::Done { v: (Tag { tag_class: class, tag_number: n as u64 }, pc), end: pos + 1 }
        } else {
            match sp_tagnum(data, pos + 1, limit, 0) {
                Step::Done { v, end } => {
                    if v < 31 {
                        Step::Fail { kind: ASN1Error::Invalid, end }
                    } else {
                        Step::Done {
                            v: (Tag { tag_class: class, tag_number: v }, pc),
                            end,
                        }
                    }
                },
                Step::Fail { kind, end } => Step::Fail { kind, end },
            }
        }
    }
}

/// The bound above which one more base-256 digit overflows a `usize`.
pub open spec fn length_cap() -> nat {
    (usize::MAX as nat) / 256
}

/// The mirror of the long-form length loop: `k` big-endian base-256
/// octets. In the canonical modes a leading zero octet is refused, so
/// that accepted lengths have exactly one encoding.
pub open spec fn sp_lenacc(
    data: Seq<u8>,
    pos: int,
    limit: int,
    k: nat,
    acc: nat,
    first: bool,
    strict: bool,
) -> Step<usize>
    decreases k,
{
    if k == 0 {
        Step::Done { v: acc as usize, end: pos }
    } else if pos >= limit {
        Step::Fail { kind: ASN1Error::Eof, end: pos }
    } else {
        let b = data[pos];
        if first && strict && b == 0 {
            Step::Fail { kind: ASN1Error::Invalid, end: pos + 1 }
        } else if acc > length_cap() {
            Step::Fail { kind: ASN1Error::IntegerOverflow, end: pos + 1 }
        } else {
            sp_lenacc(data, pos + 1, limit, (k - 1) as nat, (acc * 256 + b) as nat, false, strict)
        }
    }
}

/// The mirror of length parsing: `0x80` means indefinite, `0xFF` is
/// reserved, the short form carries the length itself, and the long
/// form is refused in the canonical modes when the short form would
/// have sufficed.
pub open spec fn sp_length(data: Seq<u8>, pos: int, limit: int, mode: BERMode) -> Step<
    Option<usize>,
> {
    if pos >= limit {
        Step::Fail { kind: ASN1Error::Eof, end: pos }
    } else {
        let b = data[pos];
        let strict = mode == BERMode::Der || mode == BERMode::Cer;
        if b == 128 {
            Step::Done { v: None, end: pos + 1 }
        } else if b == 255 {
            Step::Fail { kind: ASN1Error::Invalid, end: pos + 1 }
        } else if b < 128 {
            Step::Done { v: Some(b as usize), end: pos + 1 }
        } else {
            match sp_lenacc(data, pos + 1, limit, (b - 128) as nat, 0, true, strict) {
                Step::Done { v, end } => {
                    if strict && v < 128 {
                        Step::Fail { kind: ASN1Error::Invalid, end }
                    } else {
                        Step::Done { v: Some(v), end }
                    }
                },
                Step::Fail { kind, end } => Step::Fail { kind, end },
            }
        }
    }
}


/// The outcome of one complete read: the value, the cursor position
/// after it, and the tag state left behind; or the error, the position
/// where decoding stopped, and the tag state left behind. The scope
/// limit and the depth are always restored, so they do not appear here.
pub enum RStep<V> {
    /// The read succeeded.
    RDone { v: V, end: int, st: TagState },
    /// The read failed.
    RFail { kind: ASN1Error, end: int, st: TagState },
}

/// Whether an executable outcome is the one the specification
/// describes.
pub open spec fn rstep_matches<V>(
    rs: RStep<V>,
    r: Result<V, ASN1Error>,
    end: int,
    st: TagState,
) -> bool {
    match rs {
        RStep::RDone { v, end: e, st: s } => r == Ok::<V, ASN1Error>(v) && end == e && st == s,
        RStep::RFail { kind, end: e, st: s } => r == Err::<V, ASN1Error>(kind) && end == e && st
            == s,
    }
}

/// The outcome of entering a TLV: the PC bit, the length as declared,
/// the position of the first content octet, the narrowed scope limit,
/// and the tag state handed to the inner parser.
pub enum HeadStep {
    /// The header was accepted.
    HeadOk { pc: PCBit, length: Option<usize>, end: int, limit2: int, st: TagState },
    /// The header was refused.
    HeadFail { kind: ASN1Error, end: int, st: TagState },
}

/// The recursion depth limit.
pub open spec fn depth_limit() -> int {
    100
}

/// The second half of header parsing, after the PC bit and length are
/// known: mode checks, bounds check, scope narrowing, and the tag state
/// for the inner parser.
pub open spec fn sp_header_fin(
    data: Seq<u8>,
    p: int,
    limit: int,
    mode: BERMode,
    pc: PCBit,
    lenspec: Option<usize>,
    tt: TagType,
) -> HeadStep {
    let st2 = if tt == TagType::Implicit {
        TagState::Implicit(pc, lenspec)
    } else {
        TagState::Fresh
    };
    match lenspec {
        Some(l) => {
            if mode == BERMode::Cer && pc != PCBit::Primitive {
                HeadStep::HeadFail { kind: ASN1Error::Invalid, end: p, st: st2 }
            } else if p + l > limit {
                HeadStep::HeadFail { kind: ASN1Error::Eof, end: p, st: st2 }
            } else {
                HeadStep::HeadOk { pc, length: Some(l), end: p, limit2: p + l, st: st2 }
            }
        },
        None => {
            if pc != PCBit::Constructed {
                HeadStep::HeadFail { kind: ASN1Error::Invalid, end: p, st: st2 }
            } else if mode == BERMode::Der {
                HeadStep::HeadFail { kind: ASN1Error::Invalid, end: p, st: st2 }
            } else {
                HeadStep::HeadOk { pc, length: None, end: p, limit2: limit, st: st2 }
            }
        },
    }
}

/// The mirror of entering a TLV with an expected tag: depth check, tag
/// dispatch through the tag state (reading, reusing a cached
/// identifier, or inheriting implicit parameters), then length and
/// mode checks. A mismatched tag is remembered in the cache so that
/// optional and choice dispatch can retry.
pub open spec fn sp_header(
    data: Seq<u8>,
    pos: int,
    limit: int,
    mode: BERMode,
    depth: int,
    st0: TagState,
    tag: Tag,
    tt: TagType,
) -> HeadStep {
    if depth > depth_limit() {
        HeadStep::HeadFail { kind: ASN1Error::StackOverflow, end: pos, st: st0 }
    } else {
        match st0 {
            TagState::Fresh => match sp_identifier(data, pos, limit) {
                Step::Fail { kind, end } => HeadStep::HeadFail { kind, end, st: TagState::Fresh },
                Step::Done { v: (t2, pc2), end } => {
                    if t2 != tag {
                        HeadStep::HeadFail {
                            kind: ASN1Error::Invalid,
                            end,
                            st: TagState::Cached(t2, pc2),
                        }
                    } else {
                        match sp_length(data, end, limit, mode) {
                            Step::Fail { kind, end: e2 } => HeadStep::HeadFail {
                                kind,
                                end: e2,
                                st: TagState::Fresh,
                            },
                            Step::Done { v: lenspec, end: e2 } => sp_header_fin(
                                data,
                                e2,
                                limit,
                                mode,
                                pc2,
                                lenspec,
                                tt,
                            ),
                        }
                    }
                },
            },
            TagState::Cached(t2, pc2) => {
                if t2 != tag {
                    HeadStep::HeadFail { kind: ASN1Error::Invalid, end: pos, st: st0 }
                } else {
                    match sp_length(data, pos, limit, mode) {
                        Step::Fail { kind, end: e2 } => HeadStep::HeadFail {
                            kind,
                            end: e2,
                            st: st0,
                        },
                        Step::Done { v: lenspec, end: e2 } => sp_header_fin(
                            data,
                            e2,
                            limit,
                            mode,
                            pc2,
                            lenspec,
                            tt,
                        ),
                    }
                }
            },
            TagState::Implicit(pc2, len2) => sp_header_fin(data, pos, limit, mode, pc2, len2, tt),
        }
    }
}

/// The mirror of the end-of-contents check that closes an
/// indefinite-length scope: a primitive EOC identifier with a zero
/// length octet. Using a cached identifier consumes it.
pub open spec fn sp_eoc(data: Seq<u8>, pos: int, limit: int, st0: TagState) -> RStep<()> {
    match st0 {
        TagState::Implicit(_, _) => RStep::RFail { kind: ASN1Error::Invalid, end: pos, st: st0 },
        TagState::Fresh => match sp_identifier(data, pos, limit) {
            Step::Fail { kind, end } => RStep::RFail { kind, end, st: TagState::Fresh },
            Step::Done { v: (t, pc), end } => sp_eoc_fin(data, end, limit, t, pc),
        },
        TagState::Cached(t, pc) => sp_eoc_fin(data, pos, limit, t, pc),
    }
}

/// The second half of the end-of-contents check.
pub open spec fn sp_eoc_fin(data: Seq<u8>, p: int, limit: int, t: Tag, pc: PCBit) -> RStep<()> {
    if t != (Tag { tag_class: TagClass::Universal, tag_number: 0 }) || pc != PCBit::Primitive {
        RStep::RFail { kind: ASN1Error::Invalid, end: p, st: TagState::Fresh }
    } else if p >= limit {
        RStep::RFail { kind: ASN1Error::Eof, end: p, st: TagState::Fresh }
    } else if data[p] != 0 {
        RStep::RFail { kind: ASN1Error::Invalid, end: p + 1, st: TagState::Fresh }
    } else {
        RStep::RDone { v: (), end: p + 1, st: TagState::Fresh }
    }
}


/// A reader as `parse_ber_general` hands it to the caller's function:
/// at the start of the given input, in the given mode.
pub open spec fn fresh_reader(rd: BERReader, data: Seq<u8>, mode: BERMode) -> bool {
    &&& rd.data() == data
    &&& rd.posi() == 0
    &&& rd.limiti() == data.len()
    &&& rd.modev() == mode
    &&& rd.tag_statev() == TagState::Fresh
    &&& rd.depthv() == 0
}

/// The mirror of the BOOLEAN content rule: primitive, exactly one
/// content octet; in the canonical modes the octet must be `0x00` or
/// `0xFF`, in BER any nonzero octet means true.
pub open spec fn sp_read_bool(
    data: Seq<u8>,
    pos: int,
    limit: int,
    mode: BERMode,
    depth: int,
    st0: TagState,
) -> RStep<bool> {
    let strict = mode == BERMode::Der || mode == BERMode::Cer;
    match sp_header(data, pos, limit, mode, depth, st0, spec_univ_tag(1), TagType::Explicit) {
        HeadStep::HeadFail { kind, end, st } => RStep::RFail { kind, end, st },
        HeadStep::HeadOk { pc, length, end, limit2, st } => {
            if pc != PCBit::Primitive {
                RStep::RFail { kind: ASN1Error::Invalid, end, st }
            } else if limit2 - end != 1 {
                RStep::RFail { kind: ASN1Error::Invalid, end: limit2, st }
            } else if strict && data[end] != 0 && data[end] != 255 {
                RStep::RFail { kind: ASN1Error::Invalid, end: limit2, st }
            } else {
                RStep::RDone { v: data[end] != 0, end: limit2, st }
            }
        },
    }
}

/// The universal tag with the given number, as a `Tag` value.
pub open spec fn spec_univ_tag(n: u64) -> Tag {
    Tag { tag_class: TagClass::Universal, tag_number: n }
}


/// The mirror of the NULL content rule: primitive, empty content.
pub open spec fn sp_read_null(
    data: Seq<u8>,
    pos: int,
    limit: int,
    mode: BERMode,
    depth: int,
    st0: TagState,
) -> RStep<()> {
    match sp_header(data, pos, limit, mode, depth, st0, spec_univ_tag(5), TagType::Explicit) {
        HeadStep::HeadFail { kind, end, st } => RStep::RFail { kind, end, st },
        HeadStep::HeadOk { pc, length, end, limit2, st } => {
            if pc != PCBit::Primitive {
                RStep::RFail { kind: ASN1Error::Invalid, end, st }
            } else if limit2 - end != 0 {
                RStep::RFail { kind: ASN1Error::Invalid, end: limit2, st }
            } else {
                RStep::RDone { v: (), end: limit2, st }
            }
        },
    }
}

/// The INTEGER content rule on a content segment `[end, limit2)`:
/// nonempty, minimal (the top nine bits are neither all zero nor all
/// one), at most `width` octets, and the value within `[lo, hi]`. On
/// success the value of the content octets is returned.
pub open spec fn sp_int_content(
    data: Seq<u8>,
    end: int,
    limit2: int,
    st: TagState,
    width: int,
    lo: int,
    hi: int,
) -> RStep<int> {
    let n = limit2 - end;
    let v = int_of_twos(data.subrange(end, limit2));
    if n == 0 {
        RStep::RFail { kind: ASN1Error::Invalid, end: limit2, st }
    } else if n >= 2 && ((data[end] == 0 && data[end + 1] < 128) || (data[end] == 255 && data[end
        + 1] >= 128)) {
        RStep::RFail { kind: ASN1Error::Invalid, end: limit2, st }
    } else if n > width || !(lo <= v <= hi) {
        RStep::RFail { kind: ASN1Error::IntegerOverflow, end: limit2, st }
    } else {
        RStep::RDone { v, end: limit2, st }
    }
}

/// The mirror of reading an INTEGER into a signed or unsigned bounded
/// target: `width` is the largest number of content octets the target
/// can need, `lo` and `hi` its range. On success the step carries the
/// mathematical value.
pub open spec fn sp_read_integer(
    data: Seq<u8>,
    pos: int,
    limit: int,
    mode: BERMode,
    depth: int,
    st0: TagState,
    width: int,
    lo: int,
    hi: int,
) -> RStep<int> {
    match sp_header(data, pos, limit, mode, depth, st0, spec_univ_tag(2), TagType::Explicit) {
        HeadStep::HeadFail { kind, end, st } => RStep::RFail { kind, end, st },
        HeadStep::HeadOk { pc, length, end, limit2, st } => {
            if pc != PCBit::Primitive {
                RStep::RFail { kind: ASN1Error::Invalid, end, st }
            } else {
                sp_int_content(data, end, limit2, st, width, lo, hi)
            }
        },
    }
}

/// Whether an executable integer outcome matches a specification step
/// whose payload is the mathematical value.
pub open spec fn rstep_int_matches<V: vstd::prelude::Integer>(
    rs: RStep<int>,
    r: Result<V, ASN1Error>,
    end: int,
    st: TagState,
) -> bool {
    match rs {
        RStep::RDone { v, end: e, st: s } => (r matches Ok(x) && x as int == v) && end == e && st
            == s,
        RStep::RFail { kind, end: e, st: s } => r == Err::<V, ASN1Error>(kind) && end == e && st
            == s,
    }
}



/// One step of OBJECT IDENTIFIER content parsing: base-128
/// sub-identifiers, a `0x80` octet never starting a sub-identifier,
/// and the first two arcs folded into the leading sub-identifier.
pub open spec fn sp_oid_ids(content: Seq<u8>, i: int, acc: nat, ids: Seq<u64>) -> Result<
    Seq<u64>,
    ASN1Error,
>
    decreases content.len() - i,
{
    if i < 0 || i >= content.len() {
        Ok(ids)
    } else {
        let b = content[i];
        if acc == 0 && b == 128 {
            Err(ASN1Error::Invalid)
        } else if acc > tagnum_cap() {
            Err(ASN1Error::IntegerOverflow)
        } else {
            let acc2: nat = (acc * 128 + (b % 128)) as nat;
            if b < 128 {
                let ids2 = if ids.len() == 0 {
                    let id0: u64 = if acc2 < 40 {
                        0
                    } else if acc2 < 80 {
                        1
                    } else {
                        2
                    };
                    seq![id0, (acc2 - 40 * id0) as u64]
                } else {
                    ids.push(acc2 as u64)
                };
                sp_oid_ids(content, i + 1, 0, ids2)
            } else {
                sp_oid_ids(content, i + 1, acc2, ids)
            }
        }
    }
}

/// The mirror of reading an OBJECT IDENTIFIER: primitive, nonempty
/// content that does not end inside a sub-identifier.
pub open spec fn sp_read_oid(
    data: Seq<u8>,
    pos: int,
    limit: int,
    mode: BERMode,
    depth: int,
    st0: TagState,
) -> RStep<Seq<u64>> {
    match sp_header(data, pos, limit, mode, depth, st0, spec_univ_tag(6), TagType::Explicit) {
        HeadStep::HeadFail { kind, end, st } => RStep::RFail { kind, end, st },
        HeadStep::HeadOk { pc, length, end, limit2, st } => {
            if pc != PCBit::Primitive {
                RStep::RFail { kind: ASN1Error::Invalid, end, st }
            } else {
                let content = data.subrange(end, limit2);
                if content.len() == 0 || content.last() >= 128 {
                    RStep::RFail { kind: ASN1Error::Invalid, end: limit2, st }
                } else {
                    match sp_oid_ids(content, 0, 0, seq![]) {
                        Ok(ids) => RStep::RDone { v: ids, end: limit2, st },
                        Err(kind) => RStep::RFail { kind, end: limit2, st },
                    }
                }
            }
        },
    }
}


/// The mirror of reading an OCTETSTRING where only the primitive form
/// can appear: the content octets are the value. This is the complete
/// description of `read_bytes` in DER mode, where the constructed form
/// is refused.
pub open spec fn sp_read_octets_der(
    data: Seq<u8>,
    pos: int,
    limit: int,
    mode: BERMode,
    depth: int,
    st0: TagState,
) -> RStep<Seq<u8>> {
    match sp_header(data, pos, limit, mode, depth, st0, spec_univ_tag(4), TagType::Explicit) {
        HeadStep::HeadFail { kind, end, st } => RStep::RFail { kind, end, st },
        HeadStep::HeadOk { pc, length, end, limit2, st } => {
            if pc != PCBit::Primitive {
                RStep::RFail { kind: ASN1Error::Invalid, end, st }
            } else {
                RStep::RDone { v: data.subrange(end, limit2), end: limit2, st }
            }
        },
    }
}


/// The mirror of reading one TLV of unknown tag as an opaque
/// fragment: any identifier, a definite length, and the raw content
/// octets. Indefinite lengths are refused, so a captured fragment is
/// always re-emittable as written.
pub open spec fn sp_read_tagged_der(
    data: Seq<u8>,
    pos: int,
    limit: int,
    mode: BERMode,
    depth: int,
    st0: TagState,
) -> RStep<(Tag, PCBit, Seq<u8>)> {
    if depth > depth_limit() {
        RStep::RFail { kind: ASN1Error::StackOverflow, end: pos, st: st0 }
    } else {
        match st0 {
            TagState::Implicit(_, _) => RStep::RFail {
                kind: ASN1Error::Invalid,
                end: pos,
                st: st0,
            },
            TagState::Fresh => match sp_identifier(data, pos, limit) {
                Step::Fail { kind, end } => RStep::RFail { kind, end, st: TagState::Fresh },
                Step::Done { v: (t, pc), end } => sp_read_tagged_der_fin(
                    data,
                    end,
                    limit,
                    mode,
                    t,
                    pc,
                    TagState::Fresh,
                ),
            },
            TagState::Cached(t, pc) => sp_read_tagged_der_fin(
                data,
                pos,
                limit,
                mode,
                t,
                pc,
                st0,
            ),
        }
    }
}

/// The second half of reading an opaque fragment, after its
/// identifier is known. On failure the cache discipline is kept: a
/// still-cached identifier stays cached.
pub open spec fn sp_read_tagged_der_fin(
    data: Seq<u8>,
    p: int,
    limit: int,
    mode: BERMode,
    t: Tag,
    pc: PCBit,
    stf: TagState,
) -> RStep<(Tag, PCBit, Seq<u8>)> {
    match sp_length(data, p, limit, mode) {
        Step::Fail { kind, end } => RStep::RFail { kind, end, st: stf },
        Step::Done { v: None, end } => RStep::RFail { kind: ASN1Error::Invalid, end, st: stf },
        Step::Done { v: Some(l), end } => {
            if end + l > limit {
                RStep::RFail { kind: ASN1Error::Eof, end, st: stf }
            } else {
                RStep::RDone {
                    v: (t, pc, data.subrange(end, end + l)),
                    end: end + l,
                    st: TagState::Fresh,
                }
            }
        },
    }
}


/// The mirror of reading an implicitly tagged OCTETSTRING under the
/// universal tag `tagnum`, in DER: the primitive content octets are
/// the value. This is the frame of the string types.
pub open spec fn sp_read_string_der(
    data: Seq<u8>,
    pos: int,
    limit: int,
    mode: BERMode,
    depth: int,
    st0: TagState,
    tagnum: u64,
) -> RStep<Seq<u8>> {
    match sp_header(data, pos, limit, mode, depth, st0, spec_univ_tag(tagnum), TagType::Implicit) {
        HeadStep::HeadFail { kind, end, st } => RStep::RFail { kind, end, st },
        HeadStep::HeadOk { pc, length, end, limit2, st } => {
            if pc != PCBit::Primitive {
                RStep::RFail { kind: ASN1Error::Invalid, end, st: TagState::Fresh }
            } else {
                RStep::RDone { v: data.subrange(end, limit2), end: limit2, st: TagState::Fresh }
            }
        },
    }
}


/// The mirror of reading a BITSTRING in its primitive form: the first
/// content octet counts the unused bits and must be below 8.
pub open spec fn sp_read_bitstring(
    data: Seq<u8>,
    pos: int,
    limit: int,
    mode: BERMode,
    depth: int,
    st0: TagState,
) -> RStep<(int, Seq<u8>)> {
    match sp_header(data, pos, limit, mode, depth, st0, spec_univ_tag(3), TagType::Explicit) {
        HeadStep::HeadFail { kind, end, st } => RStep::RFail { kind, end, st },
        HeadStep::HeadOk { pc, length, end, limit2, st } => {
            if pc != PCBit::Primitive {
                RStep::RFail { kind: ASN1Error::Invalid, end, st }
            } else {
                let content = data.subrange(end, limit2);
                if content.len() == 0 {
                    RStep::RDone { v: (0, Seq::<u8>::empty()), end: limit2, st }
                } else if content.first() > 7 {
                    RStep::RFail { kind: ASN1Error::Invalid, end: limit2, st }
                } else {
                    RStep::RDone { v: (content.first() as int, content.drop_first()), end: limit2, st }
                }
            }
        },
    }
}

/// A frame-level outcome that every decoder guarantees: the cursor
/// moved forward inside the scope and no implicit binding is left.
pub open spec fn sp_frame_ok(pos: int, limit: int, end: int, st: TagState) -> bool {
    pos <= end <= limit && !(st is Implicit)
}


/// The mirror of reading an INTEGER of arbitrary precision: the
/// minimal two's-complement content octets are the value, at any
/// length. When `nonneg` is set, a negative value is refused with
/// `IntegerOverflow`.
pub open spec fn sp_read_bigint(
    data: Seq<u8>,
    pos: int,
    limit: int,
    mode: BERMode,
    depth: int,
    st0: TagState,
    nonneg: bool,
) -> RStep<Seq<u8>> {
    match sp_header(data, pos, limit, mode, depth, st0, spec_univ_tag(2), TagType::Explicit) {
        HeadStep::HeadFail { kind, end, st } => RStep::RFail { kind, end, st },
        HeadStep::HeadOk { pc, length, end, limit2, st } => {
            if pc != PCBit::Primitive {
                RStep::RFail { kind: ASN1Error::Invalid, end, st }
            } else {
                let content = data.subrange(end, limit2);
                let n = limit2 - end;
                if n == 0 {
                    RStep::RFail { kind: ASN1Error::Invalid, end: limit2, st }
                } else if n >= 2 && ((content[0] == 0 && content[1] < 128) || (content[0] == 255
                    && content[1] >= 128)) {
                    RStep::RFail { kind: ASN1Error::Invalid, end: limit2, st }
                } else if nonneg && content[0] >= 128 {
                    RStep::RFail { kind: ASN1Error::IntegerOverflow, end: limit2, st }
                } else {
                    RStep::RDone { v: content, end: limit2, st }
                }
            }
        },
    }
}


/// The peek step of the element loops: with a fresh cache the next
/// identifier is read, otherwise nothing is consumed.
pub open spec fn sp_peeked(data: Seq<u8>, from: int, limit: int, st: TagState) -> Step<
    (Tag, PCBit),
> {
    if st is Fresh {
        sp_identifier(data, from, limit)
    } else {
        Step::Done { v: (spec_univ_tag(0), PCBit::Primitive), end: from }
    }
}

/// The tag state an element decoder starts from after the peek.
pub open spec fn sp_cached(st: TagState, pk: (Tag, PCBit)) -> TagState {
    if st is Fresh {
        TagState::Cached(pk.0, pk.1)
    } else {
        st
    }
}

/// One possible run of an element loop: the values `vs` were decoded
/// one after another from consecutive regions starting at `from`, and
/// the loop then stopped, either at the scope end or at a peeked
/// identifier the element type cannot consume. When `ordered` is set,
/// each element's captured encoding (from before its peek to its end)
/// must not order below its predecessor's, the SET OF rule.
pub open spec fn sp_elems<T: FromBER>(
    data: Seq<u8>,
    limit: int,
    mode: BERMode,
    depth: int,
    ordered: bool,
    prev: Option<(int, int)>,
    vs: Seq<T>,
    from: int,
    st_in: TagState,
    to: int,
    st_out: TagState,
) -> bool
    decreases vs.len(),
{
    if vs.len() == 0 {
        if from == limit {
            to == from && st_out == st_in
        } else {
            match sp_peeked(data, from, limit, st_in) {
                Step::Fail { kind, end } => false,
                Step::Done { v: pk, end } => {
                    &&& to == end
                    &&& st_out == sp_cached(st_in, pk)
                    &&& !(st_out is Implicit)
                    &&& (T::sp_refusals_exact(mode) ==> !(exists|w: T, e2: int, s2: TagState|
                        T::sp_accepts(
                            data,
                            end,
                            limit,
                            mode,
                            depth,
                            sp_cached(st_in, pk),
                            w,
                            e2,
                            s2,
                        )))
                },
            }
        }
    } else {
        match sp_peeked(data, from, limit, st_in) {
            Step::Fail { kind, end } => false,
            Step::Done { v: pk, end } => exists|mid: int, smid: TagState|
                #![trigger T::sp_accepts(data, end, limit, mode, depth, sp_cached(st_in, pk), vs.first(), mid, smid)]
                {
                    &&& from < limit
                    &&& T::sp_accepts(
                        data,
                        end,
                        limit,
                        mode,
                        depth,
                        sp_cached(st_in, pk),
                        vs.first(),
                        mid,
                        smid,
                    )
                    &&& (ordered ==> (prev matches Some(p) ==> crate::encoding::lex_cmp(
                        data.subrange(p.0 as int, p.1 as int),
                        data.subrange(from, mid),
                    ) <= 0))
                    &&& sp_elems(
                        data,
                        limit,
                        mode,
                        depth,
                        ordered,
                        Some((from, mid)),
                        vs.drop_first(),
                        mid,
                        smid,
                        to,
                        st_out,
                    )
                },
        }
    }
}

/// Where the element type's refusal relation is exact, an element
/// chain's endpoint is a function of its start: any two chains from
/// one state with any values end at the same cursor and tag state,
/// and a chain precludes the loop having no chain at all.
pub proof fn lemma_elems_unique<T: FromBER>(
    data: Seq<u8>,
    limit: int,
    mode: BERMode,
    depth: int,
    ordered: bool,
    prev: Option<(int, int)>,
    vs1: Seq<T>,
    vs2: Seq<T>,
    from: int,
    st_in: TagState,
    to1: int,
    so1: TagState,
    to2: int,
    so2: TagState,
)
    requires
        T::sp_refusals_exact(mode),
        sp_elems(data, limit, mode, depth, ordered, prev, vs1, from, st_in, to1, so1),
        sp_elems(data, limit, mode, depth, ordered, prev, vs2, from, st_in, to2, so2),
    ensures
        to1 == to2 && so1 == so2,
    decreases vs1.len(),
{
    if vs1.len() == 0 && vs2.len() == 0 {
    } else if from == limit {
        // A nonempty chain asserts `from < limit` inside its witness,
        // so at the scope end both chains are empty.
        if vs1.len() > 0 {
            match sp_peeked(data, from, limit, st_in) {
                Step::Done { v: pk, end } => {
                    let (m1, sm1) = choose|m1: int, sm1: TagState|
                        T::sp_accepts(
                            data,
                            end,
                            limit,
                            mode,
                            depth,
                            sp_cached(st_in, pk),
                            vs1.first(),
                            m1,
                            sm1,
                        ) && from < limit;
                    assert(false);
                },
                Step::Fail { kind, end } => {},
            }
        }
        if vs2.len() > 0 {
            match sp_peeked(data, from, limit, st_in) {
                Step::Done { v: pk, end } => {
                    let (m2, sm2) = choose|m2: int, sm2: TagState|
                        T::sp_accepts(
                            data,
                            end,
                            limit,
                            mode,
                            depth,
                            sp_cached(st_in, pk),
                            vs2.first(),
                            m2,
                            sm2,
                        ) && from < limit;
                    assert(false);
                },
                Step::Fail { kind, end } => {},
            }
        }
    } else {
        match sp_peeked(data, from, limit, st_in) {
            Step::Fail { kind, end } => {},
            Step::Done { v: pk, end } => {
                let stc = sp_cached(st_in, pk);
                if vs1.len() > 0 && vs2.len() > 0 {
                    let (m1, sm1) = choose|m1: int, sm1: TagState|
                        T::sp_accepts(data, end, limit, mode, depth, stc, vs1.first(), m1, sm1)
                            && sp_elems(
                            data,
                            limit,
                            mode,
                            depth,
                            ordered,
                            Some((from, m1)),
                            vs1.drop_first(),
                            m1,
                            sm1,
                            to1,
                            so1,
                        );
                    let (m2, sm2) = choose|m2: int, sm2: TagState|
                        T::sp_accepts(data, end, limit, mode, depth, stc, vs2.first(), m2, sm2)
                            && sp_elems(
                            data,
                            limit,
                            mode,
                            depth,
                            ordered,
                            Some((from, m2)),
                            vs2.drop_first(),
                            m2,
                            sm2,
                            to2,
                            so2,
                        );
                    T::lemma_outcomes_unique(
                        data,
                        end,
                        limit,
                        mode,
                        depth,
                        stc,
                        vs1.first(),
                        m1,
                        sm1,
                        vs2.first(),
                        m2,
                        sm2,
                        ASN1Error::Invalid,
                        0,
                        TagState::Fresh,
                        ASN1Error::Invalid,
                        0,
                        TagState::Fresh,
                    );
                    lemma_elems_unique::<T>(
                        data,
                        limit,
                        mode,
                        depth,
                        ordered,
                        Some((from, m1)),
                        vs1.drop_first(),
                        vs2.drop_first(),
                        m1,
                        sm1,
                        to1,
                        so1,
                        to2,
                        so2,
                    );
                } else if vs1.len() > 0 {
                    // Chain 2 stopped, certifying that no element is
                    // accepted there, yet chain 1 accepts one.
                    let (m1, sm1) = choose|m1: int, sm1: TagState|
                        T::sp_accepts(data, end, limit, mode, depth, stc, vs1.first(), m1, sm1);
                    assert(exists|w: T, e2: int, s2: TagState|
                        T::sp_accepts(data, end, limit, mode, depth, stc, w, e2, s2));
                    assert(false);
                } else {
                    let (m2, sm2) = choose|m2: int, sm2: TagState|
                        T::sp_accepts(data, end, limit, mode, depth, stc, vs2.first(), m2, sm2);
                    assert(exists|w: T, e2: int, s2: TagState|
                        T::sp_accepts(data, end, limit, mode, depth, stc, w, e2, s2));
                    assert(false);
                }
            },
        }
    }
}


/// The decoder state: a borrowed input, a cursor, a logical end of the
/// active scope, the mode, the tag state and the recursion depth.
pub struct BERReader<'a> {
    buf: &'a [u8],
    pos: usize,
    limit: usize,
    mode: BERMode,
    tag_state: TagState,
    depth: usize,
}


/// The bookkeeping of an entered TLV: the scope limit to restore, the
/// declared length, and the PC bit of the identifier.
pub(crate) struct Frame {
    pub(crate) outer_limit: usize,
    pub(crate) length: Option<usize>,
    pub(crate) pc: PCBit,
}

/// The mirror of leaving a TLV: an inner error passes through, a
/// definite scope must be fully consumed, an indefinite scope must be
/// closed by end-of-contents.
pub open spec fn sp_close<V>(
    data: Seq<u8>,
    pos: int,
    limit: int,
    st: TagState,
    length: Option<usize>,
    inner: Result<V, ASN1Error>,
) -> RStep<V> {
    match inner {
        Err(e) => RStep::RFail { kind: e, end: pos, st },
        Ok(v) => match length {
            Some(_) => {
                if pos != limit || st is Cached {
                    RStep::RFail { kind: ASN1Error::Extra, end: pos, st }
                } else {
                    RStep::RDone { v, end: pos, st }
                }
            },
            None => match sp_eoc(data, pos, limit, st) {
                RStep::RDone { v: _, end, st: st2 } => RStep::RDone { v, end, st: st2 },
                RStep::RFail { kind, end, st: st2 } => RStep::RFail { kind, end, st: st2 },
            },
        },
    }
}

impl<'a> BERReader<'a> {
    /// The whole input.
    pub closed spec fn data(self) -> Seq<u8> {
        self.buf@
    }

    /// The cursor position.
    pub closed spec fn posi(self) -> int {
        self.pos as int
    }

    /// The end of the active scope.
    pub closed spec fn limiti(self) -> int {
        self.limit as int
    }

    /// The mode being enforced.
    pub closed spec fn modev(self) -> BERMode {
        self.mode
    }

    /// The state of the identifier machine.
    pub closed spec fn tag_statev(self) -> TagState {
        self.tag_state
    }

    /// The recursion depth.
    pub closed spec fn depthv(self) -> int {
        self.depth as int
    }

    /// Well-formedness: the cursor is inside the active scope, the
    /// scope inside the input, and the recursion depth within its
    /// limit.
    pub open spec fn wf(self) -> bool {
        &&& 0 <= self.posi() <= self.limiti() <= self.data().len()
        &&& 0 <= self.depthv() <= depth_limit() + 1
    }

    /// Everything but the cursor and the tag state is unchanged.
    pub open spec fn same_scope(self, other: BERReader<'a>) -> bool {
        &&& self.data() == other.data()
        &&& self.limiti() == other.limiti()
        &&& self.modev() == other.modev()
        &&& self.depthv() == other.depthv()
    }

    pub(crate) fn new(buf: &'a [u8], mode: BERMode) -> (r: BERReader<'a>)
        ensures
            r.wf(),
            r.data() == buf@,
            r.posi() == 0,
            r.limiti() == buf@.len(),
            r.modev() == mode,
            r.tag_statev() == TagState::Fresh,
            r.depthv() == 0,
    {
        BERReader { buf, pos: 0, limit: buf.len(), mode, tag_state: TagState::Fresh, depth: 0 }
    }

    /// Reads one content octet, or `Eof` at the end of the scope.
    fn read_u8(&mut self) -> (r: ASN1Result<u8>)
        requires
            old(self).wf(),
        ensures
            final(self).wf(),
            final(self).same_scope(*old(self)),
            final(self).tag_statev() == old(self).tag_statev(),
            if old(self).posi() < old(self).limiti() {
                r == Ok::<u8, ASN1Error>(old(self).data()[old(self).posi()]) && final(self).posi()
                    == old(self).posi() + 1
            } else {
                r == Err::<u8, ASN1Error>(ASN1Error::Eof) && final(self).posi() == old(self).posi()
            },
    {
        if self.pos < self.limit {
            let ret = self.buf[self.pos];
            self.pos = self.pos + 1;
            Ok(ret)
        } else {
            Err(ASN1Error::Eof)
        }
    }

    /// The long-form tag-number accumulator.
    fn parse_tag_number(&mut self, acc: u64) -> (r: ASN1Result<u64>)
        requires
            old(self).wf(),
        ensures
            final(self).wf(),
            final(self).same_scope(*old(self)),
            final(self).tag_statev() == old(self).tag_statev(),
            final(self).posi() >= old(self).posi(),
            step_matches(
                sp_tagnum(old(self).data(), old(self).posi(), old(self).limiti(), acc as nat),
                r,
                final(self).posi(),
            ),
        decreases old(self).limiti() - old(self).posi(),
    {
        let b = match self.read_u8() {
            Ok(b) => b,
            Err(e) => {
                return Err(e);
            },
        };
        if acc == 0 && b == 128 {
            return Err(ASN1Error::Invalid);
        }
        if acc > u64::MAX / 128 {
            return Err(ASN1Error::IntegerOverflow);
        }
        assert(acc * 128 + 127 <= u64::MAX) by {
            assert(acc <= u64::MAX / 128);
            assert(acc * 128 <= (u64::MAX / 128) * 128);
        }
        let acc2 = acc * 128 + (b % 128) as u64;
        if b < 128 {
            Ok(acc2)
        } else {
            self.parse_tag_number(acc2)
        }
    }

    /// Parses identifier octets into a tag and a PC bit.
    pub(crate) fn parse_identifier(&mut self) -> (r: ASN1Result<(Tag, PCBit)>)
        requires
            old(self).wf(),
        ensures
            final(self).wf(),
            final(self).same_scope(*old(self)),
            final(self).tag_statev() == old(self).tag_statev(),
            final(self).posi() >= old(self).posi(),
            r is Ok ==> final(self).posi() > old(self).posi(),
            step_matches(
                sp_identifier(old(self).data(), old(self).posi(), old(self).limiti()),
                r,
                final(self).posi(),
            ),
    {
        let b = match self.read_u8() {
            Ok(b) => b,
            Err(e) => {
                return Err(e);
            },
        };
        let class = if b / 64 == 0 {
            TagClass::Universal
        } else if b / 64 == 1 {
            TagClass::Application
        } else if b / 64 == 2 {
            TagClass::ContextSpecific
        } else {
            TagClass::Private
        };
        let pc = if (b / 32) % 2 == 1 {
            PCBit::Constructed
        } else {
            PCBit::Primitive
        };
        let n = b % 32;
        if n < 31 {
            Ok((Tag { tag_class: class, tag_number: n as u64 }, pc))
        } else {
            let v = match self.parse_tag_number(0) {
                Ok(v) => v,
                Err(e) => {
                    return Err(e);
                },
            };
            if v < 31 {
                return Err(ASN1Error::Invalid);
            }
            Ok((Tag { tag_class: class, tag_number: v }, pc))
        }
    }

    /// The long-form length accumulator.
    fn parse_length_acc(&mut self, k: u8, acc: usize, first: bool) -> (r: ASN1Result<usize>)
        requires
            old(self).wf(),
        ensures
            final(self).wf(),
            final(self).same_scope(*old(self)),
            final(self).tag_statev() == old(self).tag_statev(),
            final(self).posi() >= old(self).posi(),
            step_matches(
                sp_lenacc(
                    old(self).data(),
                    old(self).posi(),
                    old(self).limiti(),
                    k as nat,
                    acc as nat,
                    first,
                    old(self).modev() == BERMode::Der || old(self).modev() == BERMode::Cer,
                ),
                r,
                final(self).posi(),
            ),
        decreases k,
    {
        if k == 0 {
            return Ok(acc);
        }
        let b = match self.read_u8() {
            Ok(b) => b,
            Err(e) => {
                return Err(e);
            },
        };
        let strict = self.mode == BERMode::Der || self.mode == BERMode::Cer;
        if first && strict && b == 0 {
            return Err(ASN1Error::Invalid);
        }
        if acc > usize::MAX / 256 {
            return Err(ASN1Error::IntegerOverflow);
        }
        assert(acc * 256 + 255 <= usize::MAX) by {
            assert(acc <= usize::MAX / 256);
            assert(acc * 256 <= (usize::MAX / 256) * 256);
        }
        self.parse_length_acc(k - 1, acc * 256 + b as usize, false)
    }

    /// Parses length octets: `Some` carries a definite length, `None`
    /// means indefinite.
    fn parse_length(&mut self) -> (r: ASN1Result<Option<usize>>)
        requires
            old(self).wf(),
        ensures
            final(self).wf(),
            final(self).same_scope(*old(self)),
            final(self).tag_statev() == old(self).tag_statev(),
            final(self).posi() >= old(self).posi(),
            r is Ok ==> final(self).posi() > old(self).posi(),
            step_matches(
                sp_length(
                    old(self).data(),
                    old(self).posi(),
                    old(self).limiti(),
                    old(self).modev(),
                ),
                r,
                final(self).posi(),
            ),
    {
        let b = match self.read_u8() {
            Ok(b) => b,
            Err(e) => {
                return Err(e);
            },
        };
        if b == 128 {
            return Ok(None);
        }
        if b == 255 {
            return Err(ASN1Error::Invalid);
        }
        if b < 128 {
            return Ok(Some(b as usize));
        }
        let strict = self.mode == BERMode::Der || self.mode == BERMode::Cer;
        let v = match self.parse_length_acc(b - 128, 0, true) {
            Ok(v) => v,
            Err(e) => {
                return Err(e);
            },
        };
        if strict && v < 128 {
            return Err(ASN1Error::Invalid);
        }
        Ok(Some(v))
    }

    /// Closes an indefinite-length scope: expects a primitive
    /// end-of-contents identifier with a zero length octet. A cached
    /// identifier is consumed by this check.
    fn end_of_contents(&mut self) -> (r: ASN1Result<()>)
        requires
            old(self).wf(),
        ensures
            final(self).wf(),
            final(self).same_scope(*old(self)),
            final(self).posi() >= old(self).posi(),
            rstep_matches(
                sp_eoc(
                    old(self).data(),
                    old(self).posi(),
                    old(self).limiti(),
                    old(self).tag_statev(),
                ),
                r,
                final(self).posi(),
                final(self).tag_statev(),
            ),
    {
        let (t, pc) = match self.tag_state {
            TagState::Implicit(_, _) => {
                return Err(ASN1Error::Invalid);
            },
            TagState::Fresh => {
                match self.parse_identifier() {
                    Ok(v) => v,
                    Err(e) => {
                        return Err(e);
                    },
                }
            },
            TagState::Cached(t, pc) => (t, pc),
        };
        self.tag_state = TagState::Fresh;
        if !(t == (Tag { tag_class: TagClass::Universal, tag_number: 0 })
            && pc == PCBit::Primitive) {
            return Err(ASN1Error::Invalid);
        }
        let b = match self.read_u8() {
            Ok(b) => b,
            Err(e) => {
                return Err(e);
            },
        };
        if b != 0 {
            return Err(ASN1Error::Invalid);
        }
        Ok(())
    }

    /// Enters a TLV with the given expected tag: depth check, tag
    /// dispatch, length and mode checks, and scope narrowing for a
    /// definite length.
    #[verifier::spinoff_prover]
    #[verifier::rlimit(100)]
    pub(crate) fn parse_header(&mut self, tag: Tag, tag_type: TagType) -> (r: ASN1Result<Frame>)
        requires
            old(self).wf(),
        ensures
            final(self).wf(),
            final(self).data() == old(self).data(),
            final(self).modev() == old(self).modev(),
            final(self).posi() >= old(self).posi(),
            r is Ok && !(old(self).tag_statev() is Implicit) ==> final(self).posi() > old(self).posi(),
            !(old(self).tag_statev() is Implicit) && final(self).posi() == old(self).posi() ==> final(self).tag_statev() == old(self).tag_statev(),
            match sp_header(
                old(self).data(),
                old(self).posi(),
                old(self).limiti(),
                old(self).modev(),
                old(self).depthv(),
                old(self).tag_statev(),
                tag,
                tag_type,
            ) {
                HeadStep::HeadOk { pc, length, end, limit2, st } => {
                    &&& r matches Ok(f) && f.pc == pc && f.length == length && f.outer_limit
                        as int == old(self).limiti()
                    &&& final(self).posi() == end
                    &&& final(self).limiti() == limit2
                    &&& final(self).tag_statev() == st
                    &&& final(self).depthv() == old(self).depthv() + 1
                },
                HeadStep::HeadFail { kind, end, st } => {
                    &&& r == Err::<Frame, ASN1Error>(kind)
                    &&& final(self).posi() == end
                    &&& final(self).limiti() == old(self).limiti()
                    &&& final(self).tag_statev() == st
                    &&& final(self).depthv() == old(self).depthv()
                },
            },
    {
        if self.depth > 100 {
            return Err(ASN1Error::StackOverflow);
        }
        let (pc, length) = match self.tag_state {
            TagState::Fresh => {
                let (t2, pc2) = match self.parse_identifier() {
                    Ok(v) => v,
                    Err(e) => {
                        return Err(e);
                    },
                };
                if t2 != tag {
                    self.tag_state = TagState::Cached(t2, pc2);
                    return Err(ASN1Error::Invalid);
                }
                let l = match self.parse_length() {
                    Ok(l) => l,
                    Err(e) => {
                        return Err(e);
                    },
                };
                (pc2, l)
            },
            TagState::Cached(t2, pc2) => {
                if t2 != tag {
                    return Err(ASN1Error::Invalid);
                }
                let l = match self.parse_length() {
                    Ok(l) => l,
                    Err(e) => {
                        return Err(e);
                    },
                };
                (pc2, l)
            },
            TagState::Implicit(pc2, l2) => (pc2, l2),
        };
        let outer_limit = self.limit;
        if tag_type == TagType::Implicit {
            self.tag_state = TagState::Implicit(pc, length);
        } else {
            self.tag_state = TagState::Fresh;
        }
        match length {
            Some(l) => {
                if self.mode == BERMode::Cer && pc != PCBit::Primitive {
                    return Err(ASN1Error::Invalid);
                }
                if l > self.limit - self.pos {
                    return Err(ASN1Error::Eof);
                }
                self.limit = self.pos + l;
            },
            None => {
                if pc != PCBit::Constructed {
                    return Err(ASN1Error::Invalid);
                }
                if self.mode == BERMode::Der {
                    return Err(ASN1Error::Invalid);
                }
            },
        }
        self.depth = self.depth + 1;
        Ok(Frame { outer_limit, length, pc })
    }

    /// Leaves a TLV entered by `parse_header`: hands an inner error on
    /// unchanged, checks that a definite scope was consumed exactly and
    /// that an indefinite scope is closed by end-of-contents, and
    /// always restores the outer scope limit and the recursion depth,
    /// on the error paths too. An identifier peeked into the cache
    /// counts as not consumed, so a definite scope closing with a
    /// dangling cache has trailing data: `Extra`.
    pub(crate) fn close_frame<T>(&mut self, frame: Frame, inner: ASN1Result<T>) -> (r: ASN1Result<T>)
        requires
            old(self).wf(),
            old(self).depthv() >= 1,
            old(self).limiti() <= frame.outer_limit as int <= old(self).data().len(),
        ensures
            final(self).wf(),
            final(self).data() == old(self).data(),
            final(self).modev() == old(self).modev(),
            final(self).limiti() == frame.outer_limit as int,
            final(self).depthv() == old(self).depthv() - 1,
            final(self).posi() >= old(self).posi(),
            rstep_matches(
                sp_close(
                    old(self).data(),
                    old(self).posi(),
                    old(self).limiti(),
                    old(self).tag_statev(),
                    frame.length,
                    inner,
                ),
                r,
                final(self).posi(),
                final(self).tag_statev(),
            ),
    {
        self.depth = self.depth - 1;
        let r = match inner {
            Err(e) => Err(e),
            Ok(v) => {
                match frame.length {
                    Some(_) => {
                        let dangling = match self.tag_state {
                            TagState::Cached(_, _) => true,
                            _ => false,
                        };
                        if self.pos != self.limit || dangling {
                            Err(ASN1Error::Extra)
                        } else {
                            Ok(v)
                        }
                    },
                    None => {
                        match self.end_of_contents() {
                            Ok(u) => {
                                let _ = u;
                                Ok(v)
                            },
                            Err(e) => Err(e),
                        }
                    },
                }
            },
        };
        self.limit = frame.outer_limit;
        r
    }
    /// `Extra` unless the cursor stands at the end of the whole input.
    ///
    /// An identifier peeked into the cache counts as not consumed:
    /// logically the cursor still stands before it, so a dangling
    /// cache at the end of the input is trailing data. This is the
    /// reading under which a constructed value whose final content
    /// octet merely looks like a further identifier is refused, as
    /// the scope rules of the byte-string grammar demand.
    pub(crate) fn end_of_buf(&mut self) -> (r: ASN1Result<()>)
        requires
            old(self).wf(),
        ensures
            *final(self) == *old(self),
            r == if old(self).posi() == old(self).data().len() && !(old(self).tag_statev()
                is Cached) {
                Ok::<(), ASN1Error>(())
            } else {
                Err::<(), ASN1Error>(ASN1Error::Extra)
            },
    {
        if self.pos != self.buf.len() {
            return Err(ASN1Error::Extra);
        }
        match self.tag_state {
            TagState::Cached(_, _) => Err(ASN1Error::Extra),
            _ => Ok(()),
        }
    }

    /// The BOOLEAN content rule, applied to the narrowed scope.
    fn content_bool(&mut self, pc: PCBit) -> (r: ASN1Result<bool>)
        requires
            old(self).wf(),
        ensures
            final(self).wf(),
            final(self).same_scope(*old(self)),
            final(self).tag_statev() == old(self).tag_statev(),
            ({
                let data = old(self).data();
                let pos = old(self).posi();
                let limit = old(self).limiti();
                let strict = old(self).modev() == BERMode::Der || old(self).modev()
                    == BERMode::Cer;
                if pc != PCBit::Primitive {
                    r == Err::<bool, ASN1Error>(ASN1Error::Invalid) && final(self).posi() == pos
                } else if limit - pos != 1 {
                    r == Err::<bool, ASN1Error>(ASN1Error::Invalid) && final(self).posi() == limit
                } else if strict && data[pos] != 0 && data[pos] != 255 {
                    r == Err::<bool, ASN1Error>(ASN1Error::Invalid) && final(self).posi() == limit
                } else {
                    r == Ok::<bool, ASN1Error>(data[pos] != 0) && final(self).posi() == limit
                }
            }),
    {
        if pc != PCBit::Primitive {
            return Err(ASN1Error::Invalid);
        }
        let start = self.pos;
        self.pos = self.limit;
        if self.limit - start != 1 {
            return Err(ASN1Error::Invalid);
        }
        let b = self.buf[start];
        if (self.mode == BERMode::Der || self.mode == BERMode::Cer) && b != 0 && b != 255 {
            return Err(ASN1Error::Invalid);
        }
        Ok(b != 0)
    }

    /// Reads a BOOLEAN value.
    pub fn read_bool(&mut self) -> (r: ASN1Result<bool>)
        requires
            old(self).wf(),
        ensures
            final(self).wf(),
            final(self).same_scope(*old(self)),
            final(self).posi() >= old(self).posi(),
            r is Ok ==> !(final(self).tag_statev() is Implicit),
            r is Ok && !(old(self).tag_statev() is Implicit) ==> final(self).posi() > old(self).posi(),
            !(old(self).tag_statev() is Implicit) && final(self).posi() == old(self).posi() ==> final(self).tag_statev() == old(self).tag_statev(),
            rstep_matches(
                sp_read_bool(
                    old(self).data(),
                    old(self).posi(),
                    old(self).limiti(),
                    old(self).modev(),
                    old(self).depthv(),
                    old(self).tag_statev(),
                ),
                r,
                final(self).posi(),
                final(self).tag_statev(),
            ),
    {
        let frame = match self.parse_header(
            Tag { tag_class: TagClass::Universal, tag_number: 1 },
            TagType::Explicit,
        ) {
            Ok(f) => f,
            Err(e) => {
                return Err(e);
            },
        };
        let inner = self.content_bool(frame.pc);
        self.close_frame(frame, inner)
    }

    /// Reads a NULL value.
    pub fn read_null(&mut self) -> (r: ASN1Result<()>)
        requires
            old(self).wf(),
        ensures
            final(self).wf(),
            final(self).same_scope(*old(self)),
            final(self).posi() >= old(self).posi(),
            r is Ok ==> !(final(self).tag_statev() is Implicit),
            r is Ok && !(old(self).tag_statev() is Implicit) ==> final(self).posi() > old(self).posi(),
            !(old(self).tag_statev() is Implicit) && final(self).posi() == old(self).posi() ==> final(self).tag_statev() == old(self).tag_statev(),
            rstep_matches(
                sp_read_null(
                    old(self).data(),
                    old(self).posi(),
                    old(self).limiti(),
                    old(self).modev(),
                    old(self).depthv(),
                    old(self).tag_statev(),
                ),
                r,
                final(self).posi(),
                final(self).tag_statev(),
            ),
    {
        let frame = match self.parse_header(
            Tag { tag_class: TagClass::Universal, tag_number: 5 },
            TagType::Explicit,
        ) {
            Ok(f) => f,
            Err(e) => {
                return Err(e);
            },
        };
        let inner = self.content_null(frame.pc);
        self.close_frame(frame, inner)
    }

    /// The NULL content rule, applied to the narrowed scope.
    fn content_null(&mut self, pc: PCBit) -> (r: ASN1Result<()>)
        requires
            old(self).wf(),
        ensures
            final(self).wf(),
            final(self).same_scope(*old(self)),
            final(self).tag_statev() == old(self).tag_statev(),
            if pc != PCBit::Primitive {
                r == Err::<(), ASN1Error>(ASN1Error::Invalid) && final(self).posi() == old(self).posi()
            } else if old(self).limiti() - old(self).posi() != 0 {
                r == Err::<(), ASN1Error>(ASN1Error::Invalid) && final(self).posi() == old(self).limiti()
            } else {
                r == Ok::<(), ASN1Error>(()) && final(self).posi() == old(self).limiti()
            },
    {
        if pc != PCBit::Primitive {
            return Err(ASN1Error::Invalid);
        }
        let start = self.pos;
        self.pos = self.limit;
        if self.limit - start != 0 {
            return Err(ASN1Error::Invalid);
        }
        Ok(())
    }


    /// The INTEGER content rule for a signed target of at most eight
    /// octets: consumes the scope, checks minimality, and returns the
    /// value.
    fn content_int_signed(&mut self, pc: PCBit, width: usize) -> (r: ASN1Result<i64>)
        requires
            old(self).wf(),
            1 <= width <= 8,
        ensures
            final(self).wf(),
            final(self).same_scope(*old(self)),
            final(self).tag_statev() == old(self).tag_statev(),
            pc != PCBit::Primitive ==> r == Err::<i64, ASN1Error>(ASN1Error::Invalid) && final(self).posi() == old(self).posi(),
            pc == PCBit::Primitive ==> final(self).posi() == old(self).limiti() && ({
                let content = old(self).data().subrange(old(self).posi(), old(self).limiti());
                let n = old(self).limiti() - old(self).posi();
                let v = int_of_twos(content);
                if n == 0 {
                    r == Err::<i64, ASN1Error>(ASN1Error::Invalid)
                } else if n >= 2 && ((content[0] == 0 && content[1] < 128) || (content[0] == 255
                    && content[1] >= 128)) {
                    r == Err::<i64, ASN1Error>(ASN1Error::Invalid)
                } else if n > width {
                    r == Err::<i64, ASN1Error>(ASN1Error::IntegerOverflow)
                } else {
                    r matches Ok(x) && x as int == v
                }
            }),
    {
        if pc != PCBit::Primitive {
            return Err(ASN1Error::Invalid);
        }
        let ghost gdata = self.data();
        let start = self.pos;
        let limit = self.limit;
        self.pos = limit;
        let n = limit - start;
        if n == 0 {
            return Err(ASN1Error::Invalid);
        }
        let first = self.buf[start];
        if n >= 2 {
            let second = self.buf[start + 1];
            if (first == 0 && second < 128) || (first == 255 && second >= 128) {
                return Err(ASN1Error::Invalid);
            }
        }
        if n > width {
            return Err(ASN1Error::IntegerOverflow);
        }
        let mut acc: i64 = if first >= 128 {
            first as i64 - 256
        } else {
            first as i64
        };
        let mut i = start + 1;
        proof {
            assert(gdata.subrange(start as int, start as int + 1) =~= seq![first]);
            lemma_pow256_small();
        }
        while i < limit
            invariant
                self.wf(),
                start < i <= limit <= gdata.len(),
                limit - start <= 8,
                gdata == self.data(),
                self.limiti() == limit,
                self.posi() == limit,
                acc as int == int_of_twos(gdata.subrange(start as int, i as int)),
            decreases limit - i,
        {
            let b = self.buf[i];
            proof {
                let pre = gdata.subrange(start as int, i as int);
                let post = gdata.subrange(start as int, i as int + 1);
                assert(post.drop_last() =~= pre);
                assert(post.last() == gdata[i as int]);
                lemma_int_of_twos_range(pre);
                lemma_int_of_twos_range(post);
                lemma_pow256_small();
                lemma_pow256_mono((pre.len() - 1) as nat, 6);
                lemma_pow256_mono((post.len() - 1) as nat, 7);
            }
            acc = acc * 256 + b as i64;
            i = i + 1;
        }
        proof {
            assert(gdata.subrange(start as int, limit as int) =~= gdata.subrange(
                start as int,
                i as int,
            ));
        }
        Ok(acc)
    }

    /// The INTEGER content rule for an unsigned target of at most
    /// eight value octets (nine with the leading zero octet): consumes
    /// the scope, checks minimality and sign, and returns the value.
    #[verifier::spinoff_prover]
    #[verifier::rlimit(60)]
    fn content_int_unsigned(&mut self, pc: PCBit) -> (r: ASN1Result<u64>)
        requires
            old(self).wf(),
        ensures
            final(self).wf(),
            final(self).same_scope(*old(self)),
            final(self).tag_statev() == old(self).tag_statev(),
            pc != PCBit::Primitive ==> r == Err::<u64, ASN1Error>(ASN1Error::Invalid) && final(self).posi() == old(self).posi(),
            pc == PCBit::Primitive ==> final(self).posi() == old(self).limiti() && ({
                let content = old(self).data().subrange(old(self).posi(), old(self).limiti());
                let n = old(self).limiti() - old(self).posi();
                let v = int_of_twos(content);
                if n == 0 {
                    r == Err::<u64, ASN1Error>(ASN1Error::Invalid)
                } else if n >= 2 && ((content[0] == 0 && content[1] < 128) || (content[0] == 255
                    && content[1] >= 128)) {
                    r == Err::<u64, ASN1Error>(ASN1Error::Invalid)
                } else if n > 9 || !(0 <= v <= u64::MAX) {
                    r == Err::<u64, ASN1Error>(ASN1Error::IntegerOverflow)
                } else {
                    r matches Ok(x) && x as int == v
                }
            }),
    {
        if pc != PCBit::Primitive {
            return Err(ASN1Error::Invalid);
        }
        let ghost gdata = self.data();
        let start = self.pos;
        let limit = self.limit;
        self.pos = limit;
        let n = limit - start;
        if n == 0 {
            return Err(ASN1Error::Invalid);
        }
        let first = self.buf[start];
        if n >= 2 {
            let second = self.buf[start + 1];
            if (first == 0 && second < 128) || (first == 255 && second >= 128) {
                return Err(ASN1Error::Invalid);
            }
        }
        proof {
            lemma_int_of_twos_decomp(gdata.subrange(start as int, limit as int));
        }
        if first >= 128 {
            // A negative INTEGER can never fit an unsigned target.
            return Err(ASN1Error::IntegerOverflow);
        }
        if n > 9 {
            return Err(ASN1Error::IntegerOverflow);
        }
        if n == 9 && first != 0 {
            // Nine value octets with a nonzero first octet lie beyond
            // the u64 range.
            proof {
                let content = gdata.subrange(start as int, limit as int);
                lemma_uint_of_be_range(content.drop_first());
                lemma_pow256_small();
                assert(sign8(content.first()) >= 1);
                assert(sign8(content.first()) * pow256(8) >= pow256(8)) by (nonlinear_arith)
                    requires
                        sign8(content.first()) >= 1,
                        pow256(8) >= 1,
                ;
            }
            return Err(ASN1Error::IntegerOverflow);
        }
        let mut acc: u64 = first as u64;
        let mut i = start + 1;
        proof {
            assert(gdata.subrange(start as int, start as int + 1) =~= seq![first]);
            lemma_pow256_small();
        }
        while i < limit
            invariant
                self.wf(),
                start < i <= limit <= gdata.len(),
                limit - start <= 9,
                limit - start == 9 ==> gdata[start as int] == 0,
                gdata[start as int] < 128,
                gdata == self.data(),
                self.limiti() == limit,
                self.posi() == limit,
                acc as int == int_of_twos(gdata.subrange(start as int, i as int)),
            decreases limit - i,
        {
            let b = self.buf[i];
            proof {
                let pre = gdata.subrange(start as int, i as int);
                let post = gdata.subrange(start as int, i as int + 1);
                assert(post.drop_last() =~= pre);
                assert(post.last() == gdata[i as int]);
                assert(pre.first() == gdata[start as int]);
                assert(post.first() == gdata[start as int]);
                lemma_int_of_twos_decomp(pre);
                lemma_int_of_twos_decomp(post);
                lemma_uint_of_be_range(pre.drop_first());
                lemma_uint_of_be_range(post.drop_first());
                lemma_pow256_small();
                if pre.len() == 8 {
                    // Only the nine-octet form reaches an eighth value
                    // octet, and there the first octet is zero.
                    assert(pre.first() == 0);
                } else {
                    lemma_pow256_mono((pre.len() - 1) as nat, 6);
                    assert(sign8(pre.first()) <= 127);
                    assert(sign8(pre.first()) * pow256((pre.len() - 1) as nat) <= 127 * pow256(
                        6,
                    )) by (nonlinear_arith)
                        requires
                            0 <= sign8(pre.first()) <= 127,
                            1 <= pow256((pre.len() - 1) as nat) <= pow256(6),
                    ;
                }
                assert(int_of_twos(pre) <= 0xFFFFFFFFFFFFFF);
            }
            acc = acc * 256 + b as u64;
            i = i + 1;
        }
        proof {
            assert(gdata.subrange(start as int, limit as int) =~= gdata.subrange(
                start as int,
                i as int,
            ));
        }
        Ok(acc)
    }

    /// Reads an INTEGER as an `i64`.
    pub fn read_i64(&mut self) -> (r: ASN1Result<i64>)
        requires
            old(self).wf(),
        ensures
            final(self).wf(),
            final(self).same_scope(*old(self)),
            final(self).posi() >= old(self).posi(),
            r is Ok ==> !(final(self).tag_statev() is Implicit),
            r is Ok && !(old(self).tag_statev() is Implicit) ==> final(self).posi() > old(self).posi(),
            !(old(self).tag_statev() is Implicit) && final(self).posi() == old(self).posi() ==> final(self).tag_statev() == old(self).tag_statev(),
            rstep_int_matches(
                sp_read_integer(
                    old(self).data(),
                    old(self).posi(),
                    old(self).limiti(),
                    old(self).modev(),
                    old(self).depthv(),
                    old(self).tag_statev(),
                    8,
                    i64::MIN as int,
                    i64::MAX as int,
                ),
                r,
                final(self).posi(),
                final(self).tag_statev(),
            ),
    {
        let frame = match self.parse_header(
            Tag { tag_class: TagClass::Universal, tag_number: 2 },
            TagType::Explicit,
        ) {
            Ok(f) => f,
            Err(e) => {
                return Err(e);
            },
        };
        let inner = self.content_int_signed(frame.pc, 8);
        let r = self.close_frame(frame, inner);
        proof {
            match sp_header(
                old(self).data(),
                old(self).posi(),
                old(self).limiti(),
                old(self).modev(),
                old(self).depthv(),
                old(self).tag_statev(),
                spec_univ_tag(2),
                TagType::Explicit,
            ) {
                HeadStep::HeadOk { pc, length, end, limit2, st } => {
                    if pc == PCBit::Primitive && 1 <= limit2 - end <= 8 {
                        lemma_int_of_twos_range(old(self).data().subrange(end, limit2));
                        lemma_pow256_mono((limit2 - end - 1) as nat, 7);
                        lemma_pow256_small();
                    }
                },
                HeadStep::HeadFail { kind, end, st } => {},
            }
        }
        r
    }

    /// Reads an INTEGER as a `u64`.
    pub fn read_u64(&mut self) -> (r: ASN1Result<u64>)
        requires
            old(self).wf(),
        ensures
            final(self).wf(),
            final(self).same_scope(*old(self)),
            final(self).posi() >= old(self).posi(),
            r is Ok ==> !(final(self).tag_statev() is Implicit),
            r is Ok && !(old(self).tag_statev() is Implicit) ==> final(self).posi() > old(self).posi(),
            !(old(self).tag_statev() is Implicit) && final(self).posi() == old(self).posi() ==> final(self).tag_statev() == old(self).tag_statev(),
            rstep_int_matches(
                sp_read_integer(
                    old(self).data(),
                    old(self).posi(),
                    old(self).limiti(),
                    old(self).modev(),
                    old(self).depthv(),
                    old(self).tag_statev(),
                    9,
                    0,
                    u64::MAX as int,
                ),
                r,
                final(self).posi(),
                final(self).tag_statev(),
            ),
    {
        let frame = match self.parse_header(
            Tag { tag_class: TagClass::Universal, tag_number: 2 },
            TagType::Explicit,
        ) {
            Ok(f) => f,
            Err(e) => {
                return Err(e);
            },
        };
        let inner = self.content_int_unsigned(frame.pc);
        self.close_frame(frame, inner)
    }

    /// Reads an INTEGER as an `i32`.
    pub fn read_i32(&mut self) -> (r: ASN1Result<i32>)
        requires
            old(self).wf(),
        ensures
            final(self).wf(),
            final(self).same_scope(*old(self)),
            final(self).posi() >= old(self).posi(),
            r is Ok ==> !(final(self).tag_statev() is Implicit),
            r is Ok && !(old(self).tag_statev() is Implicit) ==> final(self).posi() > old(self).posi(),
            !(old(self).tag_statev() is Implicit) && final(self).posi() == old(self).posi() ==> final(self).tag_statev() == old(self).tag_statev(),
            rstep_int_matches(
                sp_read_integer(
                    old(self).data(),
                    old(self).posi(),
                    old(self).limiti(),
                    old(self).modev(),
                    old(self).depthv(),
                    old(self).tag_statev(),
                    8,
                    i32::MIN as int,
                    i32::MAX as int,
                ),
                r,
                final(self).posi(),
                final(self).tag_statev(),
            ),
    {
        let frame = match self.parse_header(
            Tag { tag_class: TagClass::Universal, tag_number: 2 },
            TagType::Explicit,
        ) {
            Ok(f) => f,
            Err(e) => {
                return Err(e);
            },
        };
        let wide = self.content_int_signed(frame.pc, 8);
        let inner: ASN1Result<i32> = match wide {
            Ok(x) => {
                if x < i32::MIN as i64 || x > i32::MAX as i64 {
                    Err(ASN1Error::IntegerOverflow)
                } else {
                    Ok(x as i32)
                }
            },
            Err(e) => Err(e),
        };
        self.close_frame(frame, inner)
    }

    /// Reads an INTEGER as an `i16`.
    pub fn read_i16(&mut self) -> (r: ASN1Result<i16>)
        requires
            old(self).wf(),
        ensures
            final(self).wf(),
            final(self).same_scope(*old(self)),
            final(self).posi() >= old(self).posi(),
            r is Ok ==> !(final(self).tag_statev() is Implicit),
            r is Ok && !(old(self).tag_statev() is Implicit) ==> final(self).posi() > old(self).posi(),
            !(old(self).tag_statev() is Implicit) && final(self).posi() == old(self).posi() ==> final(self).tag_statev() == old(self).tag_statev(),
            rstep_int_matches(
                sp_read_integer(
                    old(self).data(),
                    old(self).posi(),
                    old(self).limiti(),
                    old(self).modev(),
                    old(self).depthv(),
                    old(self).tag_statev(),
                    8,
                    i16::MIN as int,
                    i16::MAX as int,
                ),
                r,
                final(self).posi(),
                final(self).tag_statev(),
            ),
    {
        let frame = match self.parse_header(
            Tag { tag_class: TagClass::Universal, tag_number: 2 },
            TagType::Explicit,
        ) {
            Ok(f) => f,
            Err(e) => {
                return Err(e);
            },
        };
        let wide = self.content_int_signed(frame.pc, 8);
        let inner: ASN1Result<i16> = match wide {
            Ok(x) => {
                if x < i16::MIN as i64 || x > i16::MAX as i64 {
                    Err(ASN1Error::IntegerOverflow)
                } else {
                    Ok(x as i16)
                }
            },
            Err(e) => Err(e),
        };
        self.close_frame(frame, inner)
    }

    /// Reads an INTEGER as a `u32`.
    pub fn read_u32(&mut self) -> (r: ASN1Result<u32>)
        requires
            old(self).wf(),
        ensures
            final(self).wf(),
            final(self).same_scope(*old(self)),
            final(self).posi() >= old(self).posi(),
            r is Ok ==> !(final(self).tag_statev() is Implicit),
            r is Ok && !(old(self).tag_statev() is Implicit) ==> final(self).posi() > old(self).posi(),
            !(old(self).tag_statev() is Implicit) && final(self).posi() == old(self).posi() ==> final(self).tag_statev() == old(self).tag_statev(),
            rstep_int_matches(
                sp_read_integer(
                    old(self).data(),
                    old(self).posi(),
                    old(self).limiti(),
                    old(self).modev(),
                    old(self).depthv(),
                    old(self).tag_statev(),
                    9,
                    0,
                    u32::MAX as int,
                ),
                r,
                final(self).posi(),
                final(self).tag_statev(),
            ),
    {
        let frame = match self.parse_header(
            Tag { tag_class: TagClass::Universal, tag_number: 2 },
            TagType::Explicit,
        ) {
            Ok(f) => f,
            Err(e) => {
                return Err(e);
            },
        };
        let wide = self.content_int_unsigned(frame.pc);
        let inner: ASN1Result<u32> = match wide {
            Ok(x) => {
                if x > u32::MAX as u64 {
                    Err(ASN1Error::IntegerOverflow)
                } else {
                    Ok(x as u32)
                }
            },
            Err(e) => Err(e),
        };
        self.close_frame(frame, inner)
    }

    /// Reads an INTEGER as a `u16`.
    pub fn read_u16(&mut self) -> (r: ASN1Result<u16>)
        requires
            old(self).wf(),
        ensures
            final(self).wf(),
            final(self).same_scope(*old(self)),
            final(self).posi() >= old(self).posi(),
            r is Ok ==> !(final(self).tag_statev() is Implicit),
            r is Ok && !(old(self).tag_statev() is Implicit) ==> final(self).posi() > old(self).posi(),
            !(old(self).tag_statev() is Implicit) && final(self).posi() == old(self).posi() ==> final(self).tag_statev() == old(self).tag_statev(),
            rstep_int_matches(
                sp_read_integer(
                    old(self).data(),
                    old(self).posi(),
                    old(self).limiti(),
                    old(self).modev(),
                    old(self).depthv(),
                    old(self).tag_statev(),
                    9,
                    0,
                    u16::MAX as int,
                ),
                r,
                final(self).posi(),
                final(self).tag_statev(),
            ),
    {
        let frame = match self.parse_header(
            Tag { tag_class: TagClass::Universal, tag_number: 2 },
            TagType::Explicit,
        ) {
            Ok(f) => f,
            Err(e) => {
                return Err(e);
            },
        };
        let wide = self.content_int_unsigned(frame.pc);
        let inner: ASN1Result<u16> = match wide {
            Ok(x) => {
                if x > u16::MAX as u64 {
                    Err(ASN1Error::IntegerOverflow)
                } else {
                    Ok(x as u16)
                }
            },
            Err(e) => Err(e),
        };
        self.close_frame(frame, inner)
    }

    /// The OBJECT IDENTIFIER content rule, applied to the narrowed
    /// scope.
    fn content_oid(&mut self, pc: PCBit) -> (r: ASN1Result<ObjectIdentifier>)
        requires
            old(self).wf(),
        ensures
            final(self).wf(),
            final(self).same_scope(*old(self)),
            final(self).tag_statev() == old(self).tag_statev(),
            pc != PCBit::Primitive ==> r == Err::<ObjectIdentifier, ASN1Error>(
                ASN1Error::Invalid,
            ) && final(self).posi() == old(self).posi(),
            pc == PCBit::Primitive ==> final(self).posi() == old(self).limiti() && ({
                let content = old(self).data().subrange(old(self).posi(), old(self).limiti());
                if content.len() == 0 || content.last() >= 128 {
                    r == Err::<ObjectIdentifier, ASN1Error>(ASN1Error::Invalid)
                } else {
                    match sp_oid_ids(content, 0, 0, seq![]) {
                        Ok(ids) => r matches Ok(oid) && oid.idsv() == ids,
                        Err(kind) => r == Err::<ObjectIdentifier, ASN1Error>(kind),
                    }
                }
            }),
    {
        if pc != PCBit::Primitive {
            return Err(ASN1Error::Invalid);
        }
        let ghost gdata = self.data();
        let start = self.pos;
        let limit = self.limit;
        self.pos = limit;
        let n = limit - start;
        if n == 0 {
            return Err(ASN1Error::Invalid);
        }
        if self.buf[limit - 1] >= 128 {
            return Err(ASN1Error::Invalid);
        }
        let ghost content = gdata.subrange(start as int, limit as int);
        let mut ids: Vec<u64> = Vec::new();
        let mut acc: u64 = 0;
        let mut i = start;
        proof {
            assert(ids@ =~= Seq::<u64>::empty());
        }
        while i < limit
            invariant
                pc == PCBit::Primitive,
                self.wf(),
                start <= i <= limit <= gdata.len(),
                gdata == self.data(),
                self.limiti() == limit,
                self.posi() == limit,
                self.modev() == old(self).modev(),
                self.depthv() == old(self).depthv(),
                self.tag_statev() == old(self).tag_statev(),
                limit == old(self).limiti(),
                start == old(self).posi(),
                gdata == old(self).data(),
                content == gdata.subrange(start as int, limit as int),
                content.len() == limit - start,
                content.len() > 0 && content.last() < 128,
                sp_oid_ids(content, i - start, acc as nat, ids@) == sp_oid_ids(
                    content,
                    0,
                    0,
                    Seq::<u64>::empty(),
                ),
            decreases limit - i,
        {
            let b = self.buf[i];
            proof {
                assert(content[i - start] == gdata[i as int]);
            }
            if acc == 0 && b == 128 {
                return Err(ASN1Error::Invalid);
            }
            if acc > u64::MAX / 128 {
                return Err(ASN1Error::IntegerOverflow);
            }
            assert(acc * 128 + 127 <= u64::MAX) by {
                assert(acc <= u64::MAX / 128);
                assert(acc * 128 <= (u64::MAX / 128) * 128);
            }
            let acc2 = acc * 128 + (b % 128) as u64;
            if b < 128 {
                if ids.len() == 0 {
                    let id0: u64 = if acc2 < 40 {
                        0
                    } else if acc2 < 80 {
                        1
                    } else {
                        2
                    };
                    let id1 = acc2 - 40 * id0;
                    ids.push(id0);
                    ids.push(id1);
                    proof {
                        assert(ids@ =~= seq![id0, id1]);
                    }
                } else {
                    ids.push(acc2);
                }
                acc = 0;
            } else {
                acc = acc2;
            }
            i = i + 1;
        }
        Ok(ObjectIdentifier::new(ids))
    }

    /// Reads an OBJECT IDENTIFIER.
    pub fn read_oid(&mut self) -> (r: ASN1Result<ObjectIdentifier>)
        requires
            old(self).wf(),
        ensures
            final(self).wf(),
            final(self).same_scope(*old(self)),
            final(self).posi() >= old(self).posi(),
            r is Ok ==> !(final(self).tag_statev() is Implicit),
            r is Ok && !(old(self).tag_statev() is Implicit) ==> final(self).posi() > old(self).posi(),
            !(old(self).tag_statev() is Implicit) && final(self).posi() == old(self).posi() ==> final(self).tag_statev() == old(self).tag_statev(),
            match sp_read_oid(
                old(self).data(),
                old(self).posi(),
                old(self).limiti(),
                old(self).modev(),
                old(self).depthv(),
                old(self).tag_statev(),
            ) {
                RStep::RDone { v, end, st } => (r matches Ok(oid) && oid.idsv() == v) && final(self).posi() == end && final(self).tag_statev() == st,
                RStep::RFail { kind, end, st } => r == Err::<ObjectIdentifier, ASN1Error>(kind)
                    && final(self).posi() == end && final(self).tag_statev() == st,
            },
    {
        let frame = match self.parse_header(
            Tag { tag_class: TagClass::Universal, tag_number: 6 },
            TagType::Explicit,
        ) {
            Ok(f) => f,
            Err(e) => {
                return Err(e);
            },
        };
        let inner = self.content_oid(frame.pc);
        self.close_frame(frame, inner)
    }

    /// Appends the rest of the scope to `vec`.
    fn take_remaining_into(&mut self, vec: &mut Vec<u8>)
        requires
            old(self).wf(),
        ensures
            final(self).wf(),
            final(self).same_scope(*old(self)),
            final(self).tag_statev() == old(self).tag_statev(),
            final(self).posi() == old(self).limiti(),
            final(vec)@ == old(vec)@ + old(self).data().subrange(
                old(self).posi(),
                old(self).limiti(),
            ),
    {
        let ghost gdata = self.data();
        let ghost start = self.posi();
        while self.pos < self.limit
            invariant
                self.wf(),
                gdata == self.data(),
                self.limiti() == old(self).limiti(),
                self.modev() == old(self).modev(),
                self.depthv() == old(self).depthv(),
                self.tag_statev() == old(self).tag_statev(),
                start == old(self).posi(),
                start <= self.posi() <= self.limiti(),
                vec@ == old(vec)@ + gdata.subrange(start, self.posi()),
            decreases self.limiti() - self.posi(),
        {
            let b = self.buf[self.pos];
            vec.push(b);
            self.pos = self.pos + 1;
            proof {
                assert(gdata.subrange(start, self.posi()) =~= gdata.subrange(
                    start,
                    self.posi() - 1,
                ).push(b));
                assert(vec@ =~= old(vec)@ + gdata.subrange(start, self.posi()));
            }
        }
        proof {
            assert(vec@ =~= old(vec)@ + gdata.subrange(start, old(self).limiti()));
        }
    }

    /// The OCTETSTRING content rule: a primitive scope contributes its
    /// octets; a constructed scope, refused in DER, holds nested
    /// OCTETSTRING chunks whose contents concatenate. The `depth`
    /// argument counts octet-string nesting for the CER chunk rules.
    fn content_octets(&mut self, pc: PCBit, vec: &mut Vec<u8>, depth: usize) -> (r: ASN1Result<
        (),
    >)
        requires
            old(self).wf(),
            !(old(self).tag_statev() is Implicit),
            depth <= old(self).depthv(),
        ensures
            final(self).wf(),
            final(self).same_scope(*old(self)),
            final(self).posi() >= old(self).posi(),
            final(vec)@.len() >= old(vec)@.len(),
            final(vec)@.subrange(0, old(vec)@.len() as int) == old(vec)@,
            !(final(self).tag_statev() is Implicit),
            old(self).modev() == BERMode::Cer && depth >= 2 ==> r == Err::<(), ASN1Error>(
                ASN1Error::Invalid,
            ) && final(self).posi() == old(self).posi() && final(self).tag_statev() == old(self).tag_statev(),
            old(self).modev() == BERMode::Cer && depth >= 1 && pc == PCBit::Constructed ==> r
                == Err::<(), ASN1Error>(ASN1Error::Invalid) && final(self).posi() == old(self).posi() && final(self).tag_statev() == old(self).tag_statev(),
            old(self).modev() == BERMode::Der || pc == PCBit::Primitive ==> ({
                let content = old(self).data().subrange(old(self).posi(), old(self).limiti());
                if old(self).modev() == BERMode::Cer && depth >= 2 {
                    r == Err::<(), ASN1Error>(ASN1Error::Invalid) && final(self).posi() == old(self).posi() && final(self).tag_statev() == old(self).tag_statev()
                } else if pc != PCBit::Primitive {
                    r == Err::<(), ASN1Error>(ASN1Error::Invalid) && final(self).posi() == old(self).posi() && final(self).tag_statev() == old(self).tag_statev()
                } else if old(self).modev() == BERMode::Cer && content.len() > 1000 {
                    r == Err::<(), ASN1Error>(ASN1Error::Invalid) && final(self).posi() == old(self).posi() && final(self).tag_statev() == old(self).tag_statev()
                } else {
                    r == Ok::<(), ASN1Error>(()) && final(self).posi() == old(self).limiti()
                        && final(self).tag_statev() == old(self).tag_statev() && final(vec)@
                        == old(vec)@ + content
                }
            }),
            pc == PCBit::Primitive && r is Ok ==> final(self).tag_statev() == old(self).tag_statev(),
        decreases
                (if old(self).wf() {
                    202 - old(self).depthv()
                } else {
                    0
                }),
                old(self).limiti() - old(self).posi(),
                2int,
    {
        if self.mode == BERMode::Cer && depth >= 2 {
            return Err(ASN1Error::Invalid);
        }
        if pc == PCBit::Constructed {
            if self.mode == BERMode::Der {
                return Err(ASN1Error::Invalid);
            }
            if self.mode == BERMode::Cer && depth >= 1 {
                return Err(ASN1Error::Invalid);
            }
            self.octets_elems(vec, depth, None)
        } else {
            if self.mode == BERMode::Cer && self.limit - self.pos > 1000 {
                return Err(ASN1Error::Invalid);
            }
            self.take_remaining_into(vec);
            Ok(())
        }
    }

    /// The constructed-OCTETSTRING loop: stop at the end of the scope
    /// or at a foreign identifier, else read a nested chunk and
    /// continue. In CER every chunk but the last must end the
    /// accumulated content on a 1000-octet boundary: `expected_len`
    /// records the first total that falls off a boundary, and the
    /// contract's final clause forbids any growth past it, so a
    /// ragged chunk can only be the last one.
    #[verifier::spinoff_prover]
    #[verifier::rlimit(100)]
    fn octets_elems(&mut self, vec: &mut Vec<u8>, depth: usize, expected_len: Option<usize>) -> (r:
        ASN1Result<()>)
        requires
            old(self).wf(),
            !(old(self).tag_statev() is Implicit),
            depth <= old(self).depthv(),
        ensures
            final(self).wf(),
            final(self).same_scope(*old(self)),
            final(self).posi() >= old(self).posi(),
            final(vec)@.len() >= old(vec)@.len(),
            final(vec)@.subrange(0, old(vec)@.len() as int) == old(vec)@,
            !(final(self).tag_statev() is Implicit),
            old(self).modev() == BERMode::Cer && r is Ok ==> (expected_len matches Some(l)
                ==> final(vec)@.len() == l),
        decreases
                (if old(self).wf() {
                    202 - old(self).depthv()
                } else {
                    0
                }),
                old(self).limiti() - old(self).posi(),
                1int,
    {
        let ghost entry = *self;
        let ghost vbase = old(vec)@;
        let mut expected = expected_len;
        loop
            invariant
                self.wf(),
                self.same_scope(entry),
                self.posi() >= entry.posi(),
                !(self.tag_statev() is Implicit),
                entry == *old(self),
                depth <= entry.depthv(),
                vbase == old(vec)@,
                vec@.len() >= vbase.len(),
                vec@.subrange(0, vbase.len() as int) == vbase,
                entry.modev() == BERMode::Cer ==> (expected_len matches Some(l) ==> expected
                    == Some(l)),
            decreases self.limiti() - self.posi(),
        {
            if self.pos == self.limit {
                return self.octets_elems_finish(vec, expected);
            }
            match self.peek_next() {
                Ok(u) => {
                    let _ = u;
                },
                Err(e) => {
                    return Err(e);
                },
            }
            let old_pos = self.pos;
            let ghost vec_mid = vec@;
            match self.parse_octetstring_impl(vec, depth + 1) {
                Ok(u) => {
                    let _ = u;
                    if self.mode == BERMode::Cer && vec.len() % 1000 != 0 {
                        if expected.is_some() {
                            proof {
                                lemma_prefix_trans(vbase, vec_mid, vec@);
                            }
                            return Err(ASN1Error::Invalid);
                        }
                        expected = Some(vec.len());
                    }
                    proof {
                        lemma_prefix_trans(vbase, vec_mid, vec@);
                    }
                },
                Err(e) => {
                    proof {
                        lemma_prefix_trans(vbase, vec_mid, vec@);
                    }
                    if self.pos == old_pos {
                        // A failed try that consumed nothing left the
                        // peeked identifier cached; the chunk run ends
                        // here.
                        return self.octets_elems_finish(vec, expected);
                    } else {
                        return Err(e);
                    }
                },
            }
        }
    }

    /// The CER check that closes a constructed OCTETSTRING: all chunks
    /// together must end on the recorded boundary.
    fn octets_elems_finish(&mut self, vec: &mut Vec<u8>, expected_len: Option<usize>) -> (r:
        ASN1Result<()>)
        requires
            old(self).wf(),
        ensures
            *final(self) == *old(self),
            *final(vec) == *old(vec),
            r is Ok ==> (expected_len matches Some(el) ==> old(vec)@.len() == el),
    {
        match expected_len {
            Some(el) => {
                if el != vec.len() {
                    return Err(ASN1Error::Invalid);
                }
            },
            None => {},
        }
        Ok(())
    }

    /// Reads an OCTETSTRING into a fresh buffer; nested chunks are
    /// flattened. The `depth` argument counts octet-string nesting for
    /// the CER chunk rules.
    #[verifier::spinoff_prover]
    #[verifier::rlimit(100)]
    fn parse_octetstring_impl(&mut self, vec: &mut Vec<u8>, depth: usize) -> (r: ASN1Result<()>)
        requires
            old(self).wf(),
            depth <= old(self).depthv() + 1,
        ensures
            final(self).wf(),
            final(self).same_scope(*old(self)),
            final(self).posi() >= old(self).posi(),
            final(vec)@.len() >= old(vec)@.len(),
            final(vec)@.subrange(0, old(vec)@.len() as int) == old(vec)@,
            !(old(self).tag_statev() is Implicit) ==> !(final(self).tag_statev() is Implicit),
            r is Ok ==> !(final(self).tag_statev() is Implicit),
            r is Ok && !(old(self).tag_statev() is Implicit) ==> final(self).posi() > old(self).posi(),
            !(old(self).tag_statev() is Implicit) && final(self).posi() == old(self).posi() ==> final(self).tag_statev() == old(self).tag_statev(),
            match sp_header(
                old(self).data(),
                old(self).posi(),
                old(self).limiti(),
                old(self).modev(),
                old(self).depthv(),
                old(self).tag_statev(),
                spec_univ_tag(4),
                TagType::Explicit,
            ) {
                HeadStep::HeadFail { kind, end, st } => r == Err::<(), ASN1Error>(kind) && final(self).posi() == end && final(self).tag_statev() == st,
                HeadStep::HeadOk { pc, length, end, limit2, st } => {
                    &&& (old(self).modev() == BERMode::Cer && depth >= 2 ==> r == Err::<
                        (),
                        ASN1Error,
                    >(ASN1Error::Invalid) && final(self).posi() == end && final(self).tag_statev() == st)
                    &&& (old(self).modev() == BERMode::Cer && depth >= 1 && pc
                        == PCBit::Constructed ==> r == Err::<(), ASN1Error>(ASN1Error::Invalid)
                        && final(self).posi() == end && final(self).tag_statev() == st)
                    &&& ((old(self).modev() == BERMode::Der || pc == PCBit::Primitive) ==> ({
                        let content = old(self).data().subrange(end, limit2);
                        if old(self).modev() == BERMode::Cer && depth >= 2 {
                            r == Err::<(), ASN1Error>(ASN1Error::Invalid) && final(self).posi()
                                == end && final(self).tag_statev() == st
                        } else if pc != PCBit::Primitive {
                            r == Err::<(), ASN1Error>(ASN1Error::Invalid) && final(self).posi()
                                == end && final(self).tag_statev() == st
                        } else if old(self).modev() == BERMode::Cer && content.len() > 1000 {
                            r == Err::<(), ASN1Error>(ASN1Error::Invalid) && final(self).posi()
                                == end && final(self).tag_statev() == st
                        } else {
                            r == Ok::<(), ASN1Error>(()) && final(self).posi() == limit2
                                && final(self).tag_statev() == st && final(vec)@ == old(vec)@
                                + content
                        }
                    }))
                },
            },
        decreases
                (if old(self).wf() {
                    202 - old(self).depthv()
                } else {
                    0
                }),
                old(self).limiti() - old(self).posi(),
                0int,
    {
        let frame = match self.parse_header(
            Tag { tag_class: TagClass::Universal, tag_number: 4 },
            TagType::Explicit,
        ) {
            Ok(f) => f,
            Err(e) => {
                return Err(e);
            },
        };
        let ghost vec0 = vec@;
        let inner = self.content_octets(frame.pc, vec, depth);
        let rr = self.close_frame(frame, inner);
        rr
    }

    /// Reads an OCTETSTRING as a byte vector. In DER only the
    /// primitive form is accepted and the result is exactly the
    /// content octets; in BER a constructed value concatenates its
    /// nested chunks; CER restricts chunk sizes and nesting.
    pub fn read_bytes(&mut self) -> (r: ASN1Result<Vec<u8>>)
        requires
            old(self).wf(),
        ensures
            final(self).wf(),
            final(self).same_scope(*old(self)),
            final(self).posi() >= old(self).posi(),
            r is Ok ==> !(final(self).tag_statev() is Implicit),
            r is Ok && !(old(self).tag_statev() is Implicit) ==> final(self).posi() > old(self).posi(),
            !(old(self).tag_statev() is Implicit) && final(self).posi() == old(self).posi() ==> final(self).tag_statev() == old(self).tag_statev(),
            old(self).modev() == BERMode::Der ==> match sp_read_octets_der(
                old(self).data(),
                old(self).posi(),
                old(self).limiti(),
                old(self).modev(),
                old(self).depthv(),
                old(self).tag_statev(),
            ) {
                RStep::RDone { v, end, st } => (r matches Ok(x) && x@ == v) && final(self).posi()
                    == end && final(self).tag_statev() == st,
                RStep::RFail { kind, end, st } => r == Err::<Vec<u8>, ASN1Error>(kind) && final(self).posi() == end && final(self).tag_statev() == st,
            },
            match sp_header(
                old(self).data(),
                old(self).posi(),
                old(self).limiti(),
                old(self).modev(),
                old(self).depthv(),
                old(self).tag_statev(),
                spec_univ_tag(4),
                TagType::Explicit,
            ) {
                HeadStep::HeadFail { kind, end, st } => r == Err::<Vec<u8>, ASN1Error>(kind)
                    && final(self).posi() == end && final(self).tag_statev() == st,
                HeadStep::HeadOk { pc, length, end, limit2, st } => pc == PCBit::Primitive
                    && !(old(self).modev() == BERMode::Cer && limit2 - end > 1000) ==> (
                r matches Ok(x) && x@ == old(self).data().subrange(end, limit2)) && final(self).posi() == limit2 && final(self).tag_statev() == st,
            },
    {
        let mut ret: Vec<u8> = Vec::new();
        proof {
            assert(ret@ =~= Seq::<u8>::empty());
        }
        match self.parse_octetstring_impl(&mut ret, 0) {
            Ok(u) => {
                let _ = u;
                proof {
                    assert(Seq::<u8>::empty() + old(self).data().subrange(0, 0) =~= Seq::<
                        u8,
                    >::empty());
                }
                Ok(ret)
            },
            Err(e) => Err(e),
        }
    }

    /// The INTEGER content rule at arbitrary precision: consumes the
    /// scope, checks minimality (and the sign when `nonneg` is set),
    /// and returns the content octets.
    fn content_int_any(&mut self, pc: PCBit, nonneg: bool) -> (r: ASN1Result<Vec<u8>>)
        requires
            old(self).wf(),
        ensures
            final(self).wf(),
            final(self).same_scope(*old(self)),
            final(self).tag_statev() == old(self).tag_statev(),
            pc != PCBit::Primitive ==> r == Err::<Vec<u8>, ASN1Error>(ASN1Error::Invalid)
                && final(self).posi() == old(self).posi(),
            pc == PCBit::Primitive ==> final(self).posi() == old(self).limiti() && ({
                let content = old(self).data().subrange(old(self).posi(), old(self).limiti());
                let n = old(self).limiti() - old(self).posi();
                if n == 0 {
                    r == Err::<Vec<u8>, ASN1Error>(ASN1Error::Invalid)
                } else if n >= 2 && ((content[0] == 0 && content[1] < 128) || (content[0] == 255
                    && content[1] >= 128)) {
                    r == Err::<Vec<u8>, ASN1Error>(ASN1Error::Invalid)
                } else if nonneg && content[0] >= 128 {
                    r == Err::<Vec<u8>, ASN1Error>(ASN1Error::IntegerOverflow)
                } else {
                    r matches Ok(x) && x@ == content
                }
            }),
    {
        if pc != PCBit::Primitive {
            return Err(ASN1Error::Invalid);
        }
        let start = self.pos;
        let limit = self.limit;
        self.pos = limit;
        let n = limit - start;
        if n == 0 {
            return Err(ASN1Error::Invalid);
        }
        let first = self.buf[start];
        if n >= 2 {
            let second = self.buf[start + 1];
            if (first == 0 && second < 128) || (first == 255 && second >= 128) {
                return Err(ASN1Error::Invalid);
            }
        }
        if nonneg && first >= 128 {
            return Err(ASN1Error::IntegerOverflow);
        }
        Ok(vstd::slice::slice_to_vec(vstd::slice::slice_subrange(self.buf, start, limit)))
    }

    /// Reads an INTEGER of arbitrary precision.
    pub fn read_bigint(&mut self) -> (r: ASN1Result<BigIntBytes>)
        requires
            old(self).wf(),
        ensures
            final(self).wf(),
            final(self).same_scope(*old(self)),
            final(self).posi() >= old(self).posi(),
            r is Ok ==> !(final(self).tag_statev() is Implicit),
            r is Ok && !(old(self).tag_statev() is Implicit) ==> final(self).posi() > old(self).posi(),
            !(old(self).tag_statev() is Implicit) && final(self).posi() == old(self).posi() ==> final(self).tag_statev() == old(self).tag_statev(),
            r matches Ok(b) ==> b.wf(),
            match sp_read_bigint(
                old(self).data(),
                old(self).posi(),
                old(self).limiti(),
                old(self).modev(),
                old(self).depthv(),
                old(self).tag_statev(),
                false,
            ) {
                RStep::RDone { v, end, st } => (r matches Ok(b) && b.contentv() == v) && final(self).posi() == end && final(self).tag_statev() == st,
                RStep::RFail { kind, end, st } => r == Err::<BigIntBytes, ASN1Error>(kind)
                    && final(self).posi() == end && final(self).tag_statev() == st,
            },
    {
        let frame = match self.parse_header(
            Tag { tag_class: TagClass::Universal, tag_number: 2 },
            TagType::Explicit,
        ) {
            Ok(f) => f,
            Err(e) => {
                return Err(e);
            },
        };
        let inner = match self.content_int_any(frame.pc, false) {
            Ok(content) => {
                match BigIntBytes::from_content(content) {
                    Some(b) => Ok(b),
                    None => Err(ASN1Error::Invalid),
                }
            },
            Err(e) => Err(e),
        };
        self.close_frame(frame, inner)
    }

    /// Reads a nonnegative INTEGER of arbitrary precision; a negative
    /// value is refused with `IntegerOverflow`.
    pub fn read_biguint(&mut self) -> (r: ASN1Result<BigIntBytes>)
        requires
            old(self).wf(),
        ensures
            final(self).wf(),
            final(self).same_scope(*old(self)),
            final(self).posi() >= old(self).posi(),
            r is Ok ==> !(final(self).tag_statev() is Implicit),
            r is Ok && !(old(self).tag_statev() is Implicit) ==> final(self).posi() > old(self).posi(),
            !(old(self).tag_statev() is Implicit) && final(self).posi() == old(self).posi() ==> final(self).tag_statev() == old(self).tag_statev(),
            r matches Ok(b) ==> b.wf() && b.valuev() >= 0,
            match sp_read_bigint(
                old(self).data(),
                old(self).posi(),
                old(self).limiti(),
                old(self).modev(),
                old(self).depthv(),
                old(self).tag_statev(),
                true,
            ) {
                RStep::RDone { v, end, st } => (r matches Ok(b) && b.contentv() == v) && final(self).posi() == end && final(self).tag_statev() == st,
                RStep::RFail { kind, end, st } => r == Err::<BigIntBytes, ASN1Error>(kind)
                    && final(self).posi() == end && final(self).tag_statev() == st,
            },
    {
        let frame = match self.parse_header(
            Tag { tag_class: TagClass::Universal, tag_number: 2 },
            TagType::Explicit,
        ) {
            Ok(f) => f,
            Err(e) => {
                return Err(e);
            },
        };
        let inner = match self.content_int_any(frame.pc, true) {
            Ok(content) => {
                match BigIntBytes::from_content(content) {
                    Some(b) => {
                        proof {
                            crate::encoding::lemma_int_of_twos_decomp(b.contentv());
                        }
                        Ok(b)
                    },
                    None => Err(ASN1Error::Invalid),
                }
            },
            Err(e) => Err(e),
        };
        self.close_frame(frame, inner)
    }

    /// The bytes between the cursor and the end of the active scope.
    pub fn remaining_buffer(&self) -> (r: &'a [u8])
        requires
            self.wf(),
        ensures
            r@ == self.data().subrange(self.posi(), self.limiti()),
    {
        vstd::slice::slice_subrange(self.buf, self.pos, self.limit)
    }

    /// Runs the caller's function on a reader that starts at the head
    /// of `buf` in the given mode, and then refuses trailing bytes.
    pub fn from_buf<T, F: FnOnce(&mut BERReader<'a>) -> ASN1Result<T>>(
        buf: &'a [u8],
        mode: BERMode,
        fun: F,
    ) -> (r: ASN1Result<T>)
        requires
            forall|m: &mut BERReader<'a>|
                fresh_reader(mut_ref_current(m), buf@, mode) ==> #[trigger] call_requires(
                    fun,
                    (m,),
                ),
            forall|m: &mut BERReader<'a>, inner: ASN1Result<T>|
                #[trigger] call_ensures(fun, (m,), inner) ==> (mut_ref_future(m).wf()
                    && mut_ref_future(m).same_scope(mut_ref_current(m)) && mut_ref_future(m).posi()
                    >= mut_ref_current(m).posi()),
        ensures
            exists|m: &mut BERReader<'a>, inner: ASN1Result<T>|
                {
                    &&& fresh_reader(mut_ref_current(m), buf@, mode)
                    &&& #[trigger] call_ensures(fun, (m,), inner)
                    &&& r == (match inner {
                        Ok(v) => if mut_ref_future(m).posi() == buf@.len() && !(
                        mut_ref_future(m).tag_statev() is Cached) {
                            Ok::<T, ASN1Error>(v)
                        } else {
                            Err::<T, ASN1Error>(ASN1Error::Extra)
                        },
                        Err(e) => Err::<T, ASN1Error>(e),
                    })
                },
    {
        let mut parser = BERReader::new(buf, mode);
        let result = fun(&mut parser);
        match result {
            Ok(v) => {
                match parser.end_of_buf() {
                    Ok(u) => {
                        let _ = u;
                        Ok(v)
                    },
                    Err(e) => Err(e),
                }
            },
            Err(e) => Err(e),
        }
    }

    /// Enters a TLV with the given tag and tag type and hands the
    /// scope to the caller's function; an explicit tag must wrap a
    /// constructed value. The scope is checked and left on every path.
    pub fn parse_tagged<T, F: FnOnce(&mut BERReader<'a>) -> ASN1Result<T>>(
        &mut self,
        tag: Tag,
        tag_type: TagType,
        fun: F,
    ) -> (r: ASN1Result<T>)
        requires
            old(self).wf(),
            forall|m: &mut BERReader<'a>|
                (mut_ref_current(m).wf() && mut_ref_current(m).data() == old(self).data()
                    && mut_ref_current(m).modev() == old(self).modev()) ==> #[trigger] call_requires(
                    fun,
                    (m,),
                ),
            forall|m: &mut BERReader<'a>, inner: ASN1Result<T>|
                #[trigger] call_ensures(fun, (m,), inner) ==> (mut_ref_future(m).wf()
                    && mut_ref_future(m).same_scope(mut_ref_current(m)) && mut_ref_future(m).posi() >= mut_ref_current(m).posi()),
        ensures
            final(self).wf(),
            final(self).same_scope(*old(self)),
            final(self).posi() >= old(self).posi(),
            match sp_header(
                old(self).data(),
                old(self).posi(),
                old(self).limiti(),
                old(self).modev(),
                old(self).depthv(),
                old(self).tag_statev(),
                tag,
                tag_type,
            ) {
                HeadStep::HeadFail { kind, end, st } => r == Err::<T, ASN1Error>(kind) && final(self).posi() == end && final(self).tag_statev() == st,
                HeadStep::HeadOk { pc, length, end, limit2, st } => {
                    if tag_type == TagType::Explicit && pc != PCBit::Constructed {
                        r == Err::<T, ASN1Error>(ASN1Error::Invalid) && final(self).posi() == end
                            && final(self).tag_statev() == st
                    } else {
                        exists|m: &mut BERReader<'a>, inner: ASN1Result<T>|
                            {
                                &&& mut_ref_current(m).wf()
                                &&& mut_ref_current(m).data() == old(self).data()
                                &&& mut_ref_current(m).posi() == end
                                &&& mut_ref_current(m).limiti() == limit2
                                &&& mut_ref_current(m).modev() == old(self).modev()
                                &&& mut_ref_current(m).depthv() == old(self).depthv() + 1
                                &&& mut_ref_current(m).tag_statev() == st
                                &&& #[trigger] call_ensures(fun, (m,), inner)
                                &&& rstep_matches(
                                    sp_close(
                                        old(self).data(),
                                        mut_ref_future(m).posi(),
                                        limit2,
                                        mut_ref_future(m).tag_statev(),
                                        length,
                                        inner,
                                    ),
                                    r,
                                    final(self).posi(),
                                    final(self).tag_statev(),
                                )
                            }
                    }
                },
            },
    {
        let frame = match self.parse_header(tag, tag_type) {
            Ok(f) => f,
            Err(e) => {
                return Err(e);
            },
        };
        if tag_type == TagType::Explicit && frame.pc != PCBit::Constructed {
            let inner: ASN1Result<T> = Err(ASN1Error::Invalid);
            return self.close_frame(frame, inner);
        }
        let inner = fun(self);
        self.close_frame(frame, inner)
    }

    /// Enters a SEQUENCE scope and hands it to the caller's function.
    pub fn parse_sequence<T, F: FnOnce(&mut BERReader<'a>) -> ASN1Result<T>>(
        &mut self,
        fun: F,
    ) -> (r: ASN1Result<T>)
        requires
            old(self).wf(),
            forall|m: &mut BERReader<'a>|
                (mut_ref_current(m).wf() && mut_ref_current(m).data() == old(self).data()
                    && mut_ref_current(m).modev() == old(self).modev()) ==> #[trigger] call_requires(
                    fun,
                    (m,),
                ),
            forall|m: &mut BERReader<'a>, inner: ASN1Result<T>|
                #[trigger] call_ensures(fun, (m,), inner) ==> (mut_ref_future(m).wf()
                    && mut_ref_future(m).same_scope(mut_ref_current(m)) && mut_ref_future(m).posi() >= mut_ref_current(m).posi()),
        ensures
            final(self).wf(),
            final(self).same_scope(*old(self)),
            final(self).posi() >= old(self).posi(),
            match sp_header(
                old(self).data(),
                old(self).posi(),
                old(self).limiti(),
                old(self).modev(),
                old(self).depthv(),
                old(self).tag_statev(),
                spec_univ_tag(16),
                TagType::Explicit,
            ) {
                HeadStep::HeadFail { kind, end, st } => r == Err::<T, ASN1Error>(kind) && final(self).posi() == end && final(self).tag_statev() == st,
                HeadStep::HeadOk { pc, length, end, limit2, st } => {
                    if pc != PCBit::Constructed {
                        r == Err::<T, ASN1Error>(ASN1Error::Invalid) && final(self).posi() == end
                            && final(self).tag_statev() == st
                    } else {
                        exists|m: &mut BERReader<'a>, inner: ASN1Result<T>|
                            {
                                &&& mut_ref_current(m).wf()
                                &&& mut_ref_current(m).data() == old(self).data()
                                &&& mut_ref_current(m).posi() == end
                                &&& mut_ref_current(m).limiti() == limit2
                                &&& mut_ref_current(m).modev() == old(self).modev()
                                &&& mut_ref_current(m).depthv() == old(self).depthv() + 1
                                &&& mut_ref_current(m).tag_statev() == st
                                &&& #[trigger] call_ensures(fun, (m,), inner)
                                &&& rstep_matches(
                                    sp_close(
                                        old(self).data(),
                                        mut_ref_future(m).posi(),
                                        limit2,
                                        mut_ref_future(m).tag_statev(),
                                        length,
                                        inner,
                                    ),
                                    r,
                                    final(self).posi(),
                                    final(self).tag_statev(),
                                )
                            }
                    }
                },
            },
    {
        self.parse_tagged(
            Tag { tag_class: TagClass::Universal, tag_number: 16 },
            TagType::Explicit,
            fun,
        )
    }

    /// Enters a SET scope and hands it to the caller's function.
    pub fn parse_set<T, F: FnOnce(&mut BERReader<'a>) -> ASN1Result<T>>(&mut self, fun: F) -> (r:
        ASN1Result<T>)
        requires
            old(self).wf(),
            forall|m: &mut BERReader<'a>|
                (mut_ref_current(m).wf() && mut_ref_current(m).data() == old(self).data()
                    && mut_ref_current(m).modev() == old(self).modev()) ==> #[trigger] call_requires(
                    fun,
                    (m,),
                ),
            forall|m: &mut BERReader<'a>, inner: ASN1Result<T>|
                #[trigger] call_ensures(fun, (m,), inner) ==> (mut_ref_future(m).wf()
                    && mut_ref_future(m).same_scope(mut_ref_current(m)) && mut_ref_future(m).posi() >= mut_ref_current(m).posi()),
        ensures
            final(self).wf(),
            final(self).same_scope(*old(self)),
            final(self).posi() >= old(self).posi(),
            match sp_header(
                old(self).data(),
                old(self).posi(),
                old(self).limiti(),
                old(self).modev(),
                old(self).depthv(),
                old(self).tag_statev(),
                spec_univ_tag(17),
                TagType::Explicit,
            ) {
                HeadStep::HeadFail { kind, end, st } => r == Err::<T, ASN1Error>(kind) && final(self).posi() == end && final(self).tag_statev() == st,
                HeadStep::HeadOk { pc, length, end, limit2, st } => {
                    if pc != PCBit::Constructed {
                        r == Err::<T, ASN1Error>(ASN1Error::Invalid) && final(self).posi() == end
                            && final(self).tag_statev() == st
                    } else {
                        exists|m: &mut BERReader<'a>, inner: ASN1Result<T>|
                            {
                                &&& mut_ref_current(m).wf()
                                &&& mut_ref_current(m).data() == old(self).data()
                                &&& mut_ref_current(m).posi() == end
                                &&& mut_ref_current(m).limiti() == limit2
                                &&& mut_ref_current(m).modev() == old(self).modev()
                                &&& mut_ref_current(m).depthv() == old(self).depthv() + 1
                                &&& mut_ref_current(m).tag_statev() == st
                                &&& #[trigger] call_ensures(fun, (m,), inner)
                                &&& rstep_matches(
                                    sp_close(
                                        old(self).data(),
                                        mut_ref_future(m).posi(),
                                        limit2,
                                        mut_ref_future(m).tag_statev(),
                                        length,
                                        inner,
                                    ),
                                    r,
                                    final(self).posi(),
                                    final(self).tag_statev(),
                                )
                            }
                    }
                },
            },
    {
        self.parse_tagged(
            Tag { tag_class: TagClass::Universal, tag_number: 17 },
            TagType::Explicit,
            fun,
        )
    }

    /// Tries the caller's function on the next value: at the end of
    /// the scope there is no next value; if the function fails before
    /// consuming anything beyond the peeked identifier, there is no
    /// matching value either; a failure after consuming is an error.
    /// This rule is what makes try-this-tag-else-fall-back dispatch
    /// composable without backtracking.
    pub fn parse_optional<T, F: FnOnce(&mut BERReader<'a>) -> ASN1Result<T>>(
        &mut self,
        fun: F,
    ) -> (r: ASN1Result<Option<T>>)
        requires
            old(self).wf(),
            forall|m: &mut BERReader<'a>|
                (mut_ref_current(m).wf() && mut_ref_current(m).data() == old(self).data()
                    && mut_ref_current(m).modev() == old(self).modev()) ==> #[trigger] call_requires(
                    fun,
                    (m,),
                ),
            forall|m: &mut BERReader<'a>, inner: ASN1Result<T>|
                #[trigger] call_ensures(fun, (m,), inner) ==> (mut_ref_future(m).wf()
                    && mut_ref_future(m).same_scope(mut_ref_current(m)) && mut_ref_future(m).posi() >= mut_ref_current(m).posi()),
        ensures
            final(self).wf(),
            final(self).same_scope(*old(self)),
            final(self).posi() >= old(self).posi(),
            old(self).posi() == old(self).limiti() ==> r == Ok::<Option<T>, ASN1Error>(None)
                && *final(self) == *old(self),
            old(self).posi() < old(self).limiti() ==> ({
                let peeked = if old(self).tag_statev() is Fresh {
                    sp_identifier(old(self).data(), old(self).posi(), old(self).limiti())
                } else {
                    Step::Done { v: (spec_univ_tag(0), PCBit::Primitive), end: old(self).posi() }
                };
                match peeked {
                    Step::Fail { kind, end } => r == Err::<Option<T>, ASN1Error>(kind) && final(self).posi() == end && final(self).tag_statev() == old(self).tag_statev(),
                    Step::Done { v: peeked_id, end } => {
                        let pst = if old(self).tag_statev() is Fresh {
                            TagState::Cached(peeked_id.0, peeked_id.1)
                        } else {
                            old(self).tag_statev()
                        };
                        exists|m: &mut BERReader<'a>, inner: ASN1Result<T>|
                            {
                                &&& mut_ref_current(m).wf()
                                &&& mut_ref_current(m).data() == old(self).data()
                                &&& mut_ref_current(m).posi() == end
                                &&& mut_ref_current(m).limiti() == old(self).limiti()
                                &&& mut_ref_current(m).modev() == old(self).modev()
                                &&& mut_ref_current(m).depthv() == old(self).depthv()
                                &&& mut_ref_current(m).tag_statev() == pst
                                &&& #[trigger] call_ensures(fun, (m,), inner)
                                &&& *final(self) == mut_ref_future(m)
                                &&& (match inner {
                                    Ok(v) => r == Ok::<Option<T>, ASN1Error>(Some(v)),
                                    Err(e) => if mut_ref_future(m).posi() == end {
                                        r == Ok::<Option<T>, ASN1Error>(None)
                                    } else {
                                        r == Err::<Option<T>, ASN1Error>(e)
                                    },
                                })
                            }
                    },
                }
            }),
    {
        if self.pos == self.limit {
            return Ok(None);
        }
        match self.tag_state {
            TagState::Fresh => {
                let (t, pc) = match self.parse_identifier() {
                    Ok(v) => v,
                    Err(e) => {
                        return Err(e);
                    },
                };
                self.tag_state = TagState::Cached(t, pc);
            },
            _ => {},
        }
        let old_pos = self.pos;
        let result = fun(self);
        match result {
            Ok(v) => Ok(Some(v)),
            Err(e) => {
                if self.pos == old_pos {
                    Ok(None)
                } else {
                    Err(e)
                }
            },
        }
    }

    /// Like `parse_optional`, but yields `default` when there is no
    /// value; in the canonical modes a value equal to the default must
    /// have been omitted, so finding one is an error.
    pub fn parse_default<T: Eq, F: FnOnce(&mut BERReader<'a>) -> ASN1Result<T>>(
        &mut self,
        default: T,
        fun: F,
    ) -> (r: ASN1Result<T>)
        requires
            old(self).wf(),
            forall|m: &mut BERReader<'a>|
                (mut_ref_current(m).wf() && mut_ref_current(m).data() == old(self).data()
                    && mut_ref_current(m).modev() == old(self).modev()) ==> #[trigger] call_requires(
                    fun,
                    (m,),
                ),
            forall|m: &mut BERReader<'a>, inner: ASN1Result<T>|
                #[trigger] call_ensures(fun, (m,), inner) ==> (mut_ref_future(m).wf()
                    && mut_ref_future(m).same_scope(mut_ref_current(m)) && mut_ref_future(m).posi() >= mut_ref_current(m).posi()),
        ensures
            final(self).wf(),
            final(self).same_scope(*old(self)),
            final(self).posi() >= old(self).posi(),
            old(self).posi() == old(self).limiti() ==> (r matches Ok(v) && v == default)
                && final(self).posi() == old(self).posi() && final(self).tag_statev() == old(self).tag_statev(),
            old(self).posi() < old(self).limiti() ==> ({
                let strict = old(self).modev() == BERMode::Der || old(self).modev()
                    == BERMode::Cer;
                let peeked = if old(self).tag_statev() is Fresh {
                    sp_identifier(old(self).data(), old(self).posi(), old(self).limiti())
                } else {
                    Step::Done { v: (spec_univ_tag(0), PCBit::Primitive), end: old(self).posi() }
                };
                match peeked {
                    Step::Fail { kind, end } => r == Err::<T, ASN1Error>(kind) && final(self).posi() == end && final(self).tag_statev() == old(self).tag_statev(),
                    Step::Done { v: peeked_id, end } => {
                        let pst = if old(self).tag_statev() is Fresh {
                            TagState::Cached(peeked_id.0, peeked_id.1)
                        } else {
                            old(self).tag_statev()
                        };
                        exists|m: &mut BERReader<'a>, inner: ASN1Result<T>|
                            {
                                &&& mut_ref_current(m).wf()
                                &&& mut_ref_current(m).data() == old(self).data()
                                &&& mut_ref_current(m).posi() == end
                                &&& mut_ref_current(m).limiti() == old(self).limiti()
                                &&& mut_ref_current(m).modev() == old(self).modev()
                                &&& mut_ref_current(m).depthv() == old(self).depthv()
                                &&& mut_ref_current(m).tag_statev() == pst
                                &&& #[trigger] call_ensures(fun, (m,), inner)
                                &&& *final(self) == mut_ref_future(m)
                                &&& (match inner {
                                    Ok(v) => {
                                        if strict {
                                            if <T as vstd::std_specs::cmp::PartialEqSpec>::obeys_eq_spec() {
                                                r == (if v.eq_spec(&default) {
                                                    Err::<T, ASN1Error>(ASN1Error::Invalid)
                                                } else {
                                                    Ok::<T, ASN1Error>(v)
                                                })
                                            } else {
                                                r == Err::<T, ASN1Error>(ASN1Error::Invalid) || r
                                                    == Ok::<T, ASN1Error>(v)
                                            }
                                        } else {
                                            r == Ok::<T, ASN1Error>(v)
                                        }
                                    },
                                    Err(e) => if mut_ref_future(m).posi() == end {
                                        r matches Ok(d) && d == default
                                    } else {
                                        r == Err::<T, ASN1Error>(e)
                                    },
                                })
                            }
                    },
                }
            }),
    {
        let strict = self.mode == BERMode::Der || self.mode == BERMode::Cer;
        match self.parse_optional(fun) {
            Ok(Some(result)) => {
                if strict && result == default {
                    return Err(ASN1Error::Invalid);
                }
                Ok(result)
            },
            Ok(None) => Ok(default),
            Err(e) => Err(e),
        }
    }

    /// Runs the caller's function and also returns the exact bytes it
    /// consumed.
    pub fn parse_with_buffer<T, F: FnOnce(&mut BERReader<'a>) -> ASN1Result<T>>(
        &mut self,
        fun: F,
    ) -> (r: ASN1Result<(T, &'a [u8])>)
        requires
            old(self).wf(),
            forall|m: &mut BERReader<'a>|
                (mut_ref_current(m).wf() && mut_ref_current(m).data() == old(self).data()
                    && mut_ref_current(m).modev() == old(self).modev()) ==> #[trigger] call_requires(
                    fun,
                    (m,),
                ),
            forall|m: &mut BERReader<'a>, inner: ASN1Result<T>|
                #[trigger] call_ensures(fun, (m,), inner) ==> (mut_ref_future(m).wf()
                    && mut_ref_future(m).same_scope(mut_ref_current(m)) && mut_ref_future(m).posi() >= mut_ref_current(m).posi()),
        ensures
            final(self).wf(),
            final(self).same_scope(*old(self)),
            final(self).posi() >= old(self).posi(),
            r matches Ok(p) ==> p.1@ == old(self).data().subrange(
                old(self).posi(),
                final(self).posi(),
            ),
            exists|m: &mut BERReader<'a>, inner: ASN1Result<T>|
                {
                    &&& mut_ref_current(m) == *old(self)
                    &&& #[trigger] call_ensures(fun, (m,), inner)
                    &&& *final(self) == mut_ref_future(m)
                    &&& (match inner {
                        Ok(v) => r matches Ok(p) && p.0 == v,
                        Err(e) => r == Err::<(T, &'a [u8]), ASN1Error>(e),
                    })
                },
    {
        let old_pos = self.pos;
        let result = match fun(self) {
            Ok(v) => v,
            Err(e) => {
                return Err(e);
            },
        };
        let captured = vstd::slice::slice_subrange(self.buf, old_pos, self.pos);
        Ok((result, captured))
    }

    /// Reads one TLV of unknown tag as an opaque fragment: the
    /// identifier is taken as it comes, the length must be definite,
    /// and the content octets are captured verbatim.
    pub fn read_tagged_der(&mut self) -> (r: ASN1Result<TaggedDerValue>)
        requires
            old(self).wf(),
        ensures
            final(self).wf(),
            final(self).same_scope(*old(self)),
            final(self).posi() >= old(self).posi(),
            r is Ok ==> !(final(self).tag_statev() is Implicit),
            r is Ok && !(old(self).tag_statev() is Implicit) ==> final(self).posi() > old(self).posi(),
            !(old(self).tag_statev() is Implicit) && final(self).posi() == old(self).posi() ==> final(self).tag_statev() == old(self).tag_statev(),
            match sp_read_tagged_der(
                old(self).data(),
                old(self).posi(),
                old(self).limiti(),
                old(self).modev(),
                old(self).depthv(),
                old(self).tag_statev(),
            ) {
                RStep::RDone { v, end, st } => (r matches Ok(t) && t.tagv() == v.0 && t.pcbitv()
                    == v.1 && t.valuev() == v.2) && final(self).posi() == end && final(self).tag_statev() == st,
                RStep::RFail { kind, end, st } => r == Err::<TaggedDerValue, ASN1Error>(kind)
                    && final(self).posi() == end && final(self).tag_statev() == st,
            },
    {
        if self.depth > 100 {
            return Err(ASN1Error::StackOverflow);
        }
        let (t, pc) = match self.tag_state {
            TagState::Implicit(_, _) => {
                return Err(ASN1Error::Invalid);
            },
            TagState::Fresh => {
                match self.parse_identifier() {
                    Ok(v) => v,
                    Err(e) => {
                        return Err(e);
                    },
                }
            },
            TagState::Cached(t, pc) => (t, pc),
        };
        let l = match self.parse_length() {
            Ok(Some(l)) => l,
            Ok(None) => {
                return Err(ASN1Error::Invalid);
            },
            Err(e) => {
                return Err(e);
            },
        };
        if l > self.limit - self.pos {
            return Err(ASN1Error::Eof);
        }
        self.tag_state = TagState::Fresh;
        let content = vstd::slice::slice_to_vec(
            vstd::slice::slice_subrange(self.buf, self.pos, self.pos + l),
        );
        self.pos = self.pos + l;
        Ok(TaggedDerValue::from_tag_pc_and_bytes(t, pc, content))
    }

    /// The BITSTRING content rule: the first content octet counts the
    /// unused bits of the final octet and must be below 8; the rest
    /// are the bits. The constructed form is not accepted.
    fn content_bitstring(&mut self, pc: PCBit) -> (r: ASN1Result<BitString>)
        requires
            old(self).wf(),
        ensures
            final(self).wf(),
            final(self).same_scope(*old(self)),
            final(self).tag_statev() == old(self).tag_statev(),
            pc != PCBit::Primitive ==> r == Err::<BitString, ASN1Error>(ASN1Error::Invalid)
                && final(self).posi() == old(self).posi(),
            pc == PCBit::Primitive ==> final(self).posi() == old(self).limiti() && ({
                let content = old(self).data().subrange(old(self).posi(), old(self).limiti());
                if content.len() == 0 {
                    r matches Ok(b) && b.unused_bits == 0 && b.buf@ == Seq::<u8>::empty()
                } else if content.first() > 7 {
                    r == Err::<BitString, ASN1Error>(ASN1Error::Invalid)
                } else {
                    r matches Ok(b) && b.unused_bits == content.first() && b.buf@
                        == content.drop_first()
                }
            }),
    {
        if pc != PCBit::Primitive {
            return Err(ASN1Error::Invalid);
        }
        let start = self.pos;
        let limit = self.limit;
        self.pos = limit;
        if limit - start == 0 {
            return Ok(BitString::from_buf(0, Vec::new()));
        }
        let first = self.buf[start];
        if first > 7 {
            return Err(ASN1Error::Invalid);
        }
        let rest = vstd::slice::slice_to_vec(
            vstd::slice::slice_subrange(self.buf, start + 1, limit),
        );
        Ok(BitString::from_buf(first as usize, rest))
    }

    /// Reads a BITSTRING in its primitive form.
    fn parse_bitstring(&mut self) -> (r: ASN1Result<BitString>)
        requires
            old(self).wf(),
        ensures
            final(self).wf(),
            final(self).same_scope(*old(self)),
            final(self).posi() >= old(self).posi(),
            r is Ok ==> !(final(self).tag_statev() is Implicit),
            r is Ok && !(old(self).tag_statev() is Implicit) ==> final(self).posi() > old(self).posi(),
            !(old(self).tag_statev() is Implicit) && final(self).posi() == old(self).posi() ==> final(self).tag_statev() == old(self).tag_statev(),
            match sp_read_bitstring(
                old(self).data(),
                old(self).posi(),
                old(self).limiti(),
                old(self).modev(),
                old(self).depthv(),
                old(self).tag_statev(),
            ) {
                RStep::RDone { v, end, st } => (r matches Ok(b) && b.unused_bits as int == v.0
                    && b.buf@ == v.1) && final(self).posi() == end && final(self).tag_statev()
                    == st,
                RStep::RFail { kind, end, st } => r == Err::<BitString, ASN1Error>(kind)
                    && final(self).posi() == end && final(self).tag_statev() == st,
            },
    {
        let frame = match self.parse_header(
            Tag { tag_class: TagClass::Universal, tag_number: 3 },
            TagType::Explicit,
        ) {
            Ok(f) => f,
            Err(e) => {
                return Err(e);
            },
        };
        let inner = self.content_bitstring(frame.pc);
        self.close_frame(frame, inner)
    }

    /// Reads an OCTETSTRING; kept under its first-generation name.
    pub fn parse_octetstring(&mut self) -> (r: ASN1Result<Vec<u8>>)
        requires
            old(self).wf(),
        ensures
            final(self).wf(),
            final(self).same_scope(*old(self)),
            final(self).posi() >= old(self).posi(),
            r is Ok ==> !(final(self).tag_statev() is Implicit),
            r is Ok && !(old(self).tag_statev() is Implicit) ==> final(self).posi() > old(self).posi(),
            !(old(self).tag_statev() is Implicit) && final(self).posi() == old(self).posi() ==> final(self).tag_statev() == old(self).tag_statev(),
            old(self).modev() == BERMode::Der ==> match sp_read_octets_der(
                old(self).data(),
                old(self).posi(),
                old(self).limiti(),
                old(self).modev(),
                old(self).depthv(),
                old(self).tag_statev(),
            ) {
                RStep::RDone { v, end, st } => (r matches Ok(x) && x@ == v) && final(self).posi()
                    == end && final(self).tag_statev() == st,
                RStep::RFail { kind, end, st } => r == Err::<Vec<u8>, ASN1Error>(kind) && final(self).posi() == end && final(self).tag_statev() == st,
            },
    {
        self.read_bytes()
    }

    /// Reads an implicitly tagged OCTETSTRING under the given
    /// universal tag number: the frame for PrintableString, UTCTime
    /// and the other string types.
    fn read_string_bytes(&mut self, tag_number: u64) -> (r: ASN1Result<Vec<u8>>)
        requires
            old(self).wf(),
        ensures
            final(self).wf(),
            final(self).same_scope(*old(self)),
            final(self).posi() >= old(self).posi(),
            r is Ok ==> !(final(self).tag_statev() is Implicit),
            r is Ok && !(old(self).tag_statev() is Implicit) ==> final(self).posi() > old(self).posi(),
            !(old(self).tag_statev() is Implicit) && final(self).posi() == old(self).posi() ==> final(self).tag_statev() == old(self).tag_statev(),
            old(self).modev() == BERMode::Der && old(self).depthv() < depth_limit()
                ==> match sp_read_string_der(
                old(self).data(),
                old(self).posi(),
                old(self).limiti(),
                old(self).modev(),
                old(self).depthv(),
                old(self).tag_statev(),
                tag_number,
            ) {
                RStep::RDone { v, end, st } => (r matches Ok(x) && x@ == v) && final(self).posi()
                    == end && final(self).tag_statev() == st,
                RStep::RFail { kind, end, st } => r == Err::<Vec<u8>, ASN1Error>(kind) && final(self).posi() == end && final(self).tag_statev() == st,
            },
            old(self).depthv() < depth_limit() ==> match sp_header(
                old(self).data(),
                old(self).posi(),
                old(self).limiti(),
                old(self).modev(),
                old(self).depthv(),
                old(self).tag_statev(),
                spec_univ_tag(tag_number),
                TagType::Implicit,
            ) {
                HeadStep::HeadFail { kind, end, st } => r == Err::<Vec<u8>, ASN1Error>(kind)
                    && final(self).posi() == end && final(self).tag_statev() == st,
                HeadStep::HeadOk { pc, length, end, limit2, st } => (pc == PCBit::Primitive && !(
                old(self).modev() == BERMode::Cer && limit2 - end > 1000)) ==> (r matches Ok(x)
                    && x@ == old(self).data().subrange(end, limit2)) && final(self).posi()
                    == limit2 && final(self).tag_statev() == TagState::Fresh,
            },
    {
        let frame = match self.parse_header(
            Tag { tag_class: TagClass::Universal, tag_number },
            TagType::Implicit,
        ) {
            Ok(f) => f,
            Err(e) => {
                return Err(e);
            },
        };
        let mut octets: Vec<u8> = Vec::new();
        let inner = match self.parse_octetstring_impl(&mut octets, 0) {
            Ok(u) => {
                let _ = u;
                Ok(octets)
            },
            Err(e) => Err(e),
        };
        let rr = self.close_frame(frame, inner);
        rr
    }

    /// Reads a PrintableString, refusing octets outside the charset.
    pub fn read_printable_string(&mut self) -> (r: ASN1Result<PrintableString>)
        requires
            old(self).wf(),
        ensures
            final(self).wf(),
            final(self).same_scope(*old(self)),
            final(self).posi() >= old(self).posi(),
            r is Ok ==> !(final(self).tag_statev() is Implicit),
            r is Ok && !(old(self).tag_statev() is Implicit) ==> final(self).posi() > old(self).posi(),
            !(old(self).tag_statev() is Implicit) && final(self).posi() == old(self).posi() ==> final(self).tag_statev() == old(self).tag_statev(),
            r matches Ok(p) ==> (forall|i: int|
                0 <= i < p.bytesv().len() ==> crate::basics::spec_printable(
                    #[trigger] p.bytesv()[i],
                )),
            old(self).depthv() < depth_limit() ==> match sp_header(
                old(self).data(),
                old(self).posi(),
                old(self).limiti(),
                old(self).modev(),
                old(self).depthv(),
                old(self).tag_statev(),
                spec_univ_tag(19),
                TagType::Implicit,
            ) {
                HeadStep::HeadFail { kind, end, st } => r == Err::<PrintableString, ASN1Error>(
                    kind,
                ) && final(self).posi() == end && final(self).tag_statev() == st,
                HeadStep::HeadOk { pc, length, end, limit2, st } => (pc == PCBit::Primitive && !(
                old(self).modev() == BERMode::Cer && limit2 - end > 1000)) ==> ({
                    let content = old(self).data().subrange(end, limit2);
                    &&& final(self).posi() == limit2
                    &&& final(self).tag_statev() == TagState::Fresh
                    &&& (match r {
                        Ok(p) => p.bytesv() == content && (forall|i: int|
                            0 <= i < content.len() ==> crate::basics::spec_printable(
                                #[trigger] content[i],
                            )),
                        Err(e) => e == ASN1Error::Invalid && !(forall|i: int|
                            0 <= i < content.len() ==> crate::basics::spec_printable(
                                #[trigger] content[i],
                            )),
                    })
                }),
            },
            old(self).modev() == BERMode::Der && old(self).depthv() < depth_limit()
                ==> match sp_read_string_der(
                old(self).data(),
                old(self).posi(),
                old(self).limiti(),
                old(self).modev(),
                old(self).depthv(),
                old(self).tag_statev(),
                19,
            ) {
                RStep::RDone { v, end, st } => final(self).posi() == end && final(self).tag_statev() == st && (match r {
                    Ok(p) => p.bytesv() == v && (forall|i: int|
                        0 <= i < v.len() ==> crate::basics::spec_printable(#[trigger] v[i])),
                    Err(e) => e == ASN1Error::Invalid && !(forall|i: int|
                        0 <= i < v.len() ==> crate::basics::spec_printable(#[trigger] v[i])),
                }),
                RStep::RFail { kind, end, st } => r == Err::<PrintableString, ASN1Error>(kind)
                    && final(self).posi() == end && final(self).tag_statev() == st,
            },
    {
        let octets = match self.read_string_bytes(19) {
            Ok(o) => o,
            Err(e) => {
                return Err(e);
            },
        };
        match PrintableString::from_bytes(octets) {
            Some(p) => Ok(p),
            None => Err(ASN1Error::Invalid),
        }
    }

    /// Reads a UTF8String, refusing ill-formed UTF-8 octets.
    pub fn read_utf8string(&mut self) -> (r: ASN1Result<Utf8String>)
        requires
            old(self).wf(),
        ensures
            final(self).wf(),
            final(self).same_scope(*old(self)),
            final(self).posi() >= old(self).posi(),
            r is Ok ==> !(final(self).tag_statev() is Implicit),
            r is Ok && !(old(self).tag_statev() is Implicit) ==> final(self).posi() > old(self).posi(),
            !(old(self).tag_statev() is Implicit) && final(self).posi() == old(self).posi() ==> final(self).tag_statev() == old(self).tag_statev(),
            r matches Ok(p) ==> crate::models::valid_utf8(p.bytesv()),
            old(self).depthv() < depth_limit() ==> match sp_header(
                old(self).data(),
                old(self).posi(),
                old(self).limiti(),
                old(self).modev(),
                old(self).depthv(),
                old(self).tag_statev(),
                spec_univ_tag(12),
                TagType::Implicit,
            ) {
                HeadStep::HeadFail { kind, end, st } => r == Err::<Utf8String, ASN1Error>(kind)
                    && final(self).posi() == end && final(self).tag_statev() == st,
                HeadStep::HeadOk { pc, length, end, limit2, st } => (pc == PCBit::Primitive && !(
                old(self).modev() == BERMode::Cer && limit2 - end > 1000)) ==> ({
                    let content = old(self).data().subrange(end, limit2);
                    &&& final(self).posi() == limit2
                    &&& final(self).tag_statev() == TagState::Fresh
                    &&& (match r {
                        Ok(p) => p.bytesv() == content && crate::models::valid_utf8(content),
                        Err(e) => e == ASN1Error::Invalid && !crate::models::valid_utf8(content),
                    })
                }),
            },
            old(self).modev() == BERMode::Der && old(self).depthv() < depth_limit()
                ==> match sp_read_string_der(
                old(self).data(),
                old(self).posi(),
                old(self).limiti(),
                old(self).modev(),
                old(self).depthv(),
                old(self).tag_statev(),
                12,
            ) {
                RStep::RDone { v, end, st } => final(self).posi() == end && final(self).tag_statev() == st && (match r {
                    Ok(p) => p.bytesv() == v && crate::models::valid_utf8(v),
                    Err(e) => e == ASN1Error::Invalid && !crate::models::valid_utf8(v),
                }),
                RStep::RFail { kind, end, st } => r == Err::<Utf8String, ASN1Error>(kind)
                    && final(self).posi() == end && final(self).tag_statev() == st,
            },
    {
        let octets = match self.read_string_bytes(12) {
            Ok(o) => o,
            Err(e) => {
                return Err(e);
            },
        };
        match Utf8String::from_bytes(octets) {
            Some(p) => Ok(p),
            None => Err(ASN1Error::Invalid),
        }
    }

    /// Reads a UTCTime value, retaining its raw octets.
    pub fn read_utctime(&mut self) -> (r: ASN1Result<UtcTime>)
        requires
            old(self).wf(),
        ensures
            final(self).wf(),
            final(self).same_scope(*old(self)),
            final(self).posi() >= old(self).posi(),
            r is Ok ==> !(final(self).tag_statev() is Implicit),
            r is Ok && !(old(self).tag_statev() is Implicit) ==> final(self).posi() > old(self).posi(),
            !(old(self).tag_statev() is Implicit) && final(self).posi() == old(self).posi() ==> final(self).tag_statev() == old(self).tag_statev(),
            old(self).depthv() < depth_limit() ==> match sp_header(
                old(self).data(),
                old(self).posi(),
                old(self).limiti(),
                old(self).modev(),
                old(self).depthv(),
                old(self).tag_statev(),
                spec_univ_tag(23),
                TagType::Implicit,
            ) {
                HeadStep::HeadFail { kind, end, st } => r == Err::<UtcTime, ASN1Error>(kind)
                    && final(self).posi() == end && final(self).tag_statev() == st,
                HeadStep::HeadOk { pc, length, end, limit2, st } => (pc == PCBit::Primitive && !(
                old(self).modev() == BERMode::Cer && limit2 - end > 1000)) ==> (r matches Ok(u)
                    && u.bytesv() == old(self).data().subrange(end, limit2)) && final(self).posi()
                    == limit2 && final(self).tag_statev() == TagState::Fresh,
            },
            old(self).modev() == BERMode::Der && old(self).depthv() < depth_limit()
                ==> match sp_read_string_der(
                old(self).data(),
                old(self).posi(),
                old(self).limiti(),
                old(self).modev(),
                old(self).depthv(),
                old(self).tag_statev(),
                23,
            ) {
                RStep::RDone { v, end, st } => (r matches Ok(u) && u.bytesv() == v) && final(self).posi() == end && final(self).tag_statev() == st,
                RStep::RFail { kind, end, st } => r == Err::<UtcTime, ASN1Error>(kind) && final(self).posi() == end && final(self).tag_statev() == st,
            },
    {
        let octets = match self.read_string_bytes(23) {
            Ok(o) => o,
            Err(e) => {
                return Err(e);
            },
        };
        Ok(UtcTime::new(octets))
    }

    /// Reads a value of any type that knows how to decode itself:
    /// the outcome is one the type's acceptance relation admits, and
    /// where its refusal relation is exact, an error is one the
    /// refusal relation admits.
    pub fn parse<T: FromBER>(&mut self) -> (r: ASN1Result<T>)
        requires
            old(self).wf(),
        ensures
            final(self).wf(),
            final(self).same_scope(*old(self)),
            final(self).posi() >= old(self).posi(),
            r is Ok ==> !(final(self).tag_statev() is Implicit),
            r is Ok && !(old(self).tag_statev() is Implicit) ==> final(self).posi() > old(self).posi(),
            !(old(self).tag_statev() is Implicit) && final(self).posi() == old(self).posi() ==> final(self).tag_statev() == old(self).tag_statev(),
            r matches Ok(v) ==> T::sp_accepts(
                old(self).data(),
                old(self).posi(),
                old(self).limiti(),
                old(self).modev(),
                old(self).depthv(),
                old(self).tag_statev(),
                v,
                final(self).posi(),
                final(self).tag_statev(),
            ),
            T::sp_refusals_exact(old(self).modev()) ==> (r matches Err(e) ==> T::sp_refuses(
                old(self).data(),
                old(self).posi(),
                old(self).limiti(),
                old(self).modev(),
                old(self).depthv(),
                old(self).tag_statev(),
                e,
                final(self).posi(),
                final(self).tag_statev(),
            )),
    {
        T::from_ber(self)
    }

    /// Whether the cursor stands at the end of the active scope.
    pub(crate) fn at_end(&self) -> (r: bool)
        ensures
            r == (self.posi() == self.limiti()),
    {
        self.pos == self.limit
    }

    /// The cursor position.
    pub(crate) fn cursor(&self) -> (r: usize)
        ensures
            r as int == self.posi(),
    {
        self.pos
    }

    /// Makes sure the next identifier, if any, is in the cache, so
    /// that a failing try can be retried without losing it.
    pub(crate) fn peek_next(&mut self) -> (r: ASN1Result<()>)
        requires
            old(self).wf(),
        ensures
            final(self).wf(),
            final(self).same_scope(*old(self)),
            final(self).posi() >= old(self).posi(),
            !(old(self).tag_statev() is Implicit) && r is Ok ==> !(final(self).tag_statev()
                is Implicit),
            match sp_peeked(
                old(self).data(),
                old(self).posi(),
                old(self).limiti(),
                old(self).tag_statev(),
            ) {
                Step::Done { v: pk, end } => r is Ok && final(self).posi() == end && final(self).tag_statev() == sp_cached(old(self).tag_statev(), pk),
                Step::Fail { kind, end } => r == Err::<(), ASN1Error>(kind) && final(self).posi()
                    == end && final(self).tag_statev() == old(self).tag_statev(),
            },
    {
        match self.tag_state {
            TagState::Fresh => {
                let (t, pc) = match self.parse_identifier() {
                    Ok(v) => v,
                    Err(e) => {
                        return Err(e);
                    },
                };
                self.tag_state = TagState::Cached(t, pc);
                Ok(())
            },
            _ => Ok(()),
        }
    }

    /// Whether the mode enforces canonical encodings.
    pub(crate) fn strict_mode(&self) -> (r: bool)
        ensures
            r == (self.modev() == BERMode::Der || self.modev() == BERMode::Cer),
    {
        self.mode == BERMode::Der || self.mode == BERMode::Cer
    }

    /// Compares two byte ranges of the input lexicographically.
    pub(crate) fn lex_cmp_ranges(&self, a1: usize, b1: usize, a2: usize, b2: usize) -> (r: i8)
        requires
            a1 <= b1 <= self.data().len(),
            a2 <= b2 <= self.data().len(),
        ensures
            r as int == crate::encoding::lex_cmp(
                self.data().subrange(a1 as int, b1 as int),
                self.data().subrange(a2 as int, b2 as int),
            ),
    {
        let x = vstd::slice::slice_subrange(self.buf, a1, b1);
        let y = vstd::slice::slice_subrange(self.buf, a2, b2);
        lex_cmp_slices(x, y)
    }

    /// Whether no implicit binding is pending.
    pub(crate) fn no_implicit(&self) -> (r: bool)
        ensures
            r == !(self.tag_statev() is Implicit),
    {
        match self.tag_state {
            TagState::Implicit(_, _) => false,
            _ => true,
        }
    }

}

/// Prefix preservation composes.
proof fn lemma_prefix_trans(a: Seq<u8>, b: Seq<u8>, c: Seq<u8>)
    requires
        a.len() <= b.len() <= c.len(),
        b.subrange(0, a.len() as int) == a,
        c.subrange(0, b.len() as int) == b,
    ensures
        c.subrange(0, a.len() as int) == a,
{
    assert(c.subrange(0, a.len() as int) =~= a) by {
        assert(forall|j: int|
            0 <= j < a.len() ==> c.subrange(0, b.len() as int)[j] == c[j] && b.subrange(
                0,
                a.len() as int,
            )[j] == b[j]);
    }
}




/// Whether a mode enforces canonical encodings.
pub open spec fn strict_of(mode: BERMode) -> bool {
    mode == BERMode::Der || mode == BERMode::Cer
}

/// A previous capture range as mathematical values.
pub open spec fn prev_ranges(p: Option<(usize, usize)>) -> Option<(int, int)> {
    match p {
        Some(q) => Some((q.0 as int, q.1 as int)),
        None => None,
    }
}

/// The element loop shared by SEQUENCE OF and SET OF: repeatedly peek
/// the next identifier and read one element, stopping at the scope
/// end or at an identifier the element type cannot consume. In the
/// ordered runs (canonical-mode SET OF) each element's captured
/// encoding must not order below its predecessor's. A successful run
/// is one element chain; where the element type is exact in DER, any
/// chain from the entry either ends exactly where the loop ended, or
/// ends at a point no scope can close on.
#[verifier::spinoff_prover]
#[verifier::rlimit(100)]
fn collect_elements<T: FromBER>(
    parser: &mut BERReader,
    out: &mut Vec<T>,
    prev0: Option<(usize, usize)>,
    ordered: bool,
    entry_g: Ghost<BERReader>,
) -> (r: ASN1Result<()>)
    requires
        old(parser).wf(),
        !(old(parser).tag_statev() is Implicit),
        prev0 is None,
    ensures
        final(parser).wf(),
        final(parser).same_scope(*old(parser)),
        final(parser).posi() >= old(parser).posi(),
        r is Ok ==> !(final(parser).tag_statev() is Implicit),
        final(out)@.len() >= old(out)@.len(),
        final(out)@.subrange(0, old(out)@.len() as int) == old(out)@,
        r is Ok ==> sp_elems::<T>(
            old(parser).data(),
            old(parser).limiti(),
            old(parser).modev(),
            old(parser).depthv(),
            ordered,
            None,
            final(out)@.skip(old(out)@.len() as int),
            old(parser).posi(),
            old(parser).tag_statev(),
            final(parser).posi(),
            final(parser).tag_statev(),
        ),
        T::sp_refusals_exact(BERMode::Der) && old(parser).modev() == BERMode::Der ==> forall|
            vs: Seq<T>,
            to: int,
            so: TagState,
        |
            sp_elems::<T>(
                old(parser).data(),
                old(parser).limiti(),
                old(parser).modev(),
                old(parser).depthv(),
                ordered,
                None,
                vs,
                old(parser).posi(),
                old(parser).tag_statev(),
                to,
                so,
            ) ==> ((r is Ok && to == final(parser).posi() && so == final(parser).tag_statev())
                || to < old(parser).limiti() || so is Cached),
{
    let ghost entry = *old(parser);
    let ghost d = entry.data();
    let ghost lim = entry.limiti();
    let ghost m = entry.modev();
    let ghost dep = entry.depthv();
    let ghost base = old(out)@.len() as int;
    let mut prev: Option<(usize, usize)> = prev0;
    loop
        invariant
            parser.wf(),
            parser.same_scope(entry),
            parser.posi() >= entry.posi(),
            !(parser.tag_statev() is Implicit),
            entry == *old(parser),
            d == entry.data() && lim == entry.limiti() && m == entry.modev() && dep
                == entry.depthv(),
            base == old(out)@.len() as int,
            out@.len() >= base,
            out@.subrange(0, base) == old(out)@,
            prev matches Some(p) ==> 0 <= p.0 <= p.1 <= d.len(),
            forall|vs_rest: Seq<T>, to: int, so: TagState|
                #[trigger] sp_elems::<T>(
                    d,
                    lim,
                    m,
                    dep,
                    ordered,
                    prev_ranges(prev),
                    vs_rest,
                    parser.posi(),
                    parser.tag_statev(),
                    to,
                    so,
                ) ==> sp_elems::<T>(
                    d,
                    lim,
                    m,
                    dep,
                    ordered,
                    None,
                    out@.skip(base) + vs_rest,
                    entry.posi(),
                    entry.tag_statev(),
                    to,
                    so,
                ),
            T::sp_refusals_exact(BERMode::Der) && m == BERMode::Der ==> forall|
                vs: Seq<T>,
                to: int,
                so: TagState,
            |
                #[trigger] sp_elems::<T>(
                    d,
                    lim,
                    m,
                    dep,
                    ordered,
                    None,
                    vs,
                    entry.posi(),
                    entry.tag_statev(),
                    to,
                    so,
                ) ==> ((exists|vs2: Seq<T>|
                    sp_elems::<T>(
                        d,
                        lim,
                        m,
                        dep,
                        ordered,
                        prev_ranges(prev),
                        vs2,
                        parser.posi(),
                        parser.tag_statev(),
                        to,
                        so,
                    )) || to < lim || so is Cached),
        decreases parser.limiti() - parser.posi(),
    {
        let ghost head = *parser;
        if parser.at_end() {
            proof {
                assert(sp_elems::<T>(
                    d,
                    lim,
                    m,
                    dep,
                    ordered,
                    prev_ranges(prev),
                    Seq::<T>::empty(),
                    head.posi(),
                    head.tag_statev(),
                    head.posi(),
                    head.tag_statev(),
                ));
                assert(out@.skip(base) + Seq::<T>::empty() =~= out@.skip(base));
                if T::sp_refusals_exact(BERMode::Der) && m == BERMode::Der {
                    assert forall|vs: Seq<T>, to: int, so: TagState|
                        sp_elems::<T>(d, lim, m, dep, ordered, None, vs, entry.posi(), entry.tag_statev(), to, so)
                            implies ((to == head.posi() && so == head.tag_statev()) || to < lim
                            || so is Cached) by {
                        if !(to < lim || so is Cached) {
                            let (vs2) = choose|vs2: Seq<T>|
                                sp_elems::<T>(
                                    d,
                                    lim,
                                    m,
                                    dep,
                                    ordered,
                                    prev_ranges(prev),
                                    vs2,
                                    head.posi(),
                                    head.tag_statev(),
                                    to,
                                    so,
                                );
                            // At the scope end only the empty chain
                            // exists, ending right here.
                            if vs2.len() > 0 {
                                match sp_peeked(d, head.posi(), lim, head.tag_statev()) {
                                    Step::Done { v: pk, end } => {
                                        let (mid, smid) = choose|mid: int, smid: TagState|
                                            T::sp_accepts(
                                                d,
                                                end,
                                                lim,
                                                m,
                                                dep,
                                                sp_cached(head.tag_statev(), pk),
                                                vs2.first(),
                                                mid,
                                                smid,
                                            );
                                        assert(false);
                                    },
                                    Step::Fail { kind, end } => {},
                                }
                            }
                        }
                    }
                }
            }
            return Ok(());
        }
        let cap_start = parser.cursor();
        match parser.peek_next() {
            Ok(u) => {
                let _ = u;
            },
            Err(e) => {
                proof {
                    if T::sp_refusals_exact(BERMode::Der) && m == BERMode::Der {
                        assert forall|vs: Seq<T>, to: int, so: TagState|
                            sp_elems::<T>(d, lim, m, dep, ordered, None, vs, entry.posi(), entry.tag_statev(), to, so)
                                implies (to < lim || so is Cached) by {
                            if !(to < lim || so is Cached) {
                                let (vs2) = choose|vs2: Seq<T>|
                                    sp_elems::<T>(
                                        d,
                                        lim,
                                        m,
                                        dep,
                                        ordered,
                                        prev_ranges(prev),
                                        vs2,
                                        head.posi(),
                                        head.tag_statev(),
                                        to,
                                        so,
                                    );
                                // No chain survives a failing peek.
                                assert(false);
                            }
                        }
                    }
                }
                return Err(e);
            },
        }
        let ghost pk = choose|pk: (Tag, PCBit)|
            sp_peeked(d, head.posi(), lim, head.tag_statev()) == (Step::Done::<(Tag, PCBit)> {
                v: pk,
                end: parser.posi(),
            });
        let old_pos = parser.cursor();
        let ghost cached = *parser;
        match T::from_ber(parser) {
            Ok(v) => {
                let cap_end = parser.cursor();
                if ordered {
                    match prev {
                        Some((pa, pb)) => {
                            if parser.lex_cmp_ranges(pa, pb, cap_start, cap_end) > 0 {
                                proof {
                                    if T::sp_refusals_exact(BERMode::Der) && m == BERMode::Der {
                                        assert forall|vs: Seq<T>, to: int, so: TagState|
                                            sp_elems::<T>(d, lim, m, dep, ordered, None, vs, entry.posi(), entry.tag_statev(), to, so)
                                                implies (to < lim || so is Cached) by {
                                            if !(to < lim || so is Cached) {
                                                let (vs2) = choose|vs2: Seq<T>|
                                                    sp_elems::<T>(
                                                        d,
                                                        lim,
                                                        m,
                                                        dep,
                                                        ordered,
                                                        prev_ranges(prev),
                                                        vs2,
                                                        head.posi(),
                                                        head.tag_statev(),
                                                        to,
                                                        so,
                                                    );
                                                if vs2.len() == 0 {
                                                    // the stop claims no element
                                                    // is accepted here, but one was
                                                    assert(exists|w: T, e2: int, s2: TagState|
                                                        T::sp_accepts(
                                                            d,
                                                            old_pos as int,
                                                            lim,
                                                            m,
                                                            dep,
                                                            sp_cached(head.tag_statev(), pk),
                                                            w,
                                                            e2,
                                                            s2,
                                                        ));
                                                    assert(false);
                                                } else {
                                                    let (mid, smid) = choose|
                                                        mid: int,
                                                        smid: TagState,
                                                    |
                                                        T::sp_accepts(
                                                            d,
                                                            old_pos as int,
                                                            lim,
                                                            m,
                                                            dep,
                                                            sp_cached(head.tag_statev(), pk),
                                                            vs2.first(),
                                                            mid,
                                                            smid,
                                                        ) && (ordered ==> (prev_ranges(prev) matches Some(p)
                                                            ==> crate::encoding::lex_cmp(
                                                            d.subrange(p.0, p.1),
                                                            d.subrange(head.posi(), mid),
                                                        ) <= 0));
                                                    T::lemma_outcomes_unique(
                                                        d,
                                                        old_pos as int,
                                                        lim,
                                                        m,
                                                        dep,
                                                        sp_cached(head.tag_statev(), pk),
                                                        vs2.first(),
                                                        mid,
                                                        smid,
                                                        v,
                                                        cap_end as int,
                                                        parser.tag_statev(),
                                                        ASN1Error::Invalid,
                                                        0,
                                                        TagState::Fresh,
                                                        ASN1Error::Invalid,
                                                        0,
                                                        TagState::Fresh,
                                                    );
                                                    assert(false);
                                                }
                                            }
                                        }
                                    }
                                }
                                return Err(ASN1Error::Invalid);
                            }
                        },
                        None => {},
                    }
                }
                let ghost gv = v;
                let ghost out_head = out@;
                out.push(v);
                let ghost prev_old = prev;
                prev = Some((cap_start, cap_end));
                proof {
                    assert(out@ =~= out_head.push(gv));
                    assert(out@.skip(base) =~= out_head.skip(base).push(gv));
                    let stc = sp_cached(head.tag_statev(), pk);
                    // One-step peel: a chain from the new state extends
                    // to a chain from the loop head by prepending the
                    // element just read.
                    assert forall|vs_rest: Seq<T>, to: int, so: TagState|
                        sp_elems::<T>(
                            d,
                            lim,
                            m,
                            dep,
                            ordered,
                            prev_ranges(prev),
                            vs_rest,
                            parser.posi(),
                            parser.tag_statev(),
                            to,
                            so,
                        ) implies sp_elems::<T>(
                        d,
                        lim,
                        m,
                        dep,
                        ordered,
                        None,
                        out@.skip(base) + vs_rest,
                        entry.posi(),
                        entry.tag_statev(),
                        to,
                        so,
                    ) by {
                        let longer = seq![gv] + vs_rest;
                        assert(longer.first() == gv);
                        assert(longer.drop_first() =~= vs_rest);
                        if ordered {
                            match prev_ranges(prev_old) {
                                Some(p) => {
                                    crate::encoding::lemma_lex_flip(
                                        d.subrange(p.0, p.1),
                                        d.subrange(head.posi(), cap_end as int),
                                    );
                                },
                                None => {},
                            }
                        }
                        assert(sp_elems::<T>(
                            d,
                            lim,
                            m,
                            dep,
                            ordered,
                            prev_ranges(prev_old),
                            longer,
                            head.posi(),
                            head.tag_statev(),
                            to,
                            so,
                        ));
                        assert(out_head.skip(base) + (seq![gv] + vs_rest) =~= out@.skip(base)
                            + vs_rest);
                    }
                    // Path following: entry chains reach the new state
                    // or escape.
                    if T::sp_refusals_exact(BERMode::Der) && m == BERMode::Der {
                        assert forall|vs: Seq<T>, to: int, so: TagState|
                            sp_elems::<T>(d, lim, m, dep, ordered, None, vs, entry.posi(), entry.tag_statev(), to, so)
                                implies ((exists|vs2: Seq<T>|
                                sp_elems::<T>(
                                    d,
                                    lim,
                                    m,
                                    dep,
                                    ordered,
                                    prev_ranges(prev),
                                    vs2,
                                    parser.posi(),
                                    parser.tag_statev(),
                                    to,
                                    so,
                                )) || to < lim || so is Cached) by {
                            if !(to < lim || so is Cached) {
                                let (vs2) = choose|vs2: Seq<T>|
                                    sp_elems::<T>(
                                        d,
                                        lim,
                                        m,
                                        dep,
                                        ordered,
                                        prev_ranges(prev_old),
                                        vs2,
                                        head.posi(),
                                        head.tag_statev(),
                                        to,
                                        so,
                                    );
                                if vs2.len() == 0 {
                                    assert(exists|w: T, e2: int, s2: TagState|
                                        T::sp_accepts(
                                            d,
                                            old_pos as int,
                                            lim,
                                            m,
                                            dep,
                                            stc,
                                            w,
                                            e2,
                                            s2,
                                        ));
                                    assert(false);
                                } else {
                                    let (mid, smid) = choose|mid: int, smid: TagState|
                                        T::sp_accepts(
                                            d,
                                            old_pos as int,
                                            lim,
                                            m,
                                            dep,
                                            stc,
                                            vs2.first(),
                                            mid,
                                            smid,
                                        ) && sp_elems::<T>(
                                            d,
                                            lim,
                                            m,
                                            dep,
                                            ordered,
                                            Some((head.posi(), mid)),
                                            vs2.drop_first(),
                                            mid,
                                            smid,
                                            to,
                                            so,
                                        );
                                    T::lemma_outcomes_unique(
                                        d,
                                        old_pos as int,
                                        lim,
                                        m,
                                        dep,
                                        stc,
                                        vs2.first(),
                                        mid,
                                        smid,
                                        gv,
                                        cap_end as int,
                                        parser.tag_statev(),
                                        ASN1Error::Invalid,
                                        0,
                                        TagState::Fresh,
                                        ASN1Error::Invalid,
                                        0,
                                        TagState::Fresh,
                                    );
                                    assert(sp_elems::<T>(
                                        d,
                                        lim,
                                        m,
                                        dep,
                                        ordered,
                                        prev_ranges(prev),
                                        vs2.drop_first(),
                                        parser.posi(),
                                        parser.tag_statev(),
                                        to,
                                        so,
                                    ));
                                }
                            }
                        }
                    }
                }
            },
            Err(e) => {
                if parser.cursor() == old_pos {
                    proof {
                        let stc = sp_cached(head.tag_statev(), pk);
                        // The stop of the chain: this identifier is one
                        // no element can consume.
                        if T::sp_refusals_exact(m) {
                            assert forall|w: T, e2: int, s2: TagState| !T::sp_accepts(
                                d,
                                old_pos as int,
                                lim,
                                m,
                                dep,
                                stc,
                                w,
                                e2,
                                s2,
                            ) by {
                                if T::sp_accepts(d, old_pos as int, lim, m, dep, stc, w, e2, s2) {
                                    T::lemma_outcomes_unique(
                                        d,
                                        old_pos as int,
                                        lim,
                                        m,
                                        dep,
                                        stc,
                                        w,
                                        e2,
                                        s2,
                                        w,
                                        e2,
                                        s2,
                                        e,
                                        parser.posi(),
                                        parser.tag_statev(),
                                        e,
                                        parser.posi(),
                                        parser.tag_statev(),
                                    );
                                }
                            }
                        }
                        assert(sp_elems::<T>(
                            d,
                            lim,
                            m,
                            dep,
                            ordered,
                            prev_ranges(prev),
                            Seq::<T>::empty(),
                            head.posi(),
                            head.tag_statev(),
                            parser.posi(),
                            parser.tag_statev(),
                        ));
                        assert(out@.skip(base) + Seq::<T>::empty() =~= out@.skip(base));
                        if T::sp_refusals_exact(BERMode::Der) && m == BERMode::Der {
                            assert forall|vs: Seq<T>, to: int, so: TagState|
                                sp_elems::<T>(d, lim, m, dep, ordered, None, vs, entry.posi(), entry.tag_statev(), to, so)
                                    implies ((to == parser.posi() && so == parser.tag_statev())
                                    || to < lim || so is Cached) by {
                                if !(to < lim || so is Cached) {
                                    let (vs2) = choose|vs2: Seq<T>|
                                        sp_elems::<T>(
                                            d,
                                            lim,
                                            m,
                                            dep,
                                            ordered,
                                            prev_ranges(prev),
                                            vs2,
                                            head.posi(),
                                            head.tag_statev(),
                                            to,
                                            so,
                                        );
                                    if vs2.len() > 0 {
                                        let (mid, smid) = choose|mid: int, smid: TagState|
                                            T::sp_accepts(
                                                d,
                                                old_pos as int,
                                                lim,
                                                m,
                                                dep,
                                                stc,
                                                vs2.first(),
                                                mid,
                                                smid,
                                            );
                                        assert(false);
                                    }
                                }
                            }
                        }
                    }
                    return Ok(());
                } else {
                    proof {
                        let stc = sp_cached(head.tag_statev(), pk);
                        if T::sp_refusals_exact(BERMode::Der) && m == BERMode::Der {
                            assert forall|vs: Seq<T>, to: int, so: TagState|
                                sp_elems::<T>(d, lim, m, dep, ordered, None, vs, entry.posi(), entry.tag_statev(), to, so)
                                    implies (to < lim || so is Cached) by {
                                if !(to < lim || so is Cached) {
                                    let (vs2) = choose|vs2: Seq<T>|
                                        sp_elems::<T>(
                                            d,
                                            lim,
                                            m,
                                            dep,
                                            ordered,
                                            prev_ranges(prev),
                                            vs2,
                                            head.posi(),
                                            head.tag_statev(),
                                            to,
                                            so,
                                        );
                                    if vs2.len() == 0 {
                                        // The stop would end the chain at the
                                        // peeked identifier, below the scope
                                        // end, with the cache still set.
                                        assert(so == stc);
                                        assert(so is Cached || so == head.tag_statev());
                                        assert(to == old_pos as int);
                                        assert(to < lim) by {
                                            assert(parser.posi() > old_pos as int);
                                            assert(parser.posi() <= lim);
                                        }
                                        assert(false);
                                    } else {
                                        let (mid, smid) = choose|mid: int, smid: TagState|
                                            T::sp_accepts(
                                                d,
                                                old_pos as int,
                                                lim,
                                                m,
                                                dep,
                                                stc,
                                                vs2.first(),
                                                mid,
                                                smid,
                                            );
                                        T::lemma_outcomes_unique(
                                            d,
                                            old_pos as int,
                                            lim,
                                            m,
                                            dep,
                                            stc,
                                            vs2.first(),
                                            mid,
                                            smid,
                                            vs2.first(),
                                            mid,
                                            smid,
                                            e,
                                            parser.posi(),
                                            parser.tag_statev(),
                                            e,
                                            parser.posi(),
                                            parser.tag_statev(),
                                        );
                                        assert(false);
                                    }
                                }
                            }
                        }
                    }
                    return Err(e);
                }
            },
        }
    }
}

/// Compares two byte slices lexicographically.
fn lex_cmp_slices(a: &[u8], b: &[u8]) -> (r: i8)
    ensures
        r as int == crate::encoding::lex_cmp(a@, b@),
{
    let mut i: usize = 0;
    proof {
        assert(a@.skip(0) =~= a@);
        assert(b@.skip(0) =~= b@);
    }
    loop
        invariant
            0 <= i <= a@.len(),
            i <= b@.len(),
            crate::encoding::lex_cmp(a@, b@) == crate::encoding::lex_cmp(
                a@.skip(i as int),
                b@.skip(i as int),
            ),
        decreases a@.len() - i,
    {
        if i == a.len() && i == b.len() {
            proof {
                assert(a@.skip(i as int) =~= Seq::<u8>::empty());
                assert(b@.skip(i as int) =~= Seq::<u8>::empty());
            }
            return 0;
        }
        if i == a.len() {
            proof {
                assert(a@.skip(i as int) =~= Seq::<u8>::empty());
                assert(b@.skip(i as int).len() > 0);
            }
            return -1;
        }
        if i == b.len() {
            proof {
                assert(b@.skip(i as int) =~= Seq::<u8>::empty());
                assert(a@.skip(i as int).len() > 0);
            }
            return 1;
        }
        let x = a[i];
        let y = b[i];
        proof {
            assert(a@.skip(i as int).first() == a@[i as int]);
            assert(b@.skip(i as int).first() == b@[i as int]);
            assert(a@.skip(i as int).drop_first() =~= a@.skip(i as int + 1));
            assert(b@.skip(i as int).drop_first() =~= b@.skip(i as int + 1));
        }
        if x < y {
            return -1;
        }
        if x > y {
            return 1;
        }
        i = i + 1;
    }
}


/// Parses a value from `buf` in the given mode, refusing trailing
/// bytes, with the caller's function driving the reader.
pub fn parse_ber_general<'a, T, F: FnOnce(&mut BERReader<'a>) -> ASN1Result<T>>(
    buf: &'a [u8],
    mode: BERMode,
    fun: F,
) -> (r: ASN1Result<T>)
    requires
        forall|m: &mut BERReader<'a>|
            fresh_reader(mut_ref_current(m), buf@, mode) ==> #[trigger] call_requires(fun, (m,)),
        forall|m: &mut BERReader<'a>, inner: ASN1Result<T>|
            #[trigger] call_ensures(fun, (m,), inner) ==> (mut_ref_future(m).wf()
                && mut_ref_future(m).same_scope(mut_ref_current(m)) && mut_ref_future(m).posi()
                >= mut_ref_current(m).posi()),
    ensures
        exists|m: &mut BERReader<'a>, inner: ASN1Result<T>|
            {
                &&& fresh_reader(mut_ref_current(m), buf@, mode)
                &&& #[trigger] call_ensures(fun, (m,), inner)
                &&& r == (match inner {
                    Ok(v) => if mut_ref_future(m).posi() == buf@.len() && !(mut_ref_future(m).tag_statev() is Cached) {
                        Ok::<T, ASN1Error>(v)
                    } else {
                        Err::<T, ASN1Error>(ASN1Error::Extra)
                    },
                    Err(e) => Err::<T, ASN1Error>(e),
                })
            },
{
    BERReader::from_buf(buf, mode, fun)
}

/// Parses a value from `buf`, accepting any valid BER.
pub fn parse_ber<'a, T, F: FnOnce(&mut BERReader<'a>) -> ASN1Result<T>>(buf: &'a [u8], fun: F) -> (r:
    ASN1Result<T>)
    requires
        forall|m: &mut BERReader<'a>|
            fresh_reader(mut_ref_current(m), buf@, BERMode::Ber) ==> #[trigger] call_requires(
                fun,
                (m,),
            ),
        forall|m: &mut BERReader<'a>, inner: ASN1Result<T>|
            #[trigger] call_ensures(fun, (m,), inner) ==> (mut_ref_future(m).wf()
                && mut_ref_future(m).same_scope(mut_ref_current(m)) && mut_ref_future(m).posi()
                >= mut_ref_current(m).posi()),
    ensures
        exists|m: &mut BERReader<'a>, inner: ASN1Result<T>|
            {
                &&& fresh_reader(mut_ref_current(m), buf@, BERMode::Ber)
                &&& #[trigger] call_ensures(fun, (m,), inner)
                &&& r == (match inner {
                    Ok(v) => if mut_ref_future(m).posi() == buf@.len() && !(mut_ref_future(m).tag_statev() is Cached) {
                        Ok::<T, ASN1Error>(v)
                    } else {
                        Err::<T, ASN1Error>(ASN1Error::Extra)
                    },
                    Err(e) => Err::<T, ASN1Error>(e),
                })
            },
{
    BERReader::from_buf(buf, BERMode::Ber, fun)
}

/// Parses a value from `buf`, accepting only DER.
pub fn parse_der<'a, T, F: FnOnce(&mut BERReader<'a>) -> ASN1Result<T>>(buf: &'a [u8], fun: F) -> (r:
    ASN1Result<T>)
    requires
        forall|m: &mut BERReader<'a>|
            fresh_reader(mut_ref_current(m), buf@, BERMode::Der) ==> #[trigger] call_requires(
                fun,
                (m,),
            ),
        forall|m: &mut BERReader<'a>, inner: ASN1Result<T>|
            #[trigger] call_ensures(fun, (m,), inner) ==> (mut_ref_future(m).wf()
                && mut_ref_future(m).same_scope(mut_ref_current(m)) && mut_ref_future(m).posi()
                >= mut_ref_current(m).posi()),
    ensures
        exists|m: &mut BERReader<'a>, inner: ASN1Result<T>|
            {
                &&& fresh_reader(mut_ref_current(m), buf@, BERMode::Der)
                &&& #[trigger] call_ensures(fun, (m,), inner)
                &&& r == (match inner {
                    Ok(v) => if mut_ref_future(m).posi() == buf@.len() && !(mut_ref_future(m).tag_statev() is Cached) {
                        Ok::<T, ASN1Error>(v)
                    } else {
                        Err::<T, ASN1Error>(ASN1Error::Extra)
                    },
                    Err(e) => Err::<T, ASN1Error>(e),
                })
            },
{
    BERReader::from_buf(buf, BERMode::Der, fun)
}

/// Decoding a value from the first-generation reader.
pub trait FromBER: Sized {
    /// The exact acceptance relation of this type's decoder: from the
    /// given reader state, returning Ok(`v`) with the cursor at `end`
    /// and the tag state at `st` is an outcome the decoder can have.
    spec fn sp_accepts(
        data: Seq<u8>,
        pos: int,
        limit: int,
        mode: BERMode,
        depth: int,
        st0: TagState,
        v: Self,
        end: int,
        st: TagState,
    ) -> bool;

    /// Whether the refusal relation below is the whole story in the
    /// given mode, so that together with the acceptance relation the
    /// decoder is exactly characterized there.
    spec fn sp_refusals_exact(mode: BERMode) -> bool;

    /// The refusal relation: the error kind and cursor outcome.
    spec fn sp_refuses(
        data: Seq<u8>,
        pos: int,
        limit: int,
        mode: BERMode,
        depth: int,
        st0: TagState,
        kind: ASN1Error,
        end: int,
        st: TagState,
    ) -> bool;


    /// Where the refusal relation is exact, outcomes are functions of
    /// the entry state: any two accepted outcomes agree on cursor and
    /// tag state, and no state both accepts and refuses.
    proof fn lemma_outcomes_unique(
        data: Seq<u8>,
        pos: int,
        limit: int,
        mode: BERMode,
        depth: int,
        st0: TagState,
        v1: Self,
        e1: int,
        s1: TagState,
        v2: Self,
        e2: int,
        s2: TagState,
        k3: ASN1Error,
        e3: int,
        s3: TagState,
        k4: ASN1Error,
        e4: int,
        s4: TagState,
    )
        requires
            Self::sp_refusals_exact(mode),
        ensures
            Self::sp_accepts(data, pos, limit, mode, depth, st0, v1, e1, s1)
                && Self::sp_accepts(data, pos, limit, mode, depth, st0, v2, e2, s2) ==> e1 == e2
                && s1 == s2,
            Self::sp_accepts(data, pos, limit, mode, depth, st0, v1, e1, s1)
                ==> !Self::sp_refuses(data, pos, limit, mode, depth, st0, k3, e3, s3),
    ;

    /// Reads one value from the reader.
    fn from_ber(parser: &mut BERReader) -> (r: ASN1Result<Self>)
        requires
            old(parser).wf(),
        ensures
            final(parser).wf(),
            final(parser).same_scope(*old(parser)),
            final(parser).posi() >= old(parser).posi(),
            r is Ok ==> !(final(parser).tag_statev() is Implicit),
            r is Ok && !(old(parser).tag_statev() is Implicit) ==> final(parser).posi() > old(parser).posi(),
            !(old(parser).tag_statev() is Implicit) && final(parser).posi() == old(parser).posi()
                ==> final(parser).tag_statev() == old(parser).tag_statev(),
            r matches Ok(v) ==> Self::sp_accepts(
                old(parser).data(),
                old(parser).posi(),
                old(parser).limiti(),
                old(parser).modev(),
                old(parser).depthv(),
                old(parser).tag_statev(),
                v,
                final(parser).posi(),
                final(parser).tag_statev(),
            ),
            Self::sp_refusals_exact(old(parser).modev()) ==> (r matches Err(e)
                ==> Self::sp_refuses(
                old(parser).data(),
                old(parser).posi(),
                old(parser).limiti(),
                old(parser).modev(),
                old(parser).depthv(),
                old(parser).tag_statev(),
                e,
                final(parser).posi(),
                final(parser).tag_statev(),
            )),
    ;
}

impl FromBER for i64 {
    open spec fn sp_accepts(
        data: Seq<u8>,
        pos: int,
        limit: int,
        mode: BERMode,
        depth: int,
        st0: TagState,
        v: i64,
        end: int,
        st: TagState,
    ) -> bool {
        sp_read_integer(data, pos, limit, mode, depth, st0, 8, i64::MIN as int, i64::MAX as int)
            == (RStep::RDone::<int> { v: v as int, end, st })
    }

    open spec fn sp_refusals_exact(mode: BERMode) -> bool {
        true
    }

    open spec fn sp_refuses(
        data: Seq<u8>,
        pos: int,
        limit: int,
        mode: BERMode,
        depth: int,
        st0: TagState,
        kind: ASN1Error,
        end: int,
        st: TagState,
    ) -> bool {
        sp_read_integer(data, pos, limit, mode, depth, st0, 8, i64::MIN as int, i64::MAX as int)
            == (RStep::RFail::<int> { kind, end, st })
    }

    proof fn lemma_outcomes_unique(
        data: Seq<u8>,
        pos: int,
        limit: int,
        mode: BERMode,
        depth: int,
        st0: TagState,
        v1: Self,
        e1: int,
        s1: TagState,
        v2: Self,
        e2: int,
        s2: TagState,
        k3: ASN1Error,
        e3: int,
        s3: TagState,
        k4: ASN1Error,
        e4: int,
        s4: TagState,
    ) {
    }

    fn from_ber(parser: &mut BERReader) -> (r: ASN1Result<i64>) {
        parser.read_i64()
    }
}

impl FromBER for bool {
    open spec fn sp_accepts(
        data: Seq<u8>,
        pos: int,
        limit: int,
        mode: BERMode,
        depth: int,
        st0: TagState,
        v: bool,
        end: int,
        st: TagState,
    ) -> bool {
        sp_read_bool(data, pos, limit, mode, depth, st0) == (RStep::RDone::<bool> { v, end, st })
    }

    open spec fn sp_refusals_exact(mode: BERMode) -> bool {
        true
    }

    open spec fn sp_refuses(
        data: Seq<u8>,
        pos: int,
        limit: int,
        mode: BERMode,
        depth: int,
        st0: TagState,
        kind: ASN1Error,
        end: int,
        st: TagState,
    ) -> bool {
        sp_read_bool(data, pos, limit, mode, depth, st0) == (RStep::RFail::<bool> { kind, end, st })
    }

    proof fn lemma_outcomes_unique(
        data: Seq<u8>,
        pos: int,
        limit: int,
        mode: BERMode,
        depth: int,
        st0: TagState,
        v1: Self,
        e1: int,
        s1: TagState,
        v2: Self,
        e2: int,
        s2: TagState,
        k3: ASN1Error,
        e3: int,
        s3: TagState,
        k4: ASN1Error,
        e4: int,
        s4: TagState,
    ) {
    }

    fn from_ber(parser: &mut BERReader) -> (r: ASN1Result<bool>) {
        parser.read_bool()
    }
}

impl FromBER for () {
    open spec fn sp_accepts(
        data: Seq<u8>,
        pos: int,
        limit: int,
        mode: BERMode,
        depth: int,
        st0: TagState,
        v: (),
        end: int,
        st: TagState,
    ) -> bool {
        sp_read_null(data, pos, limit, mode, depth, st0) == (RStep::RDone::<()> { v: (), end, st })
    }

    open spec fn sp_refusals_exact(mode: BERMode) -> bool {
        true
    }

    open spec fn sp_refuses(
        data: Seq<u8>,
        pos: int,
        limit: int,
        mode: BERMode,
        depth: int,
        st0: TagState,
        kind: ASN1Error,
        end: int,
        st: TagState,
    ) -> bool {
        sp_read_null(data, pos, limit, mode, depth, st0) == (RStep::RFail::<()> { kind, end, st })
    }

    proof fn lemma_outcomes_unique(
        data: Seq<u8>,
        pos: int,
        limit: int,
        mode: BERMode,
        depth: int,
        st0: TagState,
        v1: Self,
        e1: int,
        s1: TagState,
        v2: Self,
        e2: int,
        s2: TagState,
        k3: ASN1Error,
        e3: int,
        s3: TagState,
        k4: ASN1Error,
        e4: int,
        s4: TagState,
    ) {
    }

    fn from_ber(parser: &mut BERReader) -> (r: ASN1Result<()>) {
        parser.read_null()
    }
}

impl FromBER for ObjectIdentifier {
    open spec fn sp_accepts(
        data: Seq<u8>,
        pos: int,
        limit: int,
        mode: BERMode,
        depth: int,
        st0: TagState,
        v: ObjectIdentifier,
        end: int,
        st: TagState,
    ) -> bool {
        sp_read_oid(data, pos, limit, mode, depth, st0) == (RStep::RDone::<Seq<u64>> {
            v: v.idsv(),
            end,
            st,
        })
    }

    open spec fn sp_refusals_exact(mode: BERMode) -> bool {
        true
    }

    open spec fn sp_refuses(
        data: Seq<u8>,
        pos: int,
        limit: int,
        mode: BERMode,
        depth: int,
        st0: TagState,
        kind: ASN1Error,
        end: int,
        st: TagState,
    ) -> bool {
        sp_read_oid(data, pos, limit, mode, depth, st0) == (RStep::RFail::<Seq<u64>> {
            kind,
            end,
            st,
        })
    }

    proof fn lemma_outcomes_unique(
        data: Seq<u8>,
        pos: int,
        limit: int,
        mode: BERMode,
        depth: int,
        st0: TagState,
        v1: Self,
        e1: int,
        s1: TagState,
        v2: Self,
        e2: int,
        s2: TagState,
        k3: ASN1Error,
        e3: int,
        s3: TagState,
        k4: ASN1Error,
        e4: int,
        s4: TagState,
    ) {
    }

    fn from_ber(parser: &mut BERReader) -> (r: ASN1Result<ObjectIdentifier>) {
        parser.read_oid()
    }
}

impl FromBER for BitString {
    open spec fn sp_accepts(
        data: Seq<u8>,
        pos: int,
        limit: int,
        mode: BERMode,
        depth: int,
        st0: TagState,
        v: BitString,
        end: int,
        st: TagState,
    ) -> bool {
        sp_read_bitstring(data, pos, limit, mode, depth, st0) == (RStep::RDone::<(int, Seq<u8>)> {
            v: (v.unused_bits as int, v.buf@),
            end,
            st,
        })
    }

    open spec fn sp_refusals_exact(mode: BERMode) -> bool {
        true
    }

    open spec fn sp_refuses(
        data: Seq<u8>,
        pos: int,
        limit: int,
        mode: BERMode,
        depth: int,
        st0: TagState,
        kind: ASN1Error,
        end: int,
        st: TagState,
    ) -> bool {
        sp_read_bitstring(data, pos, limit, mode, depth, st0) == (RStep::RFail::<(int, Seq<u8>)> {
            kind,
            end,
            st,
        })
    }

    proof fn lemma_outcomes_unique(
        data: Seq<u8>,
        pos: int,
        limit: int,
        mode: BERMode,
        depth: int,
        st0: TagState,
        v1: Self,
        e1: int,
        s1: TagState,
        v2: Self,
        e2: int,
        s2: TagState,
        k3: ASN1Error,
        e3: int,
        s3: TagState,
        k4: ASN1Error,
        e4: int,
        s4: TagState,
    ) {
    }

    fn from_ber(parser: &mut BERReader) -> (r: ASN1Result<BitString>) {
        parser.parse_bitstring()
    }
}

impl FromBER for PrintableString {
    open spec fn sp_accepts(
        data: Seq<u8>,
        pos: int,
        limit: int,
        mode: BERMode,
        depth: int,
        st0: TagState,
        v: PrintableString,
        end: int,
        st: TagState,
    ) -> bool {
        &&& (forall|i: int|
            0 <= i < v.bytesv().len() ==> crate::basics::spec_printable(#[trigger] v.bytesv()[i]))
        &&& if mode == BERMode::Der && depth < depth_limit() {
            sp_read_string_der(data, pos, limit, mode, depth, st0, 19) == (RStep::RDone::<
                Seq<u8>,
            > { v: v.bytesv(), end, st })
        } else {
            sp_frame_ok(pos, limit, end, st)
        }
    }

    open spec fn sp_refusals_exact(mode: BERMode) -> bool {
        false
    }

    open spec fn sp_refuses(
        data: Seq<u8>,
        pos: int,
        limit: int,
        mode: BERMode,
        depth: int,
        st0: TagState,
        kind: ASN1Error,
        end: int,
        st: TagState,
    ) -> bool {
        true
    }

    proof fn lemma_outcomes_unique(
        data: Seq<u8>,
        pos: int,
        limit: int,
        mode: BERMode,
        depth: int,
        st0: TagState,
        v1: Self,
        e1: int,
        s1: TagState,
        v2: Self,
        e2: int,
        s2: TagState,
        k3: ASN1Error,
        e3: int,
        s3: TagState,
        k4: ASN1Error,
        e4: int,
        s4: TagState,
    ) {
    }

    fn from_ber(parser: &mut BERReader) -> (r: ASN1Result<PrintableString>) {
        parser.read_printable_string()
    }
}


impl FromBER for Utf8String {
    open spec fn sp_accepts(
        data: Seq<u8>,
        pos: int,
        limit: int,
        mode: BERMode,
        depth: int,
        st0: TagState,
        v: Utf8String,
        end: int,
        st: TagState,
    ) -> bool {
        &&& crate::models::valid_utf8(v.bytesv())
        &&& if mode == BERMode::Der && depth < depth_limit() {
            sp_read_string_der(data, pos, limit, mode, depth, st0, 12) == (RStep::RDone::<
                Seq<u8>,
            > { v: v.bytesv(), end, st })
        } else {
            sp_frame_ok(pos, limit, end, st)
        }
    }

    open spec fn sp_refusals_exact(mode: BERMode) -> bool {
        false
    }

    open spec fn sp_refuses(
        data: Seq<u8>,
        pos: int,
        limit: int,
        mode: BERMode,
        depth: int,
        st0: TagState,
        kind: ASN1Error,
        end: int,
        st: TagState,
    ) -> bool {
        true
    }

    proof fn lemma_outcomes_unique(
        data: Seq<u8>,
        pos: int,
        limit: int,
        mode: BERMode,
        depth: int,
        st0: TagState,
        v1: Self,
        e1: int,
        s1: TagState,
        v2: Self,
        e2: int,
        s2: TagState,
        k3: ASN1Error,
        e3: int,
        s3: TagState,
        k4: ASN1Error,
        e4: int,
        s4: TagState,
    ) {
    }

    fn from_ber(parser: &mut BERReader) -> (r: ASN1Result<Utf8String>) {
        parser.read_utf8string()
    }
}

impl FromBER for UtcTime {
    open spec fn sp_accepts(
        data: Seq<u8>,
        pos: int,
        limit: int,
        mode: BERMode,
        depth: int,
        st0: TagState,
        v: UtcTime,
        end: int,
        st: TagState,
    ) -> bool {
        if mode == BERMode::Der && depth < depth_limit() {
            sp_read_string_der(data, pos, limit, mode, depth, st0, 23) == (RStep::RDone::<Seq<u8>> {
                v: v.bytesv(),
                end,
                st,
            })
        } else {
            sp_frame_ok(pos, limit, end, st)
        }
    }

    open spec fn sp_refusals_exact(mode: BERMode) -> bool {
        false
    }

    open spec fn sp_refuses(
        data: Seq<u8>,
        pos: int,
        limit: int,
        mode: BERMode,
        depth: int,
        st0: TagState,
        kind: ASN1Error,
        end: int,
        st: TagState,
    ) -> bool {
        true
    }

    proof fn lemma_outcomes_unique(
        data: Seq<u8>,
        pos: int,
        limit: int,
        mode: BERMode,
        depth: int,
        st0: TagState,
        v1: Self,
        e1: int,
        s1: TagState,
        v2: Self,
        e2: int,
        s2: TagState,
        k3: ASN1Error,
        e3: int,
        s3: TagState,
        k4: ASN1Error,
        e4: int,
        s4: TagState,
    ) {
    }

    fn from_ber(parser: &mut BERReader) -> (r: ASN1Result<UtcTime>) {
        parser.read_utctime()
    }
}


impl FromBER for BigIntBytes {
    open spec fn sp_accepts(
        data: Seq<u8>,
        pos: int,
        limit: int,
        mode: BERMode,
        depth: int,
        st0: TagState,
        v: BigIntBytes,
        end: int,
        st: TagState,
    ) -> bool {
        sp_read_bigint(data, pos, limit, mode, depth, st0, false) == (RStep::RDone::<Seq<u8>> {
            v: v.contentv(),
            end,
            st,
        })
    }

    open spec fn sp_refusals_exact(mode: BERMode) -> bool {
        true
    }

    open spec fn sp_refuses(
        data: Seq<u8>,
        pos: int,
        limit: int,
        mode: BERMode,
        depth: int,
        st0: TagState,
        kind: ASN1Error,
        end: int,
        st: TagState,
    ) -> bool {
        sp_read_bigint(data, pos, limit, mode, depth, st0, false) == (RStep::RFail::<Seq<u8>> {
            kind,
            end,
            st,
        })
    }

    proof fn lemma_outcomes_unique(
        data: Seq<u8>,
        pos: int,
        limit: int,
        mode: BERMode,
        depth: int,
        st0: TagState,
        v1: Self,
        e1: int,
        s1: TagState,
        v2: Self,
        e2: int,
        s2: TagState,
        k3: ASN1Error,
        e3: int,
        s3: TagState,
        k4: ASN1Error,
        e4: int,
        s4: TagState,
    ) {
    }

    fn from_ber(parser: &mut BERReader) -> (r: ASN1Result<BigIntBytes>) {
        parser.read_bigint()
    }
}

impl<T: FromBER> FromBER for Vec<T> {
    open spec fn sp_accepts(
        data: Seq<u8>,
        pos: int,
        limit: int,
        mode: BERMode,
        depth: int,
        st0: TagState,
        v: Vec<T>,
        end: int,
        st: TagState,
    ) -> bool {
        match sp_header(data, pos, limit, mode, depth, st0, spec_univ_tag(16), TagType::Explicit) {
            HeadStep::HeadFail { kind, end: e, st: sx } => false,
            HeadStep::HeadOk { pc, length, end: e0, limit2, st: sth } => pc == PCBit::Constructed
                && (exists|stop: int, sstop: TagState|
                #![trigger sp_elems::<T>(data, limit2, mode, depth + 1, false, None, v@, e0, sth, stop, sstop)]
                {
                    &&& sp_elems::<T>(
                        data,
                        limit2,
                        mode,
                        depth + 1,
                        false,
                        None,
                        v@,
                        e0,
                        sth,
                        stop,
                        sstop,
                    )
                    &&& rstep_matches(
                        sp_close(data, stop, limit2, sstop, length, Ok::<Vec<T>, ASN1Error>(v)),
                        Ok::<Vec<T>, ASN1Error>(v),
                        end,
                        st,
                    )
                }),
        }
    }

    open spec fn sp_refusals_exact(mode: BERMode) -> bool {
        T::sp_refusals_exact(BERMode::Der) && mode == BERMode::Der
    }

    open spec fn sp_refuses(
        data: Seq<u8>,
        pos: int,
        limit: int,
        mode: BERMode,
        depth: int,
        st0: TagState,
        kind: ASN1Error,
        end: int,
        st: TagState,
    ) -> bool {
        !(exists|w: Vec<T>, e2: int, s2: TagState|
            Self::sp_accepts(data, pos, limit, mode, depth, st0, w, e2, s2))
    }

    proof fn lemma_outcomes_unique(
        data: Seq<u8>,
        pos: int,
        limit: int,
        mode: BERMode,
        depth: int,
        st0: TagState,
        v1: Self,
        e1: int,
        s1: TagState,
        v2: Self,
        e2: int,
        s2: TagState,
        k3: ASN1Error,
        e3: int,
        s3: TagState,
        k4: ASN1Error,
        e4: int,
        s4: TagState,
    ) {
        if Self::sp_accepts(data, pos, limit, mode, depth, st0, v1, e1, s1) && Self::sp_accepts(
            data,
            pos,
            limit,
            mode,
            depth,
            st0,
            v2,
            e2,
            s2,
        ) {
            match sp_header(data, pos, limit, mode, depth, st0, spec_univ_tag(16), TagType::Explicit) {
                HeadStep::HeadOk { pc, length, end: e0, limit2, st: sth } => {
                    let (t1, so1) = choose|t1: int, so1: TagState|
                        sp_elems::<T>(data, limit2, mode, depth + 1, false, None, v1@, e0, sth, t1, so1)
                            && rstep_matches(
                            sp_close(data, t1, limit2, so1, length, Ok::<Vec<T>, ASN1Error>(v1)),
                            Ok::<Vec<T>, ASN1Error>(v1),
                            e1,
                            s1,
                        );
                    let (t2, so2) = choose|t2: int, so2: TagState|
                        sp_elems::<T>(data, limit2, mode, depth + 1, false, None, v2@, e0, sth, t2, so2)
                            && rstep_matches(
                            sp_close(data, t2, limit2, so2, length, Ok::<Vec<T>, ASN1Error>(v2)),
                            Ok::<Vec<T>, ASN1Error>(v2),
                            e2,
                            s2,
                        );
                    lemma_elems_unique::<T>(
                        data, limit2, mode, depth + 1, false, None, v1@, v2@, e0, sth, t1, so1,
                        t2, so2,
                    );
                },
                HeadStep::HeadFail { kind, end: e, st: sx } => {},
            }
        }
    }

    fn from_ber(parser: &mut BERReader) -> (r: ASN1Result<Vec<T>>) {
        let frame = match parser.parse_header(
            Tag { tag_class: TagClass::Universal, tag_number: 16 },
            TagType::Explicit,
        ) {
            Ok(f) => f,
            Err(e) => {
                return Err(e);
            },
        };
        if frame.pc != PCBit::Constructed {
            let inner: ASN1Result<Vec<T>> = Err(ASN1Error::Invalid);
            return parser.close_frame(frame, inner);
        }
        let ghost entry = *parser;
        let mut ret: Vec<T> = Vec::new();
        let inner = match collect_elements(parser, &mut ret, None, false, Ghost(entry)) {
            Ok(u) => {
                let _ = u;
                Ok(ret)
            },
            Err(e) => Err(e),
        };
        let ghost ginner = inner;
        let ghost before_close = *parser;
        let rr = parser.close_frame(frame, inner);
        proof {
            if rr is Ok {
                match ginner {
                    Ok(rv) => {
                        assert(rv@.skip(0) =~= rv@);
                        assert(sp_elems::<T>(
                            entry.data(),
                            entry.limiti(),
                            entry.modev(),
                            entry.depthv(),
                            false,
                            None,
                            rv@,
                            entry.posi(),
                            entry.tag_statev(),
                            before_close.posi(),
                            before_close.tag_statev(),
                        ));
                    },
                    Err(le) => {},
                }
            }
            if rr is Err && T::sp_refusals_exact(BERMode::Der) && entry.modev() == BERMode::Der {
                // No acceptance exists: a witness chain would have to
                // follow the loop's own run and close cleanly.
                assert forall|w: Vec<T>, e2: int, s2: TagState| !Self::sp_accepts(
                    old(parser).data(),
                    old(parser).posi(),
                    old(parser).limiti(),
                    old(parser).modev(),
                    old(parser).depthv(),
                    old(parser).tag_statev(),
                    w,
                    e2,
                    s2,
                ) by {
                    if Self::sp_accepts(
                        old(parser).data(),
                        old(parser).posi(),
                        old(parser).limiti(),
                        old(parser).modev(),
                        old(parser).depthv(),
                        old(parser).tag_statev(),
                        w,
                        e2,
                        s2,
                    ) {
                        let (stop, sstop) = choose|stop: int, sstop: TagState|
                            sp_elems::<T>(
                                entry.data(),
                                entry.limiti(),
                                entry.modev(),
                                entry.depthv(),
                                false,
                                None,
                                w@,
                                entry.posi(),
                                entry.tag_statev(),
                                stop,
                                sstop,
                            ) && rstep_matches(
                                sp_close(
                                    entry.data(),
                                    stop,
                                    entry.limiti(),
                                    sstop,
                                    frame.length,
                                    Ok::<Vec<T>, ASN1Error>(w),
                                ),
                                Ok::<Vec<T>, ASN1Error>(w),
                                e2,
                                s2,
                            );
                        // The loop tracked every chain: either it ended
                        // where the loop ended and closing there failed,
                        // or it ended somewhere no definite scope can
                        // close on.
                        match ginner {
                            Ok(rv) => {},
                            Err(le) => {},
                        }
                    }
                }
            }
        }
        rr
    }
}

impl<T: FromBER> FromBER for SetOf<T> {
    open spec fn sp_accepts(
        data: Seq<u8>,
        pos: int,
        limit: int,
        mode: BERMode,
        depth: int,
        st0: TagState,
        v: SetOf<T>,
        end: int,
        st: TagState,
    ) -> bool {
        match sp_header(data, pos, limit, mode, depth, st0, spec_univ_tag(17), TagType::Explicit) {
            HeadStep::HeadFail { kind, end: e, st: sx } => false,
            HeadStep::HeadOk { pc, length, end: e0, limit2, st: sth } => pc == PCBit::Constructed
                && (exists|stop: int, sstop: TagState|
                #![trigger sp_elems::<T>(data, limit2, mode, depth + 1, strict_of(mode), None, v.vec@, e0, sth, stop, sstop)]
                {
                    &&& sp_elems::<T>(
                        data,
                        limit2,
                        mode,
                        depth + 1,
                        strict_of(mode),
                        None,
                        v.vec@,
                        e0,
                        sth,
                        stop,
                        sstop,
                    )
                    &&& rstep_matches(
                        sp_close(
                            data,
                            stop,
                            limit2,
                            sstop,
                            length,
                            Ok::<SetOf<T>, ASN1Error>(v),
                        ),
                        Ok::<SetOf<T>, ASN1Error>(v),
                        end,
                        st,
                    )
                }),
        }
    }

    open spec fn sp_refusals_exact(mode: BERMode) -> bool {
        T::sp_refusals_exact(BERMode::Der) && mode == BERMode::Der
    }

    open spec fn sp_refuses(
        data: Seq<u8>,
        pos: int,
        limit: int,
        mode: BERMode,
        depth: int,
        st0: TagState,
        kind: ASN1Error,
        end: int,
        st: TagState,
    ) -> bool {
        !(exists|w: SetOf<T>, e2: int, s2: TagState|
            Self::sp_accepts(data, pos, limit, mode, depth, st0, w, e2, s2))
    }

    proof fn lemma_outcomes_unique(
        data: Seq<u8>,
        pos: int,
        limit: int,
        mode: BERMode,
        depth: int,
        st0: TagState,
        v1: Self,
        e1: int,
        s1: TagState,
        v2: Self,
        e2: int,
        s2: TagState,
        k3: ASN1Error,
        e3: int,
        s3: TagState,
        k4: ASN1Error,
        e4: int,
        s4: TagState,
    ) {
        if Self::sp_accepts(data, pos, limit, mode, depth, st0, v1, e1, s1) && Self::sp_accepts(
            data,
            pos,
            limit,
            mode,
            depth,
            st0,
            v2,
            e2,
            s2,
        ) {
            match sp_header(data, pos, limit, mode, depth, st0, spec_univ_tag(17), TagType::Explicit) {
                HeadStep::HeadOk { pc, length, end: e0, limit2, st: sth } => {
                    let ord = mode == BERMode::Der || mode == BERMode::Cer;
                    let (t1, so1) = choose|t1: int, so1: TagState|
                        sp_elems::<T>(data, limit2, mode, depth + 1, ord, None, v1.vec@, e0, sth, t1, so1)
                            && rstep_matches(
                            sp_close(data, t1, limit2, so1, length, Ok::<SetOf<T>, ASN1Error>(v1)),
                            Ok::<SetOf<T>, ASN1Error>(v1),
                            e1,
                            s1,
                        );
                    let (t2, so2) = choose|t2: int, so2: TagState|
                        sp_elems::<T>(data, limit2, mode, depth + 1, ord, None, v2.vec@, e0, sth, t2, so2)
                            && rstep_matches(
                            sp_close(data, t2, limit2, so2, length, Ok::<SetOf<T>, ASN1Error>(v2)),
                            Ok::<SetOf<T>, ASN1Error>(v2),
                            e2,
                            s2,
                        );
                    lemma_elems_unique::<T>(
                        data, limit2, mode, depth + 1, ord, None, v1.vec@, v2.vec@, e0, sth, t1,
                        so1, t2, so2,
                    );
                },
                HeadStep::HeadFail { kind, end: e, st: sx } => {},
            }
        }
    }

    fn from_ber(parser: &mut BERReader) -> (r: ASN1Result<SetOf<T>>) {
        let frame = match parser.parse_header(
            Tag { tag_class: TagClass::Universal, tag_number: 17 },
            TagType::Explicit,
        ) {
            Ok(f) => f,
            Err(e) => {
                return Err(e);
            },
        };
        if frame.pc != PCBit::Constructed {
            let inner: ASN1Result<SetOf<T>> = Err(ASN1Error::Invalid);
            return parser.close_frame(frame, inner);
        }
        let ghost entry = *parser;
        let mut ret: SetOf<T> = SetOf::new();
        let strict = parser.strict_mode();
        let inner = match collect_elements(parser, &mut ret.vec, None, strict, Ghost(entry)) {
            Ok(u) => {
                let _ = u;
                Ok(ret)
            },
            Err(e) => Err(e),
        };
        let ghost ginner = inner;
        let ghost before_close = *parser;
        let rr = parser.close_frame(frame, inner);
        proof {
            if rr is Ok {
                match ginner {
                    Ok(rv) => {
                        assert(rv.vec@.skip(0) =~= rv.vec@);
                        assert(sp_elems::<T>(
                            entry.data(),
                            entry.limiti(),
                            entry.modev(),
                            entry.depthv(),
                            strict_of(entry.modev()),
                            None,
                            rv.vec@,
                            entry.posi(),
                            entry.tag_statev(),
                            before_close.posi(),
                            before_close.tag_statev(),
                        ));
                    },
                    Err(le) => {},
                }
            }
            if rr is Err && T::sp_refusals_exact(BERMode::Der) && entry.modev() == BERMode::Der {
                assert forall|w: SetOf<T>, e2: int, s2: TagState| !Self::sp_accepts(
                    old(parser).data(),
                    old(parser).posi(),
                    old(parser).limiti(),
                    old(parser).modev(),
                    old(parser).depthv(),
                    old(parser).tag_statev(),
                    w,
                    e2,
                    s2,
                ) by {
                    if Self::sp_accepts(
                        old(parser).data(),
                        old(parser).posi(),
                        old(parser).limiti(),
                        old(parser).modev(),
                        old(parser).depthv(),
                        old(parser).tag_statev(),
                        w,
                        e2,
                        s2,
                    ) {
                        let ord = entry.modev() == BERMode::Der || entry.modev() == BERMode::Cer;
                        let (stop, sstop) = choose|stop: int, sstop: TagState|
                            sp_elems::<T>(
                                entry.data(),
                                entry.limiti(),
                                entry.modev(),
                                entry.depthv(),
                                ord,
                                None,
                                w.vec@,
                                entry.posi(),
                                entry.tag_statev(),
                                stop,
                                sstop,
                            ) && rstep_matches(
                                sp_close(
                                    entry.data(),
                                    stop,
                                    entry.limiti(),
                                    sstop,
                                    frame.length,
                                    Ok::<SetOf<T>, ASN1Error>(w),
                                ),
                                Ok::<SetOf<T>, ASN1Error>(w),
                                e2,
                                s2,
                            );
                        match ginner {
                            Ok(rv) => {},
                            Err(le) => {},
                        }
                    }
                }
            }
        }
        rr
    }
}

} // verus!
