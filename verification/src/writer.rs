//! The DER encoder: a growable byte buffer into which values are
//! serialized in strict DER form, with nested scopes written into
//! their own buffers and length-prefixed when complete. A SET value
//! orders its elements by their tags; a SET OF collection orders its
//! elements by their encoded bytes.
//!
//! Every write is specified against the canonical byte forms of the
//! `encoding` module.

use vstd::prelude::*;
use vstd::multiset::Multiset;
use crate::encoding::{
    base128, base128_rest, be_bytes, lemma_lex_flip, lemma_lex_trans, lex_cmp, pow256,
    spec_der_bool_tagged, spec_der_int_tagged, spec_der_null_tagged, spec_der_octets_tagged,
    spec_der_oid_tagged, spec_len, spec_oid_content, spec_tag_identifier, spec_tlv,
    twos_bytes,
};
use crate::{PCBit, Tag, TagClass, TagType};

verus! {

/// The concatenation of a sequence of byte strings.
pub open spec fn concat_seqs(s: Seq<Seq<u8>>) -> Seq<u8>
    decreases s.len(),
{
    if s.len() == 0 {
        seq![]
    } else {
        s.first() + concat_seqs(s.drop_first())
    }
}

/// Whether a sequence of byte strings is in ascending lexicographic
/// order.
pub open spec fn lex_sorted(s: Seq<Seq<u8>>) -> bool {
    forall|i: int, j: int| 0 <= i < j < s.len() ==> lex_cmp(#[trigger] s[i], #[trigger] s[j]) <= 0
}

/// A writer that serializes exactly one value in strict DER form.
///
/// An implicit tag, when set, replaces the identifier of the next
/// value written and is then spent.
pub struct DERWriter {
    buf: Vec<u8>,
    implicit_tag: Option<Tag>,
}

/// A writer for the elements of a SEQUENCE, written one after another.
pub struct DERWriterSeq {
    inner: DERWriter,
}

/// A writer for the elements of a SET, each into its own buffer; the
/// buffers are sorted into the canonical SET order before the SET is
/// closed.
pub struct DERWriterSet {
    bufs: Vec<Vec<u8>>,
    cur: DERWriter,
    started: bool,
}

/// A writer with nothing written and no pending implicit tag.
pub open spec fn fresh_writer(w: DERWriter) -> bool {
    w.bufv() == Seq::<u8>::empty() && w.imptagv() is None
}

/// A sequence writer with nothing written.
pub open spec fn fresh_writer_seq(w: DERWriterSeq) -> bool {
    fresh_writer(w.innerv())
}

/// A set writer with no elements.
pub open spec fn fresh_writer_set(w: DERWriterSet) -> bool {
    w.bufsv() == Seq::<Seq<u8>>::empty() && w.wfs()
}

impl DERWriter {
    /// The bytes written so far.
    pub closed spec fn bufv(self) -> Seq<u8> {
        self.buf@
    }

    /// The pending implicit tag, if any.
    pub closed spec fn imptagv(self) -> Option<Tag> {
        self.implicit_tag
    }

    /// The tag the next value will carry, given its default.
    pub open spec fn efftag(self, default: Tag) -> Tag {
        match self.imptagv() {
            Some(t) => t,
            None => default,
        }
    }

    pub(crate) fn new() -> (r: DERWriter)
        ensures
            fresh_writer(r),
    {
        DERWriter { buf: Vec::new(), implicit_tag: None }
    }

    pub(crate) fn new_implicit(tag: Tag) -> (r: DERWriter)
        ensures
            r.bufv() == Seq::<u8>::empty(),
            r.imptagv() == Some(tag),
    {
        DERWriter { buf: Vec::new(), implicit_tag: Some(tag) }
    }

    /// Takes the pending implicit tag, or the given default.
    fn take_tag(&mut self, default: Tag) -> (r: Tag)
        ensures
            r == old(self).efftag(default),
            final(self).imptagv() is None,
            final(self).bufv() == old(self).bufv(),
    {
        match self.implicit_tag {
            Some(t) => {
                self.implicit_tag = None;
                t
            },
            None => default,
        }
    }

    /// Emits the base-128 continuation octets of a tag number.
    fn emit_b128_rest(&mut self, n: u64)
        ensures
            final(self).bufv() == old(self).bufv() + base128_rest(n as nat),
            final(self).imptagv() == old(self).imptagv(),
        decreases n,
    {
        if n == 0 {
            proof {
                assert(old(self).bufv() + base128_rest(0) =~= old(self).bufv());
            }
            return ;
        }
        self.emit_b128_rest(n / 128);
        self.buf.push(128 + (n % 128) as u8);
        proof {
            assert(old(self).bufv() + base128_rest(n as nat) =~= (old(self).bufv()
                + base128_rest((n as nat) / 128)).push((128 + n % 128) as u8));
        }
    }

    /// Emits the identifier octets of a tag.
    fn emit_identifier(&mut self, tag: Tag, pc: PCBit)
        ensures
            final(self).bufv() == old(self).bufv() + spec_tag_identifier(tag, pc),
            final(self).imptagv() == old(self).imptagv(),
    {
        let class_bits: u8 = match tag.tag_class {
            TagClass::Universal => 0,
            TagClass::Application => 1,
            TagClass::ContextSpecific => 2,
            TagClass::Private => 3,
        };
        let pc_bit: u8 = match pc {
            PCBit::Primitive => 0,
            PCBit::Constructed => 1,
        };
        if tag.tag_number < 31 {
            self.buf.push(class_bits * 64 + pc_bit * 32 + tag.tag_number as u8);
            proof {
                assert(final(self).bufv() =~= old(self).bufv() + spec_tag_identifier(tag, pc));
            }
        } else {
            self.buf.push(class_bits * 64 + pc_bit * 32 + 31);
            self.emit_b128_rest(tag.tag_number / 128);
            self.buf.push((tag.tag_number % 128) as u8);
            proof {
                assert(final(self).bufv() =~= old(self).bufv() + spec_tag_identifier(tag, pc));
            }
        }
    }

    /// The number of base-256 octets of a length.
    fn be_len(n: usize) -> (r: usize)
        ensures
            r == be_bytes(n as nat).len(),
            r <= 8,
        decreases n,
    {
        if n == 0 {
            proof {
                lemma_be_bytes_len_le(n as nat);
            }
            0
        } else {
            let k = Self::be_len(n / 256);
            proof {
                lemma_be_bytes_len_le(n as nat);
            }
            k + 1
        }
    }

    /// Emits the base-256 octets of a length.
    fn emit_be(&mut self, n: usize)
        ensures
            final(self).bufv() == old(self).bufv() + be_bytes(n as nat),
            final(self).imptagv() == old(self).imptagv(),
        decreases n,
    {
        if n == 0 {
            proof {
                assert(old(self).bufv() + be_bytes(0) =~= old(self).bufv());
            }
            return ;
        }
        self.emit_be(n / 256);
        self.buf.push((n % 256) as u8);
        proof {
            assert(old(self).bufv() + be_bytes(n as nat) =~= (old(self).bufv() + be_bytes(
                (n as nat) / 256,
            )).push((n % 256) as u8));
        }
    }

    /// Emits the minimal DER length octets.
    fn emit_length(&mut self, n: usize)
        ensures
            final(self).bufv() == old(self).bufv() + spec_len(n as nat),
            final(self).imptagv() == old(self).imptagv(),
    {
        if n < 128 {
            self.buf.push(n as u8);
            proof {
                assert(final(self).bufv() =~= old(self).bufv() + spec_len(n as nat));
            }
        } else {
            let k = Self::be_len(n);
            self.buf.push(128 + k as u8);
            self.emit_be(n);
            proof {
                assert(final(self).bufv() =~= old(self).bufv() + spec_len(n as nat));
            }
        }
    }

    /// Emits a complete TLV from its parts.
    fn emit_tlv(&mut self, tag: Tag, pc: PCBit, content: &Vec<u8>)
        ensures
            final(self).bufv() == old(self).bufv() + spec_tlv(tag, pc, content@),
            final(self).imptagv() == old(self).imptagv(),
    {
        self.emit_identifier(tag, pc);
        self.emit_length(content.len());
        let ghost before = self.bufv();
        let mut i: usize = 0;
        while i < content.len()
            invariant
                0 <= i <= content@.len(),
                self.bufv() == before + content@.subrange(0, i as int),
                self.imptagv() == old(self).imptagv(),
                before == old(self).bufv() + spec_tag_identifier(tag, pc) + spec_len(
                    content@.len(),
                ),
            decreases content@.len() - i,
        {
            self.buf.push(content[i]);
            i = i + 1;
            proof {
                assert(before + content@.subrange(0, i as int) =~= (before + content@.subrange(
                    0,
                    i as int - 1,
                )).push(content@[i - 1]));
            }
        }
        proof {
            assert(content@.subrange(0, content@.len() as int) =~= content@);
            assert(old(self).bufv() + spec_tlv(tag, pc, content@) =~= before + content@);
        }
    }

    /// Writes a BOOLEAN: `0xFF` for true, `0x00` for false.
    pub fn write_bool(&mut self, b: bool)
        ensures
            final(self).bufv() == old(self).bufv() + spec_der_bool_tagged(
                old(self).efftag(Tag { tag_class: TagClass::Universal, tag_number: 1 }),
                b,
            ),
            final(self).imptagv() is None,
    {
        let tag = self.take_tag(Tag { tag_class: TagClass::Universal, tag_number: 1 });
        let mut content: Vec<u8> = Vec::new();
        content.push(if b {
            255
        } else {
            0
        });
        proof {
            assert(content@ =~= seq![if b { 255u8 } else { 0u8 }]);
        }
        self.emit_tlv(tag, PCBit::Primitive, &content);
    }

    /// Writes an INTEGER in its minimal two's-complement form.
    pub fn write_i64(&mut self, v: i64)
        ensures
            final(self).bufv() == old(self).bufv() + spec_der_int_tagged(
                old(self).efftag(Tag { tag_class: TagClass::Universal, tag_number: 2 }),
                v as int,
            ),
            final(self).imptagv() is None,
    {
        let tag = self.take_tag(Tag { tag_class: TagClass::Universal, tag_number: 2 });
        let mut content: Vec<u8> = Vec::new();
        push_twos_i64(&mut content, v);
        self.emit_tlv(tag, PCBit::Primitive, &content);
    }

    /// Writes an INTEGER from an unsigned value.
    pub fn write_u64(&mut self, v: u64)
        ensures
            final(self).bufv() == old(self).bufv() + spec_der_int_tagged(
                old(self).efftag(Tag { tag_class: TagClass::Universal, tag_number: 2 }),
                v as int,
            ),
            final(self).imptagv() is None,
    {
        let tag = self.take_tag(Tag { tag_class: TagClass::Universal, tag_number: 2 });
        let mut content: Vec<u8> = Vec::new();
        push_twos_u64(&mut content, v);
        self.emit_tlv(tag, PCBit::Primitive, &content);
    }

    /// Writes an INTEGER.
    pub fn write_i32(&mut self, v: i32)
        ensures
            final(self).bufv() == old(self).bufv() + spec_der_int_tagged(
                old(self).efftag(Tag { tag_class: TagClass::Universal, tag_number: 2 }),
                v as int,
            ),
            final(self).imptagv() is None,
    {
        self.write_i64(v as i64)
    }

    /// Writes an INTEGER.
    pub fn write_u32(&mut self, v: u32)
        ensures
            final(self).bufv() == old(self).bufv() + spec_der_int_tagged(
                old(self).efftag(Tag { tag_class: TagClass::Universal, tag_number: 2 }),
                v as int,
            ),
            final(self).imptagv() is None,
    {
        self.write_i64(v as i64)
    }

    /// Writes an INTEGER.
    pub fn write_i16(&mut self, v: i16)
        ensures
            final(self).bufv() == old(self).bufv() + spec_der_int_tagged(
                old(self).efftag(Tag { tag_class: TagClass::Universal, tag_number: 2 }),
                v as int,
            ),
            final(self).imptagv() is None,
    {
        self.write_i64(v as i64)
    }

    /// Writes an INTEGER.
    pub fn write_u16(&mut self, v: u16)
        ensures
            final(self).bufv() == old(self).bufv() + spec_der_int_tagged(
                old(self).efftag(Tag { tag_class: TagClass::Universal, tag_number: 2 }),
                v as int,
            ),
            final(self).imptagv() is None,
    {
        self.write_i64(v as i64)
    }

    /// Writes an INTEGER.
    pub fn write_i8(&mut self, v: i8)
        ensures
            final(self).bufv() == old(self).bufv() + spec_der_int_tagged(
                old(self).efftag(Tag { tag_class: TagClass::Universal, tag_number: 2 }),
                v as int,
            ),
            final(self).imptagv() is None,
    {
        self.write_i64(v as i64)
    }

    /// Writes an INTEGER.
    pub fn write_u8(&mut self, v: u8)
        ensures
            final(self).bufv() == old(self).bufv() + spec_der_int_tagged(
                old(self).efftag(Tag { tag_class: TagClass::Universal, tag_number: 2 }),
                v as int,
            ),
            final(self).imptagv() is None,
    {
        self.write_i64(v as i64)
    }

    /// Writes an INTEGER of arbitrary precision from its minimal
    /// content octets.
    pub fn write_bigint(&mut self, v: &crate::models::BigIntBytes)
        requires
            v.wf(),
        ensures
            final(self).bufv() == old(self).bufv() + spec_der_int_tagged(
                old(self).efftag(Tag { tag_class: TagClass::Universal, tag_number: 2 }),
                v.valuev(),
            ),
            final(self).imptagv() is None,
    {
        let tag = self.take_tag(Tag { tag_class: TagClass::Universal, tag_number: 2 });
        let content = vstd::slice::slice_to_vec(v.as_bytes());
        proof {
            crate::encoding::lemma_twos_of_minimal(v.contentv());
        }
        self.emit_tlv(tag, PCBit::Primitive, &content);
    }

    /// Writes a nonnegative INTEGER of arbitrary precision.
    pub fn write_biguint(&mut self, v: &crate::models::BigIntBytes)
        requires
            v.wf(),
            v.valuev() >= 0,
        ensures
            final(self).bufv() == old(self).bufv() + spec_der_int_tagged(
                old(self).efftag(Tag { tag_class: TagClass::Universal, tag_number: 2 }),
                v.valuev(),
            ),
            final(self).imptagv() is None,
    {
        self.write_bigint(v)
    }

    /// Writes a UTF8String from its validated octets.
    pub fn write_utf8string(&mut self, v: &crate::models::Utf8String)
        ensures
            final(self).bufv() == old(self).bufv() + spec_tlv(
                old(self).efftag(Tag { tag_class: TagClass::Universal, tag_number: 12 }),
                PCBit::Primitive,
                v.bytesv(),
            ),
            final(self).imptagv() is None,
    {
        let tag = self.take_tag(Tag { tag_class: TagClass::Universal, tag_number: 12 });
        let content = vstd::slice::slice_to_vec(v.as_bytes());
        self.emit_tlv(tag, PCBit::Primitive, &content);
    }

    /// Writes an OCTETSTRING in its primitive form.
    pub fn write_bytes(&mut self, bytes: &[u8])
        ensures
            final(self).bufv() == old(self).bufv() + spec_der_octets_tagged(
                old(self).efftag(Tag { tag_class: TagClass::Universal, tag_number: 4 }),
                bytes@,
            ),
            final(self).imptagv() is None,
    {
        let tag = self.take_tag(Tag { tag_class: TagClass::Universal, tag_number: 4 });
        let content = vstd::slice::slice_to_vec(bytes);
        self.emit_tlv(tag, PCBit::Primitive, &content);
    }

    /// Writes NULL.
    pub fn write_null(&mut self)
        ensures
            final(self).bufv() == old(self).bufv() + spec_der_null_tagged(
                old(self).efftag(Tag { tag_class: TagClass::Universal, tag_number: 5 }),
            ),
            final(self).imptagv() is None,
    {
        let tag = self.take_tag(Tag { tag_class: TagClass::Universal, tag_number: 5 });
        let content: Vec<u8> = Vec::new();
        proof {
            assert(content@ =~= Seq::<u8>::empty());
        }
        self.emit_tlv(tag, PCBit::Primitive, &content);
    }

    /// Writes an OBJECT IDENTIFIER: the first two arcs fold into one
    /// sub-identifier, each written in base 128.
    pub fn write_oid(&mut self, oid: &crate::models::ObjectIdentifier)
        requires
            oid.idsv().len() >= 2,
            oid.idsv()[0] <= 2,
            oid.idsv()[0] < 2 ==> oid.idsv()[1] < 40,
            oid.idsv()[1] <= u64::MAX - 80,
        ensures
            final(self).bufv() == old(self).bufv() + spec_der_oid_tagged(
                old(self).efftag(Tag { tag_class: TagClass::Universal, tag_number: 6 }),
                oid.idsv(),
            ),
            final(self).imptagv() is None,
    {
        let tag = self.take_tag(Tag { tag_class: TagClass::Universal, tag_number: 6 });
        let ids = oid.components();
        let mut content = DERWriter::new();
        let first: u64 = 40 * ids[0] + ids[1];
        content.emit_b128_rest(first / 128);
        content.buf.push((first % 128) as u8);
        proof {
            assert(content.bufv() =~= base128(first as nat));
            assert(oid.idsv().take(2).drop_last() =~= oid.idsv().take(1));
            assert(oid.idsv().take(2)[0] == oid.idsv()[0]);
            assert(oid.idsv().take(2)[1] == oid.idsv()[1]);
            assert(spec_oid_content(oid.idsv().take(2)) == base128(first as nat));
        }
        let mut i: usize = 2;
        while i < ids.len()
            invariant
                2 <= i <= ids@.len(),
                ids@ == oid.idsv(),
                content.bufv() == spec_oid_content(ids@.take(i as int)),
                content.imptagv() is None,
            decreases ids@.len() - i,
        {
            content.emit_b128_rest(ids[i] / 128);
            content.buf.push((ids[i] % 128) as u8);
            i = i + 1;
            proof {
                assert(ids@.take(i as int).drop_last() =~= ids@.take(i as int - 1));
                assert(ids@.take(i as int).last() == ids@[i as int - 1]);
                assert(content.bufv() =~= spec_oid_content(ids@.take(i as int - 1)) + base128(
                    ids@[i as int - 1] as nat,
                ));
            }
        }
        proof {
            assert(ids@.take(ids@.len() as int) =~= ids@);
        }
        self.emit_tlv(tag, PCBit::Primitive, &content.buf);
    }

    /// Writes a BITSTRING: the unused-bit count, then the content
    /// octets.
    pub fn write_bitstring(&mut self, bs: &crate::models::BitString)
        requires
            bs.wf(),
        ensures
            final(self).bufv() == old(self).bufv() + spec_tlv(
                old(self).efftag(Tag { tag_class: TagClass::Universal, tag_number: 3 }),
                PCBit::Primitive,
                seq![bs.unusedv() as u8] + bs.bytesv(),
            ),
            final(self).imptagv() is None,
    {
        let tag = self.take_tag(Tag { tag_class: TagClass::Universal, tag_number: 3 });
        let mut content: Vec<u8> = Vec::new();
        content.push(bs.unused_bits() as u8);
        let bytes = bs.bytes();
        let mut rest = vstd::slice::slice_to_vec(bytes);
        content.append(&mut rest);
        proof {
            assert(content@ =~= seq![bs.unusedv() as u8] + bs.bytesv());
        }
        self.emit_tlv(tag, PCBit::Primitive, &content);
    }

    /// Writes a SEQUENCE whose elements are written by the caller's
    /// function; the length prefix is computed from the finished
    /// content.
    pub fn write_sequence<F: FnOnce(&mut DERWriterSeq)>(&mut self, fun: F)
        requires
            forall|m: &mut DERWriterSeq|
                fresh_writer_seq(mut_ref_current(m)) ==> #[trigger] call_requires(fun, (m,)),
        ensures
            final(self).imptagv() is None,
            exists|m: &mut DERWriterSeq|
                {
                    &&& fresh_writer_seq(mut_ref_current(m))
                    &&& #[trigger] call_ensures(fun, (m,), ())
                    &&& final(self).bufv() == old(self).bufv() + spec_tlv(
                        old(self).efftag(Tag { tag_class: TagClass::Universal, tag_number: 16 }),
                        PCBit::Constructed,
                        mut_ref_future(m).innerv().bufv(),
                    )
                },
    {
        let tag = self.take_tag(Tag { tag_class: TagClass::Universal, tag_number: 16 });
        let mut seq_writer = DERWriterSeq { inner: DERWriter::new() };
        fun(&mut seq_writer);
        self.emit_tlv(tag, PCBit::Constructed, &seq_writer.inner.buf);
    }

    /// Writes a SET whose elements are written by the caller's
    /// function into separate buffers; the buffers are sorted by the
    /// tags of the elements, as the canonical order of a SET value
    /// with distinct component tags demands, and concatenated. A
    /// `SetOf` collection, whose elements share one tag, is instead
    /// sorted by its encoded bytes when serialized; where every tag
    /// is distinct the two orders agree on the leading octets.
    pub fn write_set<F: FnOnce(&mut DERWriterSet)>(&mut self, fun: F)
        requires
            forall|m: &mut DERWriterSet|
                fresh_writer_set(mut_ref_current(m)) ==> #[trigger] call_requires(fun, (m,)),
        ensures
            final(self).imptagv() is None,
            exists|m: &mut DERWriterSet, sorted: Seq<Seq<u8>>|
                #![trigger call_ensures(fun, (m,), ()), rank_sorted(sorted)]
                {
                    &&& fresh_writer_set(mut_ref_current(m))
                    &&& call_ensures(fun, (m,), ())
                    &&& rank_sorted(sorted)
                    &&& sorted.to_multiset() == mut_ref_future(m).bufsv().to_multiset()
                    &&& final(self).bufv() == old(self).bufv() + spec_tlv(
                        old(self).efftag(Tag { tag_class: TagClass::Universal, tag_number: 17 }),
                        PCBit::Constructed,
                        concat_seqs(sorted),
                    )
                },
    {
        let tag = self.take_tag(Tag { tag_class: TagClass::Universal, tag_number: 17 });
        let mut set_writer = DERWriterSet { bufs: Vec::new(), cur: DERWriter::new(), started: false };
        proof {
            assert(set_writer.bufsv() =~= Seq::<Seq<u8>>::empty());
        }
        fun(&mut set_writer);
        let elems = set_writer.finish();
        let sorted = sort_rank_bufs(elems);
        proof {
            lemma_rank_sorted_vecs_to_seqs(sorted@);
        }
        let mut content: Vec<u8> = Vec::new();
        let ghost sortedv = sorted@.map_values(|v: Vec<u8>| v@);
        let mut i: usize = 0;
        while i < sorted.len()
            invariant
                0 <= i <= sorted@.len(),
                sortedv == sorted@.map_values(|v: Vec<u8>| v@),
                content@ == concat_seqs(sortedv.take(i as int)),
            decreases sorted@.len() - i,
        {
            let mut piece = vstd::slice::slice_to_vec(sorted[i].as_slice());
            content.append(&mut piece);
            i = i + 1;
            proof {
                lemma_concat_take_step(sortedv, i as int);
            }
        }
        proof {
            assert(sortedv.take(sortedv.len() as int) =~= sortedv);
        }
        self.emit_tlv(tag, PCBit::Constructed, &content);
    }

    /// Writes an explicitly tagged value: the outer tag wraps the
    /// complete inner encoding in a constructed TLV.
    pub fn write_tagged<F: FnOnce(&mut DERWriter)>(&mut self, tag: Tag, fun: F)
        requires
            forall|m: &mut DERWriter|
                fresh_writer(mut_ref_current(m)) ==> #[trigger] call_requires(fun, (m,)),
        ensures
            final(self).imptagv() is None,
            exists|m: &mut DERWriter|
                {
                    &&& fresh_writer(mut_ref_current(m))
                    &&& #[trigger] call_ensures(fun, (m,), ())
                    &&& final(self).bufv() == old(self).bufv() + spec_tlv(
                        old(self).efftag(tag),
                        PCBit::Constructed,
                        mut_ref_future(m).bufv(),
                    )
                },
    {
        let eff = self.take_tag(tag);
        let mut inner = DERWriter::new();
        fun(&mut inner);
        self.emit_tlv(eff, PCBit::Constructed, &inner.buf);
    }

    /// Writes an implicitly tagged value: the inner value is written
    /// with its identifier replaced by the given tag, its PC bit and
    /// length kept.
    pub fn write_tagged_implicit<F: FnOnce(&mut DERWriter)>(&mut self, tag: Tag, fun: F)
        requires
            forall|m: &mut DERWriter|
                (mut_ref_current(m).bufv() == Seq::<u8>::empty() && mut_ref_current(m).imptagv()
                    is Some) ==> #[trigger] call_requires(fun, (m,)),
        ensures
            final(self).imptagv() is None,
            exists|m: &mut DERWriter|
                {
                    &&& mut_ref_current(m).bufv() == Seq::<u8>::empty()
                    &&& mut_ref_current(m).imptagv() == Some(old(self).efftag(tag))
                    &&& #[trigger] call_ensures(fun, (m,), ())
                    &&& final(self).bufv() == old(self).bufv() + mut_ref_future(m).bufv()
                },
    {
        let eff = self.take_tag(tag);
        let mut inner = DERWriter::new_implicit(eff);
        fun(&mut inner);
        let ghost before = self.bufv();
        let mut moved = inner.buf;
        self.buf.append(&mut moved);
    }
    /// Gives up the written bytes.
    pub(crate) fn into_bytes(self) -> (r: Vec<u8>)
        ensures
            r@ == self.bufv(),
    {
        self.buf
    }

    /// Writes one TLV with the given default tag, PC bit and content,
    /// honoring a pending implicit tag.
    pub(crate) fn write_wrapped(&mut self, default: Tag, pc: PCBit, content: &Vec<u8>)
        ensures
            final(self).bufv() == old(self).bufv() + spec_tlv(
                old(self).efftag(default),
                pc,
                content@,
            ),
            final(self).imptagv() is None,
    {
        let tag = self.take_tag(default);
        self.emit_tlv(tag, pc, content);
    }

}

impl DERWriterSeq {
    /// The underlying writer.
    pub closed spec fn innerv(self) -> DERWriter {
        self.inner
    }

    /// The writer for the next element of the sequence.
    pub fn next<'s>(&'s mut self) -> (r: &'s mut DERWriter)
        ensures
            *r == old(self).innerv(),
            final(self).innerv() == *final(r),
    {
        &mut self.inner
    }
}

impl DERWriterSet {
    /// The finished element buffers.
    pub closed spec fn bufsv(self) -> Seq<Seq<u8>> {
        if self.started {
            self.bufs@.map_values(|v: Vec<u8>| v@).push(self.cur.bufv())
        } else {
            self.bufs@.map_values(|v: Vec<u8>| v@)
        }
    }

    /// Before the first element is started, the working writer is
    /// untouched.
    pub closed spec fn wfs(self) -> bool {
        !self.started ==> fresh_writer(self.cur)
    }

    /// The writer for the next element of the set.
    pub fn next<'s>(&'s mut self) -> (r: &'s mut DERWriter)
        requires
            old(self).wfs(),
        ensures
            final(self).wfs(),
            (*r).bufv() == Seq::<u8>::empty(),
            (*r).imptagv() is None,
            final(self).bufsv() == old(self).bufsv().push((*final(r)).bufv()),
    {
        if self.started {
            let mut done: Vec<u8> = Vec::new();
            core::mem::swap(&mut done, &mut self.cur.buf);
            self.bufs.push(done);
            self.cur.implicit_tag = None;
            proof {
                assert(self.bufs@.map_values(|v: Vec<u8>| v@) =~= old(self).bufs@.map_values(
                    |v: Vec<u8>| v@,
                ).push(old(self).cur.bufv()));
            }
        } else {
            self.started = true;
        }
        &mut self.cur
    }

    /// Closes the collection and hands out the element buffers.
    fn finish(self) -> (r: Vec<Vec<u8>>)
        ensures
            r@.map_values(|v: Vec<u8>| v@) == self.bufsv(),
    {
        let mut bufs = self.bufs;
        if self.started {
            let mut cur = self.cur;
            let mut done: Vec<u8> = Vec::new();
            core::mem::swap(&mut done, &mut cur.buf);
            bufs.push(done);
            proof {
                assert(bufs@.map_values(|v: Vec<u8>| v@) =~= self.bufs@.map_values(
                    |v: Vec<u8>| v@,
                ).push(self.cur.bufv()));
            }
        }
        bufs
    }
}

/// Appends the minimal two's-complement form of an unsigned value.
fn push_twos_u64(out: &mut Vec<u8>, v: u64)
    ensures
        final(out)@ == old(out)@ + twos_bytes(v as int),
    decreases v,
{
    if v < 128 {
        out.push(v as u8);
        proof {
            assert(final(out)@ =~= old(out)@ + twos_bytes(v as int));
        }
    } else {
        push_twos_u64(out, v / 256);
        out.push((v % 256) as u8);
        proof {
            assert(final(out)@ =~= old(out)@ + twos_bytes(v as int)) by {
                assert(twos_bytes(v as int) =~= twos_bytes((v as int) / 256).push(
                    ((v as int) % 256) as u8,
                ));
            }
        }
    }
}

/// Appends the minimal two's-complement form of a signed value.
fn push_twos_i64(out: &mut Vec<u8>, v: i64)
    ensures
        final(out)@ == old(out)@ + twos_bytes(v as int),
    decreases (if v < 0 { -(v as int) } else { v as int }),
{
    if v >= 0 {
        push_twos_u64(out, v as u64);
    } else if v >= -128 {
        out.push((v + 256) as u8);
        proof {
            assert((v as int) % 256 == v + 256);
            assert(final(out)@ =~= old(out)@ + twos_bytes(v as int));
        }
    } else {
        let q = v / 256;
        let rem = v % 256;
        let hi = if rem == 0 {
            q
        } else {
            q - 1
        };
        let lo = if rem == 0 {
            0i64
        } else {
            rem + 256
        };
        proof {
            assert(v == 256 * hi + lo && 0 <= lo < 256);
            assert((v as int) / 256 == hi && (v as int) % 256 == lo);
        }
        push_twos_i64(out, hi);
        out.push(lo as u8);
        proof {
            assert(final(out)@ =~= old(out)@ + twos_bytes(v as int)) by {
                assert(twos_bytes(v as int) =~= twos_bytes((v as int) / 256).push(
                    ((v as int) % 256) as u8,
                ));
            }
        }
    }
}

/// One step of concatenation over a prefix.
pub(crate) proof fn lemma_concat_take_step(s: Seq<Seq<u8>>, i: int)
    requires
        0 < i <= s.len(),
    ensures
        concat_seqs(s.take(i)) == concat_seqs(s.take(i - 1)) + s[i - 1],
    decreases i,
{
    if i == 1 {
        assert(s.take(1).drop_first() =~= Seq::<Seq<u8>>::empty());
        assert(s.take(1).first() == s[0]);
        assert(concat_seqs(Seq::<Seq<u8>>::empty()) =~= Seq::<u8>::empty());
        assert(s[0] + Seq::<u8>::empty() =~= s[0]);
        assert(concat_seqs(s.take(1)) =~= s[0]);
        assert(concat_seqs(s.take(0)) =~= Seq::<u8>::empty());
        assert(concat_seqs(s.take(0)) + s[0] =~= s[0]);
    } else {
        lemma_concat_take_step(s.drop_first(), i - 1);
        assert(s.take(i).drop_first() =~= s.drop_first().take(i - 1));
        assert(s.take(i - 1).drop_first() =~= s.drop_first().take(i - 2));
        assert(s.take(i).first() == s[0]);
        assert(s.take(i - 1).first() == s[0]);
        assert(s.drop_first()[i - 2] == s[i - 1]);
        assert(concat_seqs(s.take(i)) =~= s[0] + concat_seqs(s.drop_first().take(i - 1)));
        assert(concat_seqs(s.take(i - 1)) + s[i - 1] =~= (s[0] + concat_seqs(
            s.drop_first().take(i - 2),
        )) + s[i - 1]);
        assert(s[0] + (concat_seqs(s.drop_first().take(i - 2)) + s[i - 1]) =~= (s[0]
            + concat_seqs(s.drop_first().take(i - 2))) + s[i - 1]);
    }
}

/// The number of base-256 octets of a `usize` value is at most eight.
proof fn lemma_be_bytes_len_le(n: nat)
    requires
        n <= usize::MAX,
    ensures
        be_bytes(n).len() <= 8,
{
    crate::encoding::lemma_pow256_small();
    lemma_be_bytes_len_rec(n, 8);
}

/// A value below the `k`-th power of 256 takes at most `k` octets.
proof fn lemma_be_bytes_len_rec(n: nat, k: nat)
    requires
        n < pow256(k),
    ensures
        be_bytes(n).len() <= k,
    decreases k,
{
    if n == 0 {
    } else {
        assert(k >= 1) by {
            if k == 0 {
                assert(pow256(0) == 1);
            }
        }
        assert(pow256(k) == 256 * pow256((k - 1) as nat));
        assert(n / 256 < pow256((k - 1) as nat));
        lemma_be_bytes_len_rec(n / 256, (k - 1) as nat);
    }
}


/// The sort rank of a SET element: its outer tag, read from the first
/// octets of its encoding, ordered by class and then by number.
/// An element without a readable identifier ranks first.
pub open spec fn elem_rank(s: Seq<u8>) -> int {
    match crate::reader::sp_identifier(s, 0, s.len() as int) {
        crate::reader::Step::Done { v: (t, pc), end } => crate::encoding::class_bits(t.tag_class)
            * 0x10000000000000000 + t.tag_number,
        crate::reader::Step::Fail { kind, end } => -1,
    }
}

/// Whether a sequence of element encodings is in ascending tag order.
pub open spec fn rank_sorted(s: Seq<Seq<u8>>) -> bool {
    forall|i: int, j: int|
        0 <= i < j < s.len() ==> elem_rank(#[trigger] s[i]) <= elem_rank(#[trigger] s[j])
}

/// Ascending tag order, stated over byte vectors.
pub open spec fn rank_sorted_vecs(s: Seq<Vec<u8>>) -> bool {
    forall|i: int, j: int|
        #![trigger s[i], s[j]]
        0 <= i < j < s.len() ==> elem_rank(s[i]@) <= elem_rank(s[j]@)
}

/// Tag order over vectors carries over to their views.
proof fn lemma_rank_sorted_vecs_to_seqs(s: Seq<Vec<u8>>)
    requires
        rank_sorted_vecs(s),
    ensures
        rank_sorted(s.map_values(|v: Vec<u8>| v@)),
{
    let m = s.map_values(|v: Vec<u8>| v@);
    assert forall|i: int, j: int| 0 <= i < j < m.len() implies elem_rank(#[trigger] m[i])
        <= elem_rank(#[trigger] m[j]) by {
        assert(m[i] == s[i]@);
        assert(m[j] == s[j]@);
    }
}

/// Compares two element encodings by their sort rank.
fn cmp_rank(a: &Vec<u8>, b: &Vec<u8>) -> (r: i8)
    ensures
        r < 0 <==> elem_rank(a@) < elem_rank(b@),
        r == 0 <==> elem_rank(a@) == elem_rank(b@),
        r > 0 <==> elem_rank(a@) > elem_rank(b@),
{
    let ka = rank_key(a);
    let kb = rank_key(b);
    match (ka, kb) {
        (None, None) => 0,
        (None, Some(_)) => -1,
        (Some(_), None) => 1,
        (Some((ca, na)), Some((cb, nb))) => {
            proof {
                lemma_rank_order(ca, na, cb, nb);
            }
            if ca < cb {
                -1
            } else if ca > cb {
                1
            } else if na < nb {
                -1
            } else if na > nb {
                1
            } else {
                0
            }
        },
    }
}

/// Class-then-number order agrees with the combined rank.
proof fn lemma_rank_order(ca: u8, na: u64, cb: u8, nb: u64)
    ensures
        ca * 0x10000000000000000 + na < cb * 0x10000000000000000 + nb <==> (ca < cb || (ca == cb
            && na < nb)),
{
}

/// Reads the class bits and tag number from the head of an element
/// encoding.
fn rank_key(buf: &Vec<u8>) -> (r: Option<(u8, u64)>)
    ensures
        match r {
            Some((c, n)) => elem_rank(buf@) == c * 0x10000000000000000 + n,
            None => elem_rank(buf@) == -1,
        },
{
    let mut reader = crate::reader::BERReader::new(buf.as_slice(), crate::reader::BERMode::Ber);
    match reader.parse_identifier() {
        Ok((t, pc)) => {
            let c: u8 = match t.tag_class {
                TagClass::Universal => 0,
                TagClass::Application => 1,
                TagClass::ContextSpecific => 2,
                TagClass::Private => 3,
            };
            Some((c, t.tag_number))
        },
        Err(e) => {
            let _ = e;
            None
        },
    }
}

/// Sorts element buffers into ascending tag order: repeatedly moves
/// the least remaining buffer to the output.
fn sort_rank_bufs(bufs: Vec<Vec<u8>>) -> (r: Vec<Vec<u8>>)
    ensures
        rank_sorted_vecs(r@),
        r@.map_values(|v: Vec<u8>| v@).to_multiset() == bufs@.map_values(
            |v: Vec<u8>| v@,
        ).to_multiset(),
{
    let ghost origm = bufs@.map_values(|v: Vec<u8>| v@);
    let mut out: Vec<Vec<u8>> = Vec::new();
    let mut rest = bufs;
    proof {
        assert(out@.map_values(|v: Vec<u8>| v@) =~= Seq::<Seq<u8>>::empty());
        Seq::<Seq<u8>>::empty().to_multiset_ensures();
        assert(Seq::<Seq<u8>>::empty().to_multiset().len() == 0);
        assert(Seq::<Seq<u8>>::empty().to_multiset() =~= Multiset::<Seq<u8>>::empty());
        assert(rest@.map_values(|v: Vec<u8>| v@) == origm);
        assert(out@.map_values(|v: Vec<u8>| v@).to_multiset().add(
            rest@.map_values(|v: Vec<u8>| v@).to_multiset(),
        ) =~= origm.to_multiset());
    }
    while rest.len() > 0
        invariant
            rank_sorted_vecs(out@),
            out@.map_values(|v: Vec<u8>| v@).to_multiset().add(
                rest@.map_values(|v: Vec<u8>| v@).to_multiset(),
            ) == origm.to_multiset(),
            forall|i: int, j: int|
                #![trigger out@[i], rest@[j]]
                0 <= i < out@.len() && 0 <= j < rest@.len() ==> elem_rank(out@[i]@) <= elem_rank(
                    rest@[j]@,
                ),
        decreases rest@.len(),
    {
        let ghost outm = out@.map_values(|v: Vec<u8>| v@);
        let ghost restm = rest@.map_values(|v: Vec<u8>| v@);
        let ghost out0 = out@;
        let ghost rest0 = rest@;
        // Select the least remaining buffer.
        let mut best: usize = 0;
        let mut j: usize = 1;
        while j < rest.len()
            invariant
                0 < rest@.len(),
                rest@ == rest0,
                0 <= best < j <= rest@.len(),
                forall|k: int|
                    #![trigger rest@[k]]
                    0 <= k < j ==> elem_rank(rest@[best as int]@) <= elem_rank(rest@[k]@),
            decreases rest@.len() - j,
        {
            let c = cmp_rank(&rest[j], &rest[best]);
            if c < 0 {
                best = j;
            }
            j = j + 1;
        }
        let picked = rest.remove(best);
        out.push(picked);
        proof {
            assert(out@ =~= out0.push(rest0[best as int]));
            assert(rest@ =~= rest0.remove(best as int));
            let newout = out@.map_values(|v: Vec<u8>| v@);
            let newrest = rest@.map_values(|v: Vec<u8>| v@);
            assert(newout =~= outm.push(restm[best as int]));
            assert(newrest =~= restm.remove(best as int));
            outm.to_multiset_ensures();
            restm.to_multiset_ensures();
            assert(newout.to_multiset() =~= outm.to_multiset().insert(restm[best as int]));
            assert(newrest.to_multiset() =~= restm.to_multiset().remove(restm[best as int]));
            assert(restm.to_multiset().count(restm[best as int]) > 0) by {
                assert(restm[best as int] == restm[best as int]);
                assert(restm.contains(restm[best as int]));
            }
            assert(newout.to_multiset().add(newrest.to_multiset()) =~= origm.to_multiset());
            assert forall|i: int, jj: int|
                #![trigger out@[i], out@[jj]]
                0 <= i < jj < out@.len() implies elem_rank(out@[i]@) <= elem_rank(out@[jj]@) by {
                if jj < out@.len() - 1 {
                    assert(out@[i] == out0[i] && out@[jj] == out0[jj]);
                } else {
                    assert(out@[jj] == rest0[best as int]);
                    if i < out@.len() - 1 {
                        assert(out@[i] == out0[i]);
                    }
                }
            }
            assert forall|i: int, jj: int|
                #![trigger out@[i], rest@[jj]]
                0 <= i < out@.len() && 0 <= jj < rest@.len() implies elem_rank(out@[i]@)
                <= elem_rank(rest@[jj]@) by {
                let orig_j = if jj < best as int {
                    jj
                } else {
                    jj + 1
                };
                assert(rest@[jj] == rest0[orig_j]);
                if i < out@.len() - 1 {
                    assert(out@[i] == out0[i]);
                } else {
                    assert(out@[i] == rest0[best as int]);
                }
            }
        }
    }
    proof {
        assert(rest@.map_values(|v: Vec<u8>| v@) =~= Seq::<Seq<u8>>::empty());
        Seq::<Seq<u8>>::empty().to_multiset_ensures();
        assert(Seq::<Seq<u8>>::empty().to_multiset().len() == 0);
        assert(Seq::<Seq<u8>>::empty().to_multiset() =~= Multiset::<Seq<u8>>::empty());
        assert(out@.map_values(|v: Vec<u8>| v@).to_multiset() =~= origm.to_multiset());
    }
    out
}

/// Ascending lexicographic order, stated over byte vectors.
pub open spec fn lex_sorted_vecs(s: Seq<Vec<u8>>) -> bool {
    forall|i: int, j: int|
        #![trigger s[i], s[j]]
        0 <= i < j < s.len() ==> lex_cmp(s[i]@, s[j]@) <= 0
}

/// Sorts element buffers into ascending lexicographic byte order:
/// repeatedly moves the least remaining buffer to the output.
pub(crate) fn sort_lex_bufs(bufs: Vec<Vec<u8>>) -> (r: Vec<Vec<u8>>)
    ensures
        lex_sorted_vecs(r@),
        r@.map_values(|v: Vec<u8>| v@).to_multiset() == bufs@.map_values(
            |v: Vec<u8>| v@,
        ).to_multiset(),
{
    let ghost origm = bufs@.map_values(|v: Vec<u8>| v@);
    let mut out: Vec<Vec<u8>> = Vec::new();
    let mut rest = bufs;
    proof {
        assert(out@.map_values(|v: Vec<u8>| v@) =~= Seq::<Seq<u8>>::empty());
        Seq::<Seq<u8>>::empty().to_multiset_ensures();
        assert(Seq::<Seq<u8>>::empty().to_multiset().len() == 0);
        assert(Seq::<Seq<u8>>::empty().to_multiset() =~= Multiset::<Seq<u8>>::empty());
        assert(rest@.map_values(|v: Vec<u8>| v@) == origm);
        assert(out@.map_values(|v: Vec<u8>| v@).to_multiset().add(
            rest@.map_values(|v: Vec<u8>| v@).to_multiset(),
        ) =~= origm.to_multiset());
    }
    while rest.len() > 0
        invariant
            lex_sorted_vecs(out@),
            out@.map_values(|v: Vec<u8>| v@).to_multiset().add(
                rest@.map_values(|v: Vec<u8>| v@).to_multiset(),
            ) == origm.to_multiset(),
            forall|i: int, j: int|
                #![trigger out@[i], rest@[j]]
                0 <= i < out@.len() && 0 <= j < rest@.len() ==> lex_cmp(out@[i]@, rest@[j]@)
                    <= 0,
        decreases rest@.len(),
    {
        let ghost outm = out@.map_values(|v: Vec<u8>| v@);
        let ghost restm = rest@.map_values(|v: Vec<u8>| v@);
        let ghost out0 = out@;
        let ghost rest0 = rest@;
        // Select the least remaining buffer.
        let mut best: usize = 0;
        let mut j: usize = 1;
        proof {
            lemma_lex_flip(rest@[0]@, rest@[0]@);
        }
        while j < rest.len()
            invariant
                0 < rest@.len(),
                rest@ == rest0,
                0 <= best < j <= rest@.len(),
                forall|k: int|
                    #![trigger rest@[k]]
                    0 <= k < j ==> lex_cmp(rest@[best as int]@, rest@[k]@) <= 0,
            decreases rest@.len() - j,
        {
            let c = lex_cmp_vecs(&rest[j], &rest[best]);
            if c < 0 {
                let ghost oldbest = best as int;
                best = j;
                proof {
                    lemma_lex_flip(rest@[j as int]@, rest@[oldbest]@);
                    assert forall|k: int| 0 <= k < j + 1 implies lex_cmp(
                        rest@[best as int]@,
                        #[trigger] rest@[k]@,
                    ) <= 0 by {
                        if k < j {
                            lemma_lex_trans(rest@[j as int]@, rest@[oldbest]@, rest@[k]@);
                        } else {
                            lemma_lex_flip(rest@[k]@, rest@[k]@);
                        }
                    }
                }
            } else {
                proof {
                    lemma_lex_flip(rest@[j as int]@, rest@[best as int]@);
                }
            }
            j = j + 1;
        }
        let picked = rest.remove(best);
        out.push(picked);
        proof {
            assert(out@ =~= out0.push(rest0[best as int]));
            assert(rest@ =~= rest0.remove(best as int));
            let newout = out@.map_values(|v: Vec<u8>| v@);
            let newrest = rest@.map_values(|v: Vec<u8>| v@);
            assert(newout =~= outm.push(restm[best as int]));
            assert(newrest =~= restm.remove(best as int));
            outm.to_multiset_ensures();
            restm.to_multiset_ensures();
            assert(newout.to_multiset() =~= outm.to_multiset().insert(restm[best as int]));
            assert(newrest.to_multiset() =~= restm.to_multiset().remove(restm[best as int]));
            assert(restm.to_multiset().count(restm[best as int]) > 0) by {
                assert(restm[best as int] == restm[best as int]);
                assert(restm.contains(restm[best as int]));
            }
            assert(newout.to_multiset().add(newrest.to_multiset()) =~= origm.to_multiset());
            // Sortedness of the grown output.
            assert forall|i: int, jj: int|
                #![trigger out@[i], out@[jj]]
                0 <= i < jj < out@.len() implies lex_cmp(out@[i]@, out@[jj]@) <= 0 by {
                if jj < out@.len() - 1 {
                    assert(out@[i] == out0[i] && out@[jj] == out0[jj]);
                } else {
                    assert(out@[jj] == rest0[best as int]);
                    if i < out@.len() - 1 {
                        assert(out@[i] == out0[i]);
                    }
                }
            }
            // Everything written out stays below everything remaining.
            assert forall|i: int, jj: int|
                #![trigger out@[i], rest@[jj]]
                0 <= i < out@.len() && 0 <= jj < rest@.len() implies lex_cmp(
                out@[i]@,
                rest@[jj]@,
            ) <= 0 by {
                let orig_j = if jj < best as int {
                    jj
                } else {
                    jj + 1
                };
                assert(rest@[jj] == rest0[orig_j]);
                if i < out@.len() - 1 {
                    assert(out@[i] == out0[i]);
                } else {
                    assert(out@[i] == rest0[best as int]);
                }
            }
        }
    }
    proof {
        assert(rest@.map_values(|v: Vec<u8>| v@) =~= Seq::<Seq<u8>>::empty());
        Seq::<Seq<u8>>::empty().to_multiset_ensures();
        assert(Seq::<Seq<u8>>::empty().to_multiset().len() == 0);
        assert(Seq::<Seq<u8>>::empty().to_multiset() =~= Multiset::<Seq<u8>>::empty());
        assert(out@.map_values(|v: Vec<u8>| v@).to_multiset() =~= origm.to_multiset());
    }
    out
}

/// Compares two byte vectors lexicographically.
fn lex_cmp_vecs(a: &Vec<u8>, b: &Vec<u8>) -> (r: i8)
    ensures
        r as int == lex_cmp(a@, b@),
{
    let mut i: usize = 0;
    proof {
        assert(a@.skip(0) =~= a@);
        assert(b@.skip(0) =~= b@);
    }
    loop
        invariant
            0 <= i <= a@.len(),
            i <= b@.len(),
            lex_cmp(a@, b@) == lex_cmp(a@.skip(i as int), b@.skip(i as int)),
        decreases a@.len() - i,
    {
        if i == a.len() && i == b.len() {
            proof {
                assert(a@.skip(i as int) =~= Seq::<u8>::empty());
                assert(b@.skip(i as int) =~= Seq::<u8>::empty());
            }
            return 0;
        }
        if i == a.len() {
            proof {
                assert(a@.skip(i as int) =~= Seq::<u8>::empty());
                assert(b@.skip(i as int).len() > 0);
            }
            return -1;
        }
        if i == b.len() {
            proof {
                assert(b@.skip(i as int) =~= Seq::<u8>::empty());
                assert(a@.skip(i as int).len() > 0);
            }
            return 1;
        }
        let x = a[i];
        let y = b[i];
        proof {
            assert(a@.skip(i as int).first() == a@[i as int]);
            assert(b@.skip(i as int).first() == b@[i as int]);
            assert(a@.skip(i as int).drop_first() =~= a@.skip(i as int + 1));
            assert(b@.skip(i as int).drop_first() =~= b@.skip(i as int + 1));
        }
        if x < y {
            return -1;
        }
        if x > y {
            return 1;
        }
        i = i + 1;
    }
}

/// Serializes one value written by the caller's function and returns
/// its bytes.
pub fn construct_der<F: FnOnce(&mut DERWriter)>(fun: F) -> (r: Vec<u8>)
    requires
        forall|m: &mut DERWriter|
            fresh_writer(mut_ref_current(m)) ==> #[trigger] call_requires(fun, (m,)),
    ensures
        exists|m: &mut DERWriter|
            {
                &&& fresh_writer(mut_ref_current(m))
                &&& #[trigger] call_ensures(fun, (m,), ())
                &&& r@ == mut_ref_future(m).bufv()
            },
{
    let mut writer = DERWriter::new();
    fun(&mut writer);
    writer.buf
}

/// Serializes a run of values written by the caller's function, with
/// no surrounding SEQUENCE header, and returns their bytes.
pub fn construct_der_seq<F: FnOnce(&mut DERWriterSeq)>(fun: F) -> (r: Vec<u8>)
    requires
        forall|m: &mut DERWriterSeq|
            fresh_writer_seq(mut_ref_current(m)) ==> #[trigger] call_requires(fun, (m,)),
    ensures
        exists|m: &mut DERWriterSeq|
            {
                &&& fresh_writer_seq(mut_ref_current(m))
                &&& #[trigger] call_ensures(fun, (m,), ())
                &&& r@ == mut_ref_future(m).innerv().bufv()
            },
{
    let mut writer = DERWriterSeq { inner: DERWriter::new() };
    fun(&mut writer);
    writer.inner.buf
}


/// Order over vectors carries over to their views.
pub(crate) proof fn lemma_sorted_vecs_to_seqs(s: Seq<Vec<u8>>)
    requires
        lex_sorted_vecs(s),
    ensures
        lex_sorted(s.map_values(|v: Vec<u8>| v@)),
{
    let m = s.map_values(|v: Vec<u8>| v@);
    assert forall|i: int, j: int| 0 <= i < j < m.len() implies lex_cmp(
        #[trigger] m[i],
        #[trigger] m[j],
    ) <= 0 by {
        assert(m[i] == s[i]@);
        assert(m[j] == s[j]@);
    }
}

/// Inserts a byte string into a sorted sequence, keeping the order.
pub open spec fn insert_lex(x: Seq<u8>, s: Seq<Seq<u8>>) -> Seq<Seq<u8>>
    decreases s.len(),
{
    if s.len() == 0 {
        seq![x]
    } else if lex_cmp(x, s.first()) <= 0 {
        seq![x] + s
    } else {
        seq![s.first()] + insert_lex(x, s.drop_first())
    }
}

/// The ascending lexicographic rearrangement of a sequence of byte
/// strings, by insertion.
pub open spec fn sort_lex_spec(s: Seq<Seq<u8>>) -> Seq<Seq<u8>>
    decreases s.len(),
{
    if s.len() == 0 {
        s
    } else {
        insert_lex(s.first(), sort_lex_spec(s.drop_first()))
    }
}

/// Insertion keeps the order and adds exactly the new string.
proof fn lemma_insert_lex(x: Seq<u8>, s: Seq<Seq<u8>>)
    requires
        lex_sorted(s),
    ensures
        lex_sorted(insert_lex(x, s)),
        insert_lex(x, s).to_multiset() == s.to_multiset().insert(x),
        insert_lex(x, s).len() == s.len() + 1,
    decreases s.len(),
{
    let r = insert_lex(x, s);
    if s.len() == 0 {
        assert(s =~= Seq::<Seq<u8>>::empty());
        assert(r =~= seq![x]);
        assert(seq![x].drop_last() =~= Seq::<Seq<u8>>::empty());
        Seq::<Seq<u8>>::empty().to_multiset_ensures();
        assert(Seq::<Seq<u8>>::empty().to_multiset() =~= Multiset::<Seq<u8>>::empty());
        assert(seq![x] =~= Seq::<Seq<u8>>::empty().push(x));
        assert(r.to_multiset() =~= s.to_multiset().insert(x));
    } else if lex_cmp(x, s.first()) <= 0 {
        assert(r =~= seq![x] + s);
        assert forall|i: int, j: int| 0 <= i < j < r.len() implies lex_cmp(
            #[trigger] r[i],
            #[trigger] r[j],
        ) <= 0 by {
            if i == 0 {
                assert(r[0] == x);
                assert(r[j] == s[j - 1]);
                if j > 1 {
                    assert(lex_cmp(s[0], s[j - 1]) <= 0);
                    lemma_lex_trans(x, s.first(), s[j - 1]);
                }
            } else {
                assert(r[i] == s[i - 1] && r[j] == s[j - 1]);
            }
        }
        assert(r =~= s.insert(0, x));
        lemma_multiset_insert_at(s, 0, x);
    } else {
        let s1 = s.drop_first();
        assert(lex_sorted(s1)) by {
            assert(forall|i: int, j: int|
                #![trigger s1[i], s1[j]]
                0 <= i < j < s1.len() ==> s1[i] == s[i + 1] && s1[j] == s[j + 1]);
        }
        lemma_insert_lex(x, s1);
        let r1 = insert_lex(x, s1);
        assert(r =~= seq![s.first()] + r1);
        lemma_lex_flip(x, s.first());
        // The head stays below everything inserted after it.
        assert forall|i: int, j: int| 0 <= i < j < r.len() implies lex_cmp(
            #[trigger] r[i],
            #[trigger] r[j],
        ) <= 0 by {
            if i == 0 {
                assert(r[j] == r1[j - 1]);
                assert(r1.to_multiset().count(r1[j - 1]) > 0) by {
                    r1.to_multiset_ensures();
                    assert(r1.contains(r1[j - 1]));
                }
                assert(s1.to_multiset().insert(x).count(r1[j - 1]) > 0);
                if r1[j - 1] == x {
                    assert(lex_cmp(s.first(), x) <= 0);
                } else {
                    assert(s1.to_multiset().count(r1[j - 1]) > 0);
                    s1.to_multiset_ensures();
                    assert(s1.contains(r1[j - 1]));
                    let w = choose|w: int| 0 <= w < s1.len() && s1[w] == r1[j - 1];
                    assert(lex_cmp(s[0], s[w + 1]) <= 0);
                }
            } else {
                assert(r[i] == r1[i - 1] && r[j] == r1[j - 1]);
            }
        }
        s.to_multiset_ensures();
        r.to_multiset_ensures();
        assert(r.remove(0) =~= r1);
        assert(r1.to_multiset() =~= r.to_multiset().remove(r[0]));
        assert(r.to_multiset().count(r[0]) > 0) by {
            assert(r.contains(r[0]));
        }
        assert(r.to_multiset() =~= r1.to_multiset().insert(s.first()));
        assert(s.remove(0) =~= s1);
        assert(s1.to_multiset() =~= s.to_multiset().remove(s[0]));
        assert(s.to_multiset().count(s[0]) > 0) by {
            assert(s.contains(s[0]));
        }
        assert(s.to_multiset() =~= s1.to_multiset().insert(s.first()));
        assert(r.to_multiset() =~= s1.to_multiset().insert(x).insert(s.first()));
        assert(s.to_multiset().insert(x) =~= s1.to_multiset().insert(s.first()).insert(x));
        assert(s1.to_multiset().insert(x).insert(s.first()) =~= s1.to_multiset().insert(
            s.first(),
        ).insert(x));
        assert(r.to_multiset() =~= s.to_multiset().insert(x));
    }
}

/// Inserting at an index adds one occurrence to the multiset.
proof fn lemma_multiset_insert_at(s: Seq<Seq<u8>>, i: int, x: Seq<u8>)
    requires
        0 <= i <= s.len(),
    ensures
        s.insert(i, x).to_multiset() == s.to_multiset().insert(x),
    decreases s.len(),
{
    s.to_multiset_ensures();
    s.insert(i, x).to_multiset_ensures();
    assert(s.insert(i, x).remove(i) =~= s);
    assert(s.insert(i, x)[i] == x);
    assert(s.insert(i, x).to_multiset().remove(x) =~= s.to_multiset());
    assert(s.insert(i, x).to_multiset().count(x) > 0) by {
        assert(s.insert(i, x).contains(x));
    }
    assert(s.insert(i, x).to_multiset() =~= s.to_multiset().insert(x));
}

/// The rearrangement is sorted and is a permutation.
proof fn lemma_sort_lex_spec(s: Seq<Seq<u8>>)
    ensures
        lex_sorted(sort_lex_spec(s)),
        sort_lex_spec(s).to_multiset() == s.to_multiset(),
        sort_lex_spec(s).len() == s.len(),
    decreases s.len(),
{
    if s.len() == 0 {
    } else {
        let s1 = s.drop_first();
        lemma_sort_lex_spec(s1);
        lemma_insert_lex(s.first(), sort_lex_spec(s1));
        s.to_multiset_ensures();
        assert(s.remove(0) =~= s1);
        assert(s1.to_multiset() =~= s.to_multiset().remove(s[0]));
        assert(s.to_multiset().count(s[0]) > 0) by {
            assert(s.contains(s[0]));
        }
        assert(s.to_multiset() =~= s1.to_multiset().insert(s.first()));
        assert(sort_lex_spec(s).to_multiset() =~= s.to_multiset());
    }
}

/// Two sorted sequences carrying the same multiset are equal: the
/// sorted rearrangement is unique.
proof fn lemma_lex_sorted_unique(a: Seq<Seq<u8>>, b: Seq<Seq<u8>>)
    requires
        lex_sorted(a),
        lex_sorted(b),
        a.to_multiset() == b.to_multiset(),
    ensures
        a == b,
    decreases a.len(),
{
    a.to_multiset_ensures();
    b.to_multiset_ensures();
    if a.len() == 0 {
        assert(b.len() == 0);
        assert(a =~= b);
    } else {
        assert(b.len() > 0) by {
            assert(a.to_multiset().len() == a.len());
            assert(b.to_multiset().len() == b.len());
        }
        // Each head is a least element; equal multisets share them.
        assert(b.to_multiset().count(a.first()) > 0) by {
            assert(a.contains(a.first()));
        }
        assert(b.contains(a.first()));
        let ia = choose|i: int| 0 <= i < b.len() && b[i] == a.first();
        assert(lex_cmp(b.first(), a.first()) <= 0) by {
            if ia > 0 {
                assert(lex_cmp(b[0], b[ia]) <= 0);
            } else {
                lemma_lex_flip(b.first(), b.first());
            }
        }
        assert(a.to_multiset().count(b.first()) > 0) by {
            assert(b.contains(b.first()));
        }
        assert(a.contains(b.first()));
        let ib = choose|i: int| 0 <= i < a.len() && a[i] == b.first();
        assert(lex_cmp(a.first(), b.first()) <= 0) by {
            if ib > 0 {
                assert(lex_cmp(a[0], a[ib]) <= 0);
            } else {
                lemma_lex_flip(a.first(), a.first());
            }
        }
        lemma_lex_flip(a.first(), b.first());
        crate::encoding::lemma_lex_eq(a.first(), b.first());
        let a1 = a.drop_first();
        let b1 = b.drop_first();
        assert(lex_sorted(a1)) by {
            assert(forall|i: int, j: int|
                #![trigger a1[i], a1[j]]
                0 <= i < j < a1.len() ==> a1[i] == a[i + 1] && a1[j] == a[j + 1]);
        }
        assert(lex_sorted(b1)) by {
            assert(forall|i: int, j: int|
                #![trigger b1[i], b1[j]]
                0 <= i < j < b1.len() ==> b1[i] == b[i + 1] && b1[j] == b[j + 1]);
        }
        assert(a1.to_multiset() =~= b1.to_multiset()) by {
            assert(a.remove(0) =~= a1);
            assert(b.remove(0) =~= b1);
            assert(a1.to_multiset() =~= a.to_multiset().remove(a[0]));
            assert(b1.to_multiset() =~= b.to_multiset().remove(b[0]));
        }
        lemma_lex_sorted_unique(a1, b1);
        assert(a =~= b) by {
            assert(forall|i: int|
                #![trigger a[i], b[i]]
                1 <= i < a.len() ==> a[i] == a1[i - 1] && b[i] == b1[i - 1]);
        }
    }
}

/// The executable sort produces exactly the sorted rearrangement.
pub proof fn lemma_sorted_bufs_are_sort_lex_spec(outv: Seq<Seq<u8>>, origv: Seq<Seq<u8>>)
    requires
        lex_sorted(outv),
        outv.to_multiset() == origv.to_multiset(),
    ensures
        outv == sort_lex_spec(origv),
{
    lemma_sort_lex_spec(origv);
    lemma_lex_sorted_unique(outv, sort_lex_spec(origv));
}

} // verus!
