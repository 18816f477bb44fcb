//! Encoding values in strict DER form: a trait tying types to the
//! writer, with the exact encoded bytes as a specification per type,
//! and the stock of implementations for the universal types,
//! sequences, sets and tuples.

use vstd::prelude::*;
use crate::basics::SetOf;
use crate::models::{ObjectIdentifier, TaggedDerValue};
use crate::writer::{
    concat_seqs, lemma_concat_take_step, lemma_sorted_bufs_are_sort_lex_spec,
    lemma_sorted_vecs_to_seqs, sort_lex_bufs, sort_lex_spec, DERWriter,
};
use crate::{PCBit, Tag, TagClass};
use crate::encoding::{
    spec_der_bool_tagged, spec_der_int_tagged, spec_der_null_tagged, spec_der_octets_tagged,
    spec_der_oid_tagged, spec_tlv,
};

verus! {

/// The bytes of `post` start with `pre`.
pub open spec fn appended(pre: Seq<u8>, post: Seq<u8>) -> bool {
    pre.len() <= post.len() && post.subrange(0, pre.len() as int) == pre
}

/// Appending always leaves the earlier bytes as a prefix.
proof fn lemma_appended(pre: Seq<u8>, post: Seq<u8>)
    requires
        exists|t: Seq<u8>| post == pre + t,
    ensures
        appended(pre, post),
{
    let t = choose|t: Seq<u8>| post == pre + t;
    assert(post.subrange(0, pre.len() as int) =~= pre);
}

/// The tag a value carries: a pending implicit tag, or its own.
pub open spec fn tag_or(imp: Option<Tag>, default: Tag) -> Tag {
    match imp {
        Some(t) => t,
        None => default,
    }
}


/// The canonical forms of a run of values, one sequence each.
pub open spec fn der_map<T: DEREncodable>(s: Seq<T>) -> Seq<Seq<u8>>
    decreases s.len(),
{
    if s.len() == 0 {
        seq![]
    } else {
        der_map(s.drop_last()).push(s.last().der_bytes(None))
    }
}

/// Types encodable as DER.
///
/// Each implementation carries the bytes it writes as a specification;
/// where that specification is marked exact, the encoder appends
/// exactly those bytes.
pub trait DEREncodable {
    /// Whether the value lies in the encodable domain; only the
    /// OBJECT IDENTIFIER model restricts it.
    spec fn encodable(&self) -> bool;

    /// The canonical DER bytes of this value, under a pending implicit
    /// tag.
    spec fn der_bytes(&self, imp: Option<Tag>) -> Seq<u8>;

    /// Whether `der_bytes` is the exact output.
    spec fn der_bytes_exact() -> bool;

    /// Appends this value to the writer.
    fn encode_der(&self, writer: &mut DERWriter)
        requires
            self.encodable(),
        ensures
            appended(old(writer).bufv(), final(writer).bufv()),
            final(writer).imptagv() is None,
            Self::der_bytes_exact() ==> final(writer).bufv() == old(writer).bufv()
                + self.der_bytes(old(writer).imptagv()),
    ;
}

/// Serializes one value as DER: where the type's byte specification
/// is exact, the result is exactly its canonical form.
pub fn encode_der<T: DEREncodable>(value: &T) -> (r: Vec<u8>)
    requires
        value.encodable(),
    ensures
        T::der_bytes_exact() ==> r@ == value.der_bytes(None),
{
    let mut writer = DERWriter::new();
    value.encode_der(&mut writer);
    proof {
        if T::der_bytes_exact() {
            assert(Seq::<u8>::empty() + value.der_bytes(None) =~= value.der_bytes(None));
        }
    }
    writer.into_bytes()
}

impl DEREncodable for i64 {
    open spec fn encodable(&self) -> bool {
        true
    }

    open spec fn der_bytes(&self, imp: Option<Tag>) -> Seq<u8> {
        spec_der_int_tagged(tag_or(imp, Tag { tag_class: TagClass::Universal, tag_number: 2 }), *self as int)
    }

    open spec fn der_bytes_exact() -> bool {
        true
    }

    fn encode_der(&self, writer: &mut DERWriter) {
        writer.write_i64(*self);
        proof {
            lemma_appended(old(writer).bufv(), final(writer).bufv());
        }
    }
}

impl DEREncodable for u64 {
    open spec fn encodable(&self) -> bool {
        true
    }

    open spec fn der_bytes(&self, imp: Option<Tag>) -> Seq<u8> {
        spec_der_int_tagged(tag_or(imp, Tag { tag_class: TagClass::Universal, tag_number: 2 }), *self as int)
    }

    open spec fn der_bytes_exact() -> bool {
        true
    }

    fn encode_der(&self, writer: &mut DERWriter) {
        writer.write_u64(*self);
        proof {
            lemma_appended(old(writer).bufv(), final(writer).bufv());
        }
    }
}

impl DEREncodable for i32 {
    open spec fn encodable(&self) -> bool {
        true
    }

    open spec fn der_bytes(&self, imp: Option<Tag>) -> Seq<u8> {
        spec_der_int_tagged(tag_or(imp, Tag { tag_class: TagClass::Universal, tag_number: 2 }), *self as int)
    }

    open spec fn der_bytes_exact() -> bool {
        true
    }

    fn encode_der(&self, writer: &mut DERWriter) {
        writer.write_i32(*self);
        proof {
            lemma_appended(old(writer).bufv(), final(writer).bufv());
        }
    }
}

impl DEREncodable for u32 {
    open spec fn encodable(&self) -> bool {
        true
    }

    open spec fn der_bytes(&self, imp: Option<Tag>) -> Seq<u8> {
        spec_der_int_tagged(tag_or(imp, Tag { tag_class: TagClass::Universal, tag_number: 2 }), *self as int)
    }

    open spec fn der_bytes_exact() -> bool {
        true
    }

    fn encode_der(&self, writer: &mut DERWriter) {
        writer.write_u32(*self);
        proof {
            lemma_appended(old(writer).bufv(), final(writer).bufv());
        }
    }
}

impl DEREncodable for i16 {
    open spec fn encodable(&self) -> bool {
        true
    }

    open spec fn der_bytes(&self, imp: Option<Tag>) -> Seq<u8> {
        spec_der_int_tagged(tag_or(imp, Tag { tag_class: TagClass::Universal, tag_number: 2 }), *self as int)
    }

    open spec fn der_bytes_exact() -> bool {
        true
    }

    fn encode_der(&self, writer: &mut DERWriter) {
        writer.write_i16(*self);
        proof {
            lemma_appended(old(writer).bufv(), final(writer).bufv());
        }
    }
}

impl DEREncodable for u16 {
    open spec fn encodable(&self) -> bool {
        true
    }

    open spec fn der_bytes(&self, imp: Option<Tag>) -> Seq<u8> {
        spec_der_int_tagged(tag_or(imp, Tag { tag_class: TagClass::Universal, tag_number: 2 }), *self as int)
    }

    open spec fn der_bytes_exact() -> bool {
        true
    }

    fn encode_der(&self, writer: &mut DERWriter) {
        writer.write_u16(*self);
        proof {
            lemma_appended(old(writer).bufv(), final(writer).bufv());
        }
    }
}

impl DEREncodable for i8 {
    open spec fn encodable(&self) -> bool {
        true
    }

    open spec fn der_bytes(&self, imp: Option<Tag>) -> Seq<u8> {
        spec_der_int_tagged(tag_or(imp, Tag { tag_class: TagClass::Universal, tag_number: 2 }), *self as int)
    }

    open spec fn der_bytes_exact() -> bool {
        true
    }

    fn encode_der(&self, writer: &mut DERWriter) {
        writer.write_i8(*self);
        proof {
            lemma_appended(old(writer).bufv(), final(writer).bufv());
        }
    }
}

impl DEREncodable for u8 {
    open spec fn encodable(&self) -> bool {
        true
    }

    open spec fn der_bytes(&self, imp: Option<Tag>) -> Seq<u8> {
        spec_der_int_tagged(tag_or(imp, Tag { tag_class: TagClass::Universal, tag_number: 2 }), *self as int)
    }

    open spec fn der_bytes_exact() -> bool {
        true
    }

    fn encode_der(&self, writer: &mut DERWriter) {
        writer.write_u8(*self);
        proof {
            lemma_appended(old(writer).bufv(), final(writer).bufv());
        }
    }
}

impl DEREncodable for bool {
    open spec fn encodable(&self) -> bool {
        true
    }

    open spec fn der_bytes(&self, imp: Option<Tag>) -> Seq<u8> {
        spec_der_bool_tagged(tag_or(imp, Tag { tag_class: TagClass::Universal, tag_number: 1 }), *self)
    }

    open spec fn der_bytes_exact() -> bool {
        true
    }

    fn encode_der(&self, writer: &mut DERWriter) {
        writer.write_bool(*self);
        proof {
            lemma_appended(old(writer).bufv(), final(writer).bufv());
        }
    }
}


impl DEREncodable for crate::models::BigIntBytes {
    open spec fn encodable(&self) -> bool {
        self.wf()
    }

    open spec fn der_bytes(&self, imp: Option<Tag>) -> Seq<u8> {
        spec_der_int_tagged(
            tag_or(imp, Tag { tag_class: TagClass::Universal, tag_number: 2 }),
            self.valuev(),
        )
    }

    open spec fn der_bytes_exact() -> bool {
        true
    }

    fn encode_der(&self, writer: &mut DERWriter) {
        writer.write_bigint(self);
        proof {
            lemma_appended(old(writer).bufv(), final(writer).bufv());
        }
    }
}


impl DEREncodable for crate::models::Utf8String {
    open spec fn encodable(&self) -> bool {
        true
    }

    open spec fn der_bytes(&self, imp: Option<Tag>) -> Seq<u8> {
        spec_tlv(
            tag_or(imp, Tag { tag_class: TagClass::Universal, tag_number: 12 }),
            PCBit::Primitive,
            self.bytesv(),
        )
    }

    open spec fn der_bytes_exact() -> bool {
        true
    }

    fn encode_der(&self, writer: &mut DERWriter) {
        writer.write_utf8string(self);
        proof {
            lemma_appended(old(writer).bufv(), final(writer).bufv());
        }
    }
}

impl DEREncodable for () {
    open spec fn encodable(&self) -> bool {
        true
    }

    open spec fn der_bytes(&self, imp: Option<Tag>) -> Seq<u8> {
        spec_der_null_tagged(tag_or(imp, Tag { tag_class: TagClass::Universal, tag_number: 5 }))
    }

    open spec fn der_bytes_exact() -> bool {
        true
    }

    fn encode_der(&self, writer: &mut DERWriter) {
        writer.write_null();
        proof {
            lemma_appended(old(writer).bufv(), final(writer).bufv());
        }
    }
}

impl DEREncodable for ObjectIdentifier {
    open spec fn encodable(&self) -> bool {
        &&& self.idsv().len() >= 2
        &&& self.idsv()[0] <= 2
        &&& self.idsv()[0] < 2 ==> self.idsv()[1] < 40
        &&& self.idsv()[1] <= u64::MAX - 80
    }

    open spec fn der_bytes(&self, imp: Option<Tag>) -> Seq<u8> {
        spec_der_oid_tagged(
            tag_or(imp, Tag { tag_class: TagClass::Universal, tag_number: 6 }),
            self.idsv(),
        )
    }

    open spec fn der_bytes_exact() -> bool {
        true
    }

    fn encode_der(&self, writer: &mut DERWriter) {
        writer.write_oid(self);
        proof {
            lemma_appended(old(writer).bufv(), final(writer).bufv());
        }
    }
}

impl DEREncodable for TaggedDerValue {
    open spec fn encodable(&self) -> bool {
        true
    }

    open spec fn der_bytes(&self, imp: Option<Tag>) -> Seq<u8> {
        spec_tlv(tag_or(imp, self.tagv()), self.pcbitv(), self.valuev())
    }

    open spec fn der_bytes_exact() -> bool {
        true
    }

    fn encode_der(&self, writer: &mut DERWriter) {
        let content = vstd::slice::slice_to_vec(self.value());
        writer.write_wrapped(self.tag(), self.pcbit(), &content);
        proof {
            lemma_appended(old(writer).bufv(), final(writer).bufv());
        }
    }
}

impl DEREncodable for Vec<u8> {
    open spec fn encodable(&self) -> bool {
        true
    }

    open spec fn der_bytes(&self, imp: Option<Tag>) -> Seq<u8> {
        spec_der_octets_tagged(
            tag_or(imp, Tag { tag_class: TagClass::Universal, tag_number: 4 }),
            self@,
        )
    }

    open spec fn der_bytes_exact() -> bool {
        true
    }

    fn encode_der(&self, writer: &mut DERWriter) {
        writer.write_bytes(self.as_slice());
        proof {
            lemma_appended(old(writer).bufv(), final(writer).bufv());
        }
    }
}

impl<T: DEREncodable> DEREncodable for SetOf<T> {
    open spec fn encodable(&self) -> bool {
        forall|i: int| 0 <= i < self.vec@.len() ==> (#[trigger] self.vec@[i]).encodable()
    }

    open spec fn der_bytes(&self, imp: Option<Tag>) -> Seq<u8> {
        spec_tlv(
            tag_or(imp, Tag { tag_class: TagClass::Universal, tag_number: 17 }),
            PCBit::Constructed,
            concat_seqs(sort_lex_spec(der_map(self.vec@))),
        )
    }

    open spec fn der_bytes_exact() -> bool {
        T::der_bytes_exact()
    }

    fn encode_der(&self, writer: &mut DERWriter) {
        let mut bufs: Vec<Vec<u8>> = Vec::new();
        let mut i: usize = 0;
        proof {
            if T::der_bytes_exact() {
                assert(bufs@.map_values(|v: Vec<u8>| v@) =~= der_map(self.vec@.take(0)));
            }
        }
        while i < self.vec.len()
            invariant
                0 <= i <= self.vec@.len(),
                forall|j: int| 0 <= j < self.vec@.len() ==> (#[trigger] self.vec@[j]).encodable(),
                T::der_bytes_exact() ==> bufs@.map_values(|v: Vec<u8>| v@) == der_map(
                    self.vec@.take(i as int),
                ),
            decreases self.vec@.len() - i,
        {
            let mut one = DERWriter::new();
            self.vec[i].encode_der(&mut one);
            bufs.push(one.into_bytes());
            i = i + 1;
            proof {
                if T::der_bytes_exact() {
                    assert(self.vec@.take(i as int).drop_last() =~= self.vec@.take(i as int - 1));
                    assert(self.vec@.take(i as int).last() == self.vec@[i as int - 1]);
                    assert(bufs@.map_values(|v: Vec<u8>| v@) =~= der_map(
                        self.vec@.take(i as int),
                    ));
                }
            }
        }
        let ghost bufsv = bufs@.map_values(|v: Vec<u8>| v@);
        let sorted = sort_lex_bufs(bufs);
        let mut content: Vec<u8> = Vec::new();
        let ghost sortedv = sorted@.map_values(|v: Vec<u8>| v@);
        let mut k: usize = 0;
        proof {
            assert(content@ =~= crate::writer::concat_seqs(sortedv.take(0)));
        }
        while k < sorted.len()
            invariant
                0 <= k <= sorted@.len(),
                sortedv == sorted@.map_values(|v: Vec<u8>| v@),
                content@ == crate::writer::concat_seqs(sortedv.take(k as int)),
            decreases sorted@.len() - k,
        {
            let mut piece = vstd::slice::slice_to_vec(sorted[k].as_slice());
            content.append(&mut piece);
            k = k + 1;
            proof {
                lemma_concat_take_step(sortedv, k as int);
            }
        }
        proof {
            assert(sortedv.take(sortedv.len() as int) =~= sortedv);
            if T::der_bytes_exact() {
                assert(self.vec@.take(self.vec@.len() as int) =~= self.vec@);
                assert(bufsv == der_map(self.vec@));
                lemma_sorted_vecs_to_seqs(sorted@);
                lemma_sorted_bufs_are_sort_lex_spec(sortedv, der_map(self.vec@));
                assert(content@ == concat_seqs(sort_lex_spec(der_map(self.vec@))));
            }
        }
        writer.write_wrapped(
            Tag { tag_class: TagClass::Universal, tag_number: 17 },
            PCBit::Constructed,
            &content,
        );
        proof {
            lemma_appended(old(writer).bufv(), final(writer).bufv());
        }
    }
}

impl<T0: DEREncodable> DEREncodable for (T0,) {
    open spec fn encodable(&self) -> bool {
        self.0.encodable()
    }

    open spec fn der_bytes(&self, imp: Option<Tag>) -> Seq<u8> {
        spec_tlv(
            tag_or(imp, Tag { tag_class: TagClass::Universal, tag_number: 16 }),
            PCBit::Constructed,
            self.0.der_bytes(None),
        )
    }

    open spec fn der_bytes_exact() -> bool {
        T0::der_bytes_exact()
    }

    fn encode_der(&self, writer: &mut DERWriter) {
        let mut inner = DERWriter::new();
        self.0.encode_der(&mut inner);
        let ghost g1 = inner.bufv();
        let content = inner.into_bytes();
        writer.write_wrapped(
            Tag { tag_class: TagClass::Universal, tag_number: 16 },
            PCBit::Constructed,
            &content,
        );
        proof {
            lemma_appended(old(writer).bufv(), final(writer).bufv());
            if Self::der_bytes_exact() {
                assert(g1 =~= Seq::<u8>::empty() + self.0.der_bytes(None));
                assert(content@ =~= self.0.der_bytes(None));
            }
        }
    }
}

impl<T0: DEREncodable, T1: DEREncodable> DEREncodable for (T0, T1) {
    open spec fn encodable(&self) -> bool {
        self.0.encodable() && self.1.encodable()
    }

    open spec fn der_bytes(&self, imp: Option<Tag>) -> Seq<u8> {
        spec_tlv(
            tag_or(imp, Tag { tag_class: TagClass::Universal, tag_number: 16 }),
            PCBit::Constructed,
            self.0.der_bytes(None) + self.1.der_bytes(None),
        )
    }

    open spec fn der_bytes_exact() -> bool {
        T0::der_bytes_exact() && T1::der_bytes_exact()
    }

    fn encode_der(&self, writer: &mut DERWriter) {
        let mut inner = DERWriter::new();
        self.0.encode_der(&mut inner);
        let ghost g1 = inner.bufv();
        self.1.encode_der(&mut inner);
        let ghost g2 = inner.bufv();
        let content = inner.into_bytes();
        writer.write_wrapped(
            Tag { tag_class: TagClass::Universal, tag_number: 16 },
            PCBit::Constructed,
            &content,
        );
        proof {
            lemma_appended(old(writer).bufv(), final(writer).bufv());
            if Self::der_bytes_exact() {
                assert(g1 =~= Seq::<u8>::empty() + self.0.der_bytes(None));
                assert(g2 =~= (Seq::<u8>::empty() + self.0.der_bytes(None)) + self.1.der_bytes(None));
                assert(content@ =~= self.0.der_bytes(None) + self.1.der_bytes(None));
            }
        }
    }
}

impl<T0: DEREncodable, T1: DEREncodable, T2: DEREncodable> DEREncodable for (T0, T1, T2) {
    open spec fn encodable(&self) -> bool {
        self.0.encodable() && self.1.encodable() && self.2.encodable()
    }

    open spec fn der_bytes(&self, imp: Option<Tag>) -> Seq<u8> {
        spec_tlv(
            tag_or(imp, Tag { tag_class: TagClass::Universal, tag_number: 16 }),
            PCBit::Constructed,
            self.0.der_bytes(None) + self.1.der_bytes(None) + self.2.der_bytes(None),
        )
    }

    open spec fn der_bytes_exact() -> bool {
        T0::der_bytes_exact() && T1::der_bytes_exact() && T2::der_bytes_exact()
    }

    fn encode_der(&self, writer: &mut DERWriter) {
        let mut inner = DERWriter::new();
        self.0.encode_der(&mut inner);
        let ghost g1 = inner.bufv();
        self.1.encode_der(&mut inner);
        let ghost g2 = inner.bufv();
        self.2.encode_der(&mut inner);
        let ghost g3 = inner.bufv();
        let content = inner.into_bytes();
        writer.write_wrapped(
            Tag { tag_class: TagClass::Universal, tag_number: 16 },
            PCBit::Constructed,
            &content,
        );
        proof {
            lemma_appended(old(writer).bufv(), final(writer).bufv());
            if Self::der_bytes_exact() {
                assert(g1 =~= Seq::<u8>::empty() + self.0.der_bytes(None));
                assert(g2 =~= (Seq::<u8>::empty() + self.0.der_bytes(None)) + self.1.der_bytes(None));
                assert(g3 =~= ((Seq::<u8>::empty() + self.0.der_bytes(None)) + self.1.der_bytes(None)) + self.2.der_bytes(None));
                assert(content@ =~= self.0.der_bytes(None) + self.1.der_bytes(None) + self.2.der_bytes(None));
            }
        }
    }
}

impl<T0: DEREncodable, T1: DEREncodable, T2: DEREncodable, T3: DEREncodable> DEREncodable for (T0, T1, T2, T3) {
    open spec fn encodable(&self) -> bool {
        self.0.encodable() && self.1.encodable() && self.2.encodable() && self.3.encodable()
    }

    open spec fn der_bytes(&self, imp: Option<Tag>) -> Seq<u8> {
        spec_tlv(
            tag_or(imp, Tag { tag_class: TagClass::Universal, tag_number: 16 }),
            PCBit::Constructed,
            self.0.der_bytes(None) + self.1.der_bytes(None) + self.2.der_bytes(None) + self.3.der_bytes(None),
        )
    }

    open spec fn der_bytes_exact() -> bool {
        T0::der_bytes_exact() && T1::der_bytes_exact() && T2::der_bytes_exact() && T3::der_bytes_exact()
    }

    fn encode_der(&self, writer: &mut DERWriter) {
        let mut inner = DERWriter::new();
        self.0.encode_der(&mut inner);
        let ghost g1 = inner.bufv();
        self.1.encode_der(&mut inner);
        let ghost g2 = inner.bufv();
        self.2.encode_der(&mut inner);
        let ghost g3 = inner.bufv();
        self.3.encode_der(&mut inner);
        let ghost g4 = inner.bufv();
        let content = inner.into_bytes();
        writer.write_wrapped(
            Tag { tag_class: TagClass::Universal, tag_number: 16 },
            PCBit::Constructed,
            &content,
        );
        proof {
            lemma_appended(old(writer).bufv(), final(writer).bufv());
            if Self::der_bytes_exact() {
                assert(g1 =~= Seq::<u8>::empty() + self.0.der_bytes(None));
                assert(g2 =~= (Seq::<u8>::empty() + self.0.der_bytes(None)) + self.1.der_bytes(None));
                assert(g3 =~= ((Seq::<u8>::empty() + self.0.der_bytes(None)) + self.1.der_bytes(None)) + self.2.der_bytes(None));
                assert(g4 =~= (((Seq::<u8>::empty() + self.0.der_bytes(None)) + self.1.der_bytes(None)) + self.2.der_bytes(None)) + self.3.der_bytes(None));
                assert(content@ =~= self.0.der_bytes(None) + self.1.der_bytes(None) + self.2.der_bytes(None) + self.3.der_bytes(None));
            }
        }
    }
}

impl<T0: DEREncodable, T1: DEREncodable, T2: DEREncodable, T3: DEREncodable, T4: DEREncodable> DEREncodable for (T0, T1, T2, T3, T4) {
    open spec fn encodable(&self) -> bool {
        self.0.encodable() && self.1.encodable() && self.2.encodable() && self.3.encodable() && self.4.encodable()
    }

    open spec fn der_bytes(&self, imp: Option<Tag>) -> Seq<u8> {
        spec_tlv(
            tag_or(imp, Tag { tag_class: TagClass::Universal, tag_number: 16 }),
            PCBit::Constructed,
            self.0.der_bytes(None) + self.1.der_bytes(None) + self.2.der_bytes(None) + self.3.der_bytes(None) + self.4.der_bytes(None),
        )
    }

    open spec fn der_bytes_exact() -> bool {
        T0::der_bytes_exact() && T1::der_bytes_exact() && T2::der_bytes_exact() && T3::der_bytes_exact() && T4::der_bytes_exact()
    }

    fn encode_der(&self, writer: &mut DERWriter) {
        let mut inner = DERWriter::new();
        self.0.encode_der(&mut inner);
        let ghost g1 = inner.bufv();
        self.1.encode_der(&mut inner);
        let ghost g2 = inner.bufv();
        self.2.encode_der(&mut inner);
        let ghost g3 = inner.bufv();
        self.3.encode_der(&mut inner);
        let ghost g4 = inner.bufv();
        self.4.encode_der(&mut inner);
        let ghost g5 = inner.bufv();
        let content = inner.into_bytes();
        writer.write_wrapped(
            Tag { tag_class: TagClass::Universal, tag_number: 16 },
            PCBit::Constructed,
            &content,
        );
        proof {
            lemma_appended(old(writer).bufv(), final(writer).bufv());
            if Self::der_bytes_exact() {
                assert(g1 =~= Seq::<u8>::empty() + self.0.der_bytes(None));
                assert(g2 =~= (Seq::<u8>::empty() + self.0.der_bytes(None)) + self.1.der_bytes(None));
                assert(g3 =~= ((Seq::<u8>::empty() + self.0.der_bytes(None)) + self.1.der_bytes(None)) + self.2.der_bytes(None));
                assert(g4 =~= (((Seq::<u8>::empty() + self.0.der_bytes(None)) + self.1.der_bytes(None)) + self.2.der_bytes(None)) + self.3.der_bytes(None));
                assert(g5 =~= ((((Seq::<u8>::empty() + self.0.der_bytes(None)) + self.1.der_bytes(None)) + self.2.der_bytes(None)) + self.3.der_bytes(None)) + self.4.der_bytes(None));
                assert(content@ =~= self.0.der_bytes(None) + self.1.der_bytes(None) + self.2.der_bytes(None) + self.3.der_bytes(None) + self.4.der_bytes(None));
            }
        }
    }
}

impl<T0: DEREncodable, T1: DEREncodable, T2: DEREncodable, T3: DEREncodable, T4: DEREncodable, T5: DEREncodable> DEREncodable for (T0, T1, T2, T3, T4, T5) {
    open spec fn encodable(&self) -> bool {
        self.0.encodable() && self.1.encodable() && self.2.encodable() && self.3.encodable() && self.4.encodable() && self.5.encodable()
    }

    open spec fn der_bytes(&self, imp: Option<Tag>) -> Seq<u8> {
        spec_tlv(
            tag_or(imp, Tag { tag_class: TagClass::Universal, tag_number: 16 }),
            PCBit::Constructed,
            self.0.der_bytes(None) + self.1.der_bytes(None) + self.2.der_bytes(None) + self.3.der_bytes(None) + self.4.der_bytes(None) + self.5.der_bytes(None),
        )
    }

    open spec fn der_bytes_exact() -> bool {
        T0::der_bytes_exact() && T1::der_bytes_exact() && T2::der_bytes_exact() && T3::der_bytes_exact() && T4::der_bytes_exact() && T5::der_bytes_exact()
    }

    fn encode_der(&self, writer: &mut DERWriter) {
        let mut inner = DERWriter::new();
        self.0.encode_der(&mut inner);
        let ghost g1 = inner.bufv();
        self.1.encode_der(&mut inner);
        let ghost g2 = inner.bufv();
        self.2.encode_der(&mut inner);
        let ghost g3 = inner.bufv();
        self.3.encode_der(&mut inner);
        let ghost g4 = inner.bufv();
        self.4.encode_der(&mut inner);
        let ghost g5 = inner.bufv();
        self.5.encode_der(&mut inner);
        let ghost g6 = inner.bufv();
        let content = inner.into_bytes();
        writer.write_wrapped(
            Tag { tag_class: TagClass::Universal, tag_number: 16 },
            PCBit::Constructed,
            &content,
        );
        proof {
            lemma_appended(old(writer).bufv(), final(writer).bufv());
            if Self::der_bytes_exact() {
                assert(g1 =~= Seq::<u8>::empty() + self.0.der_bytes(None));
                assert(g2 =~= (Seq::<u8>::empty() + self.0.der_bytes(None)) + self.1.der_bytes(None));
                assert(g3 =~= ((Seq::<u8>::empty() + self.0.der_bytes(None)) + self.1.der_bytes(None)) + self.2.der_bytes(None));
                assert(g4 =~= (((Seq::<u8>::empty() + self.0.der_bytes(None)) + self.1.der_bytes(None)) + self.2.der_bytes(None)) + self.3.der_bytes(None));
                assert(g5 =~= ((((Seq::<u8>::empty() + self.0.der_bytes(None)) + self.1.der_bytes(None)) + self.2.der_bytes(None)) + self.3.der_bytes(None)) + self.4.der_bytes(None));
                assert(g6 =~= (((((Seq::<u8>::empty() + self.0.der_bytes(None)) + self.1.der_bytes(None)) + self.2.der_bytes(None)) + self.3.der_bytes(None)) + self.4.der_bytes(None)) + self.5.der_bytes(None));
                assert(content@ =~= self.0.der_bytes(None) + self.1.der_bytes(None) + self.2.der_bytes(None) + self.3.der_bytes(None) + self.4.der_bytes(None) + self.5.der_bytes(None));
            }
        }
    }
}

impl<T0: DEREncodable, T1: DEREncodable, T2: DEREncodable, T3: DEREncodable, T4: DEREncodable, T5: DEREncodable, T6: DEREncodable> DEREncodable for (T0, T1, T2, T3, T4, T5, T6) {
    open spec fn encodable(&self) -> bool {
        self.0.encodable() && self.1.encodable() && self.2.encodable() && self.3.encodable() && self.4.encodable() && self.5.encodable() && self.6.encodable()
    }

    open spec fn der_bytes(&self, imp: Option<Tag>) -> Seq<u8> {
        spec_tlv(
            tag_or(imp, Tag { tag_class: TagClass::Universal, tag_number: 16 }),
            PCBit::Constructed,
            self.0.der_bytes(None) + self.1.der_bytes(None) + self.2.der_bytes(None) + self.3.der_bytes(None) + self.4.der_bytes(None) + self.5.der_bytes(None) + self.6.der_bytes(None),
        )
    }

    open spec fn der_bytes_exact() -> bool {
        T0::der_bytes_exact() && T1::der_bytes_exact() && T2::der_bytes_exact() && T3::der_bytes_exact() && T4::der_bytes_exact() && T5::der_bytes_exact() && T6::der_bytes_exact()
    }

    fn encode_der(&self, writer: &mut DERWriter) {
        let mut inner = DERWriter::new();
        self.0.encode_der(&mut inner);
        let ghost g1 = inner.bufv();
        self.1.encode_der(&mut inner);
        let ghost g2 = inner.bufv();
        self.2.encode_der(&mut inner);
        let ghost g3 = inner.bufv();
        self.3.encode_der(&mut inner);
        let ghost g4 = inner.bufv();
        self.4.encode_der(&mut inner);
        let ghost g5 = inner.bufv();
        self.5.encode_der(&mut inner);
        let ghost g6 = inner.bufv();
        self.6.encode_der(&mut inner);
        let ghost g7 = inner.bufv();
        let content = inner.into_bytes();
        writer.write_wrapped(
            Tag { tag_class: TagClass::Universal, tag_number: 16 },
            PCBit::Constructed,
            &content,
        );
        proof {
            lemma_appended(old(writer).bufv(), final(writer).bufv());
            if Self::der_bytes_exact() {
                assert(g1 =~= Seq::<u8>::empty() + self.0.der_bytes(None));
                assert(g2 =~= (Seq::<u8>::empty() + self.0.der_bytes(None)) + self.1.der_bytes(None));
                assert(g3 =~= ((Seq::<u8>::empty() + self.0.der_bytes(None)) + self.1.der_bytes(None)) + self.2.der_bytes(None));
                assert(g4 =~= (((Seq::<u8>::empty() + self.0.der_bytes(None)) + self.1.der_bytes(None)) + self.2.der_bytes(None)) + self.3.der_bytes(None));
                assert(g5 =~= ((((Seq::<u8>::empty() + self.0.der_bytes(None)) + self.1.der_bytes(None)) + self.2.der_bytes(None)) + self.3.der_bytes(None)) + self.4.der_bytes(None));
                assert(g6 =~= (((((Seq::<u8>::empty() + self.0.der_bytes(None)) + self.1.der_bytes(None)) + self.2.der_bytes(None)) + self.3.der_bytes(None)) + self.4.der_bytes(None)) + self.5.der_bytes(None));
                assert(g7 =~= ((((((Seq::<u8>::empty() + self.0.der_bytes(None)) + self.1.der_bytes(None)) + self.2.der_bytes(None)) + self.3.der_bytes(None)) + self.4.der_bytes(None)) + self.5.der_bytes(None)) + self.6.der_bytes(None));
                assert(content@ =~= self.0.der_bytes(None) + self.1.der_bytes(None) + self.2.der_bytes(None) + self.3.der_bytes(None) + self.4.der_bytes(None) + self.5.der_bytes(None) + self.6.der_bytes(None));
            }
        }
    }
}

impl<T0: DEREncodable, T1: DEREncodable, T2: DEREncodable, T3: DEREncodable, T4: DEREncodable, T5: DEREncodable, T6: DEREncodable, T7: DEREncodable> DEREncodable for (T0, T1, T2, T3, T4, T5, T6, T7) {
    open spec fn encodable(&self) -> bool {
        self.0.encodable() && self.1.encodable() && self.2.encodable() && self.3.encodable() && self.4.encodable() && self.5.encodable() && self.6.encodable() && self.7.encodable()
    }

    open spec fn der_bytes(&self, imp: Option<Tag>) -> Seq<u8> {
        spec_tlv(
            tag_or(imp, Tag { tag_class: TagClass::Universal, tag_number: 16 }),
            PCBit::Constructed,
            self.0.der_bytes(None) + self.1.der_bytes(None) + self.2.der_bytes(None) + self.3.der_bytes(None) + self.4.der_bytes(None) + self.5.der_bytes(None) + self.6.der_bytes(None) + self.7.der_bytes(None),
        )
    }

    open spec fn der_bytes_exact() -> bool {
        T0::der_bytes_exact() && T1::der_bytes_exact() && T2::der_bytes_exact() && T3::der_bytes_exact() && T4::der_bytes_exact() && T5::der_bytes_exact() && T6::der_bytes_exact() && T7::der_bytes_exact()
    }

    fn encode_der(&self, writer: &mut DERWriter) {
        let mut inner = DERWriter::new();
        self.0.encode_der(&mut inner);
        let ghost g1 = inner.bufv();
        self.1.encode_der(&mut inner);
        let ghost g2 = inner.bufv();
        self.2.encode_der(&mut inner);
        let ghost g3 = inner.bufv();
        self.3.encode_der(&mut inner);
        let ghost g4 = inner.bufv();
        self.4.encode_der(&mut inner);
        let ghost g5 = inner.bufv();
        self.5.encode_der(&mut inner);
        let ghost g6 = inner.bufv();
        self.6.encode_der(&mut inner);
        let ghost g7 = inner.bufv();
        self.7.encode_der(&mut inner);
        let ghost g8 = inner.bufv();
        let content = inner.into_bytes();
        writer.write_wrapped(
            Tag { tag_class: TagClass::Universal, tag_number: 16 },
            PCBit::Constructed,
            &content,
        );
        proof {
            lemma_appended(old(writer).bufv(), final(writer).bufv());
            if Self::der_bytes_exact() {
                assert(g1 =~= Seq::<u8>::empty() + self.0.der_bytes(None));
                assert(g2 =~= (Seq::<u8>::empty() + self.0.der_bytes(None)) + self.1.der_bytes(None));
                assert(g3 =~= ((Seq::<u8>::empty() + self.0.der_bytes(None)) + self.1.der_bytes(None)) + self.2.der_bytes(None));
                assert(g4 =~= (((Seq::<u8>::empty() + self.0.der_bytes(None)) + self.1.der_bytes(None)) + self.2.der_bytes(None)) + self.3.der_bytes(None));
                assert(g5 =~= ((((Seq::<u8>::empty() + self.0.der_bytes(None)) + self.1.der_bytes(None)) + self.2.der_bytes(None)) + self.3.der_bytes(None)) + self.4.der_bytes(None));
                assert(g6 =~= (((((Seq::<u8>::empty() + self.0.der_bytes(None)) + self.1.der_bytes(None)) + self.2.der_bytes(None)) + self.3.der_bytes(None)) + self.4.der_bytes(None)) + self.5.der_bytes(None));
                assert(g7 =~= ((((((Seq::<u8>::empty() + self.0.der_bytes(None)) + self.1.der_bytes(None)) + self.2.der_bytes(None)) + self.3.der_bytes(None)) + self.4.der_bytes(None)) + self.5.der_bytes(None)) + self.6.der_bytes(None));
                assert(g8 =~= (((((((Seq::<u8>::empty() + self.0.der_bytes(None)) + self.1.der_bytes(None)) + self.2.der_bytes(None)) + self.3.der_bytes(None)) + self.4.der_bytes(None)) + self.5.der_bytes(None)) + self.6.der_bytes(None)) + self.7.der_bytes(None));
                assert(content@ =~= self.0.der_bytes(None) + self.1.der_bytes(None) + self.2.der_bytes(None) + self.3.der_bytes(None) + self.4.der_bytes(None) + self.5.der_bytes(None) + self.6.der_bytes(None) + self.7.der_bytes(None));
            }
        }
    }
}

impl<T0: DEREncodable, T1: DEREncodable, T2: DEREncodable, T3: DEREncodable, T4: DEREncodable, T5: DEREncodable, T6: DEREncodable, T7: DEREncodable, T8: DEREncodable> DEREncodable for (T0, T1, T2, T3, T4, T5, T6, T7, T8) {
    open spec fn encodable(&self) -> bool {
        self.0.encodable() && self.1.encodable() && self.2.encodable() && self.3.encodable() && self.4.encodable() && self.5.encodable() && self.6.encodable() && self.7.encodable() && self.8.encodable()
    }

    open spec fn der_bytes(&self, imp: Option<Tag>) -> Seq<u8> {
        spec_tlv(
            tag_or(imp, Tag { tag_class: TagClass::Universal, tag_number: 16 }),
            PCBit::Constructed,
            self.0.der_bytes(None) + self.1.der_bytes(None) + self.2.der_bytes(None) + self.3.der_bytes(None) + self.4.der_bytes(None) + self.5.der_bytes(None) + self.6.der_bytes(None) + self.7.der_bytes(None) + self.8.der_bytes(None),
        )
    }

    open spec fn der_bytes_exact() -> bool {
        T0::der_bytes_exact() && T1::der_bytes_exact() && T2::der_bytes_exact() && T3::der_bytes_exact() && T4::der_bytes_exact() && T5::der_bytes_exact() && T6::der_bytes_exact() && T7::der_bytes_exact() && T8::der_bytes_exact()
    }

    fn encode_der(&self, writer: &mut DERWriter) {
        let mut inner = DERWriter::new();
        self.0.encode_der(&mut inner);
        let ghost g1 = inner.bufv();
        self.1.encode_der(&mut inner);
        let ghost g2 = inner.bufv();
        self.2.encode_der(&mut inner);
        let ghost g3 = inner.bufv();
        self.3.encode_der(&mut inner);
        let ghost g4 = inner.bufv();
        self.4.encode_der(&mut inner);
        let ghost g5 = inner.bufv();
        self.5.encode_der(&mut inner);
        let ghost g6 = inner.bufv();
        self.6.encode_der(&mut inner);
        let ghost g7 = inner.bufv();
        self.7.encode_der(&mut inner);
        let ghost g8 = inner.bufv();
        self.8.encode_der(&mut inner);
        let ghost g9 = inner.bufv();
        let content = inner.into_bytes();
        writer.write_wrapped(
            Tag { tag_class: TagClass::Universal, tag_number: 16 },
            PCBit::Constructed,
            &content,
        );
        proof {
            lemma_appended(old(writer).bufv(), final(writer).bufv());
            if Self::der_bytes_exact() {
                assert(g1 =~= Seq::<u8>::empty() + self.0.der_bytes(None));
                assert(g2 =~= (Seq::<u8>::empty() + self.0.der_bytes(None)) + self.1.der_bytes(None));
                assert(g3 =~= ((Seq::<u8>::empty() + self.0.der_bytes(None)) + self.1.der_bytes(None)) + self.2.der_bytes(None));
                assert(g4 =~= (((Seq::<u8>::empty() + self.0.der_bytes(None)) + self.1.der_bytes(None)) + self.2.der_bytes(None)) + self.3.der_bytes(None));
                assert(g5 =~= ((((Seq::<u8>::empty() + self.0.der_bytes(None)) + self.1.der_bytes(None)) + self.2.der_bytes(None)) + self.3.der_bytes(None)) + self.4.der_bytes(None));
                assert(g6 =~= (((((Seq::<u8>::empty() + self.0.der_bytes(None)) + self.1.der_bytes(None)) + self.2.der_bytes(None)) + self.3.der_bytes(None)) + self.4.der_bytes(None)) + self.5.der_bytes(None));
                assert(g7 =~= ((((((Seq::<u8>::empty() + self.0.der_bytes(None)) + self.1.der_bytes(None)) + self.2.der_bytes(None)) + self.3.der_bytes(None)) + self.4.der_bytes(None)) + self.5.der_bytes(None)) + self.6.der_bytes(None));
                assert(g8 =~= (((((((Seq::<u8>::empty() + self.0.der_bytes(None)) + self.1.der_bytes(None)) + self.2.der_bytes(None)) + self.3.der_bytes(None)) + self.4.der_bytes(None)) + self.5.der_bytes(None)) + self.6.der_bytes(None)) + self.7.der_bytes(None));
                assert(g9 =~= ((((((((Seq::<u8>::empty() + self.0.der_bytes(None)) + self.1.der_bytes(None)) + self.2.der_bytes(None)) + self.3.der_bytes(None)) + self.4.der_bytes(None)) + self.5.der_bytes(None)) + self.6.der_bytes(None)) + self.7.der_bytes(None)) + self.8.der_bytes(None));
                assert(content@ =~= self.0.der_bytes(None) + self.1.der_bytes(None) + self.2.der_bytes(None) + self.3.der_bytes(None) + self.4.der_bytes(None) + self.5.der_bytes(None) + self.6.der_bytes(None) + self.7.der_bytes(None) + self.8.der_bytes(None));
            }
        }
    }
}

impl<T0: DEREncodable, T1: DEREncodable, T2: DEREncodable, T3: DEREncodable, T4: DEREncodable, T5: DEREncodable, T6: DEREncodable, T7: DEREncodable, T8: DEREncodable, T9: DEREncodable> DEREncodable for (T0, T1, T2, T3, T4, T5, T6, T7, T8, T9) {
    open spec fn encodable(&self) -> bool {
        self.0.encodable() && self.1.encodable() && self.2.encodable() && self.3.encodable() && self.4.encodable() && self.5.encodable() && self.6.encodable() && self.7.encodable() && self.8.encodable() && self.9.encodable()
    }

    open spec fn der_bytes(&self, imp: Option<Tag>) -> Seq<u8> {
        spec_tlv(
            tag_or(imp, Tag { tag_class: TagClass::Universal, tag_number: 16 }),
            PCBit::Constructed,
            self.0.der_bytes(None) + self.1.der_bytes(None) + self.2.der_bytes(None) + self.3.der_bytes(None) + self.4.der_bytes(None) + self.5.der_bytes(None) + self.6.der_bytes(None) + self.7.der_bytes(None) + self.8.der_bytes(None) + self.9.der_bytes(None),
        )
    }

    open spec fn der_bytes_exact() -> bool {
        T0::der_bytes_exact() && T1::der_bytes_exact() && T2::der_bytes_exact() && T3::der_bytes_exact() && T4::der_bytes_exact() && T5::der_bytes_exact() && T6::der_bytes_exact() && T7::der_bytes_exact() && T8::der_bytes_exact() && T9::der_bytes_exact()
    }

    fn encode_der(&self, writer: &mut DERWriter) {
        let mut inner = DERWriter::new();
        self.0.encode_der(&mut inner);
        let ghost g1 = inner.bufv();
        self.1.encode_der(&mut inner);
        let ghost g2 = inner.bufv();
        self.2.encode_der(&mut inner);
        let ghost g3 = inner.bufv();
        self.3.encode_der(&mut inner);
        let ghost g4 = inner.bufv();
        self.4.encode_der(&mut inner);
        let ghost g5 = inner.bufv();
        self.5.encode_der(&mut inner);
        let ghost g6 = inner.bufv();
        self.6.encode_der(&mut inner);
        let ghost g7 = inner.bufv();
        self.7.encode_der(&mut inner);
        let ghost g8 = inner.bufv();
        self.8.encode_der(&mut inner);
        let ghost g9 = inner.bufv();
        self.9.encode_der(&mut inner);
        let ghost g10 = inner.bufv();
        let content = inner.into_bytes();
        writer.write_wrapped(
            Tag { tag_class: TagClass::Universal, tag_number: 16 },
            PCBit::Constructed,
            &content,
        );
        proof {
            lemma_appended(old(writer).bufv(), final(writer).bufv());
            if Self::der_bytes_exact() {
                assert(g1 =~= Seq::<u8>::empty() + self.0.der_bytes(None));
                assert(g2 =~= (Seq::<u8>::empty() + self.0.der_bytes(None)) + self.1.der_bytes(None));
                assert(g3 =~= ((Seq::<u8>::empty() + self.0.der_bytes(None)) + self.1.der_bytes(None)) + self.2.der_bytes(None));
                assert(g4 =~= (((Seq::<u8>::empty() + self.0.der_bytes(None)) + self.1.der_bytes(None)) + self.2.der_bytes(None)) + self.3.der_bytes(None));
                assert(g5 =~= ((((Seq::<u8>::empty() + self.0.der_bytes(None)) + self.1.der_bytes(None)) + self.2.der_bytes(None)) + self.3.der_bytes(None)) + self.4.der_bytes(None));
                assert(g6 =~= (((((Seq::<u8>::empty() + self.0.der_bytes(None)) + self.1.der_bytes(None)) + self.2.der_bytes(None)) + self.3.der_bytes(None)) + self.4.der_bytes(None)) + self.5.der_bytes(None));
                assert(g7 =~= ((((((Seq::<u8>::empty() + self.0.der_bytes(None)) + self.1.der_bytes(None)) + self.2.der_bytes(None)) + self.3.der_bytes(None)) + self.4.der_bytes(None)) + self.5.der_bytes(None)) + self.6.der_bytes(None));
                assert(g8 =~= (((((((Seq::<u8>::empty() + self.0.der_bytes(None)) + self.1.der_bytes(None)) + self.2.der_bytes(None)) + self.3.der_bytes(None)) + self.4.der_bytes(None)) + self.5.der_bytes(None)) + self.6.der_bytes(None)) + self.7.der_bytes(None));
                assert(g9 =~= ((((((((Seq::<u8>::empty() + self.0.der_bytes(None)) + self.1.der_bytes(None)) + self.2.der_bytes(None)) + self.3.der_bytes(None)) + self.4.der_bytes(None)) + self.5.der_bytes(None)) + self.6.der_bytes(None)) + self.7.der_bytes(None)) + self.8.der_bytes(None));
                assert(g10 =~= (((((((((Seq::<u8>::empty() + self.0.der_bytes(None)) + self.1.der_bytes(None)) + self.2.der_bytes(None)) + self.3.der_bytes(None)) + self.4.der_bytes(None)) + self.5.der_bytes(None)) + self.6.der_bytes(None)) + self.7.der_bytes(None)) + self.8.der_bytes(None)) + self.9.der_bytes(None));
                assert(content@ =~= self.0.der_bytes(None) + self.1.der_bytes(None) + self.2.der_bytes(None) + self.3.der_bytes(None) + self.4.der_bytes(None) + self.5.der_bytes(None) + self.6.der_bytes(None) + self.7.der_bytes(None) + self.8.der_bytes(None) + self.9.der_bytes(None));
            }
        }
    }
}

impl<T0: DEREncodable, T1: DEREncodable, T2: DEREncodable, T3: DEREncodable, T4: DEREncodable, T5: DEREncodable, T6: DEREncodable, T7: DEREncodable, T8: DEREncodable, T9: DEREncodable, T10: DEREncodable> DEREncodable for (T0, T1, T2, T3, T4, T5, T6, T7, T8, T9, T10) {
    open spec fn encodable(&self) -> bool {
        self.0.encodable() && self.1.encodable() && self.2.encodable() && self.3.encodable() && self.4.encodable() && self.5.encodable() && self.6.encodable() && self.7.encodable() && self.8.encodable() && self.9.encodable() && self.10.encodable()
    }

    open spec fn der_bytes(&self, imp: Option<Tag>) -> Seq<u8> {
        spec_tlv(
            tag_or(imp, Tag { tag_class: TagClass::Universal, tag_number: 16 }),
            PCBit::Constructed,
            self.0.der_bytes(None) + self.1.der_bytes(None) + self.2.der_bytes(None) + self.3.der_bytes(None) + self.4.der_bytes(None) + self.5.der_bytes(None) + self.6.der_bytes(None) + self.7.der_bytes(None) + self.8.der_bytes(None) + self.9.der_bytes(None) + self.10.der_bytes(None),
        )
    }

    open spec fn der_bytes_exact() -> bool {
        T0::der_bytes_exact() && T1::der_bytes_exact() && T2::der_bytes_exact() && T3::der_bytes_exact() && T4::der_bytes_exact() && T5::der_bytes_exact() && T6::der_bytes_exact() && T7::der_bytes_exact() && T8::der_bytes_exact() && T9::der_bytes_exact() && T10::der_bytes_exact()
    }

    fn encode_der(&self, writer: &mut DERWriter) {
        let mut inner = DERWriter::new();
        self.0.encode_der(&mut inner);
        let ghost g1 = inner.bufv();
        self.1.encode_der(&mut inner);
        let ghost g2 = inner.bufv();
        self.2.encode_der(&mut inner);
        let ghost g3 = inner.bufv();
        self.3.encode_der(&mut inner);
        let ghost g4 = inner.bufv();
        self.4.encode_der(&mut inner);
        let ghost g5 = inner.bufv();
        self.5.encode_der(&mut inner);
        let ghost g6 = inner.bufv();
        self.6.encode_der(&mut inner);
        let ghost g7 = inner.bufv();
        self.7.encode_der(&mut inner);
        let ghost g8 = inner.bufv();
        self.8.encode_der(&mut inner);
        let ghost g9 = inner.bufv();
        self.9.encode_der(&mut inner);
        let ghost g10 = inner.bufv();
        self.10.encode_der(&mut inner);
        let ghost g11 = inner.bufv();
        let content = inner.into_bytes();
        writer.write_wrapped(
            Tag { tag_class: TagClass::Universal, tag_number: 16 },
            PCBit::Constructed,
            &content,
        );
        proof {
            lemma_appended(old(writer).bufv(), final(writer).bufv());
            if Self::der_bytes_exact() {
                assert(g1 =~= Seq::<u8>::empty() + self.0.der_bytes(None));
                assert(g2 =~= (Seq::<u8>::empty() + self.0.der_bytes(None)) + self.1.der_bytes(None));
                assert(g3 =~= ((Seq::<u8>::empty() + self.0.der_bytes(None)) + self.1.der_bytes(None)) + self.2.der_bytes(None));
                assert(g4 =~= (((Seq::<u8>::empty() + self.0.der_bytes(None)) + self.1.der_bytes(None)) + self.2.der_bytes(None)) + self.3.der_bytes(None));
                assert(g5 =~= ((((Seq::<u8>::empty() + self.0.der_bytes(None)) + self.1.der_bytes(None)) + self.2.der_bytes(None)) + self.3.der_bytes(None)) + self.4.der_bytes(None));
                assert(g6 =~= (((((Seq::<u8>::empty() + self.0.der_bytes(None)) + self.1.der_bytes(None)) + self.2.der_bytes(None)) + self.3.der_bytes(None)) + self.4.der_bytes(None)) + self.5.der_bytes(None));
                assert(g7 =~= ((((((Seq::<u8>::empty() + self.0.der_bytes(None)) + self.1.der_bytes(None)) + self.2.der_bytes(None)) + self.3.der_bytes(None)) + self.4.der_bytes(None)) + self.5.der_bytes(None)) + self.6.der_bytes(None));
                assert(g8 =~= (((((((Seq::<u8>::empty() + self.0.der_bytes(None)) + self.1.der_bytes(None)) + self.2.der_bytes(None)) + self.3.der_bytes(None)) + self.4.der_bytes(None)) + self.5.der_bytes(None)) + self.6.der_bytes(None)) + self.7.der_bytes(None));
                assert(g9 =~= ((((((((Seq::<u8>::empty() + self.0.der_bytes(None)) + self.1.der_bytes(None)) + self.2.der_bytes(None)) + self.3.der_bytes(None)) + self.4.der_bytes(None)) + self.5.der_bytes(None)) + self.6.der_bytes(None)) + self.7.der_bytes(None)) + self.8.der_bytes(None));
                assert(g10 =~= (((((((((Seq::<u8>::empty() + self.0.der_bytes(None)) + self.1.der_bytes(None)) + self.2.der_bytes(None)) + self.3.der_bytes(None)) + self.4.der_bytes(None)) + self.5.der_bytes(None)) + self.6.der_bytes(None)) + self.7.der_bytes(None)) + self.8.der_bytes(None)) + self.9.der_bytes(None));
                assert(g11 =~= ((((((((((Seq::<u8>::empty() + self.0.der_bytes(None)) + self.1.der_bytes(None)) + self.2.der_bytes(None)) + self.3.der_bytes(None)) + self.4.der_bytes(None)) + self.5.der_bytes(None)) + self.6.der_bytes(None)) + self.7.der_bytes(None)) + self.8.der_bytes(None)) + self.9.der_bytes(None)) + self.10.der_bytes(None));
                assert(content@ =~= self.0.der_bytes(None) + self.1.der_bytes(None) + self.2.der_bytes(None) + self.3.der_bytes(None) + self.4.der_bytes(None) + self.5.der_bytes(None) + self.6.der_bytes(None) + self.7.der_bytes(None) + self.8.der_bytes(None) + self.9.der_bytes(None) + self.10.der_bytes(None));
            }
        }
    }
}

impl<T0: DEREncodable, T1: DEREncodable, T2: DEREncodable, T3: DEREncodable, T4: DEREncodable, T5: DEREncodable, T6: DEREncodable, T7: DEREncodable, T8: DEREncodable, T9: DEREncodable, T10: DEREncodable, T11: DEREncodable> DEREncodable for (T0, T1, T2, T3, T4, T5, T6, T7, T8, T9, T10, T11) {
    open spec fn encodable(&self) -> bool {
        self.0.encodable() && self.1.encodable() && self.2.encodable() && self.3.encodable() && self.4.encodable() && self.5.encodable() && self.6.encodable() && self.7.encodable() && self.8.encodable() && self.9.encodable() && self.10.encodable() && self.11.encodable()
    }

    open spec fn der_bytes(&self, imp: Option<Tag>) -> Seq<u8> {
        spec_tlv(
            tag_or(imp, Tag { tag_class: TagClass::Universal, tag_number: 16 }),
            PCBit::Constructed,
            self.0.der_bytes(None) + self.1.der_bytes(None) + self.2.der_bytes(None) + self.3.der_bytes(None) + self.4.der_bytes(None) + self.5.der_bytes(None) + self.6.der_bytes(None) + self.7.der_bytes(None) + self.8.der_bytes(None) + self.9.der_bytes(None) + self.10.der_bytes(None) + self.11.der_bytes(None),
        )
    }

    open spec fn der_bytes_exact() -> bool {
        T0::der_bytes_exact() && T1::der_bytes_exact() && T2::der_bytes_exact() && T3::der_bytes_exact() && T4::der_bytes_exact() && T5::der_bytes_exact() && T6::der_bytes_exact() && T7::der_bytes_exact() && T8::der_bytes_exact() && T9::der_bytes_exact() && T10::der_bytes_exact() && T11::der_bytes_exact()
    }

    fn encode_der(&self, writer: &mut DERWriter) {
        let mut inner = DERWriter::new();
        self.0.encode_der(&mut inner);
        let ghost g1 = inner.bufv();
        self.1.encode_der(&mut inner);
        let ghost g2 = inner.bufv();
        self.2.encode_der(&mut inner);
        let ghost g3 = inner.bufv();
        self.3.encode_der(&mut inner);
        let ghost g4 = inner.bufv();
        self.4.encode_der(&mut inner);
        let ghost g5 = inner.bufv();
        self.5.encode_der(&mut inner);
        let ghost g6 = inner.bufv();
        self.6.encode_der(&mut inner);
        let ghost g7 = inner.bufv();
        self.7.encode_der(&mut inner);
        let ghost g8 = inner.bufv();
        self.8.encode_der(&mut inner);
        let ghost g9 = inner.bufv();
        self.9.encode_der(&mut inner);
        let ghost g10 = inner.bufv();
        self.10.encode_der(&mut inner);
        let ghost g11 = inner.bufv();
        self.11.encode_der(&mut inner);
        let ghost g12 = inner.bufv();
        let content = inner.into_bytes();
        writer.write_wrapped(
            Tag { tag_class: TagClass::Universal, tag_number: 16 },
            PCBit::Constructed,
            &content,
        );
        proof {
            lemma_appended(old(writer).bufv(), final(writer).bufv());
            if Self::der_bytes_exact() {
                assert(g1 =~= Seq::<u8>::empty() + self.0.der_bytes(None));
                assert(g2 =~= (Seq::<u8>::empty() + self.0.der_bytes(None)) + self.1.der_bytes(None));
                assert(g3 =~= ((Seq::<u8>::empty() + self.0.der_bytes(None)) + self.1.der_bytes(None)) + self.2.der_bytes(None));
                assert(g4 =~= (((Seq::<u8>::empty() + self.0.der_bytes(None)) + self.1.der_bytes(None)) + self.2.der_bytes(None)) + self.3.der_bytes(None));
                assert(g5 =~= ((((Seq::<u8>::empty() + self.0.der_bytes(None)) + self.1.der_bytes(None)) + self.2.der_bytes(None)) + self.3.der_bytes(None)) + self.4.der_bytes(None));
                assert(g6 =~= (((((Seq::<u8>::empty() + self.0.der_bytes(None)) + self.1.der_bytes(None)) + self.2.der_bytes(None)) + self.3.der_bytes(None)) + self.4.der_bytes(None)) + self.5.der_bytes(None));
                assert(g7 =~= ((((((Seq::<u8>::empty() + self.0.der_bytes(None)) + self.1.der_bytes(None)) + self.2.der_bytes(None)) + self.3.der_bytes(None)) + self.4.der_bytes(None)) + self.5.der_bytes(None)) + self.6.der_bytes(None));
                assert(g8 =~= (((((((Seq::<u8>::empty() + self.0.der_bytes(None)) + self.1.der_bytes(None)) + self.2.der_bytes(None)) + self.3.der_bytes(None)) + self.4.der_bytes(None)) + self.5.der_bytes(None)) + self.6.der_bytes(None)) + self.7.der_bytes(None));
                assert(g9 =~= ((((((((Seq::<u8>::empty() + self.0.der_bytes(None)) + self.1.der_bytes(None)) + self.2.der_bytes(None)) + self.3.der_bytes(None)) + self.4.der_bytes(None)) + self.5.der_bytes(None)) + self.6.der_bytes(None)) + self.7.der_bytes(None)) + self.8.der_bytes(None));
                assert(g10 =~= (((((((((Seq::<u8>::empty() + self.0.der_bytes(None)) + self.1.der_bytes(None)) + self.2.der_bytes(None)) + self.3.der_bytes(None)) + self.4.der_bytes(None)) + self.5.der_bytes(None)) + self.6.der_bytes(None)) + self.7.der_bytes(None)) + self.8.der_bytes(None)) + self.9.der_bytes(None));
                assert(g11 =~= ((((((((((Seq::<u8>::empty() + self.0.der_bytes(None)) + self.1.der_bytes(None)) + self.2.der_bytes(None)) + self.3.der_bytes(None)) + self.4.der_bytes(None)) + self.5.der_bytes(None)) + self.6.der_bytes(None)) + self.7.der_bytes(None)) + self.8.der_bytes(None)) + self.9.der_bytes(None)) + self.10.der_bytes(None));
                assert(g12 =~= (((((((((((Seq::<u8>::empty() + self.0.der_bytes(None)) + self.1.der_bytes(None)) + self.2.der_bytes(None)) + self.3.der_bytes(None)) + self.4.der_bytes(None)) + self.5.der_bytes(None)) + self.6.der_bytes(None)) + self.7.der_bytes(None)) + self.8.der_bytes(None)) + self.9.der_bytes(None)) + self.10.der_bytes(None)) + self.11.der_bytes(None));
                assert(content@ =~= self.0.der_bytes(None) + self.1.der_bytes(None) + self.2.der_bytes(None) + self.3.der_bytes(None) + self.4.der_bytes(None) + self.5.der_bytes(None) + self.6.der_bytes(None) + self.7.der_bytes(None) + self.8.der_bytes(None) + self.9.der_bytes(None) + self.10.der_bytes(None) + self.11.der_bytes(None));
            }
        }
    }
}

} // verus!
