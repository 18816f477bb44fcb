//! Decoding values from their BER/CER/DER form: a trait tying types
//! to the reader, with an exact acceptance relation per type, and the
//! stock of implementations for the universal types, octet strings
//! and tuples.

use vstd::prelude::*;
use crate::models::{ObjectIdentifier, TaggedDerValue};
use crate::reader::{
    rstep_matches, sp_close, sp_frame_ok, sp_header, sp_read_bool, sp_read_integer, sp_read_null,
    sp_read_octets_der, sp_read_oid, sp_read_tagged_der, spec_univ_tag, ASN1Error, ASN1Result,
    BERMode, BERReader, HeadStep, RStep, TagState,
};
use crate::{PCBit, Tag, TagClass, TagType};

verus! {

/// Types decodable from BER.
///
/// Each implementation carries its decoder's acceptance relation, and
/// where the refusal relation is marked exact, the decoder is exactly
/// characterized: it returns a value if and only if the relation
/// admits one.
pub trait BERDecodable: Sized {
    /// The exact acceptance relation of this type's decoder: from the
    /// given reader state, returning Ok(`v`) with the cursor at `end`
    /// and the tag state at `st` is an outcome the decoder can have.
    spec fn sp_accepts(
        data: Seq<u8>,
        pos: int,
        limit: int,
        mode: BERMode,
        depth: int,
        st0: TagState,
        v: Self,
        end: int,
        st: TagState,
    ) -> bool;

    /// Whether the refusal relation below is the whole story in the
    /// given mode.
    spec fn sp_refusals_exact(mode: BERMode) -> bool;

    /// The refusal relation: the error kind and cursor outcome.
    spec fn sp_refuses(
        data: Seq<u8>,
        pos: int,
        limit: int,
        mode: BERMode,
        depth: int,
        st0: TagState,
        kind: ASN1Error,
        end: int,
        st: TagState,
    ) -> bool;


    /// Where the refusal relation is exact, outcomes are functions of
    /// the entry state: any two accepted outcomes agree on cursor and
    /// tag state, and no state both accepts and refuses.
    proof fn lemma_outcomes_unique(
        data: Seq<u8>,
        pos: int,
        limit: int,
        mode: BERMode,
        depth: int,
        st0: TagState,
        v1: Self,
        e1: int,
        s1: TagState,
        v2: Self,
        e2: int,
        s2: TagState,
        k3: ASN1Error,
        e3: int,
        s3: TagState,
        k4: ASN1Error,
        e4: int,
        s4: TagState,
    )
        requires
            Self::sp_refusals_exact(mode),
        ensures
            Self::sp_accepts(data, pos, limit, mode, depth, st0, v1, e1, s1)
                && Self::sp_accepts(data, pos, limit, mode, depth, st0, v2, e2, s2) ==> e1 == e2
                && s1 == s2,
            Self::sp_accepts(data, pos, limit, mode, depth, st0, v1, e1, s1)
                ==> !Self::sp_refuses(data, pos, limit, mode, depth, st0, k3, e3, s3),
    ;

    /// Reads one value from the reader.
    fn decode_ber(reader: &mut BERReader) -> (r: ASN1Result<Self>)
        requires
            old(reader).wf(),
        ensures
            final(reader).wf(),
            final(reader).same_scope(*old(reader)),
            final(reader).posi() >= old(reader).posi(),
            r is Ok ==> !(final(reader).tag_statev() is Implicit),
            r is Ok && !(old(reader).tag_statev() is Implicit) ==> final(reader).posi() > old(
                reader,
            ).posi(),
            !(old(reader).tag_statev() is Implicit) && final(reader).posi() == old(reader).posi()
                ==> final(reader).tag_statev() == old(reader).tag_statev(),
            r matches Ok(v) ==> Self::sp_accepts(
                old(reader).data(),
                old(reader).posi(),
                old(reader).limiti(),
                old(reader).modev(),
                old(reader).depthv(),
                old(reader).tag_statev(),
                v,
                final(reader).posi(),
                final(reader).tag_statev(),
            ),
            Self::sp_refusals_exact(old(reader).modev()) ==> (r matches Err(e)
                ==> Self::sp_refuses(
                old(reader).data(),
                old(reader).posi(),
                old(reader).limiti(),
                old(reader).modev(),
                old(reader).depthv(),
                old(reader).tag_statev(),
                e,
                final(reader).posi(),
                final(reader).tag_statev(),
            )),
    ;
}

/// Decodes DER/BER-encoded data in the given mode, refusing trailing
/// bytes: the result is a value the type's acceptance relation admits
/// over the whole input, and where the type's refusal relation is
/// exact, an error is either one the relation admits or `Extra` for a
/// value that did not reach the end.
pub fn decode_ber_general<T: BERDecodable>(src: &[u8], mode: BERMode) -> (r: ASN1Result<T>)
    ensures
        src@.len() == 0 ==> r is Err,
        r matches Ok(v) ==> exists|end: int, st: TagState|
            {
                &&& #[trigger] T::sp_accepts(
                    src@,
                    0,
                    src@.len() as int,
                    mode,
                    0,
                    TagState::Fresh,
                    v,
                    end,
                    st,
                )
                &&& end == src@.len()
                &&& !(st is Cached)
            },
        T::sp_refusals_exact(mode) ==> (r matches Err(e) ==> ((exists|end: int, st: TagState|
            #[trigger] T::sp_refuses(
                src@,
                0,
                src@.len() as int,
                mode,
                0,
                TagState::Fresh,
                e,
                end,
                st,
            )) || (e == ASN1Error::Extra && exists|v: T, end: int, st: TagState|
            #[trigger] T::sp_accepts(
                src@,
                0,
                src@.len() as int,
                mode,
                0,
                TagState::Fresh,
                v,
                end,
                st,
            ) && (end != src@.len() || st is Cached)))),
{
    let mut reader = BERReader::new(src, mode);
    let result = match T::decode_ber(&mut reader) {
        Ok(v) => v,
        Err(e) => {
            return Err(e);
        },
    };
    match reader.end_of_buf() {
        Ok(u) => {
            let _ = u;
            Ok(result)
        },
        Err(e) => Err(e),
    }
}

/// Reads an ASN.1 value from bytes, accepting any valid BER.
pub fn decode_ber<T: BERDecodable>(src: &[u8]) -> (r: ASN1Result<T>)
    ensures
        src@.len() == 0 ==> r is Err,
        r matches Ok(v) ==> exists|end: int, st: TagState|
            {
                &&& #[trigger] T::sp_accepts(
                    src@,
                    0,
                    src@.len() as int,
                    BERMode::Ber,
                    0,
                    TagState::Fresh,
                    v,
                    end,
                    st,
                )
                &&& end == src@.len()
                &&& !(st is Cached)
            },
        T::sp_refusals_exact(BERMode::Ber) ==> (r matches Err(e) ==> ((exists|
            end: int,
            st: TagState,
        |
            #[trigger] T::sp_refuses(
                src@,
                0,
                src@.len() as int,
                BERMode::Ber,
                0,
                TagState::Fresh,
                e,
                end,
                st,
            )) || (e == ASN1Error::Extra && exists|v: T, end: int, st: TagState|
            #[trigger] T::sp_accepts(
                src@,
                0,
                src@.len() as int,
                BERMode::Ber,
                0,
                TagState::Fresh,
                v,
                end,
                st,
            ) && (end != src@.len() || st is Cached)))),
{
    decode_ber_general(src, BERMode::Ber)
}

/// Reads an ASN.1 value from bytes, accepting only DER.
pub fn decode_der<T: BERDecodable>(src: &[u8]) -> (r: ASN1Result<T>)
    ensures
        src@.len() == 0 ==> r is Err,
        r matches Ok(v) ==> exists|end: int, st: TagState|
            {
                &&& #[trigger] T::sp_accepts(
                    src@,
                    0,
                    src@.len() as int,
                    BERMode::Der,
                    0,
                    TagState::Fresh,
                    v,
                    end,
                    st,
                )
                &&& end == src@.len()
                &&& !(st is Cached)
            },
        T::sp_refusals_exact(BERMode::Der) ==> (r matches Err(e) ==> ((exists|
            end: int,
            st: TagState,
        |
            #[trigger] T::sp_refuses(
                src@,
                0,
                src@.len() as int,
                BERMode::Der,
                0,
                TagState::Fresh,
                e,
                end,
                st,
            )) || (e == ASN1Error::Extra && exists|v: T, end: int, st: TagState|
            #[trigger] T::sp_accepts(
                src@,
                0,
                src@.len() as int,
                BERMode::Der,
                0,
                TagState::Fresh,
                v,
                end,
                st,
            ) && (end != src@.len() || st is Cached)))),
{
    decode_ber_general(src, BERMode::Der)
}

impl BERDecodable for i64 {
    open spec fn sp_accepts(
        data: Seq<u8>,
        pos: int,
        limit: int,
        mode: BERMode,
        depth: int,
        st0: TagState,
        v: i64,
        end: int,
        st: TagState,
    ) -> bool {
        sp_read_integer(data, pos, limit, mode, depth, st0, 8, i64::MIN as int, i64::MAX as int) == (RStep::RDone::<int> { v: v as int, end, st })
    }

    open spec fn sp_refusals_exact(mode: BERMode) -> bool {
        true
    }

    open spec fn sp_refuses(
        data: Seq<u8>,
        pos: int,
        limit: int,
        mode: BERMode,
        depth: int,
        st0: TagState,
        kind: ASN1Error,
        end: int,
        st: TagState,
    ) -> bool {
        sp_read_integer(data, pos, limit, mode, depth, st0, 8, i64::MIN as int, i64::MAX as int) == (RStep::RFail::<int> { kind, end, st })
    }

    proof fn lemma_outcomes_unique(
        data: Seq<u8>,
        pos: int,
        limit: int,
        mode: BERMode,
        depth: int,
        st0: TagState,
        v1: Self,
        e1: int,
        s1: TagState,
        v2: Self,
        e2: int,
        s2: TagState,
        k3: ASN1Error,
        e3: int,
        s3: TagState,
        k4: ASN1Error,
        e4: int,
        s4: TagState,
    ) {
    }

    fn decode_ber(reader: &mut BERReader) -> (r: ASN1Result<Self>) {
        reader.read_i64()
    }
}

impl BERDecodable for u64 {
    open spec fn sp_accepts(
        data: Seq<u8>,
        pos: int,
        limit: int,
        mode: BERMode,
        depth: int,
        st0: TagState,
        v: u64,
        end: int,
        st: TagState,
    ) -> bool {
        sp_read_integer(data, pos, limit, mode, depth, st0, 9, 0, u64::MAX as int) == (RStep::RDone::<int> { v: v as int, end, st })
    }

    open spec fn sp_refusals_exact(mode: BERMode) -> bool {
        true
    }

    open spec fn sp_refuses(
        data: Seq<u8>,
        pos: int,
        limit: int,
        mode: BERMode,
        depth: int,
        st0: TagState,
        kind: ASN1Error,
        end: int,
        st: TagState,
    ) -> bool {
        sp_read_integer(data, pos, limit, mode, depth, st0, 9, 0, u64::MAX as int) == (RStep::RFail::<int> { kind, end, st })
    }

    proof fn lemma_outcomes_unique(
        data: Seq<u8>,
        pos: int,
        limit: int,
        mode: BERMode,
        depth: int,
        st0: TagState,
        v1: Self,
        e1: int,
        s1: TagState,
        v2: Self,
        e2: int,
        s2: TagState,
        k3: ASN1Error,
        e3: int,
        s3: TagState,
        k4: ASN1Error,
        e4: int,
        s4: TagState,
    ) {
    }

    fn decode_ber(reader: &mut BERReader) -> (r: ASN1Result<Self>) {
        reader.read_u64()
    }
}

impl BERDecodable for i32 {
    open spec fn sp_accepts(
        data: Seq<u8>,
        pos: int,
        limit: int,
        mode: BERMode,
        depth: int,
        st0: TagState,
        v: i32,
        end: int,
        st: TagState,
    ) -> bool {
        sp_read_integer(data, pos, limit, mode, depth, st0, 8, i32::MIN as int, i32::MAX as int) == (RStep::RDone::<int> { v: v as int, end, st })
    }

    open spec fn sp_refusals_exact(mode: BERMode) -> bool {
        true
    }

    open spec fn sp_refuses(
        data: Seq<u8>,
        pos: int,
        limit: int,
        mode: BERMode,
        depth: int,
        st0: TagState,
        kind: ASN1Error,
        end: int,
        st: TagState,
    ) -> bool {
        sp_read_integer(data, pos, limit, mode, depth, st0, 8, i32::MIN as int, i32::MAX as int) == (RStep::RFail::<int> { kind, end, st })
    }

    proof fn lemma_outcomes_unique(
        data: Seq<u8>,
        pos: int,
        limit: int,
        mode: BERMode,
        depth: int,
        st0: TagState,
        v1: Self,
        e1: int,
        s1: TagState,
        v2: Self,
        e2: int,
        s2: TagState,
        k3: ASN1Error,
        e3: int,
        s3: TagState,
        k4: ASN1Error,
        e4: int,
        s4: TagState,
    ) {
    }

    fn decode_ber(reader: &mut BERReader) -> (r: ASN1Result<Self>) {
        reader.read_i32()
    }
}

impl BERDecodable for u32 {
    open spec fn sp_accepts(
        data: Seq<u8>,
        pos: int,
        limit: int,
        mode: BERMode,
        depth: int,
        st0: TagState,
        v: u32,
        end: int,
        st: TagState,
    ) -> bool {
        sp_read_integer(data, pos, limit, mode, depth, st0, 9, 0, u32::MAX as int) == (RStep::RDone::<int> { v: v as int, end, st })
    }

    open spec fn sp_refusals_exact(mode: BERMode) -> bool {
        true
    }

    open spec fn sp_refuses(
        data: Seq<u8>,
        pos: int,
        limit: int,
        mode: BERMode,
        depth: int,
        st0: TagState,
        kind: ASN1Error,
        end: int,
        st: TagState,
    ) -> bool {
        sp_read_integer(data, pos, limit, mode, depth, st0, 9, 0, u32::MAX as int) == (RStep::RFail::<int> { kind, end, st })
    }

    proof fn lemma_outcomes_unique(
        data: Seq<u8>,
        pos: int,
        limit: int,
        mode: BERMode,
        depth: int,
        st0: TagState,
        v1: Self,
        e1: int,
        s1: TagState,
        v2: Self,
        e2: int,
        s2: TagState,
        k3: ASN1Error,
        e3: int,
        s3: TagState,
        k4: ASN1Error,
        e4: int,
        s4: TagState,
    ) {
    }

    fn decode_ber(reader: &mut BERReader) -> (r: ASN1Result<Self>) {
        reader.read_u32()
    }
}

impl BERDecodable for i16 {
    open spec fn sp_accepts(
        data: Seq<u8>,
        pos: int,
        limit: int,
        mode: BERMode,
        depth: int,
        st0: TagState,
        v: i16,
        end: int,
        st: TagState,
    ) -> bool {
        sp_read_integer(data, pos, limit, mode, depth, st0, 8, i16::MIN as int, i16::MAX as int) == (RStep::RDone::<int> { v: v as int, end, st })
    }

    open spec fn sp_refusals_exact(mode: BERMode) -> bool {
        true
    }

    open spec fn sp_refuses(
        data: Seq<u8>,
        pos: int,
        limit: int,
        mode: BERMode,
        depth: int,
        st0: TagState,
        kind: ASN1Error,
        end: int,
        st: TagState,
    ) -> bool {
        sp_read_integer(data, pos, limit, mode, depth, st0, 8, i16::MIN as int, i16::MAX as int) == (RStep::RFail::<int> { kind, end, st })
    }

    proof fn lemma_outcomes_unique(
        data: Seq<u8>,
        pos: int,
        limit: int,
        mode: BERMode,
        depth: int,
        st0: TagState,
        v1: Self,
        e1: int,
        s1: TagState,
        v2: Self,
        e2: int,
        s2: TagState,
        k3: ASN1Error,
        e3: int,
        s3: TagState,
        k4: ASN1Error,
        e4: int,
        s4: TagState,
    ) {
    }

    fn decode_ber(reader: &mut BERReader) -> (r: ASN1Result<Self>) {
        reader.read_i16()
    }
}

impl BERDecodable for u16 {
    open spec fn sp_accepts(
        data: Seq<u8>,
        pos: int,
        limit: int,
        mode: BERMode,
        depth: int,
        st0: TagState,
        v: u16,
        end: int,
        st: TagState,
    ) -> bool {
        sp_read_integer(data, pos, limit, mode, depth, st0, 9, 0, u16::MAX as int) == (RStep::RDone::<int> { v: v as int, end, st })
    }

    open spec fn sp_refusals_exact(mode: BERMode) -> bool {
        true
    }

    open spec fn sp_refuses(
        data: Seq<u8>,
        pos: int,
        limit: int,
        mode: BERMode,
        depth: int,
        st0: TagState,
        kind: ASN1Error,
        end: int,
        st: TagState,
    ) -> bool {
        sp_read_integer(data, pos, limit, mode, depth, st0, 9, 0, u16::MAX as int) == (RStep::RFail::<int> { kind, end, st })
    }

    proof fn lemma_outcomes_unique(
        data: Seq<u8>,
        pos: int,
        limit: int,
        mode: BERMode,
        depth: int,
        st0: TagState,
        v1: Self,
        e1: int,
        s1: TagState,
        v2: Self,
        e2: int,
        s2: TagState,
        k3: ASN1Error,
        e3: int,
        s3: TagState,
        k4: ASN1Error,
        e4: int,
        s4: TagState,
    ) {
    }

    fn decode_ber(reader: &mut BERReader) -> (r: ASN1Result<Self>) {
        reader.read_u16()
    }
}

impl BERDecodable for bool {
    open spec fn sp_accepts(
        data: Seq<u8>,
        pos: int,
        limit: int,
        mode: BERMode,
        depth: int,
        st0: TagState,
        v: bool,
        end: int,
        st: TagState,
    ) -> bool {
        sp_read_bool(data, pos, limit, mode, depth, st0) == (RStep::RDone::<bool> { v: v, end, st })
    }

    open spec fn sp_refusals_exact(mode: BERMode) -> bool {
        true
    }

    open spec fn sp_refuses(
        data: Seq<u8>,
        pos: int,
        limit: int,
        mode: BERMode,
        depth: int,
        st0: TagState,
        kind: ASN1Error,
        end: int,
        st: TagState,
    ) -> bool {
        sp_read_bool(data, pos, limit, mode, depth, st0) == (RStep::RFail::<bool> { kind, end, st })
    }

    proof fn lemma_outcomes_unique(
        data: Seq<u8>,
        pos: int,
        limit: int,
        mode: BERMode,
        depth: int,
        st0: TagState,
        v1: Self,
        e1: int,
        s1: TagState,
        v2: Self,
        e2: int,
        s2: TagState,
        k3: ASN1Error,
        e3: int,
        s3: TagState,
        k4: ASN1Error,
        e4: int,
        s4: TagState,
    ) {
    }

    fn decode_ber(reader: &mut BERReader) -> (r: ASN1Result<Self>) {
        reader.read_bool()
    }
}

impl BERDecodable for () {
    open spec fn sp_accepts(
        data: Seq<u8>,
        pos: int,
        limit: int,
        mode: BERMode,
        depth: int,
        st0: TagState,
        v: (),
        end: int,
        st: TagState,
    ) -> bool {
        sp_read_null(data, pos, limit, mode, depth, st0) == (RStep::RDone::<()> { v: (), end, st })
    }

    open spec fn sp_refusals_exact(mode: BERMode) -> bool {
        true
    }

    open spec fn sp_refuses(
        data: Seq<u8>,
        pos: int,
        limit: int,
        mode: BERMode,
        depth: int,
        st0: TagState,
        kind: ASN1Error,
        end: int,
        st: TagState,
    ) -> bool {
        sp_read_null(data, pos, limit, mode, depth, st0) == (RStep::RFail::<()> { kind, end, st })
    }

    proof fn lemma_outcomes_unique(
        data: Seq<u8>,
        pos: int,
        limit: int,
        mode: BERMode,
        depth: int,
        st0: TagState,
        v1: Self,
        e1: int,
        s1: TagState,
        v2: Self,
        e2: int,
        s2: TagState,
        k3: ASN1Error,
        e3: int,
        s3: TagState,
        k4: ASN1Error,
        e4: int,
        s4: TagState,
    ) {
    }

    fn decode_ber(reader: &mut BERReader) -> (r: ASN1Result<Self>) {
        reader.read_null()
    }
}

impl BERDecodable for ObjectIdentifier {
    open spec fn sp_accepts(
        data: Seq<u8>,
        pos: int,
        limit: int,
        mode: BERMode,
        depth: int,
        st0: TagState,
        v: ObjectIdentifier,
        end: int,
        st: TagState,
    ) -> bool {
        sp_read_oid(data, pos, limit, mode, depth, st0) == (RStep::RDone::<Seq<u64>> { v: v.idsv(), end, st })
    }

    open spec fn sp_refusals_exact(mode: BERMode) -> bool {
        true
    }

    open spec fn sp_refuses(
        data: Seq<u8>,
        pos: int,
        limit: int,
        mode: BERMode,
        depth: int,
        st0: TagState,
        kind: ASN1Error,
        end: int,
        st: TagState,
    ) -> bool {
        sp_read_oid(data, pos, limit, mode, depth, st0) == (RStep::RFail::<Seq<u64>> { kind, end, st })
    }

    proof fn lemma_outcomes_unique(
        data: Seq<u8>,
        pos: int,
        limit: int,
        mode: BERMode,
        depth: int,
        st0: TagState,
        v1: Self,
        e1: int,
        s1: TagState,
        v2: Self,
        e2: int,
        s2: TagState,
        k3: ASN1Error,
        e3: int,
        s3: TagState,
        k4: ASN1Error,
        e4: int,
        s4: TagState,
    ) {
    }

    fn decode_ber(reader: &mut BERReader) -> (r: ASN1Result<Self>) {
        reader.read_oid()
    }
}

impl BERDecodable for TaggedDerValue {
    open spec fn sp_accepts(
        data: Seq<u8>,
        pos: int,
        limit: int,
        mode: BERMode,
        depth: int,
        st0: TagState,
        v: TaggedDerValue,
        end: int,
        st: TagState,
    ) -> bool {
        sp_read_tagged_der(data, pos, limit, mode, depth, st0) == (RStep::RDone::<(Tag, PCBit, Seq<u8>)> { v: (v.tagv(), v.pcbitv(), v.valuev()), end, st })
    }

    open spec fn sp_refusals_exact(mode: BERMode) -> bool {
        true
    }

    open spec fn sp_refuses(
        data: Seq<u8>,
        pos: int,
        limit: int,
        mode: BERMode,
        depth: int,
        st0: TagState,
        kind: ASN1Error,
        end: int,
        st: TagState,
    ) -> bool {
        sp_read_tagged_der(data, pos, limit, mode, depth, st0) == (RStep::RFail::<(Tag, PCBit, Seq<u8>)> { kind, end, st })
    }

    proof fn lemma_outcomes_unique(
        data: Seq<u8>,
        pos: int,
        limit: int,
        mode: BERMode,
        depth: int,
        st0: TagState,
        v1: Self,
        e1: int,
        s1: TagState,
        v2: Self,
        e2: int,
        s2: TagState,
        k3: ASN1Error,
        e3: int,
        s3: TagState,
        k4: ASN1Error,
        e4: int,
        s4: TagState,
    ) {
    }

    fn decode_ber(reader: &mut BERReader) -> (r: ASN1Result<Self>) {
        reader.read_tagged_der()
    }
}


impl BERDecodable for crate::models::BigIntBytes {
    open spec fn sp_accepts(
        data: Seq<u8>,
        pos: int,
        limit: int,
        mode: BERMode,
        depth: int,
        st0: TagState,
        v: crate::models::BigIntBytes,
        end: int,
        st: TagState,
    ) -> bool {
        crate::reader::sp_read_bigint(data, pos, limit, mode, depth, st0, false)
            == (crate::reader::RStep::RDone::<Seq<u8>> { v: v.contentv(), end, st })
    }

    open spec fn sp_refusals_exact(mode: BERMode) -> bool {
        true
    }

    open spec fn sp_refuses(
        data: Seq<u8>,
        pos: int,
        limit: int,
        mode: BERMode,
        depth: int,
        st0: TagState,
        kind: ASN1Error,
        end: int,
        st: TagState,
    ) -> bool {
        crate::reader::sp_read_bigint(data, pos, limit, mode, depth, st0, false)
            == (crate::reader::RStep::RFail::<Seq<u8>> { kind, end, st })
    }

    proof fn lemma_outcomes_unique(
        data: Seq<u8>,
        pos: int,
        limit: int,
        mode: BERMode,
        depth: int,
        st0: TagState,
        v1: Self,
        e1: int,
        s1: TagState,
        v2: Self,
        e2: int,
        s2: TagState,
        k3: ASN1Error,
        e3: int,
        s3: TagState,
        k4: ASN1Error,
        e4: int,
        s4: TagState,
    ) {
    }

    fn decode_ber(reader: &mut BERReader) -> (r: ASN1Result<Self>) {
        reader.read_bigint()
    }
}

impl BERDecodable for Vec<u8> {
    open spec fn sp_accepts(
        data: Seq<u8>,
        pos: int,
        limit: int,
        mode: BERMode,
        depth: int,
        st0: TagState,
        v: Vec<u8>,
        end: int,
        st: TagState,
    ) -> bool {
        match sp_header(data, pos, limit, mode, depth, st0, spec_univ_tag(4), TagType::Explicit) {
            HeadStep::HeadFail { kind, end: e, st: s } => false,
            HeadStep::HeadOk { pc, length, end: e0, limit2, st: sth } => {
                if mode == BERMode::Der {
                    sp_read_octets_der(data, pos, limit, mode, depth, st0)
                        == (RStep::RDone::<Seq<u8>> { v: v@, end, st })
                } else if pc == PCBit::Primitive && !(mode == BERMode::Cer && limit2 - e0
                    > 1000) {
                    v@ == data.subrange(e0, limit2) && end == limit2 && st == sth
                } else {
                    sp_frame_ok(pos, limit, end, st)
                }
            },
        }
    }

    open spec fn sp_refusals_exact(mode: BERMode) -> bool {
        mode == BERMode::Der
    }

    open spec fn sp_refuses(
        data: Seq<u8>,
        pos: int,
        limit: int,
        mode: BERMode,
        depth: int,
        st0: TagState,
        kind: ASN1Error,
        end: int,
        st: TagState,
    ) -> bool {
        sp_read_octets_der(data, pos, limit, mode, depth, st0) == (RStep::RFail::<Seq<u8>> {
            kind,
            end,
            st,
        })
    }

    proof fn lemma_outcomes_unique(
        data: Seq<u8>,
        pos: int,
        limit: int,
        mode: BERMode,
        depth: int,
        st0: TagState,
        v1: Self,
        e1: int,
        s1: TagState,
        v2: Self,
        e2: int,
        s2: TagState,
        k3: ASN1Error,
        e3: int,
        s3: TagState,
        k4: ASN1Error,
        e4: int,
        s4: TagState,
    ) {
    }

    fn decode_ber(reader: &mut BERReader) -> (r: ASN1Result<Self>) {
        reader.read_bytes()
    }
}

impl<T0: BERDecodable> BERDecodable for (T0,) {
    open spec fn sp_accepts(
        data: Seq<u8>,
        pos: int,
        limit: int,
        mode: BERMode,
        depth: int,
        st0: TagState,
        v: Self,
        end: int,
        st: TagState,
    ) -> bool {
        match sp_header(data, pos, limit, mode, depth, st0, spec_univ_tag(16), TagType::Explicit) {
            HeadStep::HeadFail { kind, end: e, st: s } => false,
            HeadStep::HeadOk { pc, length, end: e0, limit2, st: sth } => pc
                == PCBit::Constructed && (exists|p1: int, s1: TagState|
                #![trigger T0::sp_accepts(data, e0, limit2, mode, depth + 1, sth, v.0, p1, s1)]
                {
                    &&& T0::sp_accepts(data, e0, limit2, mode, depth + 1, sth, v.0, p1, s1)
                    &&& rstep_matches(
                        sp_close(data, p1, limit2, s1, length, Ok::<Self, ASN1Error>(v)),
                        Ok::<Self, ASN1Error>(v),
                        end,
                        st,
                    )
                }),
        }
    }

    open spec fn sp_refusals_exact(mode: BERMode) -> bool {
        mode == BERMode::Der && T0::sp_refusals_exact(BERMode::Der)
    }

    open spec fn sp_refuses(
        data: Seq<u8>,
        pos: int,
        limit: int,
        mode: BERMode,
        depth: int,
        st0: TagState,
        kind: ASN1Error,
        end: int,
        st: TagState,
    ) -> bool {
        !(exists|w: Self, e2: int, s2: TagState|
            Self::sp_accepts(data, pos, limit, mode, depth, st0, w, e2, s2))
    }

    proof fn lemma_outcomes_unique(
        data: Seq<u8>,
        pos: int,
        limit: int,
        mode: BERMode,
        depth: int,
        st0: TagState,
        v1: Self,
        e1: int,
        s1: TagState,
        v2: Self,
        e2: int,
        s2: TagState,
        k3: ASN1Error,
        e3: int,
        s3: TagState,
        k4: ASN1Error,
        e4: int,
        s4: TagState,
    ) {
        if Self::sp_accepts(data, pos, limit, mode, depth, st0, v1, e1, s1) && Self::sp_accepts(
            data,
            pos,
            limit,
            mode,
            depth,
            st0,
            v2,
            e2,
            s2,
        ) {
            match sp_header(data, pos, limit, mode, depth, st0, spec_univ_tag(16), TagType::Explicit) {
                HeadStep::HeadOk { pc, length, end: e0, limit2, st: sth } => {
                    let (aq1, au1) = choose|q1: int, u1: TagState|
                        #![trigger T0::sp_accepts(data, e0, limit2, mode, depth + 1, sth, v1.0, q1, u1)]
                                            T0::sp_accepts(data, e0, limit2, mode, depth + 1, sth, v1.0, q1, u1)
                        && rstep_matches(sp_close(data, q1, limit2, u1, length, Ok::<Self, ASN1Error>(v1)), Ok::<Self, ASN1Error>(v1), e1, s1);
                    let (bq1, bu1) = choose|q1: int, u1: TagState|
                        #![trigger T0::sp_accepts(data, e0, limit2, mode, depth + 1, sth, v2.0, q1, u1)]
                                            T0::sp_accepts(data, e0, limit2, mode, depth + 1, sth, v2.0, q1, u1)
                        && rstep_matches(sp_close(data, q1, limit2, u1, length, Ok::<Self, ASN1Error>(v2)), Ok::<Self, ASN1Error>(v2), e2, s2);
                    T0::lemma_outcomes_unique(data, e0, limit2, mode, depth + 1, sth, v1.0, aq1, au1, v2.0, bq1, bu1, ASN1Error::Invalid, 0, TagState::Fresh, ASN1Error::Invalid, 0, TagState::Fresh);
                },
                HeadStep::HeadFail { kind, end: ee, st: sx } => {},
            }
        }
    }

    fn decode_ber(reader: &mut BERReader) -> (r: ASN1Result<Self>) {
        let ghost d0 = old(reader).data();
        let ghost pos0 = old(reader).posi();
        let ghost lim0 = old(reader).limiti();
        let ghost m0 = old(reader).modev();
        let ghost dep0 = old(reader).depthv();
        let ghost st00 = old(reader).tag_statev();
        let frame = match reader.parse_header(
            Tag { tag_class: TagClass::Universal, tag_number: 16 },
            TagType::Explicit,
        ) {
            Ok(f) => f,
            Err(e) => {
                return Err(e);
            },
        };
        if frame.pc != PCBit::Constructed {
            let inner: ASN1Result<Self> = Err(ASN1Error::Invalid);
            return reader.close_frame(frame, inner);
        }
        let ghost g0 = *reader;
        let t0 = match T0::decode_ber(reader) {
            Ok(v) => v,
            Err(e) => {
                let ghost ferr = e;
                let ghost bad_pos = reader.posi();
                let ghost bad_st = reader.tag_statev();
                let inner: ASN1Result<Self> = Err(e);
                let rr = reader.close_frame(frame, inner);
                proof {
                    if Self::sp_refusals_exact(m0) {
                assert forall|w: Self, e2: int, s2: TagState| !Self::sp_accepts(
                    d0, pos0, lim0, m0, dep0, st00, w, e2, s2,
                ) by {
                    if Self::sp_accepts(d0, pos0, lim0, m0, dep0, st00, w, e2, s2) {
                        match sp_header(d0, pos0, lim0, m0, dep0, st00, spec_univ_tag(16), TagType::Explicit) {
                            HeadStep::HeadOk { pc, length, end: e0, limit2, st: sth } => {
                                let (wq1, wu1) = choose|q1: int, u1: TagState|
                                    #![trigger T0::sp_accepts(d0, e0, limit2, m0, dep0 + 1, sth, w.0, q1, u1)]
                                                            T0::sp_accepts(d0, e0, limit2, m0, dep0 + 1, sth, w.0, q1, u1)
                            && rstep_matches(sp_close(d0, q1, limit2, u1, length, Ok::<Self, ASN1Error>(w)), Ok::<Self, ASN1Error>(w), e2, s2);
                                T0::lemma_outcomes_unique(d0, e0, limit2, m0, dep0 + 1, sth, w.0, wq1, wu1, w.0, wq1, wu1, ferr, bad_pos, bad_st, ferr, bad_pos, bad_st);
                                assert(false);
                            },
                            HeadStep::HeadFail { kind, end: ee, st: sx } => {},
                        }
                    }
                }
                    }
                }
                return rr;
            },
        };
        let ghost g1 = *reader;
        let result = (t0,);
        let ghost gv = result;
        let ghost before_close = *reader;
        let rr = reader.close_frame(frame, Ok(result));
        proof {
            if rr is Ok {
                assert(T0::sp_accepts(g0.data(), g0.posi(), g0.limiti(), g0.modev(), g0.depthv(), g0.tag_statev(), gv.0, g1.posi(), g1.tag_statev()));
            }
            if rr is Err && Self::sp_refusals_exact(m0) {
                assert forall|w: Self, e2: int, s2: TagState| !Self::sp_accepts(
                    d0, pos0, lim0, m0, dep0, st00, w, e2, s2,
                ) by {
                    if Self::sp_accepts(d0, pos0, lim0, m0, dep0, st00, w, e2, s2) {
                        match sp_header(d0, pos0, lim0, m0, dep0, st00, spec_univ_tag(16), TagType::Explicit) {
                            HeadStep::HeadOk { pc, length, end: e0, limit2, st: sth } => {
                                let (wq1, wu1) = choose|q1: int, u1: TagState|
                                    #![trigger T0::sp_accepts(d0, e0, limit2, m0, dep0 + 1, sth, w.0, q1, u1)]
                                                            T0::sp_accepts(d0, e0, limit2, m0, dep0 + 1, sth, w.0, q1, u1)
                            && rstep_matches(sp_close(d0, q1, limit2, u1, length, Ok::<Self, ASN1Error>(w)), Ok::<Self, ASN1Error>(w), e2, s2);
                                T0::lemma_outcomes_unique(d0, e0, limit2, m0, dep0 + 1, sth, w.0, wq1, wu1, t0, g1.posi(), g1.tag_statev(), ASN1Error::Invalid, 0, TagState::Fresh, ASN1Error::Invalid, 0, TagState::Fresh);
                            },
                            HeadStep::HeadFail { kind, end: ee, st: sx } => {},
                        }
                    }
                }
            }
        }
        rr
    }
}

impl<T0: BERDecodable, T1: BERDecodable> BERDecodable for (T0, T1) {
    open spec fn sp_accepts(
        data: Seq<u8>,
        pos: int,
        limit: int,
        mode: BERMode,
        depth: int,
        st0: TagState,
        v: Self,
        end: int,
        st: TagState,
    ) -> bool {
        match sp_header(data, pos, limit, mode, depth, st0, spec_univ_tag(16), TagType::Explicit) {
            HeadStep::HeadFail { kind, end: e, st: s } => false,
            HeadStep::HeadOk { pc, length, end: e0, limit2, st: sth } => pc
                == PCBit::Constructed && (exists|p1: int, s1: TagState, p2: int, s2: TagState|
                #![trigger T0::sp_accepts(data, e0, limit2, mode, depth + 1, sth, v.0, p1, s1), T1::sp_accepts(data, p1, limit2, mode, depth + 1, s1, v.1, p2, s2)]
                {
                    &&& T0::sp_accepts(data, e0, limit2, mode, depth + 1, sth, v.0, p1, s1)
                    &&& T1::sp_accepts(data, p1, limit2, mode, depth + 1, s1, v.1, p2, s2)
                    &&& rstep_matches(
                        sp_close(data, p2, limit2, s2, length, Ok::<Self, ASN1Error>(v)),
                        Ok::<Self, ASN1Error>(v),
                        end,
                        st,
                    )
                }),
        }
    }

    open spec fn sp_refusals_exact(mode: BERMode) -> bool {
        mode == BERMode::Der && T0::sp_refusals_exact(BERMode::Der) && T1::sp_refusals_exact(BERMode::Der)
    }

    open spec fn sp_refuses(
        data: Seq<u8>,
        pos: int,
        limit: int,
        mode: BERMode,
        depth: int,
        st0: TagState,
        kind: ASN1Error,
        end: int,
        st: TagState,
    ) -> bool {
        !(exists|w: Self, e2: int, s2: TagState|
            Self::sp_accepts(data, pos, limit, mode, depth, st0, w, e2, s2))
    }

    proof fn lemma_outcomes_unique(
        data: Seq<u8>,
        pos: int,
        limit: int,
        mode: BERMode,
        depth: int,
        st0: TagState,
        v1: Self,
        e1: int,
        s1: TagState,
        v2: Self,
        e2: int,
        s2: TagState,
        k3: ASN1Error,
        e3: int,
        s3: TagState,
        k4: ASN1Error,
        e4: int,
        s4: TagState,
    ) {
        if Self::sp_accepts(data, pos, limit, mode, depth, st0, v1, e1, s1) && Self::sp_accepts(
            data,
            pos,
            limit,
            mode,
            depth,
            st0,
            v2,
            e2,
            s2,
        ) {
            match sp_header(data, pos, limit, mode, depth, st0, spec_univ_tag(16), TagType::Explicit) {
                HeadStep::HeadOk { pc, length, end: e0, limit2, st: sth } => {
                    let (aq1, au1, aq2, au2) = choose|q1: int, u1: TagState, q2: int, u2: TagState|
                        #![trigger T0::sp_accepts(data, e0, limit2, mode, depth + 1, sth, v1.0, q1, u1), T1::sp_accepts(data, q1, limit2, mode, depth + 1, u1, v1.1, q2, u2)]
                                            T0::sp_accepts(data, e0, limit2, mode, depth + 1, sth, v1.0, q1, u1)
                        && T1::sp_accepts(data, q1, limit2, mode, depth + 1, u1, v1.1, q2, u2)
                        && rstep_matches(sp_close(data, q2, limit2, u2, length, Ok::<Self, ASN1Error>(v1)), Ok::<Self, ASN1Error>(v1), e1, s1);
                    let (bq1, bu1, bq2, bu2) = choose|q1: int, u1: TagState, q2: int, u2: TagState|
                        #![trigger T0::sp_accepts(data, e0, limit2, mode, depth + 1, sth, v2.0, q1, u1), T1::sp_accepts(data, q1, limit2, mode, depth + 1, u1, v2.1, q2, u2)]
                                            T0::sp_accepts(data, e0, limit2, mode, depth + 1, sth, v2.0, q1, u1)
                        && T1::sp_accepts(data, q1, limit2, mode, depth + 1, u1, v2.1, q2, u2)
                        && rstep_matches(sp_close(data, q2, limit2, u2, length, Ok::<Self, ASN1Error>(v2)), Ok::<Self, ASN1Error>(v2), e2, s2);
                    T0::lemma_outcomes_unique(data, e0, limit2, mode, depth + 1, sth, v1.0, aq1, au1, v2.0, bq1, bu1, ASN1Error::Invalid, 0, TagState::Fresh, ASN1Error::Invalid, 0, TagState::Fresh);
                    T1::lemma_outcomes_unique(data, aq1, limit2, mode, depth + 1, au1, v1.1, aq2, au2, v2.1, bq2, bu2, ASN1Error::Invalid, 0, TagState::Fresh, ASN1Error::Invalid, 0, TagState::Fresh);
                },
                HeadStep::HeadFail { kind, end: ee, st: sx } => {},
            }
        }
    }

    fn decode_ber(reader: &mut BERReader) -> (r: ASN1Result<Self>) {
        let ghost d0 = old(reader).data();
        let ghost pos0 = old(reader).posi();
        let ghost lim0 = old(reader).limiti();
        let ghost m0 = old(reader).modev();
        let ghost dep0 = old(reader).depthv();
        let ghost st00 = old(reader).tag_statev();
        let frame = match reader.parse_header(
            Tag { tag_class: TagClass::Universal, tag_number: 16 },
            TagType::Explicit,
        ) {
            Ok(f) => f,
            Err(e) => {
                return Err(e);
            },
        };
        if frame.pc != PCBit::Constructed {
            let inner: ASN1Result<Self> = Err(ASN1Error::Invalid);
            return reader.close_frame(frame, inner);
        }
        let ghost g0 = *reader;
        let t0 = match T0::decode_ber(reader) {
            Ok(v) => v,
            Err(e) => {
                let ghost ferr = e;
                let ghost bad_pos = reader.posi();
                let ghost bad_st = reader.tag_statev();
                let inner: ASN1Result<Self> = Err(e);
                let rr = reader.close_frame(frame, inner);
                proof {
                    if Self::sp_refusals_exact(m0) {
                assert forall|w: Self, e2: int, s2: TagState| !Self::sp_accepts(
                    d0, pos0, lim0, m0, dep0, st00, w, e2, s2,
                ) by {
                    if Self::sp_accepts(d0, pos0, lim0, m0, dep0, st00, w, e2, s2) {
                        match sp_header(d0, pos0, lim0, m0, dep0, st00, spec_univ_tag(16), TagType::Explicit) {
                            HeadStep::HeadOk { pc, length, end: e0, limit2, st: sth } => {
                                let (wq1, wu1, wq2, wu2) = choose|q1: int, u1: TagState, q2: int, u2: TagState|
                                    #![trigger T0::sp_accepts(d0, e0, limit2, m0, dep0 + 1, sth, w.0, q1, u1), T1::sp_accepts(d0, q1, limit2, m0, dep0 + 1, u1, w.1, q2, u2)]
                                                            T0::sp_accepts(d0, e0, limit2, m0, dep0 + 1, sth, w.0, q1, u1)
                            && T1::sp_accepts(d0, q1, limit2, m0, dep0 + 1, u1, w.1, q2, u2)
                            && rstep_matches(sp_close(d0, q2, limit2, u2, length, Ok::<Self, ASN1Error>(w)), Ok::<Self, ASN1Error>(w), e2, s2);
                                T0::lemma_outcomes_unique(d0, e0, limit2, m0, dep0 + 1, sth, w.0, wq1, wu1, w.0, wq1, wu1, ferr, bad_pos, bad_st, ferr, bad_pos, bad_st);
                                assert(false);
                            },
                            HeadStep::HeadFail { kind, end: ee, st: sx } => {},
                        }
                    }
                }
                    }
                }
                return rr;
            },
        };
        let ghost g1 = *reader;
        let t1 = match T1::decode_ber(reader) {
            Ok(v) => v,
            Err(e) => {
                let ghost ferr = e;
                let ghost bad_pos = reader.posi();
                let ghost bad_st = reader.tag_statev();
                let inner: ASN1Result<Self> = Err(e);
                let rr = reader.close_frame(frame, inner);
                proof {
                    if Self::sp_refusals_exact(m0) {
                assert forall|w: Self, e2: int, s2: TagState| !Self::sp_accepts(
                    d0, pos0, lim0, m0, dep0, st00, w, e2, s2,
                ) by {
                    if Self::sp_accepts(d0, pos0, lim0, m0, dep0, st00, w, e2, s2) {
                        match sp_header(d0, pos0, lim0, m0, dep0, st00, spec_univ_tag(16), TagType::Explicit) {
                            HeadStep::HeadOk { pc, length, end: e0, limit2, st: sth } => {
                                let (wq1, wu1, wq2, wu2) = choose|q1: int, u1: TagState, q2: int, u2: TagState|
                                    #![trigger T0::sp_accepts(d0, e0, limit2, m0, dep0 + 1, sth, w.0, q1, u1), T1::sp_accepts(d0, q1, limit2, m0, dep0 + 1, u1, w.1, q2, u2)]
                                                            T0::sp_accepts(d0, e0, limit2, m0, dep0 + 1, sth, w.0, q1, u1)
                            && T1::sp_accepts(d0, q1, limit2, m0, dep0 + 1, u1, w.1, q2, u2)
                            && rstep_matches(sp_close(d0, q2, limit2, u2, length, Ok::<Self, ASN1Error>(w)), Ok::<Self, ASN1Error>(w), e2, s2);
                                T0::lemma_outcomes_unique(d0, e0, limit2, m0, dep0 + 1, sth, w.0, wq1, wu1, t0, g1.posi(), g1.tag_statev(), ASN1Error::Invalid, 0, TagState::Fresh, ASN1Error::Invalid, 0, TagState::Fresh);
                                T1::lemma_outcomes_unique(d0, wq1, limit2, m0, dep0 + 1, wu1, w.1, wq2, wu2, w.1, wq2, wu2, ferr, bad_pos, bad_st, ferr, bad_pos, bad_st);
                                assert(false);
                            },
                            HeadStep::HeadFail { kind, end: ee, st: sx } => {},
                        }
                    }
                }
                    }
                }
                return rr;
            },
        };
        let ghost g2 = *reader;
        let result = (t0, t1);
        let ghost gv = result;
        let ghost before_close = *reader;
        let rr = reader.close_frame(frame, Ok(result));
        proof {
            if rr is Ok {
                assert(T0::sp_accepts(g0.data(), g0.posi(), g0.limiti(), g0.modev(), g0.depthv(), g0.tag_statev(), gv.0, g1.posi(), g1.tag_statev()));
                assert(T1::sp_accepts(g0.data(), g1.posi(), g0.limiti(), g0.modev(), g0.depthv(), g1.tag_statev(), gv.1, g2.posi(), g2.tag_statev()));
            }
            if rr is Err && Self::sp_refusals_exact(m0) {
                assert forall|w: Self, e2: int, s2: TagState| !Self::sp_accepts(
                    d0, pos0, lim0, m0, dep0, st00, w, e2, s2,
                ) by {
                    if Self::sp_accepts(d0, pos0, lim0, m0, dep0, st00, w, e2, s2) {
                        match sp_header(d0, pos0, lim0, m0, dep0, st00, spec_univ_tag(16), TagType::Explicit) {
                            HeadStep::HeadOk { pc, length, end: e0, limit2, st: sth } => {
                                let (wq1, wu1, wq2, wu2) = choose|q1: int, u1: TagState, q2: int, u2: TagState|
                                    #![trigger T0::sp_accepts(d0, e0, limit2, m0, dep0 + 1, sth, w.0, q1, u1), T1::sp_accepts(d0, q1, limit2, m0, dep0 + 1, u1, w.1, q2, u2)]
                                                            T0::sp_accepts(d0, e0, limit2, m0, dep0 + 1, sth, w.0, q1, u1)
                            && T1::sp_accepts(d0, q1, limit2, m0, dep0 + 1, u1, w.1, q2, u2)
                            && rstep_matches(sp_close(d0, q2, limit2, u2, length, Ok::<Self, ASN1Error>(w)), Ok::<Self, ASN1Error>(w), e2, s2);
                                T0::lemma_outcomes_unique(d0, e0, limit2, m0, dep0 + 1, sth, w.0, wq1, wu1, t0, g1.posi(), g1.tag_statev(), ASN1Error::Invalid, 0, TagState::Fresh, ASN1Error::Invalid, 0, TagState::Fresh);
                                T1::lemma_outcomes_unique(d0, wq1, limit2, m0, dep0 + 1, wu1, w.1, wq2, wu2, t1, g2.posi(), g2.tag_statev(), ASN1Error::Invalid, 0, TagState::Fresh, ASN1Error::Invalid, 0, TagState::Fresh);
                            },
                            HeadStep::HeadFail { kind, end: ee, st: sx } => {},
                        }
                    }
                }
            }
        }
        rr
    }
}

impl<T0: BERDecodable, T1: BERDecodable, T2: BERDecodable> BERDecodable for (T0, T1, T2) {
    open spec fn sp_accepts(
        data: Seq<u8>,
        pos: int,
        limit: int,
        mode: BERMode,
        depth: int,
        st0: TagState,
        v: Self,
        end: int,
        st: TagState,
    ) -> bool {
        match sp_header(data, pos, limit, mode, depth, st0, spec_univ_tag(16), TagType::Explicit) {
            HeadStep::HeadFail { kind, end: e, st: s } => false,
            HeadStep::HeadOk { pc, length, end: e0, limit2, st: sth } => pc
                == PCBit::Constructed && (exists|p1: int, s1: TagState, p2: int, s2: TagState, p3: int, s3: TagState|
                #![trigger T0::sp_accepts(data, e0, limit2, mode, depth + 1, sth, v.0, p1, s1), T1::sp_accepts(data, p1, limit2, mode, depth + 1, s1, v.1, p2, s2), T2::sp_accepts(data, p2, limit2, mode, depth + 1, s2, v.2, p3, s3)]
                {
                    &&& T0::sp_accepts(data, e0, limit2, mode, depth + 1, sth, v.0, p1, s1)
                    &&& T1::sp_accepts(data, p1, limit2, mode, depth + 1, s1, v.1, p2, s2)
                    &&& T2::sp_accepts(data, p2, limit2, mode, depth + 1, s2, v.2, p3, s3)
                    &&& rstep_matches(
                        sp_close(data, p3, limit2, s3, length, Ok::<Self, ASN1Error>(v)),
                        Ok::<Self, ASN1Error>(v),
                        end,
                        st,
                    )
                }),
        }
    }

    open spec fn sp_refusals_exact(mode: BERMode) -> bool {
        mode == BERMode::Der && T0::sp_refusals_exact(BERMode::Der) && T1::sp_refusals_exact(BERMode::Der) && T2::sp_refusals_exact(BERMode::Der)
    }

    open spec fn sp_refuses(
        data: Seq<u8>,
        pos: int,
        limit: int,
        mode: BERMode,
        depth: int,
        st0: TagState,
        kind: ASN1Error,
        end: int,
        st: TagState,
    ) -> bool {
        !(exists|w: Self, e2: int, s2: TagState|
            Self::sp_accepts(data, pos, limit, mode, depth, st0, w, e2, s2))
    }

    proof fn lemma_outcomes_unique(
        data: Seq<u8>,
        pos: int,
        limit: int,
        mode: BERMode,
        depth: int,
        st0: TagState,
        v1: Self,
        e1: int,
        s1: TagState,
        v2: Self,
        e2: int,
        s2: TagState,
        k3: ASN1Error,
        e3: int,
        s3: TagState,
        k4: ASN1Error,
        e4: int,
        s4: TagState,
    ) {
        if Self::sp_accepts(data, pos, limit, mode, depth, st0, v1, e1, s1) && Self::sp_accepts(
            data,
            pos,
            limit,
            mode,
            depth,
            st0,
            v2,
            e2,
            s2,
        ) {
            match sp_header(data, pos, limit, mode, depth, st0, spec_univ_tag(16), TagType::Explicit) {
                HeadStep::HeadOk { pc, length, end: e0, limit2, st: sth } => {
                    let (aq1, au1, aq2, au2, aq3, au3) = choose|q1: int, u1: TagState, q2: int, u2: TagState, q3: int, u3: TagState|
                        #![trigger T0::sp_accepts(data, e0, limit2, mode, depth + 1, sth, v1.0, q1, u1), T1::sp_accepts(data, q1, limit2, mode, depth + 1, u1, v1.1, q2, u2), T2::sp_accepts(data, q2, limit2, mode, depth + 1, u2, v1.2, q3, u3)]
                                            T0::sp_accepts(data, e0, limit2, mode, depth + 1, sth, v1.0, q1, u1)
                        && T1::sp_accepts(data, q1, limit2, mode, depth + 1, u1, v1.1, q2, u2)
                        && T2::sp_accepts(data, q2, limit2, mode, depth + 1, u2, v1.2, q3, u3)
                        && rstep_matches(sp_close(data, q3, limit2, u3, length, Ok::<Self, ASN1Error>(v1)), Ok::<Self, ASN1Error>(v1), e1, s1);
                    let (bq1, bu1, bq2, bu2, bq3, bu3) = choose|q1: int, u1: TagState, q2: int, u2: TagState, q3: int, u3: TagState|
                        #![trigger T0::sp_accepts(data, e0, limit2, mode, depth + 1, sth, v2.0, q1, u1), T1::sp_accepts(data, q1, limit2, mode, depth + 1, u1, v2.1, q2, u2), T2::sp_accepts(data, q2, limit2, mode, depth + 1, u2, v2.2, q3, u3)]
                                            T0::sp_accepts(data, e0, limit2, mode, depth + 1, sth, v2.0, q1, u1)
                        && T1::sp_accepts(data, q1, limit2, mode, depth + 1, u1, v2.1, q2, u2)
                        && T2::sp_accepts(data, q2, limit2, mode, depth + 1, u2, v2.2, q3, u3)
                        && rstep_matches(sp_close(data, q3, limit2, u3, length, Ok::<Self, ASN1Error>(v2)), Ok::<Self, ASN1Error>(v2), e2, s2);
                    T0::lemma_outcomes_unique(data, e0, limit2, mode, depth + 1, sth, v1.0, aq1, au1, v2.0, bq1, bu1, ASN1Error::Invalid, 0, TagState::Fresh, ASN1Error::Invalid, 0, TagState::Fresh);
                    T1::lemma_outcomes_unique(data, aq1, limit2, mode, depth + 1, au1, v1.1, aq2, au2, v2.1, bq2, bu2, ASN1Error::Invalid, 0, TagState::Fresh, ASN1Error::Invalid, 0, TagState::Fresh);
                    T2::lemma_outcomes_unique(data, aq2, limit2, mode, depth + 1, au2, v1.2, aq3, au3, v2.2, bq3, bu3, ASN1Error::Invalid, 0, TagState::Fresh, ASN1Error::Invalid, 0, TagState::Fresh);
                },
                HeadStep::HeadFail { kind, end: ee, st: sx } => {},
            }
        }
    }

    fn decode_ber(reader: &mut BERReader) -> (r: ASN1Result<Self>) {
        let ghost d0 = old(reader).data();
        let ghost pos0 = old(reader).posi();
        let ghost lim0 = old(reader).limiti();
        let ghost m0 = old(reader).modev();
        let ghost dep0 = old(reader).depthv();
        let ghost st00 = old(reader).tag_statev();
        let frame = match reader.parse_header(
            Tag { tag_class: TagClass::Universal, tag_number: 16 },
            TagType::Explicit,
        ) {
            Ok(f) => f,
            Err(e) => {
                return Err(e);
            },
        };
        if frame.pc != PCBit::Constructed {
            let inner: ASN1Result<Self> = Err(ASN1Error::Invalid);
            return reader.close_frame(frame, inner);
        }
        let ghost g0 = *reader;
        let t0 = match T0::decode_ber(reader) {
            Ok(v) => v,
            Err(e) => {
                let ghost ferr = e;
                let ghost bad_pos = reader.posi();
                let ghost bad_st = reader.tag_statev();
                let inner: ASN1Result<Self> = Err(e);
                let rr = reader.close_frame(frame, inner);
                proof {
                    if Self::sp_refusals_exact(m0) {
                assert forall|w: Self, e2: int, s2: TagState| !Self::sp_accepts(
                    d0, pos0, lim0, m0, dep0, st00, w, e2, s2,
                ) by {
                    if Self::sp_accepts(d0, pos0, lim0, m0, dep0, st00, w, e2, s2) {
                        match sp_header(d0, pos0, lim0, m0, dep0, st00, spec_univ_tag(16), TagType::Explicit) {
                            HeadStep::HeadOk { pc, length, end: e0, limit2, st: sth } => {
                                let (wq1, wu1, wq2, wu2, wq3, wu3) = choose|q1: int, u1: TagState, q2: int, u2: TagState, q3: int, u3: TagState|
                                    #![trigger T0::sp_accepts(d0, e0, limit2, m0, dep0 + 1, sth, w.0, q1, u1), T1::sp_accepts(d0, q1, limit2, m0, dep0 + 1, u1, w.1, q2, u2), T2::sp_accepts(d0, q2, limit2, m0, dep0 + 1, u2, w.2, q3, u3)]
                                                            T0::sp_accepts(d0, e0, limit2, m0, dep0 + 1, sth, w.0, q1, u1)
                            && T1::sp_accepts(d0, q1, limit2, m0, dep0 + 1, u1, w.1, q2, u2)
                            && T2::sp_accepts(d0, q2, limit2, m0, dep0 + 1, u2, w.2, q3, u3)
                            && rstep_matches(sp_close(d0, q3, limit2, u3, length, Ok::<Self, ASN1Error>(w)), Ok::<Self, ASN1Error>(w), e2, s2);
                                T0::lemma_outcomes_unique(d0, e0, limit2, m0, dep0 + 1, sth, w.0, wq1, wu1, w.0, wq1, wu1, ferr, bad_pos, bad_st, ferr, bad_pos, bad_st);
                                assert(false);
                            },
                            HeadStep::HeadFail { kind, end: ee, st: sx } => {},
                        }
                    }
                }
                    }
                }
                return rr;
            },
        };
        let ghost g1 = *reader;
        let t1 = match T1::decode_ber(reader) {
            Ok(v) => v,
            Err(e) => {
                let ghost ferr = e;
                let ghost bad_pos = reader.posi();
                let ghost bad_st = reader.tag_statev();
                let inner: ASN1Result<Self> = Err(e);
                let rr = reader.close_frame(frame, inner);
                proof {
                    if Self::sp_refusals_exact(m0) {
                assert forall|w: Self, e2: int, s2: TagState| !Self::sp_accepts(
                    d0, pos0, lim0, m0, dep0, st00, w, e2, s2,
                ) by {
                    if Self::sp_accepts(d0, pos0, lim0, m0, dep0, st00, w, e2, s2) {
                        match sp_header(d0, pos0, lim0, m0, dep0, st00, spec_univ_tag(16), TagType::Explicit) {
                            HeadStep::HeadOk { pc, length, end: e0, limit2, st: sth } => {
                                let (wq1, wu1, wq2, wu2, wq3, wu3) = choose|q1: int, u1: TagState, q2: int, u2: TagState, q3: int, u3: TagState|
                                    #![trigger T0::sp_accepts(d0, e0, limit2, m0, dep0 + 1, sth, w.0, q1, u1), T1::sp_accepts(d0, q1, limit2, m0, dep0 + 1, u1, w.1, q2, u2), T2::sp_accepts(d0, q2, limit2, m0, dep0 + 1, u2, w.2, q3, u3)]
                                                            T0::sp_accepts(d0, e0, limit2, m0, dep0 + 1, sth, w.0, q1, u1)
                            && T1::sp_accepts(d0, q1, limit2, m0, dep0 + 1, u1, w.1, q2, u2)
                            && T2::sp_accepts(d0, q2, limit2, m0, dep0 + 1, u2, w.2, q3, u3)
                            && rstep_matches(sp_close(d0, q3, limit2, u3, length, Ok::<Self, ASN1Error>(w)), Ok::<Self, ASN1Error>(w), e2, s2);
                                T0::lemma_outcomes_unique(d0, e0, limit2, m0, dep0 + 1, sth, w.0, wq1, wu1, t0, g1.posi(), g1.tag_statev(), ASN1Error::Invalid, 0, TagState::Fresh, ASN1Error::Invalid, 0, TagState::Fresh);
                                T1::lemma_outcomes_unique(d0, wq1, limit2, m0, dep0 + 1, wu1, w.1, wq2, wu2, w.1, wq2, wu2, ferr, bad_pos, bad_st, ferr, bad_pos, bad_st);
                                assert(false);
                            },
                            HeadStep::HeadFail { kind, end: ee, st: sx } => {},
                        }
                    }
                }
                    }
                }
                return rr;
            },
        };
        let ghost g2 = *reader;
        let t2 = match T2::decode_ber(reader) {
            Ok(v) => v,
            Err(e) => {
                let ghost ferr = e;
                let ghost bad_pos = reader.posi();
                let ghost bad_st = reader.tag_statev();
                let inner: ASN1Result<Self> = Err(e);
                let rr = reader.close_frame(frame, inner);
                proof {
                    if Self::sp_refusals_exact(m0) {
                assert forall|w: Self, e2: int, s2: TagState| !Self::sp_accepts(
                    d0, pos0, lim0, m0, dep0, st00, w, e2, s2,
                ) by {
                    if Self::sp_accepts(d0, pos0, lim0, m0, dep0, st00, w, e2, s2) {
                        match sp_header(d0, pos0, lim0, m0, dep0, st00, spec_univ_tag(16), TagType::Explicit) {
                            HeadStep::HeadOk { pc, length, end: e0, limit2, st: sth } => {
                                let (wq1, wu1, wq2, wu2, wq3, wu3) = choose|q1: int, u1: TagState, q2: int, u2: TagState, q3: int, u3: TagState|
                                    #![trigger T0::sp_accepts(d0, e0, limit2, m0, dep0 + 1, sth, w.0, q1, u1), T1::sp_accepts(d0, q1, limit2, m0, dep0 + 1, u1, w.1, q2, u2), T2::sp_accepts(d0, q2, limit2, m0, dep0 + 1, u2, w.2, q3, u3)]
                                                            T0::sp_accepts(d0, e0, limit2, m0, dep0 + 1, sth, w.0, q1, u1)
                            && T1::sp_accepts(d0, q1, limit2, m0, dep0 + 1, u1, w.1, q2, u2)
                            && T2::sp_accepts(d0, q2, limit2, m0, dep0 + 1, u2, w.2, q3, u3)
                            && rstep_matches(sp_close(d0, q3, limit2, u3, length, Ok::<Self, ASN1Error>(w)), Ok::<Self, ASN1Error>(w), e2, s2);
                                T0::lemma_outcomes_unique(d0, e0, limit2, m0, dep0 + 1, sth, w.0, wq1, wu1, t0, g1.posi(), g1.tag_statev(), ASN1Error::Invalid, 0, TagState::Fresh, ASN1Error::Invalid, 0, TagState::Fresh);
                                T1::lemma_outcomes_unique(d0, wq1, limit2, m0, dep0 + 1, wu1, w.1, wq2, wu2, t1, g2.posi(), g2.tag_statev(), ASN1Error::Invalid, 0, TagState::Fresh, ASN1Error::Invalid, 0, TagState::Fresh);
                                T2::lemma_outcomes_unique(d0, wq2, limit2, m0, dep0 + 1, wu2, w.2, wq3, wu3, w.2, wq3, wu3, ferr, bad_pos, bad_st, ferr, bad_pos, bad_st);
                                assert(false);
                            },
                            HeadStep::HeadFail { kind, end: ee, st: sx } => {},
                        }
                    }
                }
                    }
                }
                return rr;
            },
        };
        let ghost g3 = *reader;
        let result = (t0, t1, t2);
        let ghost gv = result;
        let ghost before_close = *reader;
        let rr = reader.close_frame(frame, Ok(result));
        proof {
            if rr is Ok {
                assert(T0::sp_accepts(g0.data(), g0.posi(), g0.limiti(), g0.modev(), g0.depthv(), g0.tag_statev(), gv.0, g1.posi(), g1.tag_statev()));
                assert(T1::sp_accepts(g0.data(), g1.posi(), g0.limiti(), g0.modev(), g0.depthv(), g1.tag_statev(), gv.1, g2.posi(), g2.tag_statev()));
                assert(T2::sp_accepts(g0.data(), g2.posi(), g0.limiti(), g0.modev(), g0.depthv(), g2.tag_statev(), gv.2, g3.posi(), g3.tag_statev()));
            }
            if rr is Err && Self::sp_refusals_exact(m0) {
                assert forall|w: Self, e2: int, s2: TagState| !Self::sp_accepts(
                    d0, pos0, lim0, m0, dep0, st00, w, e2, s2,
                ) by {
                    if Self::sp_accepts(d0, pos0, lim0, m0, dep0, st00, w, e2, s2) {
                        match sp_header(d0, pos0, lim0, m0, dep0, st00, spec_univ_tag(16), TagType::Explicit) {
                            HeadStep::HeadOk { pc, length, end: e0, limit2, st: sth } => {
                                let (wq1, wu1, wq2, wu2, wq3, wu3) = choose|q1: int, u1: TagState, q2: int, u2: TagState, q3: int, u3: TagState|
                                    #![trigger T0::sp_accepts(d0, e0, limit2, m0, dep0 + 1, sth, w.0, q1, u1), T1::sp_accepts(d0, q1, limit2, m0, dep0 + 1, u1, w.1, q2, u2), T2::sp_accepts(d0, q2, limit2, m0, dep0 + 1, u2, w.2, q3, u3)]
                                                            T0::sp_accepts(d0, e0, limit2, m0, dep0 + 1, sth, w.0, q1, u1)
                            && T1::sp_accepts(d0, q1, limit2, m0, dep0 + 1, u1, w.1, q2, u2)
                            && T2::sp_accepts(d0, q2, limit2, m0, dep0 + 1, u2, w.2, q3, u3)
                            && rstep_matches(sp_close(d0, q3, limit2, u3, length, Ok::<Self, ASN1Error>(w)), Ok::<Self, ASN1Error>(w), e2, s2);
                                T0::lemma_outcomes_unique(d0, e0, limit2, m0, dep0 + 1, sth, w.0, wq1, wu1, t0, g1.posi(), g1.tag_statev(), ASN1Error::Invalid, 0, TagState::Fresh, ASN1Error::Invalid, 0, TagState::Fresh);
                                T1::lemma_outcomes_unique(d0, wq1, limit2, m0, dep0 + 1, wu1, w.1, wq2, wu2, t1, g2.posi(), g2.tag_statev(), ASN1Error::Invalid, 0, TagState::Fresh, ASN1Error::Invalid, 0, TagState::Fresh);
                                T2::lemma_outcomes_unique(d0, wq2, limit2, m0, dep0 + 1, wu2, w.2, wq3, wu3, t2, g3.posi(), g3.tag_statev(), ASN1Error::Invalid, 0, TagState::Fresh, ASN1Error::Invalid, 0, TagState::Fresh);
                            },
                            HeadStep::HeadFail { kind, end: ee, st: sx } => {},
                        }
                    }
                }
            }
        }
        rr
    }
}

impl<T0: BERDecodable, T1: BERDecodable, T2: BERDecodable, T3: BERDecodable> BERDecodable for (T0, T1, T2, T3) {
    open spec fn sp_accepts(
        data: Seq<u8>,
        pos: int,
        limit: int,
        mode: BERMode,
        depth: int,
        st0: TagState,
        v: Self,
        end: int,
        st: TagState,
    ) -> bool {
        match sp_header(data, pos, limit, mode, depth, st0, spec_univ_tag(16), TagType::Explicit) {
            HeadStep::HeadFail { kind, end: e, st: s } => false,
            HeadStep::HeadOk { pc, length, end: e0, limit2, st: sth } => pc
                == PCBit::Constructed && (exists|p1: int, s1: TagState, p2: int, s2: TagState, p3: int, s3: TagState, p4: int, s4: TagState|
                #![trigger T0::sp_accepts(data, e0, limit2, mode, depth + 1, sth, v.0, p1, s1), T1::sp_accepts(data, p1, limit2, mode, depth + 1, s1, v.1, p2, s2), T2::sp_accepts(data, p2, limit2, mode, depth + 1, s2, v.2, p3, s3), T3::sp_accepts(data, p3, limit2, mode, depth + 1, s3, v.3, p4, s4)]
                {
                    &&& T0::sp_accepts(data, e0, limit2, mode, depth + 1, sth, v.0, p1, s1)
                    &&& T1::sp_accepts(data, p1, limit2, mode, depth + 1, s1, v.1, p2, s2)
                    &&& T2::sp_accepts(data, p2, limit2, mode, depth + 1, s2, v.2, p3, s3)
                    &&& T3::sp_accepts(data, p3, limit2, mode, depth + 1, s3, v.3, p4, s4)
                    &&& rstep_matches(
                        sp_close(data, p4, limit2, s4, length, Ok::<Self, ASN1Error>(v)),
                        Ok::<Self, ASN1Error>(v),
                        end,
                        st,
                    )
                }),
        }
    }

    open spec fn sp_refusals_exact(mode: BERMode) -> bool {
        mode == BERMode::Der && T0::sp_refusals_exact(BERMode::Der) && T1::sp_refusals_exact(BERMode::Der) && T2::sp_refusals_exact(BERMode::Der) && T3::sp_refusals_exact(BERMode::Der)
    }

    open spec fn sp_refuses(
        data: Seq<u8>,
        pos: int,
        limit: int,
        mode: BERMode,
        depth: int,
        st0: TagState,
        kind: ASN1Error,
        end: int,
        st: TagState,
    ) -> bool {
        !(exists|w: Self, e2: int, s2: TagState|
            Self::sp_accepts(data, pos, limit, mode, depth, st0, w, e2, s2))
    }

    proof fn lemma_outcomes_unique(
        data: Seq<u8>,
        pos: int,
        limit: int,
        mode: BERMode,
        depth: int,
        st0: TagState,
        v1: Self,
        e1: int,
        s1: TagState,
        v2: Self,
        e2: int,
        s2: TagState,
        k3: ASN1Error,
        e3: int,
        s3: TagState,
        k4: ASN1Error,
        e4: int,
        s4: TagState,
    ) {
        if Self::sp_accepts(data, pos, limit, mode, depth, st0, v1, e1, s1) && Self::sp_accepts(
            data,
            pos,
            limit,
            mode,
            depth,
            st0,
            v2,
            e2,
            s2,
        ) {
            match sp_header(data, pos, limit, mode, depth, st0, spec_univ_tag(16), TagType::Explicit) {
                HeadStep::HeadOk { pc, length, end: e0, limit2, st: sth } => {
                    let (aq1, au1, aq2, au2, aq3, au3, aq4, au4) = choose|q1: int, u1: TagState, q2: int, u2: TagState, q3: int, u3: TagState, q4: int, u4: TagState|
                        #![trigger T0::sp_accepts(data, e0, limit2, mode, depth + 1, sth, v1.0, q1, u1), T1::sp_accepts(data, q1, limit2, mode, depth + 1, u1, v1.1, q2, u2), T2::sp_accepts(data, q2, limit2, mode, depth + 1, u2, v1.2, q3, u3), T3::sp_accepts(data, q3, limit2, mode, depth + 1, u3, v1.3, q4, u4)]
                                            T0::sp_accepts(data, e0, limit2, mode, depth + 1, sth, v1.0, q1, u1)
                        && T1::sp_accepts(data, q1, limit2, mode, depth + 1, u1, v1.1, q2, u2)
                        && T2::sp_accepts(data, q2, limit2, mode, depth + 1, u2, v1.2, q3, u3)
                        && T3::sp_accepts(data, q3, limit2, mode, depth + 1, u3, v1.3, q4, u4)
                        && rstep_matches(sp_close(data, q4, limit2, u4, length, Ok::<Self, ASN1Error>(v1)), Ok::<Self, ASN1Error>(v1), e1, s1);
                    let (bq1, bu1, bq2, bu2, bq3, bu3, bq4, bu4) = choose|q1: int, u1: TagState, q2: int, u2: TagState, q3: int, u3: TagState, q4: int, u4: TagState|
                        #![trigger T0::sp_accepts(data, e0, limit2, mode, depth + 1, sth, v2.0, q1, u1), T1::sp_accepts(data, q1, limit2, mode, depth + 1, u1, v2.1, q2, u2), T2::sp_accepts(data, q2, limit2, mode, depth + 1, u2, v2.2, q3, u3), T3::sp_accepts(data, q3, limit2, mode, depth + 1, u3, v2.3, q4, u4)]
                                            T0::sp_accepts(data, e0, limit2, mode, depth + 1, sth, v2.0, q1, u1)
                        && T1::sp_accepts(data, q1, limit2, mode, depth + 1, u1, v2.1, q2, u2)
                        && T2::sp_accepts(data, q2, limit2, mode, depth + 1, u2, v2.2, q3, u3)
                        && T3::sp_accepts(data, q3, limit2, mode, depth + 1, u3, v2.3, q4, u4)
                        && rstep_matches(sp_close(data, q4, limit2, u4, length, Ok::<Self, ASN1Error>(v2)), Ok::<Self, ASN1Error>(v2), e2, s2);
                    T0::lemma_outcomes_unique(data, e0, limit2, mode, depth + 1, sth, v1.0, aq1, au1, v2.0, bq1, bu1, ASN1Error::Invalid, 0, TagState::Fresh, ASN1Error::Invalid, 0, TagState::Fresh);
                    T1::lemma_outcomes_unique(data, aq1, limit2, mode, depth + 1, au1, v1.1, aq2, au2, v2.1, bq2, bu2, ASN1Error::Invalid, 0, TagState::Fresh, ASN1Error::Invalid, 0, TagState::Fresh);
                    T2::lemma_outcomes_unique(data, aq2, limit2, mode, depth + 1, au2, v1.2, aq3, au3, v2.2, bq3, bu3, ASN1Error::Invalid, 0, TagState::Fresh, ASN1Error::Invalid, 0, TagState::Fresh);
                    T3::lemma_outcomes_unique(data, aq3, limit2, mode, depth + 1, au3, v1.3, aq4, au4, v2.3, bq4, bu4, ASN1Error::Invalid, 0, TagState::Fresh, ASN1Error::Invalid, 0, TagState::Fresh);
                },
                HeadStep::HeadFail { kind, end: ee, st: sx } => {},
            }
        }
    }

    fn decode_ber(reader: &mut BERReader) -> (r: ASN1Result<Self>) {
        let ghost d0 = old(reader).data();
        let ghost pos0 = old(reader).posi();
        let ghost lim0 = old(reader).limiti();
        let ghost m0 = old(reader).modev();
        let ghost dep0 = old(reader).depthv();
        let ghost st00 = old(reader).tag_statev();
        let frame = match reader.parse_header(
            Tag { tag_class: TagClass::Universal, tag_number: 16 },
            TagType::Explicit,
        ) {
            Ok(f) => f,
            Err(e) => {
                return Err(e);
            },
        };
        if frame.pc != PCBit::Constructed {
            let inner: ASN1Result<Self> = Err(ASN1Error::Invalid);
            return reader.close_frame(frame, inner);
        }
        let ghost g0 = *reader;
        let t0 = match T0::decode_ber(reader) {
            Ok(v) => v,
            Err(e) => {
                let ghost ferr = e;
                let ghost bad_pos = reader.posi();
                let ghost bad_st = reader.tag_statev();
                let inner: ASN1Result<Self> = Err(e);
                let rr = reader.close_frame(frame, inner);
                proof {
                    if Self::sp_refusals_exact(m0) {
                assert forall|w: Self, e2: int, s2: TagState| !Self::sp_accepts(
                    d0, pos0, lim0, m0, dep0, st00, w, e2, s2,
                ) by {
                    if Self::sp_accepts(d0, pos0, lim0, m0, dep0, st00, w, e2, s2) {
                        match sp_header(d0, pos0, lim0, m0, dep0, st00, spec_univ_tag(16), TagType::Explicit) {
                            HeadStep::HeadOk { pc, length, end: e0, limit2, st: sth } => {
                                let (wq1, wu1, wq2, wu2, wq3, wu3, wq4, wu4) = choose|q1: int, u1: TagState, q2: int, u2: TagState, q3: int, u3: TagState, q4: int, u4: TagState|
                                    #![trigger T0::sp_accepts(d0, e0, limit2, m0, dep0 + 1, sth, w.0, q1, u1), T1::sp_accepts(d0, q1, limit2, m0, dep0 + 1, u1, w.1, q2, u2), T2::sp_accepts(d0, q2, limit2, m0, dep0 + 1, u2, w.2, q3, u3), T3::sp_accepts(d0, q3, limit2, m0, dep0 + 1, u3, w.3, q4, u4)]
                                                            T0::sp_accepts(d0, e0, limit2, m0, dep0 + 1, sth, w.0, q1, u1)
                            && T1::sp_accepts(d0, q1, limit2, m0, dep0 + 1, u1, w.1, q2, u2)
                            && T2::sp_accepts(d0, q2, limit2, m0, dep0 + 1, u2, w.2, q3, u3)
                            && T3::sp_accepts(d0, q3, limit2, m0, dep0 + 1, u3, w.3, q4, u4)
                            && rstep_matches(sp_close(d0, q4, limit2, u4, length, Ok::<Self, ASN1Error>(w)), Ok::<Self, ASN1Error>(w), e2, s2);
                                T0::lemma_outcomes_unique(d0, e0, limit2, m0, dep0 + 1, sth, w.0, wq1, wu1, w.0, wq1, wu1, ferr, bad_pos, bad_st, ferr, bad_pos, bad_st);
                                assert(false);
                            },
                            HeadStep::HeadFail { kind, end: ee, st: sx } => {},
                        }
                    }
                }
                    }
                }
                return rr;
            },
        };
        let ghost g1 = *reader;
        let t1 = match T1::decode_ber(reader) {
            Ok(v) => v,
            Err(e) => {
                let ghost ferr = e;
                let ghost bad_pos = reader.posi();
                let ghost bad_st = reader.tag_statev();
                let inner: ASN1Result<Self> = Err(e);
                let rr = reader.close_frame(frame, inner);
                proof {
                    if Self::sp_refusals_exact(m0) {
                assert forall|w: Self, e2: int, s2: TagState| !Self::sp_accepts(
                    d0, pos0, lim0, m0, dep0, st00, w, e2, s2,
                ) by {
                    if Self::sp_accepts(d0, pos0, lim0, m0, dep0, st00, w, e2, s2) {
                        match sp_header(d0, pos0, lim0, m0, dep0, st00, spec_univ_tag(16), TagType::Explicit) {
                            HeadStep::HeadOk { pc, length, end: e0, limit2, st: sth } => {
                                let (wq1, wu1, wq2, wu2, wq3, wu3, wq4, wu4) = choose|q1: int, u1: TagState, q2: int, u2: TagState, q3: int, u3: TagState, q4: int, u4: TagState|
                                    #![trigger T0::sp_accepts(d0, e0, limit2, m0, dep0 + 1, sth, w.0, q1, u1), T1::sp_accepts(d0, q1, limit2, m0, dep0 + 1, u1, w.1, q2, u2), T2::sp_accepts(d0, q2, limit2, m0, dep0 + 1, u2, w.2, q3, u3), T3::sp_accepts(d0, q3, limit2, m0, dep0 + 1, u3, w.3, q4, u4)]
                                                            T0::sp_accepts(d0, e0, limit2, m0, dep0 + 1, sth, w.0, q1, u1)
                            && T1::sp_accepts(d0, q1, limit2, m0, dep0 + 1, u1, w.1, q2, u2)
                            && T2::sp_accepts(d0, q2, limit2, m0, dep0 + 1, u2, w.2, q3, u3)
                            && T3::sp_accepts(d0, q3, limit2, m0, dep0 + 1, u3, w.3, q4, u4)
                            && rstep_matches(sp_close(d0, q4, limit2, u4, length, Ok::<Self, ASN1Error>(w)), Ok::<Self, ASN1Error>(w), e2, s2);
                                T0::lemma_outcomes_unique(d0, e0, limit2, m0, dep0 + 1, sth, w.0, wq1, wu1, t0, g1.posi(), g1.tag_statev(), ASN1Error::Invalid, 0, TagState::Fresh, ASN1Error::Invalid, 0, TagState::Fresh);
                                T1::lemma_outcomes_unique(d0, wq1, limit2, m0, dep0 + 1, wu1, w.1, wq2, wu2, w.1, wq2, wu2, ferr, bad_pos, bad_st, ferr, bad_pos, bad_st);
                                assert(false);
                            },
                            HeadStep::HeadFail { kind, end: ee, st: sx } => {},
                        }
                    }
                }
                    }
                }
                return rr;
            },
        };
        let ghost g2 = *reader;
        let t2 = match T2::decode_ber(reader) {
            Ok(v) => v,
            Err(e) => {
                let ghost ferr = e;
                let ghost bad_pos = reader.posi();
                let ghost bad_st = reader.tag_statev();
                let inner: ASN1Result<Self> = Err(e);
                let rr = reader.close_frame(frame, inner);
                proof {
                    if Self::sp_refusals_exact(m0) {
                assert forall|w: Self, e2: int, s2: TagState| !Self::sp_accepts(
                    d0, pos0, lim0, m0, dep0, st00, w, e2, s2,
                ) by {
                    if Self::sp_accepts(d0, pos0, lim0, m0, dep0, st00, w, e2, s2) {
                        match sp_header(d0, pos0, lim0, m0, dep0, st00, spec_univ_tag(16), TagType::Explicit) {
                            HeadStep::HeadOk { pc, length, end: e0, limit2, st: sth } => {
                                let (wq1, wu1, wq2, wu2, wq3, wu3, wq4, wu4) = choose|q1: int, u1: TagState, q2: int, u2: TagState, q3: int, u3: TagState, q4: int, u4: TagState|
                                    #![trigger T0::sp_accepts(d0, e0, limit2, m0, dep0 + 1, sth, w.0, q1, u1), T1::sp_accepts(d0, q1, limit2, m0, dep0 + 1, u1, w.1, q2, u2), T2::sp_accepts(d0, q2, limit2, m0, dep0 + 1, u2, w.2, q3, u3), T3::sp_accepts(d0, q3, limit2, m0, dep0 + 1, u3, w.3, q4, u4)]
                                                            T0::sp_accepts(d0, e0, limit2, m0, dep0 + 1, sth, w.0, q1, u1)
                            && T1::sp_accepts(d0, q1, limit2, m0, dep0 + 1, u1, w.1, q2, u2)
                            && T2::sp_accepts(d0, q2, limit2, m0, dep0 + 1, u2, w.2, q3, u3)
                            && T3::sp_accepts(d0, q3, limit2, m0, dep0 + 1, u3, w.3, q4, u4)
                            && rstep_matches(sp_close(d0, q4, limit2, u4, length, Ok::<Self, ASN1Error>(w)), Ok::<Self, ASN1Error>(w), e2, s2);
                                T0::lemma_outcomes_unique(d0, e0, limit2, m0, dep0 + 1, sth, w.0, wq1, wu1, t0, g1.posi(), g1.tag_statev(), ASN1Error::Invalid, 0, TagState::Fresh, ASN1Error::Invalid, 0, TagState::Fresh);
                                T1::lemma_outcomes_unique(d0, wq1, limit2, m0, dep0 + 1, wu1, w.1, wq2, wu2, t1, g2.posi(), g2.tag_statev(), ASN1Error::Invalid, 0, TagState::Fresh, ASN1Error::Invalid, 0, TagState::Fresh);
                                T2::lemma_outcomes_unique(d0, wq2, limit2, m0, dep0 + 1, wu2, w.2, wq3, wu3, w.2, wq3, wu3, ferr, bad_pos, bad_st, ferr, bad_pos, bad_st);
                                assert(false);
                            },
                            HeadStep::HeadFail { kind, end: ee, st: sx } => {},
                        }
                    }
                }
                    }
                }
                return rr;
            },
        };
        let ghost g3 = *reader;
        let t3 = match T3::decode_ber(reader) {
            Ok(v) => v,
            Err(e) => {
                let ghost ferr = e;
                let ghost bad_pos = reader.posi();
                let ghost bad_st = reader.tag_statev();
                let inner: ASN1Result<Self> = Err(e);
                let rr = reader.close_frame(frame, inner);
                proof {
                    if Self::sp_refusals_exact(m0) {
                assert forall|w: Self, e2: int, s2: TagState| !Self::sp_accepts(
                    d0, pos0, lim0, m0, dep0, st00, w, e2, s2,
                ) by {
                    if Self::sp_accepts(d0, pos0, lim0, m0, dep0, st00, w, e2, s2) {
                        match sp_header(d0, pos0, lim0, m0, dep0, st00, spec_univ_tag(16), TagType::Explicit) {
                            HeadStep::HeadOk { pc, length, end: e0, limit2, st: sth } => {
                                let (wq1, wu1, wq2, wu2, wq3, wu3, wq4, wu4) = choose|q1: int, u1: TagState, q2: int, u2: TagState, q3: int, u3: TagState, q4: int, u4: TagState|
                                    #![trigger T0::sp_accepts(d0, e0, limit2, m0, dep0 + 1, sth, w.0, q1, u1), T1::sp_accepts(d0, q1, limit2, m0, dep0 + 1, u1, w.1, q2, u2), T2::sp_accepts(d0, q2, limit2, m0, dep0 + 1, u2, w.2, q3, u3), T3::sp_accepts(d0, q3, limit2, m0, dep0 + 1, u3, w.3, q4, u4)]
                                                            T0::sp_accepts(d0, e0, limit2, m0, dep0 + 1, sth, w.0, q1, u1)
                            && T1::sp_accepts(d0, q1, limit2, m0, dep0 + 1, u1, w.1, q2, u2)
                            && T2::sp_accepts(d0, q2, limit2, m0, dep0 + 1, u2, w.2, q3, u3)
                            && T3::sp_accepts(d0, q3, limit2, m0, dep0 + 1, u3, w.3, q4, u4)
                            && rstep_matches(sp_close(d0, q4, limit2, u4, length, Ok::<Self, ASN1Error>(w)), Ok::<Self, ASN1Error>(w), e2, s2);
                                T0::lemma_outcomes_unique(d0, e0, limit2, m0, dep0 + 1, sth, w.0, wq1, wu1, t0, g1.posi(), g1.tag_statev(), ASN1Error::Invalid, 0, TagState::Fresh, ASN1Error::Invalid, 0, TagState::Fresh);
                                T1::lemma_outcomes_unique(d0, wq1, limit2, m0, dep0 + 1, wu1, w.1, wq2, wu2, t1, g2.posi(), g2.tag_statev(), ASN1Error::Invalid, 0, TagState::Fresh, ASN1Error::Invalid, 0, TagState::Fresh);
                                T2::lemma_outcomes_unique(d0, wq2, limit2, m0, dep0 + 1, wu2, w.2, wq3, wu3, t2, g3.posi(), g3.tag_statev(), ASN1Error::Invalid, 0, TagState::Fresh, ASN1Error::Invalid, 0, TagState::Fresh);
                                T3::lemma_outcomes_unique(d0, wq3, limit2, m0, dep0 + 1, wu3, w.3, wq4, wu4, w.3, wq4, wu4, ferr, bad_pos, bad_st, ferr, bad_pos, bad_st);
                                assert(false);
                            },
                            HeadStep::HeadFail { kind, end: ee, st: sx } => {},
                        }
                    }
                }
                    }
                }
                return rr;
            },
        };
        let ghost g4 = *reader;
        let result = (t0, t1, t2, t3);
        let ghost gv = result;
        let ghost before_close = *reader;
        let rr = reader.close_frame(frame, Ok(result));
        proof {
            if rr is Ok {
                assert(T0::sp_accepts(g0.data(), g0.posi(), g0.limiti(), g0.modev(), g0.depthv(), g0.tag_statev(), gv.0, g1.posi(), g1.tag_statev()));
                assert(T1::sp_accepts(g0.data(), g1.posi(), g0.limiti(), g0.modev(), g0.depthv(), g1.tag_statev(), gv.1, g2.posi(), g2.tag_statev()));
                assert(T2::sp_accepts(g0.data(), g2.posi(), g0.limiti(), g0.modev(), g0.depthv(), g2.tag_statev(), gv.2, g3.posi(), g3.tag_statev()));
                assert(T3::sp_accepts(g0.data(), g3.posi(), g0.limiti(), g0.modev(), g0.depthv(), g3.tag_statev(), gv.3, g4.posi(), g4.tag_statev()));
            }
            if rr is Err && Self::sp_refusals_exact(m0) {
                assert forall|w: Self, e2: int, s2: TagState| !Self::sp_accepts(
                    d0, pos0, lim0, m0, dep0, st00, w, e2, s2,
                ) by {
                    if Self::sp_accepts(d0, pos0, lim0, m0, dep0, st00, w, e2, s2) {
                        match sp_header(d0, pos0, lim0, m0, dep0, st00, spec_univ_tag(16), TagType::Explicit) {
                            HeadStep::HeadOk { pc, length, end: e0, limit2, st: sth } => {
                                let (wq1, wu1, wq2, wu2, wq3, wu3, wq4, wu4) = choose|q1: int, u1: TagState, q2: int, u2: TagState, q3: int, u3: TagState, q4: int, u4: TagState|
                                    #![trigger T0::sp_accepts(d0, e0, limit2, m0, dep0 + 1, sth, w.0, q1, u1), T1::sp_accepts(d0, q1, limit2, m0, dep0 + 1, u1, w.1, q2, u2), T2::sp_accepts(d0, q2, limit2, m0, dep0 + 1, u2, w.2, q3, u3), T3::sp_accepts(d0, q3, limit2, m0, dep0 + 1, u3, w.3, q4, u4)]
                                                            T0::sp_accepts(d0, e0, limit2, m0, dep0 + 1, sth, w.0, q1, u1)
                            && T1::sp_accepts(d0, q1, limit2, m0, dep0 + 1, u1, w.1, q2, u2)
                            && T2::sp_accepts(d0, q2, limit2, m0, dep0 + 1, u2, w.2, q3, u3)
                            && T3::sp_accepts(d0, q3, limit2, m0, dep0 + 1, u3, w.3, q4, u4)
                            && rstep_matches(sp_close(d0, q4, limit2, u4, length, Ok::<Self, ASN1Error>(w)), Ok::<Self, ASN1Error>(w), e2, s2);
                                T0::lemma_outcomes_unique(d0, e0, limit2, m0, dep0 + 1, sth, w.0, wq1, wu1, t0, g1.posi(), g1.tag_statev(), ASN1Error::Invalid, 0, TagState::Fresh, ASN1Error::Invalid, 0, TagState::Fresh);
                                T1::lemma_outcomes_unique(d0, wq1, limit2, m0, dep0 + 1, wu1, w.1, wq2, wu2, t1, g2.posi(), g2.tag_statev(), ASN1Error::Invalid, 0, TagState::Fresh, ASN1Error::Invalid, 0, TagState::Fresh);
                                T2::lemma_outcomes_unique(d0, wq2, limit2, m0, dep0 + 1, wu2, w.2, wq3, wu3, t2, g3.posi(), g3.tag_statev(), ASN1Error::Invalid, 0, TagState::Fresh, ASN1Error::Invalid, 0, TagState::Fresh);
                                T3::lemma_outcomes_unique(d0, wq3, limit2, m0, dep0 + 1, wu3, w.3, wq4, wu4, t3, g4.posi(), g4.tag_statev(), ASN1Error::Invalid, 0, TagState::Fresh, ASN1Error::Invalid, 0, TagState::Fresh);
                            },
                            HeadStep::HeadFail { kind, end: ee, st: sx } => {},
                        }
                    }
                }
            }
        }
        rr
    }
}

impl<T0: BERDecodable, T1: BERDecodable, T2: BERDecodable, T3: BERDecodable, T4: BERDecodable> BERDecodable for (T0, T1, T2, T3, T4) {
    open spec fn sp_accepts(
        data: Seq<u8>,
        pos: int,
        limit: int,
        mode: BERMode,
        depth: int,
        st0: TagState,
        v: Self,
        end: int,
        st: TagState,
    ) -> bool {
        match sp_header(data, pos, limit, mode, depth, st0, spec_univ_tag(16), TagType::Explicit) {
            HeadStep::HeadFail { kind, end: e, st: s } => false,
            HeadStep::HeadOk { pc, length, end: e0, limit2, st: sth } => pc
                == PCBit::Constructed && (exists|p1: int, s1: TagState, p2: int, s2: TagState, p3: int, s3: TagState, p4: int, s4: TagState, p5: int, s5: TagState|
                #![trigger T0::sp_accepts(data, e0, limit2, mode, depth + 1, sth, v.0, p1, s1), T1::sp_accepts(data, p1, limit2, mode, depth + 1, s1, v.1, p2, s2), T2::sp_accepts(data, p2, limit2, mode, depth + 1, s2, v.2, p3, s3), T3::sp_accepts(data, p3, limit2, mode, depth + 1, s3, v.3, p4, s4), T4::sp_accepts(data, p4, limit2, mode, depth + 1, s4, v.4, p5, s5)]
                {
                    &&& T0::sp_accepts(data, e0, limit2, mode, depth + 1, sth, v.0, p1, s1)
                    &&& T1::sp_accepts(data, p1, limit2, mode, depth + 1, s1, v.1, p2, s2)
                    &&& T2::sp_accepts(data, p2, limit2, mode, depth + 1, s2, v.2, p3, s3)
                    &&& T3::sp_accepts(data, p3, limit2, mode, depth + 1, s3, v.3, p4, s4)
                    &&& T4::sp_accepts(data, p4, limit2, mode, depth + 1, s4, v.4, p5, s5)
                    &&& rstep_matches(
                        sp_close(data, p5, limit2, s5, length, Ok::<Self, ASN1Error>(v)),
                        Ok::<Self, ASN1Error>(v),
                        end,
                        st,
                    )
                }),
        }
    }

    open spec fn sp_refusals_exact(mode: BERMode) -> bool {
        mode == BERMode::Der && T0::sp_refusals_exact(BERMode::Der) && T1::sp_refusals_exact(BERMode::Der) && T2::sp_refusals_exact(BERMode::Der) && T3::sp_refusals_exact(BERMode::Der) && T4::sp_refusals_exact(BERMode::Der)
    }

    open spec fn sp_refuses(
        data: Seq<u8>,
        pos: int,
        limit: int,
        mode: BERMode,
        depth: int,
        st0: TagState,
        kind: ASN1Error,
        end: int,
        st: TagState,
    ) -> bool {
        !(exists|w: Self, e2: int, s2: TagState|
            Self::sp_accepts(data, pos, limit, mode, depth, st0, w, e2, s2))
    }

    proof fn lemma_outcomes_unique(
        data: Seq<u8>,
        pos: int,
        limit: int,
        mode: BERMode,
        depth: int,
        st0: TagState,
        v1: Self,
        e1: int,
        s1: TagState,
        v2: Self,
        e2: int,
        s2: TagState,
        k3: ASN1Error,
        e3: int,
        s3: TagState,
        k4: ASN1Error,
        e4: int,
        s4: TagState,
    ) {
        if Self::sp_accepts(data, pos, limit, mode, depth, st0, v1, e1, s1) && Self::sp_accepts(
            data,
            pos,
            limit,
            mode,
            depth,
            st0,
            v2,
            e2,
            s2,
        ) {
            match sp_header(data, pos, limit, mode, depth, st0, spec_univ_tag(16), TagType::Explicit) {
                HeadStep::HeadOk { pc, length, end: e0, limit2, st: sth } => {
                    let (aq1, au1, aq2, au2, aq3, au3, aq4, au4, aq5, au5) = choose|q1: int, u1: TagState, q2: int, u2: TagState, q3: int, u3: TagState, q4: int, u4: TagState, q5: int, u5: TagState|
                        #![trigger T0::sp_accepts(data, e0, limit2, mode, depth + 1, sth, v1.0, q1, u1), T1::sp_accepts(data, q1, limit2, mode, depth + 1, u1, v1.1, q2, u2), T2::sp_accepts(data, q2, limit2, mode, depth + 1, u2, v1.2, q3, u3), T3::sp_accepts(data, q3, limit2, mode, depth + 1, u3, v1.3, q4, u4), T4::sp_accepts(data, q4, limit2, mode, depth + 1, u4, v1.4, q5, u5)]
                                            T0::sp_accepts(data, e0, limit2, mode, depth + 1, sth, v1.0, q1, u1)
                        && T1::sp_accepts(data, q1, limit2, mode, depth + 1, u1, v1.1, q2, u2)
                        && T2::sp_accepts(data, q2, limit2, mode, depth + 1, u2, v1.2, q3, u3)
                        && T3::sp_accepts(data, q3, limit2, mode, depth + 1, u3, v1.3, q4, u4)
                        && T4::sp_accepts(data, q4, limit2, mode, depth + 1, u4, v1.4, q5, u5)
                        && rstep_matches(sp_close(data, q5, limit2, u5, length, Ok::<Self, ASN1Error>(v1)), Ok::<Self, ASN1Error>(v1), e1, s1);
                    let (bq1, bu1, bq2, bu2, bq3, bu3, bq4, bu4, bq5, bu5) = choose|q1: int, u1: TagState, q2: int, u2: TagState, q3: int, u3: TagState, q4: int, u4: TagState, q5: int, u5: TagState|
                        #![trigger T0::sp_accepts(data, e0, limit2, mode, depth + 1, sth, v2.0, q1, u1), T1::sp_accepts(data, q1, limit2, mode, depth + 1, u1, v2.1, q2, u2), T2::sp_accepts(data, q2, limit2, mode, depth + 1, u2, v2.2, q3, u3), T3::sp_accepts(data, q3, limit2, mode, depth + 1, u3, v2.3, q4, u4), T4::sp_accepts(data, q4, limit2, mode, depth + 1, u4, v2.4, q5, u5)]
                                            T0::sp_accepts(data, e0, limit2, mode, depth + 1, sth, v2.0, q1, u1)
                        && T1::sp_accepts(data, q1, limit2, mode, depth + 1, u1, v2.1, q2, u2)
                        && T2::sp_accepts(data, q2, limit2, mode, depth + 1, u2, v2.2, q3, u3)
                        && T3::sp_accepts(data, q3, limit2, mode, depth + 1, u3, v2.3, q4, u4)
                        && T4::sp_accepts(data, q4, limit2, mode, depth + 1, u4, v2.4, q5, u5)
                        && rstep_matches(sp_close(data, q5, limit2, u5, length, Ok::<Self, ASN1Error>(v2)), Ok::<Self, ASN1Error>(v2), e2, s2);
                    T0::lemma_outcomes_unique(data, e0, limit2, mode, depth + 1, sth, v1.0, aq1, au1, v2.0, bq1, bu1, ASN1Error::Invalid, 0, TagState::Fresh, ASN1Error::Invalid, 0, TagState::Fresh);
                    T1::lemma_outcomes_unique(data, aq1, limit2, mode, depth + 1, au1, v1.1, aq2, au2, v2.1, bq2, bu2, ASN1Error::Invalid, 0, TagState::Fresh, ASN1Error::Invalid, 0, TagState::Fresh);
                    T2::lemma_outcomes_unique(data, aq2, limit2, mode, depth + 1, au2, v1.2, aq3, au3, v2.2, bq3, bu3, ASN1Error::Invalid, 0, TagState::Fresh, ASN1Error::Invalid, 0, TagState::Fresh);
                    T3::lemma_outcomes_unique(data, aq3, limit2, mode, depth + 1, au3, v1.3, aq4, au4, v2.3, bq4, bu4, ASN1Error::Invalid, 0, TagState::Fresh, ASN1Error::Invalid, 0, TagState::Fresh);
                    T4::lemma_outcomes_unique(data, aq4, limit2, mode, depth + 1, au4, v1.4, aq5, au5, v2.4, bq5, bu5, ASN1Error::Invalid, 0, TagState::Fresh, ASN1Error::Invalid, 0, TagState::Fresh);
                },
                HeadStep::HeadFail { kind, end: ee, st: sx } => {},
            }
        }
    }

    fn decode_ber(reader: &mut BERReader) -> (r: ASN1Result<Self>) {
        let ghost d0 = old(reader).data();
        let ghost pos0 = old(reader).posi();
        let ghost lim0 = old(reader).limiti();
        let ghost m0 = old(reader).modev();
        let ghost dep0 = old(reader).depthv();
        let ghost st00 = old(reader).tag_statev();
        let frame = match reader.parse_header(
            Tag { tag_class: TagClass::Universal, tag_number: 16 },
            TagType::Explicit,
        ) {
            Ok(f) => f,
            Err(e) => {
                return Err(e);
            },
        };
        if frame.pc != PCBit::Constructed {
            let inner: ASN1Result<Self> = Err(ASN1Error::Invalid);
            return reader.close_frame(frame, inner);
        }
        let ghost g0 = *reader;
        let t0 = match T0::decode_ber(reader) {
            Ok(v) => v,
            Err(e) => {
                let ghost ferr = e;
                let ghost bad_pos = reader.posi();
                let ghost bad_st = reader.tag_statev();
                let inner: ASN1Result<Self> = Err(e);
                let rr = reader.close_frame(frame, inner);
                proof {
                    if Self::sp_refusals_exact(m0) {
                assert forall|w: Self, e2: int, s2: TagState| !Self::sp_accepts(
                    d0, pos0, lim0, m0, dep0, st00, w, e2, s2,
                ) by {
                    if Self::sp_accepts(d0, pos0, lim0, m0, dep0, st00, w, e2, s2) {
                        match sp_header(d0, pos0, lim0, m0, dep0, st00, spec_univ_tag(16), TagType::Explicit) {
                            HeadStep::HeadOk { pc, length, end: e0, limit2, st: sth } => {
                                let (wq1, wu1, wq2, wu2, wq3, wu3, wq4, wu4, wq5, wu5) = choose|q1: int, u1: TagState, q2: int, u2: TagState, q3: int, u3: TagState, q4: int, u4: TagState, q5: int, u5: TagState|
                                    #![trigger T0::sp_accepts(d0, e0, limit2, m0, dep0 + 1, sth, w.0, q1, u1), T1::sp_accepts(d0, q1, limit2, m0, dep0 + 1, u1, w.1, q2, u2), T2::sp_accepts(d0, q2, limit2, m0, dep0 + 1, u2, w.2, q3, u3), T3::sp_accepts(d0, q3, limit2, m0, dep0 + 1, u3, w.3, q4, u4), T4::sp_accepts(d0, q4, limit2, m0, dep0 + 1, u4, w.4, q5, u5)]
                                                            T0::sp_accepts(d0, e0, limit2, m0, dep0 + 1, sth, w.0, q1, u1)
                            && T1::sp_accepts(d0, q1, limit2, m0, dep0 + 1, u1, w.1, q2, u2)
                            && T2::sp_accepts(d0, q2, limit2, m0, dep0 + 1, u2, w.2, q3, u3)
                            && T3::sp_accepts(d0, q3, limit2, m0, dep0 + 1, u3, w.3, q4, u4)
                            && T4::sp_accepts(d0, q4, limit2, m0, dep0 + 1, u4, w.4, q5, u5)
                            && rstep_matches(sp_close(d0, q5, limit2, u5, length, Ok::<Self, ASN1Error>(w)), Ok::<Self, ASN1Error>(w), e2, s2);
                                T0::lemma_outcomes_unique(d0, e0, limit2, m0, dep0 + 1, sth, w.0, wq1, wu1, w.0, wq1, wu1, ferr, bad_pos, bad_st, ferr, bad_pos, bad_st);
                                assert(false);
                            },
                            HeadStep::HeadFail { kind, end: ee, st: sx } => {},
                        }
                    }
                }
                    }
                }
                return rr;
            },
        };
        let ghost g1 = *reader;
        let t1 = match T1::decode_ber(reader) {
            Ok(v) => v,
            Err(e) => {
                let ghost ferr = e;
                let ghost bad_pos = reader.posi();
                let ghost bad_st = reader.tag_statev();
                let inner: ASN1Result<Self> = Err(e);
                let rr = reader.close_frame(frame, inner);
                proof {
                    if Self::sp_refusals_exact(m0) {
                assert forall|w: Self, e2: int, s2: TagState| !Self::sp_accepts(
                    d0, pos0, lim0, m0, dep0, st00, w, e2, s2,
                ) by {
                    if Self::sp_accepts(d0, pos0, lim0, m0, dep0, st00, w, e2, s2) {
                        match sp_header(d0, pos0, lim0, m0, dep0, st00, spec_univ_tag(16), TagType::Explicit) {
                            HeadStep::HeadOk { pc, length, end: e0, limit2, st: sth } => {
                                let (wq1, wu1, wq2, wu2, wq3, wu3, wq4, wu4, wq5, wu5) = choose|q1: int, u1: TagState, q2: int, u2: TagState, q3: int, u3: TagState, q4: int, u4: TagState, q5: int, u5: TagState|
                                    #![trigger T0::sp_accepts(d0, e0, limit2, m0, dep0 + 1, sth, w.0, q1, u1), T1::sp_accepts(d0, q1, limit2, m0, dep0 + 1, u1, w.1, q2, u2), T2::sp_accepts(d0, q2, limit2, m0, dep0 + 1, u2, w.2, q3, u3), T3::sp_accepts(d0, q3, limit2, m0, dep0 + 1, u3, w.3, q4, u4), T4::sp_accepts(d0, q4, limit2, m0, dep0 + 1, u4, w.4, q5, u5)]
                                                            T0::sp_accepts(d0, e0, limit2, m0, dep0 + 1, sth, w.0, q1, u1)
                            && T1::sp_accepts(d0, q1, limit2, m0, dep0 + 1, u1, w.1, q2, u2)
                            && T2::sp_accepts(d0, q2, limit2, m0, dep0 + 1, u2, w.2, q3, u3)
                            && T3::sp_accepts(d0, q3, limit2, m0, dep0 + 1, u3, w.3, q4, u4)
                            && T4::sp_accepts(d0, q4, limit2, m0, dep0 + 1, u4, w.4, q5, u5)
                            && rstep_matches(sp_close(d0, q5, limit2, u5, length, Ok::<Self, ASN1Error>(w)), Ok::<Self, ASN1Error>(w), e2, s2);
                                T0::lemma_outcomes_unique(d0, e0, limit2, m0, dep0 + 1, sth, w.0, wq1, wu1, t0, g1.posi(), g1.tag_statev(), ASN1Error::Invalid, 0, TagState::Fresh, ASN1Error::Invalid, 0, TagState::Fresh);
                                T1::lemma_outcomes_unique(d0, wq1, limit2, m0, dep0 + 1, wu1, w.1, wq2, wu2, w.1, wq2, wu2, ferr, bad_pos, bad_st, ferr, bad_pos, bad_st);
                                assert(false);
                            },
                            HeadStep::HeadFail { kind, end: ee, st: sx } => {},
                        }
                    }
                }
                    }
                }
                return rr;
            },
        };
        let ghost g2 = *reader;
        let t2 = match T2::decode_ber(reader) {
            Ok(v) => v,
            Err(e) => {
                let ghost ferr = e;
                let ghost bad_pos = reader.posi();
                let ghost bad_st = reader.tag_statev();
                let inner: ASN1Result<Self> = Err(e);
                let rr = reader.close_frame(frame, inner);
                proof {
                    if Self::sp_refusals_exact(m0) {
                assert forall|w: Self, e2: int, s2: TagState| !Self::sp_accepts(
                    d0, pos0, lim0, m0, dep0, st00, w, e2, s2,
                ) by {
                    if Self::sp_accepts(d0, pos0, lim0, m0, dep0, st00, w, e2, s2) {
                        match sp_header(d0, pos0, lim0, m0, dep0, st00, spec_univ_tag(16), TagType::Explicit) {
                            HeadStep::HeadOk { pc, length, end: e0, limit2, st: sth } => {
                                let (wq1, wu1, wq2, wu2, wq3, wu3, wq4, wu4, wq5, wu5) = choose|q1: int, u1: TagState, q2: int, u2: TagState, q3: int, u3: TagState, q4: int, u4: TagState, q5: int, u5: TagState|
                                    #![trigger T0::sp_accepts(d0, e0, limit2, m0, dep0 + 1, sth, w.0, q1, u1), T1::sp_accepts(d0, q1, limit2, m0, dep0 + 1, u1, w.1, q2, u2), T2::sp_accepts(d0, q2, limit2, m0, dep0 + 1, u2, w.2, q3, u3), T3::sp_accepts(d0, q3, limit2, m0, dep0 + 1, u3, w.3, q4, u4), T4::sp_accepts(d0, q4, limit2, m0, dep0 + 1, u4, w.4, q5, u5)]
                                                            T0::sp_accepts(d0, e0, limit2, m0, dep0 + 1, sth, w.0, q1, u1)
                            && T1::sp_accepts(d0, q1, limit2, m0, dep0 + 1, u1, w.1, q2, u2)
                            && T2::sp_accepts(d0, q2, limit2, m0, dep0 + 1, u2, w.2, q3, u3)
                            && T3::sp_accepts(d0, q3, limit2, m0, dep0 + 1, u3, w.3, q4, u4)
                            && T4::sp_accepts(d0, q4, limit2, m0, dep0 + 1, u4, w.4, q5, u5)
                            && rstep_matches(sp_close(d0, q5, limit2, u5, length, Ok::<Self, ASN1Error>(w)), Ok::<Self, ASN1Error>(w), e2, s2);
                                T0::lemma_outcomes_unique(d0, e0, limit2, m0, dep0 + 1, sth, w.0, wq1, wu1, t0, g1.posi(), g1.tag_statev(), ASN1Error::Invalid, 0, TagState::Fresh, ASN1Error::Invalid, 0, TagState::Fresh);
                                T1::lemma_outcomes_unique(d0, wq1, limit2, m0, dep0 + 1, wu1, w.1, wq2, wu2, t1, g2.posi(), g2.tag_statev(), ASN1Error::Invalid, 0, TagState::Fresh, ASN1Error::Invalid, 0, TagState::Fresh);
                                T2::lemma_outcomes_unique(d0, wq2, limit2, m0, dep0 + 1, wu2, w.2, wq3, wu3, w.2, wq3, wu3, ferr, bad_pos, bad_st, ferr, bad_pos, bad_st);
                                assert(false);
                            },
                            HeadStep::HeadFail { kind, end: ee, st: sx } => {},
                        }
                    }
                }
                    }
                }
                return rr;
            },
        };
        let ghost g3 = *reader;
        let t3 = match T3::decode_ber(reader) {
            Ok(v) => v,
            Err(e) => {
                let ghost ferr = e;
                let ghost bad_pos = reader.posi();
                let ghost bad_st = reader.tag_statev();
                let inner: ASN1Result<Self> = Err(e);
                let rr = reader.close_frame(frame, inner);
                proof {
                    if Self::sp_refusals_exact(m0) {
                assert forall|w: Self, e2: int, s2: TagState| !Self::sp_accepts(
                    d0, pos0, lim0, m0, dep0, st00, w, e2, s2,
                ) by {
                    if Self::sp_accepts(d0, pos0, lim0, m0, dep0, st00, w, e2, s2) {
                        match sp_header(d0, pos0, lim0, m0, dep0, st00, spec_univ_tag(16), TagType::Explicit) {
                            HeadStep::HeadOk { pc, length, end: e0, limit2, st: sth } => {
                                let (wq1, wu1, wq2, wu2, wq3, wu3, wq4, wu4, wq5, wu5) = choose|q1: int, u1: TagState, q2: int, u2: TagState, q3: int, u3: TagState, q4: int, u4: TagState, q5: int, u5: TagState|
                                    #![trigger T0::sp_accepts(d0, e0, limit2, m0, dep0 + 1, sth, w.0, q1, u1), T1::sp_accepts(d0, q1, limit2, m0, dep0 + 1, u1, w.1, q2, u2), T2::sp_accepts(d0, q2, limit2, m0, dep0 + 1, u2, w.2, q3, u3), T3::sp_accepts(d0, q3, limit2, m0, dep0 + 1, u3, w.3, q4, u4), T4::sp_accepts(d0, q4, limit2, m0, dep0 + 1, u4, w.4, q5, u5)]
                                                            T0::sp_accepts(d0, e0, limit2, m0, dep0 + 1, sth, w.0, q1, u1)
                            && T1::sp_accepts(d0, q1, limit2, m0, dep0 + 1, u1, w.1, q2, u2)
                            && T2::sp_accepts(d0, q2, limit2, m0, dep0 + 1, u2, w.2, q3, u3)
                            && T3::sp_accepts(d0, q3, limit2, m0, dep0 + 1, u3, w.3, q4, u4)
                            && T4::sp_accepts(d0, q4, limit2, m0, dep0 + 1, u4, w.4, q5, u5)
                            && rstep_matches(sp_close(d0, q5, limit2, u5, length, Ok::<Self, ASN1Error>(w)), Ok::<Self, ASN1Error>(w), e2, s2);
                                T0::lemma_outcomes_unique(d0, e0, limit2, m0, dep0 + 1, sth, w.0, wq1, wu1, t0, g1.posi(), g1.tag_statev(), ASN1Error::Invalid, 0, TagState::Fresh, ASN1Error::Invalid, 0, TagState::Fresh);
                                T1::lemma_outcomes_unique(d0, wq1, limit2, m0, dep0 + 1, wu1, w.1, wq2, wu2, t1, g2.posi(), g2.tag_statev(), ASN1Error::Invalid, 0, TagState::Fresh, ASN1Error::Invalid, 0, TagState::Fresh);
                                T2::lemma_outcomes_unique(d0, wq2, limit2, m0, dep0 + 1, wu2, w.2, wq3, wu3, t2, g3.posi(), g3.tag_statev(), ASN1Error::Invalid, 0, TagState::Fresh, ASN1Error::Invalid, 0, TagState::Fresh);
                                T3::lemma_outcomes_unique(d0, wq3, limit2, m0, dep0 + 1, wu3, w.3, wq4, wu4, w.3, wq4, wu4, ferr, bad_pos, bad_st, ferr, bad_pos, bad_st);
                                assert(false);
                            },
                            HeadStep::HeadFail { kind, end: ee, st: sx } => {},
                        }
                    }
                }
                    }
                }
                return rr;
            },
        };
        let ghost g4 = *reader;
        let t4 = match T4::decode_ber(reader) {
            Ok(v) => v,
            Err(e) => {
                let ghost ferr = e;
                let ghost bad_pos = reader.posi();
                let ghost bad_st = reader.tag_statev();
                let inner: ASN1Result<Self> = Err(e);
                let rr = reader.close_frame(frame, inner);
                proof {
                    if Self::sp_refusals_exact(m0) {
                assert forall|w: Self, e2: int, s2: TagState| !Self::sp_accepts(
                    d0, pos0, lim0, m0, dep0, st00, w, e2, s2,
                ) by {
                    if Self::sp_accepts(d0, pos0, lim0, m0, dep0, st00, w, e2, s2) {
                        match sp_header(d0, pos0, lim0, m0, dep0, st00, spec_univ_tag(16), TagType::Explicit) {
                            HeadStep::HeadOk { pc, length, end: e0, limit2, st: sth } => {
                                let (wq1, wu1, wq2, wu2, wq3, wu3, wq4, wu4, wq5, wu5) = choose|q1: int, u1: TagState, q2: int, u2: TagState, q3: int, u3: TagState, q4: int, u4: TagState, q5: int, u5: TagState|
                                    #![trigger T0::sp_accepts(d0, e0, limit2, m0, dep0 + 1, sth, w.0, q1, u1), T1::sp_accepts(d0, q1, limit2, m0, dep0 + 1, u1, w.1, q2, u2), T2::sp_accepts(d0, q2, limit2, m0, dep0 + 1, u2, w.2, q3, u3), T3::sp_accepts(d0, q3, limit2, m0, dep0 + 1, u3, w.3, q4, u4), T4::sp_accepts(d0, q4, limit2, m0, dep0 + 1, u4, w.4, q5, u5)]
                                                            T0::sp_accepts(d0, e0, limit2, m0, dep0 + 1, sth, w.0, q1, u1)
                            && T1::sp_accepts(d0, q1, limit2, m0, dep0 + 1, u1, w.1, q2, u2)
                            && T2::sp_accepts(d0, q2, limit2, m0, dep0 + 1, u2, w.2, q3, u3)
                            && T3::sp_accepts(d0, q3, limit2, m0, dep0 + 1, u3, w.3, q4, u4)
                            && T4::sp_accepts(d0, q4, limit2, m0, dep0 + 1, u4, w.4, q5, u5)
                            && rstep_matches(sp_close(d0, q5, limit2, u5, length, Ok::<Self, ASN1Error>(w)), Ok::<Self, ASN1Error>(w), e2, s2);
                                T0::lemma_outcomes_unique(d0, e0, limit2, m0, dep0 + 1, sth, w.0, wq1, wu1, t0, g1.posi(), g1.tag_statev(), ASN1Error::Invalid, 0, TagState::Fresh, ASN1Error::Invalid, 0, TagState::Fresh);
                                T1::lemma_outcomes_unique(d0, wq1, limit2, m0, dep0 + 1, wu1, w.1, wq2, wu2, t1, g2.posi(), g2.tag_statev(), ASN1Error::Invalid, 0, TagState::Fresh, ASN1Error::Invalid, 0, TagState::Fresh);
                                T2::lemma_outcomes_unique(d0, wq2, limit2, m0, dep0 + 1, wu2, w.2, wq3, wu3, t2, g3.posi(), g3.tag_statev(), ASN1Error::Invalid, 0, TagState::Fresh, ASN1Error::Invalid, 0, TagState::Fresh);
                                T3::lemma_outcomes_unique(d0, wq3, limit2, m0, dep0 + 1, wu3, w.3, wq4, wu4, t3, g4.posi(), g4.tag_statev(), ASN1Error::Invalid, 0, TagState::Fresh, ASN1Error::Invalid, 0, TagState::Fresh);
                                T4::lemma_outcomes_unique(d0, wq4, limit2, m0, dep0 + 1, wu4, w.4, wq5, wu5, w.4, wq5, wu5, ferr, bad_pos, bad_st, ferr, bad_pos, bad_st);
                                assert(false);
                            },
                            HeadStep::HeadFail { kind, end: ee, st: sx } => {},
                        }
                    }
                }
                    }
                }
                return rr;
            },
        };
        let ghost g5 = *reader;
        let result = (t0, t1, t2, t3, t4);
        let ghost gv = result;
        let ghost before_close = *reader;
        let rr = reader.close_frame(frame, Ok(result));
        proof {
            if rr is Ok {
                assert(T0::sp_accepts(g0.data(), g0.posi(), g0.limiti(), g0.modev(), g0.depthv(), g0.tag_statev(), gv.0, g1.posi(), g1.tag_statev()));
                assert(T1::sp_accepts(g0.data(), g1.posi(), g0.limiti(), g0.modev(), g0.depthv(), g1.tag_statev(), gv.1, g2.posi(), g2.tag_statev()));
                assert(T2::sp_accepts(g0.data(), g2.posi(), g0.limiti(), g0.modev(), g0.depthv(), g2.tag_statev(), gv.2, g3.posi(), g3.tag_statev()));
                assert(T3::sp_accepts(g0.data(), g3.posi(), g0.limiti(), g0.modev(), g0.depthv(), g3.tag_statev(), gv.3, g4.posi(), g4.tag_statev()));
                assert(T4::sp_accepts(g0.data(), g4.posi(), g0.limiti(), g0.modev(), g0.depthv(), g4.tag_statev(), gv.4, g5.posi(), g5.tag_statev()));
            }
            if rr is Err && Self::sp_refusals_exact(m0) {
                assert forall|w: Self, e2: int, s2: TagState| !Self::sp_accepts(
                    d0, pos0, lim0, m0, dep0, st00, w, e2, s2,
                ) by {
                    if Self::sp_accepts(d0, pos0, lim0, m0, dep0, st00, w, e2, s2) {
                        match sp_header(d0, pos0, lim0, m0, dep0, st00, spec_univ_tag(16), TagType::Explicit) {
                            HeadStep::HeadOk { pc, length, end: e0, limit2, st: sth } => {
                                let (wq1, wu1, wq2, wu2, wq3, wu3, wq4, wu4, wq5, wu5) = choose|q1: int, u1: TagState, q2: int, u2: TagState, q3: int, u3: TagState, q4: int, u4: TagState, q5: int, u5: TagState|
                                    #![trigger T0::sp_accepts(d0, e0, limit2, m0, dep0 + 1, sth, w.0, q1, u1), T1::sp_accepts(d0, q1, limit2, m0, dep0 + 1, u1, w.1, q2, u2), T2::sp_accepts(d0, q2, limit2, m0, dep0 + 1, u2, w.2, q3, u3), T3::sp_accepts(d0, q3, limit2, m0, dep0 + 1, u3, w.3, q4, u4), T4::sp_accepts(d0, q4, limit2, m0, dep0 + 1, u4, w.4, q5, u5)]
                                                            T0::sp_accepts(d0, e0, limit2, m0, dep0 + 1, sth, w.0, q1, u1)
                            && T1::sp_accepts(d0, q1, limit2, m0, dep0 + 1, u1, w.1, q2, u2)
                            && T2::sp_accepts(d0, q2, limit2, m0, dep0 + 1, u2, w.2, q3, u3)
                            && T3::sp_accepts(d0, q3, limit2, m0, dep0 + 1, u3, w.3, q4, u4)
                            && T4::sp_accepts(d0, q4, limit2, m0, dep0 + 1, u4, w.4, q5, u5)
                            && rstep_matches(sp_close(d0, q5, limit2, u5, length, Ok::<Self, ASN1Error>(w)), Ok::<Self, ASN1Error>(w), e2, s2);
                                T0::lemma_outcomes_unique(d0, e0, limit2, m0, dep0 + 1, sth, w.0, wq1, wu1, t0, g1.posi(), g1.tag_statev(), ASN1Error::Invalid, 0, TagState::Fresh, ASN1Error::Invalid, 0, TagState::Fresh);
                                T1::lemma_outcomes_unique(d0, wq1, limit2, m0, dep0 + 1, wu1, w.1, wq2, wu2, t1, g2.posi(), g2.tag_statev(), ASN1Error::Invalid, 0, TagState::Fresh, ASN1Error::Invalid, 0, TagState::Fresh);
                                T2::lemma_outcomes_unique(d0, wq2, limit2, m0, dep0 + 1, wu2, w.2, wq3, wu3, t2, g3.posi(), g3.tag_statev(), ASN1Error::Invalid, 0, TagState::Fresh, ASN1Error::Invalid, 0, TagState::Fresh);
                                T3::lemma_outcomes_unique(d0, wq3, limit2, m0, dep0 + 1, wu3, w.3, wq4, wu4, t3, g4.posi(), g4.tag_statev(), ASN1Error::Invalid, 0, TagState::Fresh, ASN1Error::Invalid, 0, TagState::Fresh);
                                T4::lemma_outcomes_unique(d0, wq4, limit2, m0, dep0 + 1, wu4, w.4, wq5, wu5, t4, g5.posi(), g5.tag_statev(), ASN1Error::Invalid, 0, TagState::Fresh, ASN1Error::Invalid, 0, TagState::Fresh);
                            },
                            HeadStep::HeadFail { kind, end: ee, st: sx } => {},
                        }
                    }
                }
            }
        }
        rr
    }
}

impl<T0: BERDecodable, T1: BERDecodable, T2: BERDecodable, T3: BERDecodable, T4: BERDecodable, T5: BERDecodable> BERDecodable for (T0, T1, T2, T3, T4, T5) {
    open spec fn sp_accepts(
        data: Seq<u8>,
        pos: int,
        limit: int,
        mode: BERMode,
        depth: int,
        st0: TagState,
        v: Self,
        end: int,
        st: TagState,
    ) -> bool {
        match sp_header(data, pos, limit, mode, depth, st0, spec_univ_tag(16), TagType::Explicit) {
            HeadStep::HeadFail { kind, end: e, st: s } => false,
            HeadStep::HeadOk { pc, length, end: e0, limit2, st: sth } => pc
                == PCBit::Constructed && (exists|p1: int, s1: TagState, p2: int, s2: TagState, p3: int, s3: TagState, p4: int, s4: TagState, p5: int, s5: TagState, p6: int, s6: TagState|
                #![trigger T0::sp_accepts(data, e0, limit2, mode, depth + 1, sth, v.0, p1, s1), T1::sp_accepts(data, p1, limit2, mode, depth + 1, s1, v.1, p2, s2), T2::sp_accepts(data, p2, limit2, mode, depth + 1, s2, v.2, p3, s3), T3::sp_accepts(data, p3, limit2, mode, depth + 1, s3, v.3, p4, s4), T4::sp_accepts(data, p4, limit2, mode, depth + 1, s4, v.4, p5, s5), T5::sp_accepts(data, p5, limit2, mode, depth + 1, s5, v.5, p6, s6)]
                {
                    &&& T0::sp_accepts(data, e0, limit2, mode, depth + 1, sth, v.0, p1, s1)
                    &&& T1::sp_accepts(data, p1, limit2, mode, depth + 1, s1, v.1, p2, s2)
                    &&& T2::sp_accepts(data, p2, limit2, mode, depth + 1, s2, v.2, p3, s3)
                    &&& T3::sp_accepts(data, p3, limit2, mode, depth + 1, s3, v.3, p4, s4)
                    &&& T4::sp_accepts(data, p4, limit2, mode, depth + 1, s4, v.4, p5, s5)
                    &&& T5::sp_accepts(data, p5, limit2, mode, depth + 1, s5, v.5, p6, s6)
                    &&& rstep_matches(
                        sp_close(data, p6, limit2, s6, length, Ok::<Self, ASN1Error>(v)),
                        Ok::<Self, ASN1Error>(v),
                        end,
                        st,
                    )
                }),
        }
    }

    open spec fn sp_refusals_exact(mode: BERMode) -> bool {
        mode == BERMode::Der && T0::sp_refusals_exact(BERMode::Der) && T1::sp_refusals_exact(BERMode::Der) && T2::sp_refusals_exact(BERMode::Der) && T3::sp_refusals_exact(BERMode::Der) && T4::sp_refusals_exact(BERMode::Der) && T5::sp_refusals_exact(BERMode::Der)
    }

    open spec fn sp_refuses(
        data: Seq<u8>,
        pos: int,
        limit: int,
        mode: BERMode,
        depth: int,
        st0: TagState,
        kind: ASN1Error,
        end: int,
        st: TagState,
    ) -> bool {
        !(exists|w: Self, e2: int, s2: TagState|
            Self::sp_accepts(data, pos, limit, mode, depth, st0, w, e2, s2))
    }

    proof fn lemma_outcomes_unique(
        data: Seq<u8>,
        pos: int,
        limit: int,
        mode: BERMode,
        depth: int,
        st0: TagState,
        v1: Self,
        e1: int,
        s1: TagState,
        v2: Self,
        e2: int,
        s2: TagState,
        k3: ASN1Error,
        e3: int,
        s3: TagState,
        k4: ASN1Error,
        e4: int,
        s4: TagState,
    ) {
        if Self::sp_accepts(data, pos, limit, mode, depth, st0, v1, e1, s1) && Self::sp_accepts(
            data,
            pos,
            limit,
            mode,
            depth,
            st0,
            v2,
            e2,
            s2,
        ) {
            match sp_header(data, pos, limit, mode, depth, st0, spec_univ_tag(16), TagType::Explicit) {
                HeadStep::HeadOk { pc, length, end: e0, limit2, st: sth } => {
                    let (aq1, au1, aq2, au2, aq3, au3, aq4, au4, aq5, au5, aq6, au6) = choose|q1: int, u1: TagState, q2: int, u2: TagState, q3: int, u3: TagState, q4: int, u4: TagState, q5: int, u5: TagState, q6: int, u6: TagState|
                        #![trigger T0::sp_accepts(data, e0, limit2, mode, depth + 1, sth, v1.0, q1, u1), T1::sp_accepts(data, q1, limit2, mode, depth + 1, u1, v1.1, q2, u2), T2::sp_accepts(data, q2, limit2, mode, depth + 1, u2, v1.2, q3, u3), T3::sp_accepts(data, q3, limit2, mode, depth + 1, u3, v1.3, q4, u4), T4::sp_accepts(data, q4, limit2, mode, depth + 1, u4, v1.4, q5, u5), T5::sp_accepts(data, q5, limit2, mode, depth + 1, u5, v1.5, q6, u6)]
                                            T0::sp_accepts(data, e0, limit2, mode, depth + 1, sth, v1.0, q1, u1)
                        && T1::sp_accepts(data, q1, limit2, mode, depth + 1, u1, v1.1, q2, u2)
                        && T2::sp_accepts(data, q2, limit2, mode, depth + 1, u2, v1.2, q3, u3)
                        && T3::sp_accepts(data, q3, limit2, mode, depth + 1, u3, v1.3, q4, u4)
                        && T4::sp_accepts(data, q4, limit2, mode, depth + 1, u4, v1.4, q5, u5)
                        && T5::sp_accepts(data, q5, limit2, mode, depth + 1, u5, v1.5, q6, u6)
                        && rstep_matches(sp_close(data, q6, limit2, u6, length, Ok::<Self, ASN1Error>(v1)), Ok::<Self, ASN1Error>(v1), e1, s1);
                    let (bq1, bu1, bq2, bu2, bq3, bu3, bq4, bu4, bq5, bu5, bq6, bu6) = choose|q1: int, u1: TagState, q2: int, u2: TagState, q3: int, u3: TagState, q4: int, u4: TagState, q5: int, u5: TagState, q6: int, u6: TagState|
                        #![trigger T0::sp_accepts(data, e0, limit2, mode, depth + 1, sth, v2.0, q1, u1), T1::sp_accepts(data, q1, limit2, mode, depth + 1, u1, v2.1, q2, u2), T2::sp_accepts(data, q2, limit2, mode, depth + 1, u2, v2.2, q3, u3), T3::sp_accepts(data, q3, limit2, mode, depth + 1, u3, v2.3, q4, u4), T4::sp_accepts(data, q4, limit2, mode, depth + 1, u4, v2.4, q5, u5), T5::sp_accepts(data, q5, limit2, mode, depth + 1, u5, v2.5, q6, u6)]
                                            T0::sp_accepts(data, e0, limit2, mode, depth + 1, sth, v2.0, q1, u1)
                        && T1::sp_accepts(data, q1, limit2, mode, depth + 1, u1, v2.1, q2, u2)
                        && T2::sp_accepts(data, q2, limit2, mode, depth + 1, u2, v2.2, q3, u3)
                        && T3::sp_accepts(data, q3, limit2, mode, depth + 1, u3, v2.3, q4, u4)
                        && T4::sp_accepts(data, q4, limit2, mode, depth + 1, u4, v2.4, q5, u5)
                        && T5::sp_accepts(data, q5, limit2, mode, depth + 1, u5, v2.5, q6, u6)
                        && rstep_matches(sp_close(data, q6, limit2, u6, length, Ok::<Self, ASN1Error>(v2)), Ok::<Self, ASN1Error>(v2), e2, s2);
                    T0::lemma_outcomes_unique(data, e0, limit2, mode, depth + 1, sth, v1.0, aq1, au1, v2.0, bq1, bu1, ASN1Error::Invalid, 0, TagState::Fresh, ASN1Error::Invalid, 0, TagState::Fresh);
                    T1::lemma_outcomes_unique(data, aq1, limit2, mode, depth + 1, au1, v1.1, aq2, au2, v2.1, bq2, bu2, ASN1Error::Invalid, 0, TagState::Fresh, ASN1Error::Invalid, 0, TagState::Fresh);
                    T2::lemma_outcomes_unique(data, aq2, limit2, mode, depth + 1, au2, v1.2, aq3, au3, v2.2, bq3, bu3, ASN1Error::Invalid, 0, TagState::Fresh, ASN1Error::Invalid, 0, TagState::Fresh);
                    T3::lemma_outcomes_unique(data, aq3, limit2, mode, depth + 1, au3, v1.3, aq4, au4, v2.3, bq4, bu4, ASN1Error::Invalid, 0, TagState::Fresh, ASN1Error::Invalid, 0, TagState::Fresh);
                    T4::lemma_outcomes_unique(data, aq4, limit2, mode, depth + 1, au4, v1.4, aq5, au5, v2.4, bq5, bu5, ASN1Error::Invalid, 0, TagState::Fresh, ASN1Error::Invalid, 0, TagState::Fresh);
                    T5::lemma_outcomes_unique(data, aq5, limit2, mode, depth + 1, au5, v1.5, aq6, au6, v2.5, bq6, bu6, ASN1Error::Invalid, 0, TagState::Fresh, ASN1Error::Invalid, 0, TagState::Fresh);
                },
                HeadStep::HeadFail { kind, end: ee, st: sx } => {},
            }
        }
    }

    fn decode_ber(reader: &mut BERReader) -> (r: ASN1Result<Self>) {
        let ghost d0 = old(reader).data();
        let ghost pos0 = old(reader).posi();
        let ghost lim0 = old(reader).limiti();
        let ghost m0 = old(reader).modev();
        let ghost dep0 = old(reader).depthv();
        let ghost st00 = old(reader).tag_statev();
        let frame = match reader.parse_header(
            Tag { tag_class: TagClass::Universal, tag_number: 16 },
            TagType::Explicit,
        ) {
            Ok(f) => f,
            Err(e) => {
                return Err(e);
            },
        };
        if frame.pc != PCBit::Constructed {
            let inner: ASN1Result<Self> = Err(ASN1Error::Invalid);
            return reader.close_frame(frame, inner);
        }
        let ghost g0 = *reader;
        let t0 = match T0::decode_ber(reader) {
            Ok(v) => v,
            Err(e) => {
                let ghost ferr = e;
                let ghost bad_pos = reader.posi();
                let ghost bad_st = reader.tag_statev();
                let inner: ASN1Result<Self> = Err(e);
                let rr = reader.close_frame(frame, inner);
                proof {
                    if Self::sp_refusals_exact(m0) {
                assert forall|w: Self, e2: int, s2: TagState| !Self::sp_accepts(
                    d0, pos0, lim0, m0, dep0, st00, w, e2, s2,
                ) by {
                    if Self::sp_accepts(d0, pos0, lim0, m0, dep0, st00, w, e2, s2) {
                        match sp_header(d0, pos0, lim0, m0, dep0, st00, spec_univ_tag(16), TagType::Explicit) {
                            HeadStep::HeadOk { pc, length, end: e0, limit2, st: sth } => {
                                let (wq1, wu1, wq2, wu2, wq3, wu3, wq4, wu4, wq5, wu5, wq6, wu6) = choose|q1: int, u1: TagState, q2: int, u2: TagState, q3: int, u3: TagState, q4: int, u4: TagState, q5: int, u5: TagState, q6: int, u6: TagState|
                                    #![trigger T0::sp_accepts(d0, e0, limit2, m0, dep0 + 1, sth, w.0, q1, u1), T1::sp_accepts(d0, q1, limit2, m0, dep0 + 1, u1, w.1, q2, u2), T2::sp_accepts(d0, q2, limit2, m0, dep0 + 1, u2, w.2, q3, u3), T3::sp_accepts(d0, q3, limit2, m0, dep0 + 1, u3, w.3, q4, u4), T4::sp_accepts(d0, q4, limit2, m0, dep0 + 1, u4, w.4, q5, u5), T5::sp_accepts(d0, q5, limit2, m0, dep0 + 1, u5, w.5, q6, u6)]
                                                            T0::sp_accepts(d0, e0, limit2, m0, dep0 + 1, sth, w.0, q1, u1)
                            && T1::sp_accepts(d0, q1, limit2, m0, dep0 + 1, u1, w.1, q2, u2)
                            && T2::sp_accepts(d0, q2, limit2, m0, dep0 + 1, u2, w.2, q3, u3)
                            && T3::sp_accepts(d0, q3, limit2, m0, dep0 + 1, u3, w.3, q4, u4)
                            && T4::sp_accepts(d0, q4, limit2, m0, dep0 + 1, u4, w.4, q5, u5)
                            && T5::sp_accepts(d0, q5, limit2, m0, dep0 + 1, u5, w.5, q6, u6)
                            && rstep_matches(sp_close(d0, q6, limit2, u6, length, Ok::<Self, ASN1Error>(w)), Ok::<Self, ASN1Error>(w), e2, s2);
                                T0::lemma_outcomes_unique(d0, e0, limit2, m0, dep0 + 1, sth, w.0, wq1, wu1, w.0, wq1, wu1, ferr, bad_pos, bad_st, ferr, bad_pos, bad_st);
                                assert(false);
                            },
                            HeadStep::HeadFail { kind, end: ee, st: sx } => {},
                        }
                    }
                }
                    }
                }
                return rr;
            },
        };
        let ghost g1 = *reader;
        let t1 = match T1::decode_ber(reader) {
            Ok(v) => v,
            Err(e) => {
                let ghost ferr = e;
                let ghost bad_pos = reader.posi();
                let ghost bad_st = reader.tag_statev();
                let inner: ASN1Result<Self> = Err(e);
                let rr = reader.close_frame(frame, inner);
                proof {
                    if Self::sp_refusals_exact(m0) {
                assert forall|w: Self, e2: int, s2: TagState| !Self::sp_accepts(
                    d0, pos0, lim0, m0, dep0, st00, w, e2, s2,
                ) by {
                    if Self::sp_accepts(d0, pos0, lim0, m0, dep0, st00, w, e2, s2) {
                        match sp_header(d0, pos0, lim0, m0, dep0, st00, spec_univ_tag(16), TagType::Explicit) {
                            HeadStep::HeadOk { pc, length, end: e0, limit2, st: sth } => {
                                let (wq1, wu1, wq2, wu2, wq3, wu3, wq4, wu4, wq5, wu5, wq6, wu6) = choose|q1: int, u1: TagState, q2: int, u2: TagState, q3: int, u3: TagState, q4: int, u4: TagState, q5: int, u5: TagState, q6: int, u6: TagState|
                                    #![trigger T0::sp_accepts(d0, e0, limit2, m0, dep0 + 1, sth, w.0, q1, u1), T1::sp_accepts(d0, q1, limit2, m0, dep0 + 1, u1, w.1, q2, u2), T2::sp_accepts(d0, q2, limit2, m0, dep0 + 1, u2, w.2, q3, u3), T3::sp_accepts(d0, q3, limit2, m0, dep0 + 1, u3, w.3, q4, u4), T4::sp_accepts(d0, q4, limit2, m0, dep0 + 1, u4, w.4, q5, u5), T5::sp_accepts(d0, q5, limit2, m0, dep0 + 1, u5, w.5, q6, u6)]
                                                            T0::sp_accepts(d0, e0, limit2, m0, dep0 + 1, sth, w.0, q1, u1)
                            && T1::sp_accepts(d0, q1, limit2, m0, dep0 + 1, u1, w.1, q2, u2)
                            && T2::sp_accepts(d0, q2, limit2, m0, dep0 + 1, u2, w.2, q3, u3)
                            && T3::sp_accepts(d0, q3, limit2, m0, dep0 + 1, u3, w.3, q4, u4)
                            && T4::sp_accepts(d0, q4, limit2, m0, dep0 + 1, u4, w.4, q5, u5)
                            && T5::sp_accepts(d0, q5, limit2, m0, dep0 + 1, u5, w.5, q6, u6)
                            && rstep_matches(sp_close(d0, q6, limit2, u6, length, Ok::<Self, ASN1Error>(w)), Ok::<Self, ASN1Error>(w), e2, s2);
                                T0::lemma_outcomes_unique(d0, e0, limit2, m0, dep0 + 1, sth, w.0, wq1, wu1, t0, g1.posi(), g1.tag_statev(), ASN1Error::Invalid, 0, TagState::Fresh, ASN1Error::Invalid, 0, TagState::Fresh);
                                T1::lemma_outcomes_unique(d0, wq1, limit2, m0, dep0 + 1, wu1, w.1, wq2, wu2, w.1, wq2, wu2, ferr, bad_pos, bad_st, ferr, bad_pos, bad_st);
                                assert(false);
                            },
                            HeadStep::HeadFail { kind, end: ee, st: sx } => {},
                        }
                    }
                }
                    }
                }
                return rr;
            },
        };
        let ghost g2 = *reader;
        let t2 = match T2::decode_ber(reader) {
            Ok(v) => v,
            Err(e) => {
                let ghost ferr = e;
                let ghost bad_pos = reader.posi();
                let ghost bad_st = reader.tag_statev();
                let inner: ASN1Result<Self> = Err(e);
                let rr = reader.close_frame(frame, inner);
                proof {
                    if Self::sp_refusals_exact(m0) {
                assert forall|w: Self, e2: int, s2: TagState| !Self::sp_accepts(
                    d0, pos0, lim0, m0, dep0, st00, w, e2, s2,
                ) by {
                    if Self::sp_accepts(d0, pos0, lim0, m0, dep0, st00, w, e2, s2) {
                        match sp_header(d0, pos0, lim0, m0, dep0, st00, spec_univ_tag(16), TagType::Explicit) {
                            HeadStep::HeadOk { pc, length, end: e0, limit2, st: sth } => {
                                let (wq1, wu1, wq2, wu2, wq3, wu3, wq4, wu4, wq5, wu5, wq6, wu6) = choose|q1: int, u1: TagState, q2: int, u2: TagState, q3: int, u3: TagState, q4: int, u4: TagState, q5: int, u5: TagState, q6: int, u6: TagState|
                                    #![trigger T0::sp_accepts(d0, e0, limit2, m0, dep0 + 1, sth, w.0, q1, u1), T1::sp_accepts(d0, q1, limit2, m0, dep0 + 1, u1, w.1, q2, u2), T2::sp_accepts(d0, q2, limit2, m0, dep0 + 1, u2, w.2, q3, u3), T3::sp_accepts(d0, q3, limit2, m0, dep0 + 1, u3, w.3, q4, u4), T4::sp_accepts(d0, q4, limit2, m0, dep0 + 1, u4, w.4, q5, u5), T5::sp_accepts(d0, q5, limit2, m0, dep0 + 1, u5, w.5, q6, u6)]
                                                            T0::sp_accepts(d0, e0, limit2, m0, dep0 + 1, sth, w.0, q1, u1)
                            && T1::sp_accepts(d0, q1, limit2, m0, dep0 + 1, u1, w.1, q2, u2)
                            && T2::sp_accepts(d0, q2, limit2, m0, dep0 + 1, u2, w.2, q3, u3)
                            && T3::sp_accepts(d0, q3, limit2, m0, dep0 + 1, u3, w.3, q4, u4)
                            && T4::sp_accepts(d0, q4, limit2, m0, dep0 + 1, u4, w.4, q5, u5)
                            && T5::sp_accepts(d0, q5, limit2, m0, dep0 + 1, u5, w.5, q6, u6)
                            && rstep_matches(sp_close(d0, q6, limit2, u6, length, Ok::<Self, ASN1Error>(w)), Ok::<Self, ASN1Error>(w), e2, s2);
                                T0::lemma_outcomes_unique(d0, e0, limit2, m0, dep0 + 1, sth, w.0, wq1, wu1, t0, g1.posi(), g1.tag_statev(), ASN1Error::Invalid, 0, TagState::Fresh, ASN1Error::Invalid, 0, TagState::Fresh);
                                T1::lemma_outcomes_unique(d0, wq1, limit2, m0, dep0 + 1, wu1, w.1, wq2, wu2, t1, g2.posi(), g2.tag_statev(), ASN1Error::Invalid, 0, TagState::Fresh, ASN1Error::Invalid, 0, TagState::Fresh);
                                T2::lemma_outcomes_unique(d0, wq2, limit2, m0, dep0 + 1, wu2, w.2, wq3, wu3, w.2, wq3, wu3, ferr, bad_pos, bad_st, ferr, bad_pos, bad_st);
                                assert(false);
                            },
                            HeadStep::HeadFail { kind, end: ee, st: sx } => {},
                        }
                    }
                }
                    }
                }
                return rr;
            },
        };
        let ghost g3 = *reader;
        let t3 = match T3::decode_ber(reader) {
            Ok(v) => v,
            Err(e) => {
                let ghost ferr = e;
                let ghost bad_pos = reader.posi();
                let ghost bad_st = reader.tag_statev();
                let inner: ASN1Result<Self> = Err(e);
                let rr = reader.close_frame(frame, inner);
                proof {
                    if Self::sp_refusals_exact(m0) {
                assert forall|w: Self, e2: int, s2: TagState| !Self::sp_accepts(
                    d0, pos0, lim0, m0, dep0, st00, w, e2, s2,
                ) by {
                    if Self::sp_accepts(d0, pos0, lim0, m0, dep0, st00, w, e2, s2) {
                        match sp_header(d0, pos0, lim0, m0, dep0, st00, spec_univ_tag(16), TagType::Explicit) {
                            HeadStep::HeadOk { pc, length, end: e0, limit2, st: sth } => {
                                let (wq1, wu1, wq2, wu2, wq3, wu3, wq4, wu4, wq5, wu5, wq6, wu6) = choose|q1: int, u1: TagState, q2: int, u2: TagState, q3: int, u3: TagState, q4: int, u4: TagState, q5: int, u5: TagState, q6: int, u6: TagState|
                                    #![trigger T0::sp_accepts(d0, e0, limit2, m0, dep0 + 1, sth, w.0, q1, u1), T1::sp_accepts(d0, q1, limit2, m0, dep0 + 1, u1, w.1, q2, u2), T2::sp_accepts(d0, q2, limit2, m0, dep0 + 1, u2, w.2, q3, u3), T3::sp_accepts(d0, q3, limit2, m0, dep0 + 1, u3, w.3, q4, u4), T4::sp_accepts(d0, q4, limit2, m0, dep0 + 1, u4, w.4, q5, u5), T5::sp_accepts(d0, q5, limit2, m0, dep0 + 1, u5, w.5, q6, u6)]
                                                            T0::sp_accepts(d0, e0, limit2, m0, dep0 + 1, sth, w.0, q1, u1)
                            && T1::sp_accepts(d0, q1, limit2, m0, dep0 + 1, u1, w.1, q2, u2)
                            && T2::sp_accepts(d0, q2, limit2, m0, dep0 + 1, u2, w.2, q3, u3)
                            && T3::sp_accepts(d0, q3, limit2, m0, dep0 + 1, u3, w.3, q4, u4)
                            && T4::sp_accepts(d0, q4, limit2, m0, dep0 + 1, u4, w.4, q5, u5)
                            && T5::sp_accepts(d0, q5, limit2, m0, dep0 + 1, u5, w.5, q6, u6)
                            && rstep_matches(sp_close(d0, q6, limit2, u6, length, Ok::<Self, ASN1Error>(w)), Ok::<Self, ASN1Error>(w), e2, s2);
                                T0::lemma_outcomes_unique(d0, e0, limit2, m0, dep0 + 1, sth, w.0, wq1, wu1, t0, g1.posi(), g1.tag_statev(), ASN1Error::Invalid, 0, TagState::Fresh, ASN1Error::Invalid, 0, TagState::Fresh);
                                T1::lemma_outcomes_unique(d0, wq1, limit2, m0, dep0 + 1, wu1, w.1, wq2, wu2, t1, g2.posi(), g2.tag_statev(), ASN1Error::Invalid, 0, TagState::Fresh, ASN1Error::Invalid, 0, TagState::Fresh);
                                T2::lemma_outcomes_unique(d0, wq2, limit2, m0, dep0 + 1, wu2, w.2, wq3, wu3, t2, g3.posi(), g3.tag_statev(), ASN1Error::Invalid, 0, TagState::Fresh, ASN1Error::Invalid, 0, TagState::Fresh);
                                T3::lemma_outcomes_unique(d0, wq3, limit2, m0, dep0 + 1, wu3, w.3, wq4, wu4, w.3, wq4, wu4, ferr, bad_pos, bad_st, ferr, bad_pos, bad_st);
                                assert(false);
                            },
                            HeadStep::HeadFail { kind, end: ee, st: sx } => {},
                        }
                    }
                }
                    }
                }
                return rr;
            },
        };
        let ghost g4 = *reader;
        let t4 = match T4::decode_ber(reader) {
            Ok(v) => v,
            Err(e) => {
                let ghost ferr = e;
                let ghost bad_pos = reader.posi();
                let ghost bad_st = reader.tag_statev();
                let inner: ASN1Result<Self> = Err(e);
                let rr = reader.close_frame(frame, inner);
                proof {
                    if Self::sp_refusals_exact(m0) {
                assert forall|w: Self, e2: int, s2: TagState| !Self::sp_accepts(
                    d0, pos0, lim0, m0, dep0, st00, w, e2, s2,
                ) by {
                    if Self::sp_accepts(d0, pos0, lim0, m0, dep0, st00, w, e2, s2) {
                        match sp_header(d0, pos0, lim0, m0, dep0, st00, spec_univ_tag(16), TagType::Explicit) {
                            HeadStep::HeadOk { pc, length, end: e0, limit2, st: sth } => {
                                let (wq1, wu1, wq2, wu2, wq3, wu3, wq4, wu4, wq5, wu5, wq6, wu6) = choose|q1: int, u1: TagState, q2: int, u2: TagState, q3: int, u3: TagState, q4: int, u4: TagState, q5: int, u5: TagState, q6: int, u6: TagState|
                                    #![trigger T0::sp_accepts(d0, e0, limit2, m0, dep0 + 1, sth, w.0, q1, u1), T1::sp_accepts(d0, q1, limit2, m0, dep0 + 1, u1, w.1, q2, u2), T2::sp_accepts(d0, q2, limit2, m0, dep0 + 1, u2, w.2, q3, u3), T3::sp_accepts(d0, q3, limit2, m0, dep0 + 1, u3, w.3, q4, u4), T4::sp_accepts(d0, q4, limit2, m0, dep0 + 1, u4, w.4, q5, u5), T5::sp_accepts(d0, q5, limit2, m0, dep0 + 1, u5, w.5, q6, u6)]
                                                            T0::sp_accepts(d0, e0, limit2, m0, dep0 + 1, sth, w.0, q1, u1)
                            && T1::sp_accepts(d0, q1, limit2, m0, dep0 + 1, u1, w.1, q2, u2)
                            && T2::sp_accepts(d0, q2, limit2, m0, dep0 + 1, u2, w.2, q3, u3)
                            && T3::sp_accepts(d0, q3, limit2, m0, dep0 + 1, u3, w.3, q4, u4)
                            && T4::sp_accepts(d0, q4, limit2, m0, dep0 + 1, u4, w.4, q5, u5)
                            && T5::sp_accepts(d0, q5, limit2, m0, dep0 + 1, u5, w.5, q6, u6)
                            && rstep_matches(sp_close(d0, q6, limit2, u6, length, Ok::<Self, ASN1Error>(w)), Ok::<Self, ASN1Error>(w), e2, s2);
                                T0::lemma_outcomes_unique(d0, e0, limit2, m0, dep0 + 1, sth, w.0, wq1, wu1, t0, g1.posi(), g1.tag_statev(), ASN1Error::Invalid, 0, TagState::Fresh, ASN1Error::Invalid, 0, TagState::Fresh);
                                T1::lemma_outcomes_unique(d0, wq1, limit2, m0, dep0 + 1, wu1, w.1, wq2, wu2, t1, g2.posi(), g2.tag_statev(), ASN1Error::Invalid, 0, TagState::Fresh, ASN1Error::Invalid, 0, TagState::Fresh);
                                T2::lemma_outcomes_unique(d0, wq2, limit2, m0, dep0 + 1, wu2, w.2, wq3, wu3, t2, g3.posi(), g3.tag_statev(), ASN1Error::Invalid, 0, TagState::Fresh, ASN1Error::Invalid, 0, TagState::Fresh);
                                T3::lemma_outcomes_unique(d0, wq3, limit2, m0, dep0 + 1, wu3, w.3, wq4, wu4, t3, g4.posi(), g4.tag_statev(), ASN1Error::Invalid, 0, TagState::Fresh, ASN1Error::Invalid, 0, TagState::Fresh);
                                T4::lemma_outcomes_unique(d0, wq4, limit2, m0, dep0 + 1, wu4, w.4, wq5, wu5, w.4, wq5, wu5, ferr, bad_pos, bad_st, ferr, bad_pos, bad_st);
                                assert(false);
                            },
                            HeadStep::HeadFail { kind, end: ee, st: sx } => {},
                        }
                    }
                }
                    }
                }
                return rr;
            },
        };
        let ghost g5 = *reader;
        let t5 = match T5::decode_ber(reader) {
            Ok(v) => v,
            Err(e) => {
                let ghost ferr = e;
                let ghost bad_pos = reader.posi();
                let ghost bad_st = reader.tag_statev();
                let inner: ASN1Result<Self> = Err(e);
                let rr = reader.close_frame(frame, inner);
                proof {
                    if Self::sp_refusals_exact(m0) {
                assert forall|w: Self, e2: int, s2: TagState| !Self::sp_accepts(
                    d0, pos0, lim0, m0, dep0, st00, w, e2, s2,
                ) by {
                    if Self::sp_accepts(d0, pos0, lim0, m0, dep0, st00, w, e2, s2) {
                        match sp_header(d0, pos0, lim0, m0, dep0, st00, spec_univ_tag(16), TagType::Explicit) {
                            HeadStep::HeadOk { pc, length, end: e0, limit2, st: sth } => {
                                let (wq1, wu1, wq2, wu2, wq3, wu3, wq4, wu4, wq5, wu5, wq6, wu6) = choose|q1: int, u1: TagState, q2: int, u2: TagState, q3: int, u3: TagState, q4: int, u4: TagState, q5: int, u5: TagState, q6: int, u6: TagState|
                                    #![trigger T0::sp_accepts(d0, e0, limit2, m0, dep0 + 1, sth, w.0, q1, u1), T1::sp_accepts(d0, q1, limit2, m0, dep0 + 1, u1, w.1, q2, u2), T2::sp_accepts(d0, q2, limit2, m0, dep0 + 1, u2, w.2, q3, u3), T3::sp_accepts(d0, q3, limit2, m0, dep0 + 1, u3, w.3, q4, u4), T4::sp_accepts(d0, q4, limit2, m0, dep0 + 1, u4, w.4, q5, u5), T5::sp_accepts(d0, q5, limit2, m0, dep0 + 1, u5, w.5, q6, u6)]
                                                            T0::sp_accepts(d0, e0, limit2, m0, dep0 + 1, sth, w.0, q1, u1)
                            && T1::sp_accepts(d0, q1, limit2, m0, dep0 + 1, u1, w.1, q2, u2)
                            && T2::sp_accepts(d0, q2, limit2, m0, dep0 + 1, u2, w.2, q3, u3)
                            && T3::sp_accepts(d0, q3, limit2, m0, dep0 + 1, u3, w.3, q4, u4)
                            && T4::sp_accepts(d0, q4, limit2, m0, dep0 + 1, u4, w.4, q5, u5)
                            && T5::sp_accepts(d0, q5, limit2, m0, dep0 + 1, u5, w.5, q6, u6)
                            && rstep_matches(sp_close(d0, q6, limit2, u6, length, Ok::<Self, ASN1Error>(w)), Ok::<Self, ASN1Error>(w), e2, s2);
                                T0::lemma_outcomes_unique(d0, e0, limit2, m0, dep0 + 1, sth, w.0, wq1, wu1, t0, g1.posi(), g1.tag_statev(), ASN1Error::Invalid, 0, TagState::Fresh, ASN1Error::Invalid, 0, TagState::Fresh);
                                T1::lemma_outcomes_unique(d0, wq1, limit2, m0, dep0 + 1, wu1, w.1, wq2, wu2, t1, g2.posi(), g2.tag_statev(), ASN1Error::Invalid, 0, TagState::Fresh, ASN1Error::Invalid, 0, TagState::Fresh);
                                T2::lemma_outcomes_unique(d0, wq2, limit2, m0, dep0 + 1, wu2, w.2, wq3, wu3, t2, g3.posi(), g3.tag_statev(), ASN1Error::Invalid, 0, TagState::Fresh, ASN1Error::Invalid, 0, TagState::Fresh);
                                T3::lemma_outcomes_unique(d0, wq3, limit2, m0, dep0 + 1, wu3, w.3, wq4, wu4, t3, g4.posi(), g4.tag_statev(), ASN1Error::Invalid, 0, TagState::Fresh, ASN1Error::Invalid, 0, TagState::Fresh);
                                T4::lemma_outcomes_unique(d0, wq4, limit2, m0, dep0 + 1, wu4, w.4, wq5, wu5, t4, g5.posi(), g5.tag_statev(), ASN1Error::Invalid, 0, TagState::Fresh, ASN1Error::Invalid, 0, TagState::Fresh);
                                T5::lemma_outcomes_unique(d0, wq5, limit2, m0, dep0 + 1, wu5, w.5, wq6, wu6, w.5, wq6, wu6, ferr, bad_pos, bad_st, ferr, bad_pos, bad_st);
                                assert(false);
                            },
                            HeadStep::HeadFail { kind, end: ee, st: sx } => {},
                        }
                    }
                }
                    }
                }
                return rr;
            },
        };
        let ghost g6 = *reader;
        let result = (t0, t1, t2, t3, t4, t5);
        let ghost gv = result;
        let ghost before_close = *reader;
        let rr = reader.close_frame(frame, Ok(result));
        proof {
            if rr is Ok {
                assert(T0::sp_accepts(g0.data(), g0.posi(), g0.limiti(), g0.modev(), g0.depthv(), g0.tag_statev(), gv.0, g1.posi(), g1.tag_statev()));
                assert(T1::sp_accepts(g0.data(), g1.posi(), g0.limiti(), g0.modev(), g0.depthv(), g1.tag_statev(), gv.1, g2.posi(), g2.tag_statev()));
                assert(T2::sp_accepts(g0.data(), g2.posi(), g0.limiti(), g0.modev(), g0.depthv(), g2.tag_statev(), gv.2, g3.posi(), g3.tag_statev()));
                assert(T3::sp_accepts(g0.data(), g3.posi(), g0.limiti(), g0.modev(), g0.depthv(), g3.tag_statev(), gv.3, g4.posi(), g4.tag_statev()));
                assert(T4::sp_accepts(g0.data(), g4.posi(), g0.limiti(), g0.modev(), g0.depthv(), g4.tag_statev(), gv.4, g5.posi(), g5.tag_statev()));
                assert(T5::sp_accepts(g0.data(), g5.posi(), g0.limiti(), g0.modev(), g0.depthv(), g5.tag_statev(), gv.5, g6.posi(), g6.tag_statev()));
            }
            if rr is Err && Self::sp_refusals_exact(m0) {
                assert forall|w: Self, e2: int, s2: TagState| !Self::sp_accepts(
                    d0, pos0, lim0, m0, dep0, st00, w, e2, s2,
                ) by {
                    if Self::sp_accepts(d0, pos0, lim0, m0, dep0, st00, w, e2, s2) {
                        match sp_header(d0, pos0, lim0, m0, dep0, st00, spec_univ_tag(16), TagType::Explicit) {
                            HeadStep::HeadOk { pc, length, end: e0, limit2, st: sth } => {
                                let (wq1, wu1, wq2, wu2, wq3, wu3, wq4, wu4, wq5, wu5, wq6, wu6) = choose|q1: int, u1: TagState, q2: int, u2: TagState, q3: int, u3: TagState, q4: int, u4: TagState, q5: int, u5: TagState, q6: int, u6: TagState|
                                    #![trigger T0::sp_accepts(d0, e0, limit2, m0, dep0 + 1, sth, w.0, q1, u1), T1::sp_accepts(d0, q1, limit2, m0, dep0 + 1, u1, w.1, q2, u2), T2::sp_accepts(d0, q2, limit2, m0, dep0 + 1, u2, w.2, q3, u3), T3::sp_accepts(d0, q3, limit2, m0, dep0 + 1, u3, w.3, q4, u4), T4::sp_accepts(d0, q4, limit2, m0, dep0 + 1, u4, w.4, q5, u5), T5::sp_accepts(d0, q5, limit2, m0, dep0 + 1, u5, w.5, q6, u6)]
                                                            T0::sp_accepts(d0, e0, limit2, m0, dep0 + 1, sth, w.0, q1, u1)
                            && T1::sp_accepts(d0, q1, limit2, m0, dep0 + 1, u1, w.1, q2, u2)
                            && T2::sp_accepts(d0, q2, limit2, m0, dep0 + 1, u2, w.2, q3, u3)
                            && T3::sp_accepts(d0, q3, limit2, m0, dep0 + 1, u3, w.3, q4, u4)
                            && T4::sp_accepts(d0, q4, limit2, m0, dep0 + 1, u4, w.4, q5, u5)
                            && T5::sp_accepts(d0, q5, limit2, m0, dep0 + 1, u5, w.5, q6, u6)
                            && rstep_matches(sp_close(d0, q6, limit2, u6, length, Ok::<Self, ASN1Error>(w)), Ok::<Self, ASN1Error>(w), e2, s2);
                                T0::lemma_outcomes_unique(d0, e0, limit2, m0, dep0 + 1, sth, w.0, wq1, wu1, t0, g1.posi(), g1.tag_statev(), ASN1Error::Invalid, 0, TagState::Fresh, ASN1Error::Invalid, 0, TagState::Fresh);
                                T1::lemma_outcomes_unique(d0, wq1, limit2, m0, dep0 + 1, wu1, w.1, wq2, wu2, t1, g2.posi(), g2.tag_statev(), ASN1Error::Invalid, 0, TagState::Fresh, ASN1Error::Invalid, 0, TagState::Fresh);
                                T2::lemma_outcomes_unique(d0, wq2, limit2, m0, dep0 + 1, wu2, w.2, wq3, wu3, t2, g3.posi(), g3.tag_statev(), ASN1Error::Invalid, 0, TagState::Fresh, ASN1Error::Invalid, 0, TagState::Fresh);
                                T3::lemma_outcomes_unique(d0, wq3, limit2, m0, dep0 + 1, wu3, w.3, wq4, wu4, t3, g4.posi(), g4.tag_statev(), ASN1Error::Invalid, 0, TagState::Fresh, ASN1Error::Invalid, 0, TagState::Fresh);
                                T4::lemma_outcomes_unique(d0, wq4, limit2, m0, dep0 + 1, wu4, w.4, wq5, wu5, t4, g5.posi(), g5.tag_statev(), ASN1Error::Invalid, 0, TagState::Fresh, ASN1Error::Invalid, 0, TagState::Fresh);
                                T5::lemma_outcomes_unique(d0, wq5, limit2, m0, dep0 + 1, wu5, w.5, wq6, wu6, t5, g6.posi(), g6.tag_statev(), ASN1Error::Invalid, 0, TagState::Fresh, ASN1Error::Invalid, 0, TagState::Fresh);
                            },
                            HeadStep::HeadFail { kind, end: ee, st: sx } => {},
                        }
                    }
                }
            }
        }
        rr
    }
}

impl<T0: BERDecodable, T1: BERDecodable, T2: BERDecodable, T3: BERDecodable, T4: BERDecodable, T5: BERDecodable, T6: BERDecodable> BERDecodable for (T0, T1, T2, T3, T4, T5, T6) {
    open spec fn sp_accepts(
        data: Seq<u8>,
        pos: int,
        limit: int,
        mode: BERMode,
        depth: int,
        st0: TagState,
        v: Self,
        end: int,
        st: TagState,
    ) -> bool {
        match sp_header(data, pos, limit, mode, depth, st0, spec_univ_tag(16), TagType::Explicit) {
            HeadStep::HeadFail { kind, end: e, st: s } => false,
            HeadStep::HeadOk { pc, length, end: e0, limit2, st: sth } => pc
                == PCBit::Constructed && (exists|p1: int, s1: TagState, p2: int, s2: TagState, p3: int, s3: TagState, p4: int, s4: TagState, p5: int, s5: TagState, p6: int, s6: TagState, p7: int, s7: TagState|
                #![trigger T0::sp_accepts(data, e0, limit2, mode, depth + 1, sth, v.0, p1, s1), T1::sp_accepts(data, p1, limit2, mode, depth + 1, s1, v.1, p2, s2), T2::sp_accepts(data, p2, limit2, mode, depth + 1, s2, v.2, p3, s3), T3::sp_accepts(data, p3, limit2, mode, depth + 1, s3, v.3, p4, s4), T4::sp_accepts(data, p4, limit2, mode, depth + 1, s4, v.4, p5, s5), T5::sp_accepts(data, p5, limit2, mode, depth + 1, s5, v.5, p6, s6), T6::sp_accepts(data, p6, limit2, mode, depth + 1, s6, v.6, p7, s7)]
                {
                    &&& T0::sp_accepts(data, e0, limit2, mode, depth + 1, sth, v.0, p1, s1)
                    &&& T1::sp_accepts(data, p1, limit2, mode, depth + 1, s1, v.1, p2, s2)
                    &&& T2::sp_accepts(data, p2, limit2, mode, depth + 1, s2, v.2, p3, s3)
                    &&& T3::sp_accepts(data, p3, limit2, mode, depth + 1, s3, v.3, p4, s4)
                    &&& T4::sp_accepts(data, p4, limit2, mode, depth + 1, s4, v.4, p5, s5)
                    &&& T5::sp_accepts(data, p5, limit2, mode, depth + 1, s5, v.5, p6, s6)
                    &&& T6::sp_accepts(data, p6, limit2, mode, depth + 1, s6, v.6, p7, s7)
                    &&& rstep_matches(
                        sp_close(data, p7, limit2, s7, length, Ok::<Self, ASN1Error>(v)),
                        Ok::<Self, ASN1Error>(v),
                        end,
                        st,
                    )
                }),
        }
    }

    open spec fn sp_refusals_exact(mode: BERMode) -> bool {
        mode == BERMode::Der && T0::sp_refusals_exact(BERMode::Der) && T1::sp_refusals_exact(BERMode::Der) && T2::sp_refusals_exact(BERMode::Der) && T3::sp_refusals_exact(BERMode::Der) && T4::sp_refusals_exact(BERMode::Der) && T5::sp_refusals_exact(BERMode::Der) && T6::sp_refusals_exact(BERMode::Der)
    }

    open spec fn sp_refuses(
        data: Seq<u8>,
        pos: int,
        limit: int,
        mode: BERMode,
        depth: int,
        st0: TagState,
        kind: ASN1Error,
        end: int,
        st: TagState,
    ) -> bool {
        !(exists|w: Self, e2: int, s2: TagState|
            Self::sp_accepts(data, pos, limit, mode, depth, st0, w, e2, s2))
    }

    proof fn lemma_outcomes_unique(
        data: Seq<u8>,
        pos: int,
        limit: int,
        mode: BERMode,
        depth: int,
        st0: TagState,
        v1: Self,
        e1: int,
        s1: TagState,
        v2: Self,
        e2: int,
        s2: TagState,
        k3: ASN1Error,
        e3: int,
        s3: TagState,
        k4: ASN1Error,
        e4: int,
        s4: TagState,
    ) {
        if Self::sp_accepts(data, pos, limit, mode, depth, st0, v1, e1, s1) && Self::sp_accepts(
            data,
            pos,
            limit,
            mode,
            depth,
            st0,
            v2,
            e2,
            s2,
        ) {
            match sp_header(data, pos, limit, mode, depth, st0, spec_univ_tag(16), TagType::Explicit) {
                HeadStep::HeadOk { pc, length, end: e0, limit2, st: sth } => {
                    let (aq1, au1, aq2, au2, aq3, au3, aq4, au4, aq5, au5, aq6, au6, aq7, au7) = choose|q1: int, u1: TagState, q2: int, u2: TagState, q3: int, u3: TagState, q4: int, u4: TagState, q5: int, u5: TagState, q6: int, u6: TagState, q7: int, u7: TagState|
                        #![trigger T0::sp_accepts(data, e0, limit2, mode, depth + 1, sth, v1.0, q1, u1), T1::sp_accepts(data, q1, limit2, mode, depth + 1, u1, v1.1, q2, u2), T2::sp_accepts(data, q2, limit2, mode, depth + 1, u2, v1.2, q3, u3), T3::sp_accepts(data, q3, limit2, mode, depth + 1, u3, v1.3, q4, u4), T4::sp_accepts(data, q4, limit2, mode, depth + 1, u4, v1.4, q5, u5), T5::sp_accepts(data, q5, limit2, mode, depth + 1, u5, v1.5, q6, u6), T6::sp_accepts(data, q6, limit2, mode, depth + 1, u6, v1.6, q7, u7)]
                                            T0::sp_accepts(data, e0, limit2, mode, depth + 1, sth, v1.0, q1, u1)
                        && T1::sp_accepts(data, q1, limit2, mode, depth + 1, u1, v1.1, q2, u2)
                        && T2::sp_accepts(data, q2, limit2, mode, depth + 1, u2, v1.2, q3, u3)
                        && T3::sp_accepts(data, q3, limit2, mode, depth + 1, u3, v1.3, q4, u4)
                        && T4::sp_accepts(data, q4, limit2, mode, depth + 1, u4, v1.4, q5, u5)
                        && T5::sp_accepts(data, q5, limit2, mode, depth + 1, u5, v1.5, q6, u6)
                        && T6::sp_accepts(data, q6, limit2, mode, depth + 1, u6, v1.6, q7, u7)
                        && rstep_matches(sp_close(data, q7, limit2, u7, length, Ok::<Self, ASN1Error>(v1)), Ok::<Self, ASN1Error>(v1), e1, s1);
                    let (bq1, bu1, bq2, bu2, bq3, bu3, bq4, bu4, bq5, bu5, bq6, bu6, bq7, bu7) = choose|q1: int, u1: TagState, q2: int, u2: TagState, q3: int, u3: TagState, q4: int, u4: TagState, q5: int, u5: TagState, q6: int, u6: TagState, q7: int, u7: TagState|
                        #![trigger T0::sp_accepts(data, e0, limit2, mode, depth + 1, sth, v2.0, q1, u1), T1::sp_accepts(data, q1, limit2, mode, depth + 1, u1, v2.1, q2, u2), T2::sp_accepts(data, q2, limit2, mode, depth + 1, u2, v2.2, q3, u3), T3::sp_accepts(data, q3, limit2, mode, depth + 1, u3, v2.3, q4, u4), T4::sp_accepts(data, q4, limit2, mode, depth + 1, u4, v2.4, q5, u5), T5::sp_accepts(data, q5, limit2, mode, depth + 1, u5, v2.5, q6, u6), T6::sp_accepts(data, q6, limit2, mode, depth + 1, u6, v2.6, q7, u7)]
                                            T0::sp_accepts(data, e0, limit2, mode, depth + 1, sth, v2.0, q1, u1)
                        && T1::sp_accepts(data, q1, limit2, mode, depth + 1, u1, v2.1, q2, u2)
                        && T2::sp_accepts(data, q2, limit2, mode, depth + 1, u2, v2.2, q3, u3)
                        && T3::sp_accepts(data, q3, limit2, mode, depth + 1, u3, v2.3, q4, u4)
                        && T4::sp_accepts(data, q4, limit2, mode, depth + 1, u4, v2.4, q5, u5)
                        && T5::sp_accepts(data, q5, limit2, mode, depth + 1, u5, v2.5, q6, u6)
                        && T6::sp_accepts(data, q6, limit2, mode, depth + 1, u6, v2.6, q7, u7)
                        && rstep_matches(sp_close(data, q7, limit2, u7, length, Ok::<Self, ASN1Error>(v2)), Ok::<Self, ASN1Error>(v2), e2, s2);
                    T0::lemma_outcomes_unique(data, e0, limit2, mode, depth + 1, sth, v1.0, aq1, au1, v2.0, bq1, bu1, ASN1Error::Invalid, 0, TagState::Fresh, ASN1Error::Invalid, 0, TagState::Fresh);
                    T1::lemma_outcomes_unique(data, aq1, limit2, mode, depth + 1, au1, v1.1, aq2, au2, v2.1, bq2, bu2, ASN1Error::Invalid, 0, TagState::Fresh, ASN1Error::Invalid, 0, TagState::Fresh);
                    T2::lemma_outcomes_unique(data, aq2, limit2, mode, depth + 1, au2, v1.2, aq3, au3, v2.2, bq3, bu3, ASN1Error::Invalid, 0, TagState::Fresh, ASN1Error::Invalid, 0, TagState::Fresh);
                    T3::lemma_outcomes_unique(data, aq3, limit2, mode, depth + 1, au3, v1.3, aq4, au4, v2.3, bq4, bu4, ASN1Error::Invalid, 0, TagState::Fresh, ASN1Error::Invalid, 0, TagState::Fresh);
                    T4::lemma_outcomes_unique(data, aq4, limit2, mode, depth + 1, au4, v1.4, aq5, au5, v2.4, bq5, bu5, ASN1Error::Invalid, 0, TagState::Fresh, ASN1Error::Invalid, 0, TagState::Fresh);
                    T5::lemma_outcomes_unique(data, aq5, limit2, mode, depth + 1, au5, v1.5, aq6, au6, v2.5, bq6, bu6, ASN1Error::Invalid, 0, TagState::Fresh, ASN1Error::Invalid, 0, TagState::Fresh);
                    T6::lemma_outcomes_unique(data, aq6, limit2, mode, depth + 1, au6, v1.6, aq7, au7, v2.6, bq7, bu7, ASN1Error::Invalid, 0, TagState::Fresh, ASN1Error::Invalid, 0, TagState::Fresh);
                },
                HeadStep::HeadFail { kind, end: ee, st: sx } => {},
            }
        }
    }

    fn decode_ber(reader: &mut BERReader) -> (r: ASN1Result<Self>) {
        let ghost d0 = old(reader).data();
        let ghost pos0 = old(reader).posi();
        let ghost lim0 = old(reader).limiti();
        let ghost m0 = old(reader).modev();
        let ghost dep0 = old(reader).depthv();
        let ghost st00 = old(reader).tag_statev();
        let frame = match reader.parse_header(
            Tag { tag_class: TagClass::Universal, tag_number: 16 },
            TagType::Explicit,
        ) {
            Ok(f) => f,
            Err(e) => {
                return Err(e);
            },
        };
        if frame.pc != PCBit::Constructed {
            let inner: ASN1Result<Self> = Err(ASN1Error::Invalid);
            return reader.close_frame(frame, inner);
        }
        let ghost g0 = *reader;
        let t0 = match T0::decode_ber(reader) {
            Ok(v) => v,
            Err(e) => {
                let ghost ferr = e;
                let ghost bad_pos = reader.posi();
                let ghost bad_st = reader.tag_statev();
                let inner: ASN1Result<Self> = Err(e);
                let rr = reader.close_frame(frame, inner);
                proof {
                    if Self::sp_refusals_exact(m0) {
                assert forall|w: Self, e2: int, s2: TagState| !Self::sp_accepts(
                    d0, pos0, lim0, m0, dep0, st00, w, e2, s2,
                ) by {
                    if Self::sp_accepts(d0, pos0, lim0, m0, dep0, st00, w, e2, s2) {
                        match sp_header(d0, pos0, lim0, m0, dep0, st00, spec_univ_tag(16), TagType::Explicit) {
                            HeadStep::HeadOk { pc, length, end: e0, limit2, st: sth } => {
                                let (wq1, wu1, wq2, wu2, wq3, wu3, wq4, wu4, wq5, wu5, wq6, wu6, wq7, wu7) = choose|q1: int, u1: TagState, q2: int, u2: TagState, q3: int, u3: TagState, q4: int, u4: TagState, q5: int, u5: TagState, q6: int, u6: TagState, q7: int, u7: TagState|
                                    #![trigger T0::sp_accepts(d0, e0, limit2, m0, dep0 + 1, sth, w.0, q1, u1), T1::sp_accepts(d0, q1, limit2, m0, dep0 + 1, u1, w.1, q2, u2), T2::sp_accepts(d0, q2, limit2, m0, dep0 + 1, u2, w.2, q3, u3), T3::sp_accepts(d0, q3, limit2, m0, dep0 + 1, u3, w.3, q4, u4), T4::sp_accepts(d0, q4, limit2, m0, dep0 + 1, u4, w.4, q5, u5), T5::sp_accepts(d0, q5, limit2, m0, dep0 + 1, u5, w.5, q6, u6), T6::sp_accepts(d0, q6, limit2, m0, dep0 + 1, u6, w.6, q7, u7)]
                                                            T0::sp_accepts(d0, e0, limit2, m0, dep0 + 1, sth, w.0, q1, u1)
                            && T1::sp_accepts(d0, q1, limit2, m0, dep0 + 1, u1, w.1, q2, u2)
                            && T2::sp_accepts(d0, q2, limit2, m0, dep0 + 1, u2, w.2, q3, u3)
                            && T3::sp_accepts(d0, q3, limit2, m0, dep0 + 1, u3, w.3, q4, u4)
                            && T4::sp_accepts(d0, q4, limit2, m0, dep0 + 1, u4, w.4, q5, u5)
                            && T5::sp_accepts(d0, q5, limit2, m0, dep0 + 1, u5, w.5, q6, u6)
                            && T6::sp_accepts(d0, q6, limit2, m0, dep0 + 1, u6, w.6, q7, u7)
                            && rstep_matches(sp_close(d0, q7, limit2, u7, length, Ok::<Self, ASN1Error>(w)), Ok::<Self, ASN1Error>(w), e2, s2);
                                T0::lemma_outcomes_unique(d0, e0, limit2, m0, dep0 + 1, sth, w.0, wq1, wu1, w.0, wq1, wu1, ferr, bad_pos, bad_st, ferr, bad_pos, bad_st);
                                assert(false);
                            },
                            HeadStep::HeadFail { kind, end: ee, st: sx } => {},
                        }
                    }
                }
                    }
                }
                return rr;
            },
        };
        let ghost g1 = *reader;
        let t1 = match T1::decode_ber(reader) {
            Ok(v) => v,
            Err(e) => {
                let ghost ferr = e;
                let ghost bad_pos = reader.posi();
                let ghost bad_st = reader.tag_statev();
                let inner: ASN1Result<Self> = Err(e);
                let rr = reader.close_frame(frame, inner);
                proof {
                    if Self::sp_refusals_exact(m0) {
                assert forall|w: Self, e2: int, s2: TagState| !Self::sp_accepts(
                    d0, pos0, lim0, m0, dep0, st00, w, e2, s2,
                ) by {
                    if Self::sp_accepts(d0, pos0, lim0, m0, dep0, st00, w, e2, s2) {
                        match sp_header(d0, pos0, lim0, m0, dep0, st00, spec_univ_tag(16), TagType::Explicit) {
                            HeadStep::HeadOk { pc, length, end: e0, limit2, st: sth } => {
                                let (wq1, wu1, wq2, wu2, wq3, wu3, wq4, wu4, wq5, wu5, wq6, wu6, wq7, wu7) = choose|q1: int, u1: TagState, q2: int, u2: TagState, q3: int, u3: TagState, q4: int, u4: TagState, q5: int, u5: TagState, q6: int, u6: TagState, q7: int, u7: TagState|
                                    #![trigger T0::sp_accepts(d0, e0, limit2, m0, dep0 + 1, sth, w.0, q1, u1), T1::sp_accepts(d0, q1, limit2, m0, dep0 + 1, u1, w.1, q2, u2), T2::sp_accepts(d0, q2, limit2, m0, dep0 + 1, u2, w.2, q3, u3), T3::sp_accepts(d0, q3, limit2, m0, dep0 + 1, u3, w.3, q4, u4), T4::sp_accepts(d0, q4, limit2, m0, dep0 + 1, u4, w.4, q5, u5), T5::sp_accepts(d0, q5, limit2, m0, dep0 + 1, u5, w.5, q6, u6), T6::sp_accepts(d0, q6, limit2, m0, dep0 + 1, u6, w.6, q7, u7)]
                                                            T0::sp_accepts(d0, e0, limit2, m0, dep0 + 1, sth, w.0, q1, u1)
                            && T1::sp_accepts(d0, q1, limit2, m0, dep0 + 1, u1, w.1, q2, u2)
                            && T2::sp_accepts(d0, q2, limit2, m0, dep0 + 1, u2, w.2, q3, u3)
                            && T3::sp_accepts(d0, q3, limit2, m0, dep0 + 1, u3, w.3, q4, u4)
                            && T4::sp_accepts(d0, q4, limit2, m0, dep0 + 1, u4, w.4, q5, u5)
                            && T5::sp_accepts(d0, q5, limit2, m0, dep0 + 1, u5, w.5, q6, u6)
                            && T6::sp_accepts(d0, q6, limit2, m0, dep0 + 1, u6, w.6, q7, u7)
                            && rstep_matches(sp_close(d0, q7, limit2, u7, length, Ok::<Self, ASN1Error>(w)), Ok::<Self, ASN1Error>(w), e2, s2);
                                T0::lemma_outcomes_unique(d0, e0, limit2, m0, dep0 + 1, sth, w.0, wq1, wu1, t0, g1.posi(), g1.tag_statev(), ASN1Error::Invalid, 0, TagState::Fresh, ASN1Error::Invalid, 0, TagState::Fresh);
                                T1::lemma_outcomes_unique(d0, wq1, limit2, m0, dep0 + 1, wu1, w.1, wq2, wu2, w.1, wq2, wu2, ferr, bad_pos, bad_st, ferr, bad_pos, bad_st);
                                assert(false);
                            },
                            HeadStep::HeadFail { kind, end: ee, st: sx } => {},
                        }
                    }
                }
                    }
                }
                return rr;
            },
        };
        let ghost g2 = *reader;
        let t2 = match T2::decode_ber(reader) {
            Ok(v) => v,
            Err(e) => {
                let ghost ferr = e;
                let ghost bad_pos = reader.posi();
                let ghost bad_st = reader.tag_statev();
                let inner: ASN1Result<Self> = Err(e);
                let rr = reader.close_frame(frame, inner);
                proof {
                    if Self::sp_refusals_exact(m0) {
                assert forall|w: Self, e2: int, s2: TagState| !Self::sp_accepts(
                    d0, pos0, lim0, m0, dep0, st00, w, e2, s2,
                ) by {
                    if Self::sp_accepts(d0, pos0, lim0, m0, dep0, st00, w, e2, s2) {
                        match sp_header(d0, pos0, lim0, m0, dep0, st00, spec_univ_tag(16), TagType::Explicit) {
                            HeadStep::HeadOk { pc, length, end: e0, limit2, st: sth } => {
                                let (wq1, wu1, wq2, wu2, wq3, wu3, wq4, wu4, wq5, wu5, wq6, wu6, wq7, wu7) = choose|q1: int, u1: TagState, q2: int, u2: TagState, q3: int, u3: TagState, q4: int, u4: TagState, q5: int, u5: TagState, q6: int, u6: TagState, q7: int, u7: TagState|
                                    #![trigger T0::sp_accepts(d0, e0, limit2, m0, dep0 + 1, sth, w.0, q1, u1), T1::sp_accepts(d0, q1, limit2, m0, dep0 + 1, u1, w.1, q2, u2), T2::sp_accepts(d0, q2, limit2, m0, dep0 + 1, u2, w.2, q3, u3), T3::sp_accepts(d0, q3, limit2, m0, dep0 + 1, u3, w.3, q4, u4), T4::sp_accepts(d0, q4, limit2, m0, dep0 + 1, u4, w.4, q5, u5), T5::sp_accepts(d0, q5, limit2, m0, dep0 + 1, u5, w.5, q6, u6), T6::sp_accepts(d0, q6, limit2, m0, dep0 + 1, u6, w.6, q7, u7)]
                                                            T0::sp_accepts(d0, e0, limit2, m0, dep0 + 1, sth, w.0, q1, u1)
                            && T1::sp_accepts(d0, q1, limit2, m0, dep0 + 1, u1, w.1, q2, u2)
                            && T2::sp_accepts(d0, q2, limit2, m0, dep0 + 1, u2, w.2, q3, u3)
                            && T3::sp_accepts(d0, q3, limit2, m0, dep0 + 1, u3, w.3, q4, u4)
                            && T4::sp_accepts(d0, q4, limit2, m0, dep0 + 1, u4, w.4, q5, u5)
                            && T5::sp_accepts(d0, q5, limit2, m0, dep0 + 1, u5, w.5, q6, u6)
                            && T6::sp_accepts(d0, q6, limit2, m0, dep0 + 1, u6, w.6, q7, u7)
                            && rstep_matches(sp_close(d0, q7, limit2, u7, length, Ok::<Self, ASN1Error>(w)), Ok::<Self, ASN1Error>(w), e2, s2);
                                T0::lemma_outcomes_unique(d0, e0, limit2, m0, dep0 + 1, sth, w.0, wq1, wu1, t0, g1.posi(), g1.tag_statev(), ASN1Error::Invalid, 0, TagState::Fresh, ASN1Error::Invalid, 0, TagState::Fresh);
                                T1::lemma_outcomes_unique(d0, wq1, limit2, m0, dep0 + 1, wu1, w.1, wq2, wu2, t1, g2.posi(), g2.tag_statev(), ASN1Error::Invalid, 0, TagState::Fresh, ASN1Error::Invalid, 0, TagState::Fresh);
                                T2::lemma_outcomes_unique(d0, wq2, limit2, m0, dep0 + 1, wu2, w.2, wq3, wu3, w.2, wq3, wu3, ferr, bad_pos, bad_st, ferr, bad_pos, bad_st);
                                assert(false);
                            },
                            HeadStep::HeadFail { kind, end: ee, st: sx } => {},
                        }
                    }
                }
                    }
                }
                return rr;
            },
        };
        let ghost g3 = *reader;
        let t3 = match T3::decode_ber(reader) {
            Ok(v) => v,
            Err(e) => {
                let ghost ferr = e;
                let ghost bad_pos = reader.posi();
                let ghost bad_st = reader.tag_statev();
                let inner: ASN1Result<Self> = Err(e);
                let rr = reader.close_frame(frame, inner);
                proof {
                    if Self::sp_refusals_exact(m0) {
                assert forall|w: Self, e2: int, s2: TagState| !Self::sp_accepts(
                    d0, pos0, lim0, m0, dep0, st00, w, e2, s2,
                ) by {
                    if Self::sp_accepts(d0, pos0, lim0, m0, dep0, st00, w, e2, s2) {
                        match sp_header(d0, pos0, lim0, m0, dep0, st00, spec_univ_tag(16), TagType::Explicit) {
                            HeadStep::HeadOk { pc, length, end: e0, limit2, st: sth } => {
                                let (wq1, wu1, wq2, wu2, wq3, wu3, wq4, wu4, wq5, wu5, wq6, wu6, wq7, wu7) = choose|q1: int, u1: TagState, q2: int, u2: TagState, q3: int, u3: TagState, q4: int, u4: TagState, q5: int, u5: TagState, q6: int, u6: TagState, q7: int, u7: TagState|
                                    #![trigger T0::sp_accepts(d0, e0, limit2, m0, dep0 + 1, sth, w.0, q1, u1), T1::sp_accepts(d0, q1, limit2, m0, dep0 + 1, u1, w.1, q2, u2), T2::sp_accepts(d0, q2, limit2, m0, dep0 + 1, u2, w.2, q3, u3), T3::sp_accepts(d0, q3, limit2, m0, dep0 + 1, u3, w.3, q4, u4), T4::sp_accepts(d0, q4, limit2, m0, dep0 + 1, u4, w.4, q5, u5), T5::sp_accepts(d0, q5, limit2, m0, dep0 + 1, u5, w.5, q6, u6), T6::sp_accepts(d0, q6, limit2, m0, dep0 + 1, u6, w.6, q7, u7)]
                                                            T0::sp_accepts(d0, e0, limit2, m0, dep0 + 1, sth, w.0, q1, u1)
                            && T1::sp_accepts(d0, q1, limit2, m0, dep0 + 1, u1, w.1, q2, u2)
                            && T2::sp_accepts(d0, q2, limit2, m0, dep0 + 1, u2, w.2, q3, u3)
                            && T3::sp_accepts(d0, q3, limit2, m0, dep0 + 1, u3, w.3, q4, u4)
                            && T4::sp_accepts(d0, q4, limit2, m0, dep0 + 1, u4, w.4, q5, u5)
                            && T5::sp_accepts(d0, q5, limit2, m0, dep0 + 1, u5, w.5, q6, u6)
                            && T6::sp_accepts(d0, q6, limit2, m0, dep0 + 1, u6, w.6, q7, u7)
                            && rstep_matches(sp_close(d0, q7, limit2, u7, length, Ok::<Self, ASN1Error>(w)), Ok::<Self, ASN1Error>(w), e2, s2);
                                T0::lemma_outcomes_unique(d0, e0, limit2, m0, dep0 + 1, sth, w.0, wq1, wu1, t0, g1.posi(), g1.tag_statev(), ASN1Error::Invalid, 0, TagState::Fresh, ASN1Error::Invalid, 0, TagState::Fresh);
                                T1::lemma_outcomes_unique(d0, wq1, limit2, m0, dep0 + 1, wu1, w.1, wq2, wu2, t1, g2.posi(), g2.tag_statev(), ASN1Error::Invalid, 0, TagState::Fresh, ASN1Error::Invalid, 0, TagState::Fresh);
                                T2::lemma_outcomes_unique(d0, wq2, limit2, m0, dep0 + 1, wu2, w.2, wq3, wu3, t2, g3.posi(), g3.tag_statev(), ASN1Error::Invalid, 0, TagState::Fresh, ASN1Error::Invalid, 0, TagState::Fresh);
                                T3::lemma_outcomes_unique(d0, wq3, limit2, m0, dep0 + 1, wu3, w.3, wq4, wu4, w.3, wq4, wu4, ferr, bad_pos, bad_st, ferr, bad_pos, bad_st);
                                assert(false);
                            },
                            HeadStep::HeadFail { kind, end: ee, st: sx } => {},
                        }
                    }
                }
                    }
                }
                return rr;
            },
        };
        let ghost g4 = *reader;
        let t4 = match T4::decode_ber(reader) {
            Ok(v) => v,
            Err(e) => {
                let ghost ferr = e;
                let ghost bad_pos = reader.posi();
                let ghost bad_st = reader.tag_statev();
                let inner: ASN1Result<Self> = Err(e);
                let rr = reader.close_frame(frame, inner);
                proof {
                    if Self::sp_refusals_exact(m0) {
                assert forall|w: Self, e2: int, s2: TagState| !Self::sp_accepts(
                    d0, pos0, lim0, m0, dep0, st00, w, e2, s2,
                ) by {
                    if Self::sp_accepts(d0, pos0, lim0, m0, dep0, st00, w, e2, s2) {
                        match sp_header(d0, pos0, lim0, m0, dep0, st00, spec_univ_tag(16), TagType::Explicit) {
                            HeadStep::HeadOk { pc, length, end: e0, limit2, st: sth } => {
                                let (wq1, wu1, wq2, wu2, wq3, wu3, wq4, wu4, wq5, wu5, wq6, wu6, wq7, wu7) = choose|q1: int, u1: TagState, q2: int, u2: TagState, q3: int, u3: TagState, q4: int, u4: TagState, q5: int, u5: TagState, q6: int, u6: TagState, q7: int, u7: TagState|
                                    #![trigger T0::sp_accepts(d0, e0, limit2, m0, dep0 + 1, sth, w.0, q1, u1), T1::sp_accepts(d0, q1, limit2, m0, dep0 + 1, u1, w.1, q2, u2), T2::sp_accepts(d0, q2, limit2, m0, dep0 + 1, u2, w.2, q3, u3), T3::sp_accepts(d0, q3, limit2, m0, dep0 + 1, u3, w.3, q4, u4), T4::sp_accepts(d0, q4, limit2, m0, dep0 + 1, u4, w.4, q5, u5), T5::sp_accepts(d0, q5, limit2, m0, dep0 + 1, u5, w.5, q6, u6), T6::sp_accepts(d0, q6, limit2, m0, dep0 + 1, u6, w.6, q7, u7)]
                                                            T0::sp_accepts(d0, e0, limit2, m0, dep0 + 1, sth, w.0, q1, u1)
                            && T1::sp_accepts(d0, q1, limit2, m0, dep0 + 1, u1, w.1, q2, u2)
                            && T2::sp_accepts(d0, q2, limit2, m0, dep0 + 1, u2, w.2, q3, u3)
                            && T3::sp_accepts(d0, q3, limit2, m0, dep0 + 1, u3, w.3, q4, u4)
                            && T4::sp_accepts(d0, q4, limit2, m0, dep0 + 1, u4, w.4, q5, u5)
                            && T5::sp_accepts(d0, q5, limit2, m0, dep0 + 1, u5, w.5, q6, u6)
                            && T6::sp_accepts(d0, q6, limit2, m0, dep0 + 1, u6, w.6, q7, u7)
                            && rstep_matches(sp_close(d0, q7, limit2, u7, length, Ok::<Self, ASN1Error>(w)), Ok::<Self, ASN1Error>(w), e2, s2);
                                T0::lemma_outcomes_unique(d0, e0, limit2, m0, dep0 + 1, sth, w.0, wq1, wu1, t0, g1.posi(), g1.tag_statev(), ASN1Error::Invalid, 0, TagState::Fresh, ASN1Error::Invalid, 0, TagState::Fresh);
                                T1::lemma_outcomes_unique(d0, wq1, limit2, m0, dep0 + 1, wu1, w.1, wq2, wu2, t1, g2.posi(), g2.tag_statev(), ASN1Error::Invalid, 0, TagState::Fresh, ASN1Error::Invalid, 0, TagState::Fresh);
                                T2::lemma_outcomes_unique(d0, wq2, limit2, m0, dep0 + 1, wu2, w.2, wq3, wu3, t2, g3.posi(), g3.tag_statev(), ASN1Error::Invalid, 0, TagState::Fresh, ASN1Error::Invalid, 0, TagState::Fresh);
                                T3::lemma_outcomes_unique(d0, wq3, limit2, m0, dep0 + 1, wu3, w.3, wq4, wu4, t3, g4.posi(), g4.tag_statev(), ASN1Error::Invalid, 0, TagState::Fresh, ASN1Error::Invalid, 0, TagState::Fresh);
                                T4::lemma_outcomes_unique(d0, wq4, limit2, m0, dep0 + 1, wu4, w.4, wq5, wu5, w.4, wq5, wu5, ferr, bad_pos, bad_st, ferr, bad_pos, bad_st);
                                assert(false);
                            },
                            HeadStep::HeadFail { kind, end: ee, st: sx } => {},
                        }
                    }
                }
                    }
                }
                return rr;
            },
        };
        let ghost g5 = *reader;
        let t5 = match T5::decode_ber(reader) {
            Ok(v) => v,
            Err(e) => {
                let ghost ferr = e;
                let ghost bad_pos = reader.posi();
                let ghost bad_st = reader.tag_statev();
                let inner: ASN1Result<Self> = Err(e);
                let rr = reader.close_frame(frame, inner);
                proof {
                    if Self::sp_refusals_exact(m0) {
                assert forall|w: Self, e2: int, s2: TagState| !Self::sp_accepts(
                    d0, pos0, lim0, m0, dep0, st00, w, e2, s2,
                ) by {
                    if Self::sp_accepts(d0, pos0, lim0, m0, dep0, st00, w, e2, s2) {
                        match sp_header(d0, pos0, lim0, m0, dep0, st00, spec_univ_tag(16), TagType::Explicit) {
                            HeadStep::HeadOk { pc, length, end: e0, limit2, st: sth } => {
                                let (wq1, wu1, wq2, wu2, wq3, wu3, wq4, wu4, wq5, wu5, wq6, wu6, wq7, wu7) = choose|q1: int, u1: TagState, q2: int, u2: TagState, q3: int, u3: TagState, q4: int, u4: TagState, q5: int, u5: TagState, q6: int, u6: TagState, q7: int, u7: TagState|
                                    #![trigger T0::sp_accepts(d0, e0, limit2, m0, dep0 + 1, sth, w.0, q1, u1), T1::sp_accepts(d0, q1, limit2, m0, dep0 + 1, u1, w.1, q2, u2), T2::sp_accepts(d0, q2, limit2, m0, dep0 + 1, u2, w.2, q3, u3), T3::sp_accepts(d0, q3, limit2, m0, dep0 + 1, u3, w.3, q4, u4), T4::sp_accepts(d0, q4, limit2, m0, dep0 + 1, u4, w.4, q5, u5), T5::sp_accepts(d0, q5, limit2, m0, dep0 + 1, u5, w.5, q6, u6), T6::sp_accepts(d0, q6, limit2, m0, dep0 + 1, u6, w.6, q7, u7)]
                                                            T0::sp_accepts(d0, e0, limit2, m0, dep0 + 1, sth, w.0, q1, u1)
                            && T1::sp_accepts(d0, q1, limit2, m0, dep0 + 1, u1, w.1, q2, u2)
                            && T2::sp_accepts(d0, q2, limit2, m0, dep0 + 1, u2, w.2, q3, u3)
                            && T3::sp_accepts(d0, q3, limit2, m0, dep0 + 1, u3, w.3, q4, u4)
                            && T4::sp_accepts(d0, q4, limit2, m0, dep0 + 1, u4, w.4, q5, u5)
                            && T5::sp_accepts(d0, q5, limit2, m0, dep0 + 1, u5, w.5, q6, u6)
                            && T6::sp_accepts(d0, q6, limit2, m0, dep0 + 1, u6, w.6, q7, u7)
                            && rstep_matches(sp_close(d0, q7, limit2, u7, length, Ok::<Self, ASN1Error>(w)), Ok::<Self, ASN1Error>(w), e2, s2);
                                T0::lemma_outcomes_unique(d0, e0, limit2, m0, dep0 + 1, sth, w.0, wq1, wu1, t0, g1.posi(), g1.tag_statev(), ASN1Error::Invalid, 0, TagState::Fresh, ASN1Error::Invalid, 0, TagState::Fresh);
                                T1::lemma_outcomes_unique(d0, wq1, limit2, m0, dep0 + 1, wu1, w.1, wq2, wu2, t1, g2.posi(), g2.tag_statev(), ASN1Error::Invalid, 0, TagState::Fresh, ASN1Error::Invalid, 0, TagState::Fresh);
                                T2::lemma_outcomes_unique(d0, wq2, limit2, m0, dep0 + 1, wu2, w.2, wq3, wu3, t2, g3.posi(), g3.tag_statev(), ASN1Error::Invalid, 0, TagState::Fresh, ASN1Error::Invalid, 0, TagState::Fresh);
                                T3::lemma_outcomes_unique(d0, wq3, limit2, m0, dep0 + 1, wu3, w.3, wq4, wu4, t3, g4.posi(), g4.tag_statev(), ASN1Error::Invalid, 0, TagState::Fresh, ASN1Error::Invalid, 0, TagState::Fresh);
                                T4::lemma_outcomes_unique(d0, wq4, limit2, m0, dep0 + 1, wu4, w.4, wq5, wu5, t4, g5.posi(), g5.tag_statev(), ASN1Error::Invalid, 0, TagState::Fresh, ASN1Error::Invalid, 0, TagState::Fresh);
                                T5::lemma_outcomes_unique(d0, wq5, limit2, m0, dep0 + 1, wu5, w.5, wq6, wu6, w.5, wq6, wu6, ferr, bad_pos, bad_st, ferr, bad_pos, bad_st);
                                assert(false);
                            },
                            HeadStep::HeadFail { kind, end: ee, st: sx } => {},
                        }
                    }
                }
                    }
                }
                return rr;
            },
        };
        let ghost g6 = *reader;
        let t6 = match T6::decode_ber(reader) {
            Ok(v) => v,
            Err(e) => {
                let ghost ferr = e;
                let ghost bad_pos = reader.posi();
                let ghost bad_st = reader.tag_statev();
                let inner: ASN1Result<Self> = Err(e);
                let rr = reader.close_frame(frame, inner);
                proof {
                    if Self::sp_refusals_exact(m0) {
                assert forall|w: Self, e2: int, s2: TagState| !Self::sp_accepts(
                    d0, pos0, lim0, m0, dep0, st00, w, e2, s2,
                ) by {
                    if Self::sp_accepts(d0, pos0, lim0, m0, dep0, st00, w, e2, s2) {
                        match sp_header(d0, pos0, lim0, m0, dep0, st00, spec_univ_tag(16), TagType::Explicit) {
                            HeadStep::HeadOk { pc, length, end: e0, limit2, st: sth } => {
                                let (wq1, wu1, wq2, wu2, wq3, wu3, wq4, wu4, wq5, wu5, wq6, wu6, wq7, wu7) = choose|q1: int, u1: TagState, q2: int, u2: TagState, q3: int, u3: TagState, q4: int, u4: TagState, q5: int, u5: TagState, q6: int, u6: TagState, q7: int, u7: TagState|
                                    #![trigger T0::sp_accepts(d0, e0, limit2, m0, dep0 + 1, sth, w.0, q1, u1), T1::sp_accepts(d0, q1, limit2, m0, dep0 + 1, u1, w.1, q2, u2), T2::sp_accepts(d0, q2, limit2, m0, dep0 + 1, u2, w.2, q3, u3), T3::sp_accepts(d0, q3, limit2, m0, dep0 + 1, u3, w.3, q4, u4), T4::sp_accepts(d0, q4, limit2, m0, dep0 + 1, u4, w.4, q5, u5), T5::sp_accepts(d0, q5, limit2, m0, dep0 + 1, u5, w.5, q6, u6), T6::sp_accepts(d0, q6, limit2, m0, dep0 + 1, u6, w.6, q7, u7)]
                                                            T0::sp_accepts(d0, e0, limit2, m0, dep0 + 1, sth, w.0, q1, u1)
                            && T1::sp_accepts(d0, q1, limit2, m0, dep0 + 1, u1, w.1, q2, u2)
                            && T2::sp_accepts(d0, q2, limit2, m0, dep0 + 1, u2, w.2, q3, u3)
                            && T3::sp_accepts(d0, q3, limit2, m0, dep0 + 1, u3, w.3, q4, u4)
                            && T4::sp_accepts(d0, q4, limit2, m0, dep0 + 1, u4, w.4, q5, u5)
                            && T5::sp_accepts(d0, q5, limit2, m0, dep0 + 1, u5, w.5, q6, u6)
                            && T6::sp_accepts(d0, q6, limit2, m0, dep0 + 1, u6, w.6, q7, u7)
                            && rstep_matches(sp_close(d0, q7, limit2, u7, length, Ok::<Self, ASN1Error>(w)), Ok::<Self, ASN1Error>(w), e2, s2);
                                T0::lemma_outcomes_unique(d0, e0, limit2, m0, dep0 + 1, sth, w.0, wq1, wu1, t0, g1.posi(), g1.tag_statev(), ASN1Error::Invalid, 0, TagState::Fresh, ASN1Error::Invalid, 0, TagState::Fresh);
                                T1::lemma_outcomes_unique(d0, wq1, limit2, m0, dep0 + 1, wu1, w.1, wq2, wu2, t1, g2.posi(), g2.tag_statev(), ASN1Error::Invalid, 0, TagState::Fresh, ASN1Error::Invalid, 0, TagState::Fresh);
                                T2::lemma_outcomes_unique(d0, wq2, limit2, m0, dep0 + 1, wu2, w.2, wq3, wu3, t2, g3.posi(), g3.tag_statev(), ASN1Error::Invalid, 0, TagState::Fresh, ASN1Error::Invalid, 0, TagState::Fresh);
                                T3::lemma_outcomes_unique(d0, wq3, limit2, m0, dep0 + 1, wu3, w.3, wq4, wu4, t3, g4.posi(), g4.tag_statev(), ASN1Error::Invalid, 0, TagState::Fresh, ASN1Error::Invalid, 0, TagState::Fresh);
                                T4::lemma_outcomes_unique(d0, wq4, limit2, m0, dep0 + 1, wu4, w.4, wq5, wu5, t4, g5.posi(), g5.tag_statev(), ASN1Error::Invalid, 0, TagState::Fresh, ASN1Error::Invalid, 0, TagState::Fresh);
                                T5::lemma_outcomes_unique(d0, wq5, limit2, m0, dep0 + 1, wu5, w.5, wq6, wu6, t5, g6.posi(), g6.tag_statev(), ASN1Error::Invalid, 0, TagState::Fresh, ASN1Error::Invalid, 0, TagState::Fresh);
                                T6::lemma_outcomes_unique(d0, wq6, limit2, m0, dep0 + 1, wu6, w.6, wq7, wu7, w.6, wq7, wu7, ferr, bad_pos, bad_st, ferr, bad_pos, bad_st);
                                assert(false);
                            },
                            HeadStep::HeadFail { kind, end: ee, st: sx } => {},
                        }
                    }
                }
                    }
                }
                return rr;
            },
        };
        let ghost g7 = *reader;
        let result = (t0, t1, t2, t3, t4, t5, t6);
        let ghost gv = result;
        let ghost before_close = *reader;
        let rr = reader.close_frame(frame, Ok(result));
        proof {
            if rr is Ok {
                assert(T0::sp_accepts(g0.data(), g0.posi(), g0.limiti(), g0.modev(), g0.depthv(), g0.tag_statev(), gv.0, g1.posi(), g1.tag_statev()));
                assert(T1::sp_accepts(g0.data(), g1.posi(), g0.limiti(), g0.modev(), g0.depthv(), g1.tag_statev(), gv.1, g2.posi(), g2.tag_statev()));
                assert(T2::sp_accepts(g0.data(), g2.posi(), g0.limiti(), g0.modev(), g0.depthv(), g2.tag_statev(), gv.2, g3.posi(), g3.tag_statev()));
                assert(T3::sp_accepts(g0.data(), g3.posi(), g0.limiti(), g0.modev(), g0.depthv(), g3.tag_statev(), gv.3, g4.posi(), g4.tag_statev()));
                assert(T4::sp_accepts(g0.data(), g4.posi(), g0.limiti(), g0.modev(), g0.depthv(), g4.tag_statev(), gv.4, g5.posi(), g5.tag_statev()));
                assert(T5::sp_accepts(g0.data(), g5.posi(), g0.limiti(), g0.modev(), g0.depthv(), g5.tag_statev(), gv.5, g6.posi(), g6.tag_statev()));
                assert(T6::sp_accepts(g0.data(), g6.posi(), g0.limiti(), g0.modev(), g0.depthv(), g6.tag_statev(), gv.6, g7.posi(), g7.tag_statev()));
            }
            if rr is Err && Self::sp_refusals_exact(m0) {
                assert forall|w: Self, e2: int, s2: TagState| !Self::sp_accepts(
                    d0, pos0, lim0, m0, dep0, st00, w, e2, s2,
                ) by {
                    if Self::sp_accepts(d0, pos0, lim0, m0, dep0, st00, w, e2, s2) {
                        match sp_header(d0, pos0, lim0, m0, dep0, st00, spec_univ_tag(16), TagType::Explicit) {
                            HeadStep::HeadOk { pc, length, end: e0, limit2, st: sth } => {
                                let (wq1, wu1, wq2, wu2, wq3, wu3, wq4, wu4, wq5, wu5, wq6, wu6, wq7, wu7) = choose|q1: int, u1: TagState, q2: int, u2: TagState, q3: int, u3: TagState, q4: int, u4: TagState, q5: int, u5: TagState, q6: int, u6: TagState, q7: int, u7: TagState|
                                    #![trigger T0::sp_accepts(d0, e0, limit2, m0, dep0 + 1, sth, w.0, q1, u1), T1::sp_accepts(d0, q1, limit2, m0, dep0 + 1, u1, w.1, q2, u2), T2::sp_accepts(d0, q2, limit2, m0, dep0 + 1, u2, w.2, q3, u3), T3::sp_accepts(d0, q3, limit2, m0, dep0 + 1, u3, w.3, q4, u4), T4::sp_accepts(d0, q4, limit2, m0, dep0 + 1, u4, w.4, q5, u5), T5::sp_accepts(d0, q5, limit2, m0, dep0 + 1, u5, w.5, q6, u6), T6::sp_accepts(d0, q6, limit2, m0, dep0 + 1, u6, w.6, q7, u7)]
                                                            T0::sp_accepts(d0, e0, limit2, m0, dep0 + 1, sth, w.0, q1, u1)
                            && T1::sp_accepts(d0, q1, limit2, m0, dep0 + 1, u1, w.1, q2, u2)
                            && T2::sp_accepts(d0, q2, limit2, m0, dep0 + 1, u2, w.2, q3, u3)
                            && T3::sp_accepts(d0, q3, limit2, m0, dep0 + 1, u3, w.3, q4, u4)
                            && T4::sp_accepts(d0, q4, limit2, m0, dep0 + 1, u4, w.4, q5, u5)
                            && T5::sp_accepts(d0, q5, limit2, m0, dep0 + 1, u5, w.5, q6, u6)
                            && T6::sp_accepts(d0, q6, limit2, m0, dep0 + 1, u6, w.6, q7, u7)
                            && rstep_matches(sp_close(d0, q7, limit2, u7, length, Ok::<Self, ASN1Error>(w)), Ok::<Self, ASN1Error>(w), e2, s2);
                                T0::lemma_outcomes_unique(d0, e0, limit2, m0, dep0 + 1, sth, w.0, wq1, wu1, t0, g1.posi(), g1.tag_statev(), ASN1Error::Invalid, 0, TagState::Fresh, ASN1Error::Invalid, 0, TagState::Fresh);
                                T1::lemma_outcomes_unique(d0, wq1, limit2, m0, dep0 + 1, wu1, w.1, wq2, wu2, t1, g2.posi(), g2.tag_statev(), ASN1Error::Invalid, 0, TagState::Fresh, ASN1Error::Invalid, 0, TagState::Fresh);
                                T2::lemma_outcomes_unique(d0, wq2, limit2, m0, dep0 + 1, wu2, w.2, wq3, wu3, t2, g3.posi(), g3.tag_statev(), ASN1Error::Invalid, 0, TagState::Fresh, ASN1Error::Invalid, 0, TagState::Fresh);
                                T3::lemma_outcomes_unique(d0, wq3, limit2, m0, dep0 + 1, wu3, w.3, wq4, wu4, t3, g4.posi(), g4.tag_statev(), ASN1Error::Invalid, 0, TagState::Fresh, ASN1Error::Invalid, 0, TagState::Fresh);
                                T4::lemma_outcomes_unique(d0, wq4, limit2, m0, dep0 + 1, wu4, w.4, wq5, wu5, t4, g5.posi(), g5.tag_statev(), ASN1Error::Invalid, 0, TagState::Fresh, ASN1Error::Invalid, 0, TagState::Fresh);
                                T5::lemma_outcomes_unique(d0, wq5, limit2, m0, dep0 + 1, wu5, w.5, wq6, wu6, t5, g6.posi(), g6.tag_statev(), ASN1Error::Invalid, 0, TagState::Fresh, ASN1Error::Invalid, 0, TagState::Fresh);
                                T6::lemma_outcomes_unique(d0, wq6, limit2, m0, dep0 + 1, wu6, w.6, wq7, wu7, t6, g7.posi(), g7.tag_statev(), ASN1Error::Invalid, 0, TagState::Fresh, ASN1Error::Invalid, 0, TagState::Fresh);
                            },
                            HeadStep::HeadFail { kind, end: ee, st: sx } => {},
                        }
                    }
                }
            }
        }
        rr
    }
}

impl<T0: BERDecodable, T1: BERDecodable, T2: BERDecodable, T3: BERDecodable, T4: BERDecodable, T5: BERDecodable, T6: BERDecodable, T7: BERDecodable> BERDecodable for (T0, T1, T2, T3, T4, T5, T6, T7) {
    open spec fn sp_accepts(
        data: Seq<u8>,
        pos: int,
        limit: int,
        mode: BERMode,
        depth: int,
        st0: TagState,
        v: Self,
        end: int,
        st: TagState,
    ) -> bool {
        match sp_header(data, pos, limit, mode, depth, st0, spec_univ_tag(16), TagType::Explicit) {
            HeadStep::HeadFail { kind, end: e, st: s } => false,
            HeadStep::HeadOk { pc, length, end: e0, limit2, st: sth } => pc
                == PCBit::Constructed && (exists|p1: int, s1: TagState, p2: int, s2: TagState, p3: int, s3: TagState, p4: int, s4: TagState, p5: int, s5: TagState, p6: int, s6: TagState, p7: int, s7: TagState, p8: int, s8: TagState|
                #![trigger T0::sp_accepts(data, e0, limit2, mode, depth + 1, sth, v.0, p1, s1), T1::sp_accepts(data, p1, limit2, mode, depth + 1, s1, v.1, p2, s2), T2::sp_accepts(data, p2, limit2, mode, depth + 1, s2, v.2, p3, s3), T3::sp_accepts(data, p3, limit2, mode, depth + 1, s3, v.3, p4, s4), T4::sp_accepts(data, p4, limit2, mode, depth + 1, s4, v.4, p5, s5), T5::sp_accepts(data, p5, limit2, mode, depth + 1, s5, v.5, p6, s6), T6::sp_accepts(data, p6, limit2, mode, depth + 1, s6, v.6, p7, s7), T7::sp_accepts(data, p7, limit2, mode, depth + 1, s7, v.7, p8, s8)]
                {
                    &&& T0::sp_accepts(data, e0, limit2, mode, depth + 1, sth, v.0, p1, s1)
                    &&& T1::sp_accepts(data, p1, limit2, mode, depth + 1, s1, v.1, p2, s2)
                    &&& T2::sp_accepts(data, p2, limit2, mode, depth + 1, s2, v.2, p3, s3)
                    &&& T3::sp_accepts(data, p3, limit2, mode, depth + 1, s3, v.3, p4, s4)
                    &&& T4::sp_accepts(data, p4, limit2, mode, depth + 1, s4, v.4, p5, s5)
                    &&& T5::sp_accepts(data, p5, limit2, mode, depth + 1, s5, v.5, p6, s6)
                    &&& T6::sp_accepts(data, p6, limit2, mode, depth + 1, s6, v.6, p7, s7)
                    &&& T7::sp_accepts(data, p7, limit2, mode, depth + 1, s7, v.7, p8, s8)
                    &&& rstep_matches(
                        sp_close(data, p8, limit2, s8, length, Ok::<Self, ASN1Error>(v)),
                        Ok::<Self, ASN1Error>(v),
                        end,
                        st,
                    )
                }),
        }
    }

    open spec fn sp_refusals_exact(mode: BERMode) -> bool {
        mode == BERMode::Der && T0::sp_refusals_exact(BERMode::Der) && T1::sp_refusals_exact(BERMode::Der) && T2::sp_refusals_exact(BERMode::Der) && T3::sp_refusals_exact(BERMode::Der) && T4::sp_refusals_exact(BERMode::Der) && T5::sp_refusals_exact(BERMode::Der) && T6::sp_refusals_exact(BERMode::Der) && T7::sp_refusals_exact(BERMode::Der)
    }

    open spec fn sp_refuses(
        data: Seq<u8>,
        pos: int,
        limit: int,
        mode: BERMode,
        depth: int,
        st0: TagState,
        kind: ASN1Error,
        end: int,
        st: TagState,
    ) -> bool {
        !(exists|w: Self, e2: int, s2: TagState|
            Self::sp_accepts(data, pos, limit, mode, depth, st0, w, e2, s2))
    }

    proof fn lemma_outcomes_unique(
        data: Seq<u8>,
        pos: int,
        limit: int,
        mode: BERMode,
        depth: int,
        st0: TagState,
        v1: Self,
        e1: int,
        s1: TagState,
        v2: Self,
        e2: int,
        s2: TagState,
        k3: ASN1Error,
        e3: int,
        s3: TagState,
        k4: ASN1Error,
        e4: int,
        s4: TagState,
    ) {
        if Self::sp_accepts(data, pos, limit, mode, depth, st0, v1, e1, s1) && Self::sp_accepts(
            data,
            pos,
            limit,
            mode,
            depth,
            st0,
            v2,
            e2,
            s2,
        ) {
            match sp_header(data, pos, limit, mode, depth, st0, spec_univ_tag(16), TagType::Explicit) {
                HeadStep::HeadOk { pc, length, end: e0, limit2, st: sth } => {
                    let (aq1, au1, aq2, au2, aq3, au3, aq4, au4, aq5, au5, aq6, au6, aq7, au7, aq8, au8) = choose|q1: int, u1: TagState, q2: int, u2: TagState, q3: int, u3: TagState, q4: int, u4: TagState, q5: int, u5: TagState, q6: int, u6: TagState, q7: int, u7: TagState, q8: int, u8: TagState|
                        #![trigger T0::sp_accepts(data, e0, limit2, mode, depth + 1, sth, v1.0, q1, u1), T1::sp_accepts(data, q1, limit2, mode, depth + 1, u1, v1.1, q2, u2), T2::sp_accepts(data, q2, limit2, mode, depth + 1, u2, v1.2, q3, u3), T3::sp_accepts(data, q3, limit2, mode, depth + 1, u3, v1.3, q4, u4), T4::sp_accepts(data, q4, limit2, mode, depth + 1, u4, v1.4, q5, u5), T5::sp_accepts(data, q5, limit2, mode, depth + 1, u5, v1.5, q6, u6), T6::sp_accepts(data, q6, limit2, mode, depth + 1, u6, v1.6, q7, u7), T7::sp_accepts(data, q7, limit2, mode, depth + 1, u7, v1.7, q8, u8)]
                                            T0::sp_accepts(data, e0, limit2, mode, depth + 1, sth, v1.0, q1, u1)
                        && T1::sp_accepts(data, q1, limit2, mode, depth + 1, u1, v1.1, q2, u2)
                        && T2::sp_accepts(data, q2, limit2, mode, depth + 1, u2, v1.2, q3, u3)
                        && T3::sp_accepts(data, q3, limit2, mode, depth + 1, u3, v1.3, q4, u4)
                        && T4::sp_accepts(data, q4, limit2, mode, depth + 1, u4, v1.4, q5, u5)
                        && T5::sp_accepts(data, q5, limit2, mode, depth + 1, u5, v1.5, q6, u6)
                        && T6::sp_accepts(data, q6, limit2, mode, depth + 1, u6, v1.6, q7, u7)
                        && T7::sp_accepts(data, q7, limit2, mode, depth + 1, u7, v1.7, q8, u8)
                        && rstep_matches(sp_close(data, q8, limit2, u8, length, Ok::<Self, ASN1Error>(v1)), Ok::<Self, ASN1Error>(v1), e1, s1);
                    let (bq1, bu1, bq2, bu2, bq3, bu3, bq4, bu4, bq5, bu5, bq6, bu6, bq7, bu7, bq8, bu8) = choose|q1: int, u1: TagState, q2: int, u2: TagState, q3: int, u3: TagState, q4: int, u4: TagState, q5: int, u5: TagState, q6: int, u6: TagState, q7: int, u7: TagState, q8: int, u8: TagState|
                        #![trigger T0::sp_accepts(data, e0, limit2, mode, depth + 1, sth, v2.0, q1, u1), T1::sp_accepts(data, q1, limit2, mode, depth + 1, u1, v2.1, q2, u2), T2::sp_accepts(data, q2, limit2, mode, depth + 1, u2, v2.2, q3, u3), T3::sp_accepts(data, q3, limit2, mode, depth + 1, u3, v2.3, q4, u4), T4::sp_accepts(data, q4, limit2, mode, depth + 1, u4, v2.4, q5, u5), T5::sp_accepts(data, q5, limit2, mode, depth + 1, u5, v2.5, q6, u6), T6::sp_accepts(data, q6, limit2, mode, depth + 1, u6, v2.6, q7, u7), T7::sp_accepts(data, q7, limit2, mode, depth + 1, u7, v2.7, q8, u8)]
                                            T0::sp_accepts(data, e0, limit2, mode, depth + 1, sth, v2.0, q1, u1)
                        && T1::sp_accepts(data, q1, limit2, mode, depth + 1, u1, v2.1, q2, u2)
                        && T2::sp_accepts(data, q2, limit2, mode, depth + 1, u2, v2.2, q3, u3)
                        && T3::sp_accepts(data, q3, limit2, mode, depth + 1, u3, v2.3, q4, u4)
                        && T4::sp_accepts(data, q4, limit2, mode, depth + 1, u4, v2.4, q5, u5)
                        && T5::sp_accepts(data, q5, limit2, mode, depth + 1, u5, v2.5, q6, u6)
                        && T6::sp_accepts(data, q6, limit2, mode, depth + 1, u6, v2.6, q7, u7)
                        && T7::sp_accepts(data, q7, limit2, mode, depth + 1, u7, v2.7, q8, u8)
                        && rstep_matches(sp_close(data, q8, limit2, u8, length, Ok::<Self, ASN1Error>(v2)), Ok::<Self, ASN1Error>(v2), e2, s2);
                    T0::lemma_outcomes_unique(data, e0, limit2, mode, depth + 1, sth, v1.0, aq1, au1, v2.0, bq1, bu1, ASN1Error::Invalid, 0, TagState::Fresh, ASN1Error::Invalid, 0, TagState::Fresh);
                    T1::lemma_outcomes_unique(data, aq1, limit2, mode, depth + 1, au1, v1.1, aq2, au2, v2.1, bq2, bu2, ASN1Error::Invalid, 0, TagState::Fresh, ASN1Error::Invalid, 0, TagState::Fresh);
                    T2::lemma_outcomes_unique(data, aq2, limit2, mode, depth + 1, au2, v1.2, aq3, au3, v2.2, bq3, bu3, ASN1Error::Invalid, 0, TagState::Fresh, ASN1Error::Invalid, 0, TagState::Fresh);
                    T3::lemma_outcomes_unique(data, aq3, limit2, mode, depth + 1, au3, v1.3, aq4, au4, v2.3, bq4, bu4, ASN1Error::Invalid, 0, TagState::Fresh, ASN1Error::Invalid, 0, TagState::Fresh);
                    T4::lemma_outcomes_unique(data, aq4, limit2, mode, depth + 1, au4, v1.4, aq5, au5, v2.4, bq5, bu5, ASN1Error::Invalid, 0, TagState::Fresh, ASN1Error::Invalid, 0, TagState::Fresh);
                    T5::lemma_outcomes_unique(data, aq5, limit2, mode, depth + 1, au5, v1.5, aq6, au6, v2.5, bq6, bu6, ASN1Error::Invalid, 0, TagState::Fresh, ASN1Error::Invalid, 0, TagState::Fresh);
                    T6::lemma_outcomes_unique(data, aq6, limit2, mode, depth + 1, au6, v1.6, aq7, au7, v2.6, bq7, bu7, ASN1Error::Invalid, 0, TagState::Fresh, ASN1Error::Invalid, 0, TagState::Fresh);
                    T7::lemma_outcomes_unique(data, aq7, limit2, mode, depth + 1, au7, v1.7, aq8, au8, v2.7, bq8, bu8, ASN1Error::Invalid, 0, TagState::Fresh, ASN1Error::Invalid, 0, TagState::Fresh);
                },
                HeadStep::HeadFail { kind, end: ee, st: sx } => {},
            }
        }
    }

    fn decode_ber(reader: &mut BERReader) -> (r: ASN1Result<Self>) {
        let ghost d0 = old(reader).data();
        let ghost pos0 = old(reader).posi();
        let ghost lim0 = old(reader).limiti();
        let ghost m0 = old(reader).modev();
        let ghost dep0 = old(reader).depthv();
        let ghost st00 = old(reader).tag_statev();
        let frame = match reader.parse_header(
            Tag { tag_class: TagClass::Universal, tag_number: 16 },
            TagType::Explicit,
        ) {
            Ok(f) => f,
            Err(e) => {
                return Err(e);
            },
        };
        if frame.pc != PCBit::Constructed {
            let inner: ASN1Result<Self> = Err(ASN1Error::Invalid);
            return reader.close_frame(frame, inner);
        }
        let ghost g0 = *reader;
        let t0 = match T0::decode_ber(reader) {
            Ok(v) => v,
            Err(e) => {
                let ghost ferr = e;
                let ghost bad_pos = reader.posi();
                let ghost bad_st = reader.tag_statev();
                let inner: ASN1Result<Self> = Err(e);
                let rr = reader.close_frame(frame, inner);
                proof {
                    if Self::sp_refusals_exact(m0) {
                assert forall|w: Self, e2: int, s2: TagState| !Self::sp_accepts(
                    d0, pos0, lim0, m0, dep0, st00, w, e2, s2,
                ) by {
                    if Self::sp_accepts(d0, pos0, lim0, m0, dep0, st00, w, e2, s2) {
                        match sp_header(d0, pos0, lim0, m0, dep0, st00, spec_univ_tag(16), TagType::Explicit) {
                            HeadStep::HeadOk { pc, length, end: e0, limit2, st: sth } => {
                                let (wq1, wu1, wq2, wu2, wq3, wu3, wq4, wu4, wq5, wu5, wq6, wu6, wq7, wu7, wq8, wu8) = choose|q1: int, u1: TagState, q2: int, u2: TagState, q3: int, u3: TagState, q4: int, u4: TagState, q5: int, u5: TagState, q6: int, u6: TagState, q7: int, u7: TagState, q8: int, u8: TagState|
                                    #![trigger T0::sp_accepts(d0, e0, limit2, m0, dep0 + 1, sth, w.0, q1, u1), T1::sp_accepts(d0, q1, limit2, m0, dep0 + 1, u1, w.1, q2, u2), T2::sp_accepts(d0, q2, limit2, m0, dep0 + 1, u2, w.2, q3, u3), T3::sp_accepts(d0, q3, limit2, m0, dep0 + 1, u3, w.3, q4, u4), T4::sp_accepts(d0, q4, limit2, m0, dep0 + 1, u4, w.4, q5, u5), T5::sp_accepts(d0, q5, limit2, m0, dep0 + 1, u5, w.5, q6, u6), T6::sp_accepts(d0, q6, limit2, m0, dep0 + 1, u6, w.6, q7, u7), T7::sp_accepts(d0, q7, limit2, m0, dep0 + 1, u7, w.7, q8, u8)]
                                                            T0::sp_accepts(d0, e0, limit2, m0, dep0 + 1, sth, w.0, q1, u1)
                            && T1::sp_accepts(d0, q1, limit2, m0, dep0 + 1, u1, w.1, q2, u2)
                            && T2::sp_accepts(d0, q2, limit2, m0, dep0 + 1, u2, w.2, q3, u3)
                            && T3::sp_accepts(d0, q3, limit2, m0, dep0 + 1, u3, w.3, q4, u4)
                            && T4::sp_accepts(d0, q4, limit2, m0, dep0 + 1, u4, w.4, q5, u5)
                            && T5::sp_accepts(d0, q5, limit2, m0, dep0 + 1, u5, w.5, q6, u6)
                            && T6::sp_accepts(d0, q6, limit2, m0, dep0 + 1, u6, w.6, q7, u7)
                            && T7::sp_accepts(d0, q7, limit2, m0, dep0 + 1, u7, w.7, q8, u8)
                            && rstep_matches(sp_close(d0, q8, limit2, u8, length, Ok::<Self, ASN1Error>(w)), Ok::<Self, ASN1Error>(w), e2, s2);
                                T0::lemma_outcomes_unique(d0, e0, limit2, m0, dep0 + 1, sth, w.0, wq1, wu1, w.0, wq1, wu1, ferr, bad_pos, bad_st, ferr, bad_pos, bad_st);
                                assert(false);
                            },
                            HeadStep::HeadFail { kind, end: ee, st: sx } => {},
                        }
                    }
                }
                    }
                }
                return rr;
            },
        };
        let ghost g1 = *reader;
        let t1 = match T1::decode_ber(reader) {
            Ok(v) => v,
            Err(e) => {
                let ghost ferr = e;
                let ghost bad_pos = reader.posi();
                let ghost bad_st = reader.tag_statev();
                let inner: ASN1Result<Self> = Err(e);
                let rr = reader.close_frame(frame, inner);
                proof {
                    if Self::sp_refusals_exact(m0) {
                assert forall|w: Self, e2: int, s2: TagState| !Self::sp_accepts(
                    d0, pos0, lim0, m0, dep0, st00, w, e2, s2,
                ) by {
                    if Self::sp_accepts(d0, pos0, lim0, m0, dep0, st00, w, e2, s2) {
                        match sp_header(d0, pos0, lim0, m0, dep0, st00, spec_univ_tag(16), TagType::Explicit) {
                            HeadStep::HeadOk { pc, length, end: e0, limit2, st: sth } => {
                                let (wq1, wu1, wq2, wu2, wq3, wu3, wq4, wu4, wq5, wu5, wq6, wu6, wq7, wu7, wq8, wu8) = choose|q1: int, u1: TagState, q2: int, u2: TagState, q3: int, u3: TagState, q4: int, u4: TagState, q5: int, u5: TagState, q6: int, u6: TagState, q7: int, u7: TagState, q8: int, u8: TagState|
                                    #![trigger T0::sp_accepts(d0, e0, limit2, m0, dep0 + 1, sth, w.0, q1, u1), T1::sp_accepts(d0, q1, limit2, m0, dep0 + 1, u1, w.1, q2, u2), T2::sp_accepts(d0, q2, limit2, m0, dep0 + 1, u2, w.2, q3, u3), T3::sp_accepts(d0, q3, limit2, m0, dep0 + 1, u3, w.3, q4, u4), T4::sp_accepts(d0, q4, limit2, m0, dep0 + 1, u4, w.4, q5, u5), T5::sp_accepts(d0, q5, limit2, m0, dep0 + 1, u5, w.5, q6, u6), T6::sp_accepts(d0, q6, limit2, m0, dep0 + 1, u6, w.6, q7, u7), T7::sp_accepts(d0, q7, limit2, m0, dep0 + 1, u7, w.7, q8, u8)]
                                                            T0::sp_accepts(d0, e0, limit2, m0, dep0 + 1, sth, w.0, q1, u1)
                            && T1::sp_accepts(d0, q1, limit2, m0, dep0 + 1, u1, w.1, q2, u2)
                            && T2::sp_accepts(d0, q2, limit2, m0, dep0 + 1, u2, w.2, q3, u3)
                            && T3::sp_accepts(d0, q3, limit2, m0, dep0 + 1, u3, w.3, q4, u4)
                            && T4::sp_accepts(d0, q4, limit2, m0, dep0 + 1, u4, w.4, q5, u5)
                            && T5::sp_accepts(d0, q5, limit2, m0, dep0 + 1, u5, w.5, q6, u6)
                            && T6::sp_accepts(d0, q6, limit2, m0, dep0 + 1, u6, w.6, q7, u7)
                            && T7::sp_accepts(d0, q7, limit2, m0, dep0 + 1, u7, w.7, q8, u8)
                            && rstep_matches(sp_close(d0, q8, limit2, u8, length, Ok::<Self, ASN1Error>(w)), Ok::<Self, ASN1Error>(w), e2, s2);
                                T0::lemma_outcomes_unique(d0, e0, limit2, m0, dep0 + 1, sth, w.0, wq1, wu1, t0, g1.posi(), g1.tag_statev(), ASN1Error::Invalid, 0, TagState::Fresh, ASN1Error::Invalid, 0, TagState::Fresh);
                                T1::lemma_outcomes_unique(d0, wq1, limit2, m0, dep0 + 1, wu1, w.1, wq2, wu2, w.1, wq2, wu2, ferr, bad_pos, bad_st, ferr, bad_pos, bad_st);
                                assert(false);
                            },
                            HeadStep::HeadFail { kind, end: ee, st: sx } => {},
                        }
                    }
                }
                    }
                }
                return rr;
            },
        };
        let ghost g2 = *reader;
        let t2 = match T2::decode_ber(reader) {
            Ok(v) => v,
            Err(e) => {
                let ghost ferr = e;
                let ghost bad_pos = reader.posi();
                let ghost bad_st = reader.tag_statev();
                let inner: ASN1Result<Self> = Err(e);
                let rr = reader.close_frame(frame, inner);
                proof {
                    if Self::sp_refusals_exact(m0) {
                assert forall|w: Self, e2: int, s2: TagState| !Self::sp_accepts(
                    d0, pos0, lim0, m0, dep0, st00, w, e2, s2,
                ) by {
                    if Self::sp_accepts(d0, pos0, lim0, m0, dep0, st00, w, e2, s2) {
                        match sp_header(d0, pos0, lim0, m0, dep0, st00, spec_univ_tag(16), TagType::Explicit) {
                            HeadStep::HeadOk { pc, length, end: e0, limit2, st: sth } => {
                                let (wq1, wu1, wq2, wu2, wq3, wu3, wq4, wu4, wq5, wu5, wq6, wu6, wq7, wu7, wq8, wu8) = choose|q1: int, u1: TagState, q2: int, u2: TagState, q3: int, u3: TagState, q4: int, u4: TagState, q5: int, u5: TagState, q6: int, u6: TagState, q7: int, u7: TagState, q8: int, u8: TagState|
                                    #![trigger T0::sp_accepts(d0, e0, limit2, m0, dep0 + 1, sth, w.0, q1, u1), T1::sp_accepts(d0, q1, limit2, m0, dep0 + 1, u1, w.1, q2, u2), T2::sp_accepts(d0, q2, limit2, m0, dep0 + 1, u2, w.2, q3, u3), T3::sp_accepts(d0, q3, limit2, m0, dep0 + 1, u3, w.3, q4, u4), T4::sp_accepts(d0, q4, limit2, m0, dep0 + 1, u4, w.4, q5, u5), T5::sp_accepts(d0, q5, limit2, m0, dep0 + 1, u5, w.5, q6, u6), T6::sp_accepts(d0, q6, limit2, m0, dep0 + 1, u6, w.6, q7, u7), T7::sp_accepts(d0, q7, limit2, m0, dep0 + 1, u7, w.7, q8, u8)]
                                                            T0::sp_accepts(d0, e0, limit2, m0, dep0 + 1, sth, w.0, q1, u1)
                            && T1::sp_accepts(d0, q1, limit2, m0, dep0 + 1, u1, w.1, q2, u2)
                            && T2::sp_accepts(d0, q2, limit2, m0, dep0 + 1, u2, w.2, q3, u3)
                            && T3::sp_accepts(d0, q3, limit2, m0, dep0 + 1, u3, w.3, q4, u4)
                            && T4::sp_accepts(d0, q4, limit2, m0, dep0 + 1, u4, w.4, q5, u5)
                            && T5::sp_accepts(d0, q5, limit2, m0, dep0 + 1, u5, w.5, q6, u6)
                            && T6::sp_accepts(d0, q6, limit2, m0, dep0 + 1, u6, w.6, q7, u7)
                            && T7::sp_accepts(d0, q7, limit2, m0, dep0 + 1, u7, w.7, q8, u8)
                            && rstep_matches(sp_close(d0, q8, limit2, u8, length, Ok::<Self, ASN1Error>(w)), Ok::<Self, ASN1Error>(w), e2, s2);
                                T0::lemma_outcomes_unique(d0, e0, limit2, m0, dep0 + 1, sth, w.0, wq1, wu1, t0, g1.posi(), g1.tag_statev(), ASN1Error::Invalid, 0, TagState::Fresh, ASN1Error::Invalid, 0, TagState::Fresh);
                                T1::lemma_outcomes_unique(d0, wq1, limit2, m0, dep0 + 1, wu1, w.1, wq2, wu2, t1, g2.posi(), g2.tag_statev(), ASN1Error::Invalid, 0, TagState::Fresh, ASN1Error::Invalid, 0, TagState::Fresh);
                                T2::lemma_outcomes_unique(d0, wq2, limit2, m0, dep0 + 1, wu2, w.2, wq3, wu3, w.2, wq3, wu3, ferr, bad_pos, bad_st, ferr, bad_pos, bad_st);
                                assert(false);
                            },
                            HeadStep::HeadFail { kind, end: ee, st: sx } => {},
                        }
                    }
                }
                    }
                }
                return rr;
            },
        };
        let ghost g3 = *reader;
        let t3 = match T3::decode_ber(reader) {
            Ok(v) => v,
            Err(e) => {
                let ghost ferr = e;
                let ghost bad_pos = reader.posi();
                let ghost bad_st = reader.tag_statev();
                let inner: ASN1Result<Self> = Err(e);
                let rr = reader.close_frame(frame, inner);
                proof {
                    if Self::sp_refusals_exact(m0) {
                assert forall|w: Self, e2: int, s2: TagState| !Self::sp_accepts(
                    d0, pos0, lim0, m0, dep0, st00, w, e2, s2,
                ) by {
                    if Self::sp_accepts(d0, pos0, lim0, m0, dep0, st00, w, e2, s2) {
                        match sp_header(d0, pos0, lim0, m0, dep0, st00, spec_univ_tag(16), TagType::Explicit) {
                            HeadStep::HeadOk { pc, length, end: e0, limit2, st: sth } => {
                                let (wq1, wu1, wq2, wu2, wq3, wu3, wq4, wu4, wq5, wu5, wq6, wu6, wq7, wu7, wq8, wu8) = choose|q1: int, u1: TagState, q2: int, u2: TagState, q3: int, u3: TagState, q4: int, u4: TagState, q5: int, u5: TagState, q6: int, u6: TagState, q7: int, u7: TagState, q8: int, u8: TagState|
                                    #![trigger T0::sp_accepts(d0, e0, limit2, m0, dep0 + 1, sth, w.0, q1, u1), T1::sp_accepts(d0, q1, limit2, m0, dep0 + 1, u1, w.1, q2, u2), T2::sp_accepts(d0, q2, limit2, m0, dep0 + 1, u2, w.2, q3, u3), T3::sp_accepts(d0, q3, limit2, m0, dep0 + 1, u3, w.3, q4, u4), T4::sp_accepts(d0, q4, limit2, m0, dep0 + 1, u4, w.4, q5, u5), T5::sp_accepts(d0, q5, limit2, m0, dep0 + 1, u5, w.5, q6, u6), T6::sp_accepts(d0, q6, limit2, m0, dep0 + 1, u6, w.6, q7, u7), T7::sp_accepts(d0, q7, limit2, m0, dep0 + 1, u7, w.7, q8, u8)]
                                                            T0::sp_accepts(d0, e0, limit2, m0, dep0 + 1, sth, w.0, q1, u1)
                            && T1::sp_accepts(d0, q1, limit2, m0, dep0 + 1, u1, w.1, q2, u2)
                            && T2::sp_accepts(d0, q2, limit2, m0, dep0 + 1, u2, w.2, q3, u3)
                            && T3::sp_accepts(d0, q3, limit2, m0, dep0 + 1, u3, w.3, q4, u4)
                            && T4::sp_accepts(d0, q4, limit2, m0, dep0 + 1, u4, w.4, q5, u5)
                            && T5::sp_accepts(d0, q5, limit2, m0, dep0 + 1, u5, w.5, q6, u6)
                            && T6::sp_accepts(d0, q6, limit2, m0, dep0 + 1, u6, w.6, q7, u7)
                            && T7::sp_accepts(d0, q7, limit2, m0, dep0 + 1, u7, w.7, q8, u8)
                            && rstep_matches(sp_close(d0, q8, limit2, u8, length, Ok::<Self, ASN1Error>(w)), Ok::<Self, ASN1Error>(w), e2, s2);
                                T0::lemma_outcomes_unique(d0, e0, limit2, m0, dep0 + 1, sth, w.0, wq1, wu1, t0, g1.posi(), g1.tag_statev(), ASN1Error::Invalid, 0, TagState::Fresh, ASN1Error::Invalid, 0, TagState::Fresh);
                                T1::lemma_outcomes_unique(d0, wq1, limit2, m0, dep0 + 1, wu1, w.1, wq2, wu2, t1, g2.posi(), g2.tag_statev(), ASN1Error::Invalid, 0, TagState::Fresh, ASN1Error::Invalid, 0, TagState::Fresh);
                                T2::lemma_outcomes_unique(d0, wq2, limit2, m0, dep0 + 1, wu2, w.2, wq3, wu3, t2, g3.posi(), g3.tag_statev(), ASN1Error::Invalid, 0, TagState::Fresh, ASN1Error::Invalid, 0, TagState::Fresh);
                                T3::lemma_outcomes_unique(d0, wq3, limit2, m0, dep0 + 1, wu3, w.3, wq4, wu4, w.3, wq4, wu4, ferr, bad_pos, bad_st, ferr, bad_pos, bad_st);
                                assert(false);
                            },
                            HeadStep::HeadFail { kind, end: ee, st: sx } => {},
                        }
                    }
                }
                    }
                }
                return rr;
            },
        };
        let ghost g4 = *reader;
        let t4 = match T4::decode_ber(reader) {
            Ok(v) => v,
            Err(e) => {
                let ghost ferr = e;
                let ghost bad_pos = reader.posi();
                let ghost bad_st = reader.tag_statev();
                let inner: ASN1Result<Self> = Err(e);
                let rr = reader.close_frame(frame, inner);
                proof {
                    if Self::sp_refusals_exact(m0) {
                assert forall|w: Self, e2: int, s2: TagState| !Self::sp_accepts(
                    d0, pos0, lim0, m0, dep0, st00, w, e2, s2,
                ) by {
                    if Self::sp_accepts(d0, pos0, lim0, m0, dep0, st00, w, e2, s2) {
                        match sp_header(d0, pos0, lim0, m0, dep0, st00, spec_univ_tag(16), TagType::Explicit) {
                            HeadStep::HeadOk { pc, length, end: e0, limit2, st: sth } => {
                                let (wq1, wu1, wq2, wu2, wq3, wu3, wq4, wu4, wq5, wu5, wq6, wu6, wq7, wu7, wq8, wu8) = choose|q1: int, u1: TagState, q2: int, u2: TagState, q3: int, u3: TagState, q4: int, u4: TagState, q5: int, u5: TagState, q6: int, u6: TagState, q7: int, u7: TagState, q8: int, u8: TagState|
                                    #![trigger T0::sp_accepts(d0, e0, limit2, m0, dep0 + 1, sth, w.0, q1, u1), T1::sp_accepts(d0, q1, limit2, m0, dep0 + 1, u1, w.1, q2, u2), T2::sp_accepts(d0, q2, limit2, m0, dep0 + 1, u2, w.2, q3, u3), T3::sp_accepts(d0, q3, limit2, m0, dep0 + 1, u3, w.3, q4, u4), T4::sp_accepts(d0, q4, limit2, m0, dep0 + 1, u4, w.4, q5, u5), T5::sp_accepts(d0, q5, limit2, m0, dep0 + 1, u5, w.5, q6, u6), T6::sp_accepts(d0, q6, limit2, m0, dep0 + 1, u6, w.6, q7, u7), T7::sp_accepts(d0, q7, limit2, m0, dep0 + 1, u7, w.7, q8, u8)]
                                                            T0::sp_accepts(d0, e0, limit2, m0, dep0 + 1, sth, w.0, q1, u1)
                            && T1::sp_accepts(d0, q1, limit2, m0, dep0 + 1, u1, w.1, q2, u2)
                            && T2::sp_accepts(d0, q2, limit2, m0, dep0 + 1, u2, w.2, q3, u3)
                            && T3::sp_accepts(d0, q3, limit2, m0, dep0 + 1, u3, w.3, q4, u4)
                            && T4::sp_accepts(d0, q4, limit2, m0, dep0 + 1, u4, w.4, q5, u5)
                            && T5::sp_accepts(d0, q5, limit2, m0, dep0 + 1, u5, w.5, q6, u6)
                            && T6::sp_accepts(d0, q6, limit2, m0, dep0 + 1, u6, w.6, q7, u7)
                            && T7::sp_accepts(d0, q7, limit2, m0, dep0 + 1, u7, w.7, q8, u8)
                            && rstep_matches(sp_close(d0, q8, limit2, u8, length, Ok::<Self, ASN1Error>(w)), Ok::<Self, ASN1Error>(w), e2, s2);
                                T0::lemma_outcomes_unique(d0, e0, limit2, m0, dep0 + 1, sth, w.0, wq1, wu1, t0, g1.posi(), g1.tag_statev(), ASN1Error::Invalid, 0, TagState::Fresh, ASN1Error::Invalid, 0, TagState::Fresh);
                                T1::lemma_outcomes_unique(d0, wq1, limit2, m0, dep0 + 1, wu1, w.1, wq2, wu2, t1, g2.posi(), g2.tag_statev(), ASN1Error::Invalid, 0, TagState::Fresh, ASN1Error::Invalid, 0, TagState::Fresh);
                                T2::lemma_outcomes_unique(d0, wq2, limit2, m0, dep0 + 1, wu2, w.2, wq3, wu3, t2, g3.posi(), g3.tag_statev(), ASN1Error::Invalid, 0, TagState::Fresh, ASN1Error::Invalid, 0, TagState::Fresh);
                                T3::lemma_outcomes_unique(d0, wq3, limit2, m0, dep0 + 1, wu3, w.3, wq4, wu4, t3, g4.posi(), g4.tag_statev(), ASN1Error::Invalid, 0, TagState::Fresh, ASN1Error::Invalid, 0, TagState::Fresh);
                                T4::lemma_outcomes_unique(d0, wq4, limit2, m0, dep0 + 1, wu4, w.4, wq5, wu5, w.4, wq5, wu5, ferr, bad_pos, bad_st, ferr, bad_pos, bad_st);
                                assert(false);
                            },
                            HeadStep::HeadFail { kind, end: ee, st: sx } => {},
                        }
                    }
                }
                    }
                }
                return rr;
            },
        };
        let ghost g5 = *reader;
        let t5 = match T5::decode_ber(reader) {
            Ok(v) => v,
            Err(e) => {
                let ghost ferr = e;
                let ghost bad_pos = reader.posi();
                let ghost bad_st = reader.tag_statev();
                let inner: ASN1Result<Self> = Err(e);
                let rr = reader.close_frame(frame, inner);
                proof {
                    if Self::sp_refusals_exact(m0) {
                assert forall|w: Self, e2: int, s2: TagState| !Self::sp_accepts(
                    d0, pos0, lim0, m0, dep0, st00, w, e2, s2,
                ) by {
                    if Self::sp_accepts(d0, pos0, lim0, m0, dep0, st00, w, e2, s2) {
                        match sp_header(d0, pos0, lim0, m0, dep0, st00, spec_univ_tag(16), TagType::Explicit) {
                            HeadStep::HeadOk { pc, length, end: e0, limit2, st: sth } => {
                                let (wq1, wu1, wq2, wu2, wq3, wu3, wq4, wu4, wq5, wu5, wq6, wu6, wq7, wu7, wq8, wu8) = choose|q1: int, u1: TagState, q2: int, u2: TagState, q3: int, u3: TagState, q4: int, u4: TagState, q5: int, u5: TagState, q6: int, u6: TagState, q7: int, u7: TagState, q8: int, u8: TagState|
                                    #![trigger T0::sp_accepts(d0, e0, limit2, m0, dep0 + 1, sth, w.0, q1, u1), T1::sp_accepts(d0, q1, limit2, m0, dep0 + 1, u1, w.1, q2, u2), T2::sp_accepts(d0, q2, limit2, m0, dep0 + 1, u2, w.2, q3, u3), T3::sp_accepts(d0, q3, limit2, m0, dep0 + 1, u3, w.3, q4, u4), T4::sp_accepts(d0, q4, limit2, m0, dep0 + 1, u4, w.4, q5, u5), T5::sp_accepts(d0, q5, limit2, m0, dep0 + 1, u5, w.5, q6, u6), T6::sp_accepts(d0, q6, limit2, m0, dep0 + 1, u6, w.6, q7, u7), T7::sp_accepts(d0, q7, limit2, m0, dep0 + 1, u7, w.7, q8, u8)]
                                                            T0::sp_accepts(d0, e0, limit2, m0, dep0 + 1, sth, w.0, q1, u1)
                            && T1::sp_accepts(d0, q1, limit2, m0, dep0 + 1, u1, w.1, q2, u2)
                            && T2::sp_accepts(d0, q2, limit2, m0, dep0 + 1, u2, w.2, q3, u3)
                            && T3::sp_accepts(d0, q3, limit2, m0, dep0 + 1, u3, w.3, q4, u4)
                            && T4::sp_accepts(d0, q4, limit2, m0, dep0 + 1, u4, w.4, q5, u5)
                            && T5::sp_accepts(d0, q5, limit2, m0, dep0 + 1, u5, w.5, q6, u6)
                            && T6::sp_accepts(d0, q6, limit2, m0, dep0 + 1, u6, w.6, q7, u7)
                            && T7::sp_accepts(d0, q7, limit2, m0, dep0 + 1, u7, w.7, q8, u8)
                            && rstep_matches(sp_close(d0, q8, limit2, u8, length, Ok::<Self, ASN1Error>(w)), Ok::<Self, ASN1Error>(w), e2, s2);
                                T0::lemma_outcomes_unique(d0, e0, limit2, m0, dep0 + 1, sth, w.0, wq1, wu1, t0, g1.posi(), g1.tag_statev(), ASN1Error::Invalid, 0, TagState::Fresh, ASN1Error::Invalid, 0, TagState::Fresh);
                                T1::lemma_outcomes_unique(d0, wq1, limit2, m0, dep0 + 1, wu1, w.1, wq2, wu2, t1, g2.posi(), g2.tag_statev(), ASN1Error::Invalid, 0, TagState::Fresh, ASN1Error::Invalid, 0, TagState::Fresh);
                                T2::lemma_outcomes_unique(d0, wq2, limit2, m0, dep0 + 1, wu2, w.2, wq3, wu3, t2, g3.posi(), g3.tag_statev(), ASN1Error::Invalid, 0, TagState::Fresh, ASN1Error::Invalid, 0, TagState::Fresh);
                                T3::lemma_outcomes_unique(d0, wq3, limit2, m0, dep0 + 1, wu3, w.3, wq4, wu4, t3, g4.posi(), g4.tag_statev(), ASN1Error::Invalid, 0, TagState::Fresh, ASN1Error::Invalid, 0, TagState::Fresh);
                                T4::lemma_outcomes_unique(d0, wq4, limit2, m0, dep0 + 1, wu4, w.4, wq5, wu5, t4, g5.posi(), g5.tag_statev(), ASN1Error::Invalid, 0, TagState::Fresh, ASN1Error::Invalid, 0, TagState::Fresh);
                                T5::lemma_outcomes_unique(d0, wq5, limit2, m0, dep0 + 1, wu5, w.5, wq6, wu6, w.5, wq6, wu6, ferr, bad_pos, bad_st, ferr, bad_pos, bad_st);
                                assert(false);
                            },
                            HeadStep::HeadFail { kind, end: ee, st: sx } => {},
                        }
                    }
                }
                    }
                }
                return rr;
            },
        };
        let ghost g6 = *reader;
        let t6 = match T6::decode_ber(reader) {
            Ok(v) => v,
            Err(e) => {
                let ghost ferr = e;
                let ghost bad_pos = reader.posi();
                let ghost bad_st = reader.tag_statev();
                let inner: ASN1Result<Self> = Err(e);
                let rr = reader.close_frame(frame, inner);
                proof {
                    if Self::sp_refusals_exact(m0) {
                assert forall|w: Self, e2: int, s2: TagState| !Self::sp_accepts(
                    d0, pos0, lim0, m0, dep0, st00, w, e2, s2,
                ) by {
                    if Self::sp_accepts(d0, pos0, lim0, m0, dep0, st00, w, e2, s2) {
                        match sp_header(d0, pos0, lim0, m0, dep0, st00, spec_univ_tag(16), TagType::Explicit) {
                            HeadStep::HeadOk { pc, length, end: e0, limit2, st: sth } => {
                                let (wq1, wu1, wq2, wu2, wq3, wu3, wq4, wu4, wq5, wu5, wq6, wu6, wq7, wu7, wq8, wu8) = choose|q1: int, u1: TagState, q2: int, u2: TagState, q3: int, u3: TagState, q4: int, u4: TagState, q5: int, u5: TagState, q6: int, u6: TagState, q7: int, u7: TagState, q8: int, u8: TagState|
                                    #![trigger T0::sp_accepts(d0, e0, limit2, m0, dep0 + 1, sth, w.0, q1, u1), T1::sp_accepts(d0, q1, limit2, m0, dep0 + 1, u1, w.1, q2, u2), T2::sp_accepts(d0, q2, limit2, m0, dep0 + 1, u2, w.2, q3, u3), T3::sp_accepts(d0, q3, limit2, m0, dep0 + 1, u3, w.3, q4, u4), T4::sp_accepts(d0, q4, limit2, m0, dep0 + 1, u4, w.4, q5, u5), T5::sp_accepts(d0, q5, limit2, m0, dep0 + 1, u5, w.5, q6, u6), T6::sp_accepts(d0, q6, limit2, m0, dep0 + 1, u6, w.6, q7, u7), T7::sp_accepts(d0, q7, limit2, m0, dep0 + 1, u7, w.7, q8, u8)]
                                                            T0::sp_accepts(d0, e0, limit2, m0, dep0 + 1, sth, w.0, q1, u1)
                            && T1::sp_accepts(d0, q1, limit2, m0, dep0 + 1, u1, w.1, q2, u2)
                            && T2::sp_accepts(d0, q2, limit2, m0, dep0 + 1, u2, w.2, q3, u3)
                            && T3::sp_accepts(d0, q3, limit2, m0, dep0 + 1, u3, w.3, q4, u4)
                            && T4::sp_accepts(d0, q4, limit2, m0, dep0 + 1, u4, w.4, q5, u5)
                            && T5::sp_accepts(d0, q5, limit2, m0, dep0 + 1, u5, w.5, q6, u6)
                            && T6::sp_accepts(d0, q6, limit2, m0, dep0 + 1, u6, w.6, q7, u7)
                            && T7::sp_accepts(d0, q7, limit2, m0, dep0 + 1, u7, w.7, q8, u8)
                            && rstep_matches(sp_close(d0, q8, limit2, u8, length, Ok::<Self, ASN1Error>(w)), Ok::<Self, ASN1Error>(w), e2, s2);
                                T0::lemma_outcomes_unique(d0, e0, limit2, m0, dep0 + 1, sth, w.0, wq1, wu1, t0, g1.posi(), g1.tag_statev(), ASN1Error::Invalid, 0, TagState::Fresh, ASN1Error::Invalid, 0, TagState::Fresh);
                                T1::lemma_outcomes_unique(d0, wq1, limit2, m0, dep0 + 1, wu1, w.1, wq2, wu2, t1, g2.posi(), g2.tag_statev(), ASN1Error::Invalid, 0, TagState::Fresh, ASN1Error::Invalid, 0, TagState::Fresh);
                                T2::lemma_outcomes_unique(d0, wq2, limit2, m0, dep0 + 1, wu2, w.2, wq3, wu3, t2, g3.posi(), g3.tag_statev(), ASN1Error::Invalid, 0, TagState::Fresh, ASN1Error::Invalid, 0, TagState::Fresh);
                                T3::lemma_outcomes_unique(d0, wq3, limit2, m0, dep0 + 1, wu3, w.3, wq4, wu4, t3, g4.posi(), g4.tag_statev(), ASN1Error::Invalid, 0, TagState::Fresh, ASN1Error::Invalid, 0, TagState::Fresh);
                                T4::lemma_outcomes_unique(d0, wq4, limit2, m0, dep0 + 1, wu4, w.4, wq5, wu5, t4, g5.posi(), g5.tag_statev(), ASN1Error::Invalid, 0, TagState::Fresh, ASN1Error::Invalid, 0, TagState::Fresh);
                                T5::lemma_outcomes_unique(d0, wq5, limit2, m0, dep0 + 1, wu5, w.5, wq6, wu6, t5, g6.posi(), g6.tag_statev(), ASN1Error::Invalid, 0, TagState::Fresh, ASN1Error::Invalid, 0, TagState::Fresh);
                                T6::lemma_outcomes_unique(d0, wq6, limit2, m0, dep0 + 1, wu6, w.6, wq7, wu7, w.6, wq7, wu7, ferr, bad_pos, bad_st, ferr, bad_pos, bad_st);
                                assert(false);
                            },
                            HeadStep::HeadFail { kind, end: ee, st: sx } => {},
                        }
                    }
                }
                    }
                }
                return rr;
            },
        };
        let ghost g7 = *reader;
        let t7 = match T7::decode_ber(reader) {
            Ok(v) => v,
            Err(e) => {
                let ghost ferr = e;
                let ghost bad_pos = reader.posi();
                let ghost bad_st = reader.tag_statev();
                let inner: ASN1Result<Self> = Err(e);
                let rr = reader.close_frame(frame, inner);
                proof {
                    if Self::sp_refusals_exact(m0) {
                assert forall|w: Self, e2: int, s2: TagState| !Self::sp_accepts(
                    d0, pos0, lim0, m0, dep0, st00, w, e2, s2,
                ) by {
                    if Self::sp_accepts(d0, pos0, lim0, m0, dep0, st00, w, e2, s2) {
                        match sp_header(d0, pos0, lim0, m0, dep0, st00, spec_univ_tag(16), TagType::Explicit) {
                            HeadStep::HeadOk { pc, length, end: e0, limit2, st: sth } => {
                                let (wq1, wu1, wq2, wu2, wq3, wu3, wq4, wu4, wq5, wu5, wq6, wu6, wq7, wu7, wq8, wu8) = choose|q1: int, u1: TagState, q2: int, u2: TagState, q3: int, u3: TagState, q4: int, u4: TagState, q5: int, u5: TagState, q6: int, u6: TagState, q7: int, u7: TagState, q8: int, u8: TagState|
                                    #![trigger T0::sp_accepts(d0, e0, limit2, m0, dep0 + 1, sth, w.0, q1, u1), T1::sp_accepts(d0, q1, limit2, m0, dep0 + 1, u1, w.1, q2, u2), T2::sp_accepts(d0, q2, limit2, m0, dep0 + 1, u2, w.2, q3, u3), T3::sp_accepts(d0, q3, limit2, m0, dep0 + 1, u3, w.3, q4, u4), T4::sp_accepts(d0, q4, limit2, m0, dep0 + 1, u4, w.4, q5, u5), T5::sp_accepts(d0, q5, limit2, m0, dep0 + 1, u5, w.5, q6, u6), T6::sp_accepts(d0, q6, limit2, m0, dep0 + 1, u6, w.6, q7, u7), T7::sp_accepts(d0, q7, limit2, m0, dep0 + 1, u7, w.7, q8, u8)]
                                                            T0::sp_accepts(d0, e0, limit2, m0, dep0 + 1, sth, w.0, q1, u1)
                            && T1::sp_accepts(d0, q1, limit2, m0, dep0 + 1, u1, w.1, q2, u2)
                            && T2::sp_accepts(d0, q2, limit2, m0, dep0 + 1, u2, w.2, q3, u3)
                            && T3::sp_accepts(d0, q3, limit2, m0, dep0 + 1, u3, w.3, q4, u4)
                            && T4::sp_accepts(d0, q4, limit2, m0, dep0 + 1, u4, w.4, q5, u5)
                            && T5::sp_accepts(d0, q5, limit2, m0, dep0 + 1, u5, w.5, q6, u6)
                            && T6::sp_accepts(d0, q6, limit2, m0, dep0 + 1, u6, w.6, q7, u7)
                            && T7::sp_accepts(d0, q7, limit2, m0, dep0 + 1, u7, w.7, q8, u8)
                            && rstep_matches(sp_close(d0, q8, limit2, u8, length, Ok::<Self, ASN1Error>(w)), Ok::<Self, ASN1Error>(w), e2, s2);
                                T0::lemma_outcomes_unique(d0, e0, limit2, m0, dep0 + 1, sth, w.0, wq1, wu1, t0, g1.posi(), g1.tag_statev(), ASN1Error::Invalid, 0, TagState::Fresh, ASN1Error::Invalid, 0, TagState::Fresh);
                                T1::lemma_outcomes_unique(d0, wq1, limit2, m0, dep0 + 1, wu1, w.1, wq2, wu2, t1, g2.posi(), g2.tag_statev(), ASN1Error::Invalid, 0, TagState::Fresh, ASN1Error::Invalid, 0, TagState::Fresh);
                                T2::lemma_outcomes_unique(d0, wq2, limit2, m0, dep0 + 1, wu2, w.2, wq3, wu3, t2, g3.posi(), g3.tag_statev(), ASN1Error::Invalid, 0, TagState::Fresh, ASN1Error::Invalid, 0, TagState::Fresh);
                                T3::lemma_outcomes_unique(d0, wq3, limit2, m0, dep0 + 1, wu3, w.3, wq4, wu4, t3, g4.posi(), g4.tag_statev(), ASN1Error::Invalid, 0, TagState::Fresh, ASN1Error::Invalid, 0, TagState::Fresh);
                                T4::lemma_outcomes_unique(d0, wq4, limit2, m0, dep0 + 1, wu4, w.4, wq5, wu5, t4, g5.posi(), g5.tag_statev(), ASN1Error::Invalid, 0, TagState::Fresh, ASN1Error::Invalid, 0, TagState::Fresh);
                                T5::lemma_outcomes_unique(d0, wq5, limit2, m0, dep0 + 1, wu5, w.5, wq6, wu6, t5, g6.posi(), g6.tag_statev(), ASN1Error::Invalid, 0, TagState::Fresh, ASN1Error::Invalid, 0, TagState::Fresh);
                                T6::lemma_outcomes_unique(d0, wq6, limit2, m0, dep0 + 1, wu6, w.6, wq7, wu7, t6, g7.posi(), g7.tag_statev(), ASN1Error::Invalid, 0, TagState::Fresh, ASN1Error::Invalid, 0, TagState::Fresh);
                                T7::lemma_outcomes_unique(d0, wq7, limit2, m0, dep0 + 1, wu7, w.7, wq8, wu8, w.7, wq8, wu8, ferr, bad_pos, bad_st, ferr, bad_pos, bad_st);
                                assert(false);
                            },
                            HeadStep::HeadFail { kind, end: ee, st: sx } => {},
                        }
                    }
                }
                    }
                }
                return rr;
            },
        };
        let ghost g8 = *reader;
        let result = (t0, t1, t2, t3, t4, t5, t6, t7);
        let ghost gv = result;
        let ghost before_close = *reader;
        let rr = reader.close_frame(frame, Ok(result));
        proof {
            if rr is Ok {
                assert(T0::sp_accepts(g0.data(), g0.posi(), g0.limiti(), g0.modev(), g0.depthv(), g0.tag_statev(), gv.0, g1.posi(), g1.tag_statev()));
                assert(T1::sp_accepts(g0.data(), g1.posi(), g0.limiti(), g0.modev(), g0.depthv(), g1.tag_statev(), gv.1, g2.posi(), g2.tag_statev()));
                assert(T2::sp_accepts(g0.data(), g2.posi(), g0.limiti(), g0.modev(), g0.depthv(), g2.tag_statev(), gv.2, g3.posi(), g3.tag_statev()));
                assert(T3::sp_accepts(g0.data(), g3.posi(), g0.limiti(), g0.modev(), g0.depthv(), g3.tag_statev(), gv.3, g4.posi(), g4.tag_statev()));
                assert(T4::sp_accepts(g0.data(), g4.posi(), g0.limiti(), g0.modev(), g0.depthv(), g4.tag_statev(), gv.4, g5.posi(), g5.tag_statev()));
                assert(T5::sp_accepts(g0.data(), g5.posi(), g0.limiti(), g0.modev(), g0.depthv(), g5.tag_statev(), gv.5, g6.posi(), g6.tag_statev()));
                assert(T6::sp_accepts(g0.data(), g6.posi(), g0.limiti(), g0.modev(), g0.depthv(), g6.tag_statev(), gv.6, g7.posi(), g7.tag_statev()));
                assert(T7::sp_accepts(g0.data(), g7.posi(), g0.limiti(), g0.modev(), g0.depthv(), g7.tag_statev(), gv.7, g8.posi(), g8.tag_statev()));
            }
            if rr is Err && Self::sp_refusals_exact(m0) {
                assert forall|w: Self, e2: int, s2: TagState| !Self::sp_accepts(
                    d0, pos0, lim0, m0, dep0, st00, w, e2, s2,
                ) by {
                    if Self::sp_accepts(d0, pos0, lim0, m0, dep0, st00, w, e2, s2) {
                        match sp_header(d0, pos0, lim0, m0, dep0, st00, spec_univ_tag(16), TagType::Explicit) {
                            HeadStep::HeadOk { pc, length, end: e0, limit2, st: sth } => {
                                let (wq1, wu1, wq2, wu2, wq3, wu3, wq4, wu4, wq5, wu5, wq6, wu6, wq7, wu7, wq8, wu8) = choose|q1: int, u1: TagState, q2: int, u2: TagState, q3: int, u3: TagState, q4: int, u4: TagState, q5: int, u5: TagState, q6: int, u6: TagState, q7: int, u7: TagState, q8: int, u8: TagState|
                                    #![trigger T0::sp_accepts(d0, e0, limit2, m0, dep0 + 1, sth, w.0, q1, u1), T1::sp_accepts(d0, q1, limit2, m0, dep0 + 1, u1, w.1, q2, u2), T2::sp_accepts(d0, q2, limit2, m0, dep0 + 1, u2, w.2, q3, u3), T3::sp_accepts(d0, q3, limit2, m0, dep0 + 1, u3, w.3, q4, u4), T4::sp_accepts(d0, q4, limit2, m0, dep0 + 1, u4, w.4, q5, u5), T5::sp_accepts(d0, q5, limit2, m0, dep0 + 1, u5, w.5, q6, u6), T6::sp_accepts(d0, q6, limit2, m0, dep0 + 1, u6, w.6, q7, u7), T7::sp_accepts(d0, q7, limit2, m0, dep0 + 1, u7, w.7, q8, u8)]
                                                            T0::sp_accepts(d0, e0, limit2, m0, dep0 + 1, sth, w.0, q1, u1)
                            && T1::sp_accepts(d0, q1, limit2, m0, dep0 + 1, u1, w.1, q2, u2)
                            && T2::sp_accepts(d0, q2, limit2, m0, dep0 + 1, u2, w.2, q3, u3)
                            && T3::sp_accepts(d0, q3, limit2, m0, dep0 + 1, u3, w.3, q4, u4)
                            && T4::sp_accepts(d0, q4, limit2, m0, dep0 + 1, u4, w.4, q5, u5)
                            && T5::sp_accepts(d0, q5, limit2, m0, dep0 + 1, u5, w.5, q6, u6)
                            && T6::sp_accepts(d0, q6, limit2, m0, dep0 + 1, u6, w.6, q7, u7)
                            && T7::sp_accepts(d0, q7, limit2, m0, dep0 + 1, u7, w.7, q8, u8)
                            && rstep_matches(sp_close(d0, q8, limit2, u8, length, Ok::<Self, ASN1Error>(w)), Ok::<Self, ASN1Error>(w), e2, s2);
                                T0::lemma_outcomes_unique(d0, e0, limit2, m0, dep0 + 1, sth, w.0, wq1, wu1, t0, g1.posi(), g1.tag_statev(), ASN1Error::Invalid, 0, TagState::Fresh, ASN1Error::Invalid, 0, TagState::Fresh);
                                T1::lemma_outcomes_unique(d0, wq1, limit2, m0, dep0 + 1, wu1, w.1, wq2, wu2, t1, g2.posi(), g2.tag_statev(), ASN1Error::Invalid, 0, TagState::Fresh, ASN1Error::Invalid, 0, TagState::Fresh);
                                T2::lemma_outcomes_unique(d0, wq2, limit2, m0, dep0 + 1, wu2, w.2, wq3, wu3, t2, g3.posi(), g3.tag_statev(), ASN1Error::Invalid, 0, TagState::Fresh, ASN1Error::Invalid, 0, TagState::Fresh);
                                T3::lemma_outcomes_unique(d0, wq3, limit2, m0, dep0 + 1, wu3, w.3, wq4, wu4, t3, g4.posi(), g4.tag_statev(), ASN1Error::Invalid, 0, TagState::Fresh, ASN1Error::Invalid, 0, TagState::Fresh);
                                T4::lemma_outcomes_unique(d0, wq4, limit2, m0, dep0 + 1, wu4, w.4, wq5, wu5, t4, g5.posi(), g5.tag_statev(), ASN1Error::Invalid, 0, TagState::Fresh, ASN1Error::Invalid, 0, TagState::Fresh);
                                T5::lemma_outcomes_unique(d0, wq5, limit2, m0, dep0 + 1, wu5, w.5, wq6, wu6, t5, g6.posi(), g6.tag_statev(), ASN1Error::Invalid, 0, TagState::Fresh, ASN1Error::Invalid, 0, TagState::Fresh);
                                T6::lemma_outcomes_unique(d0, wq6, limit2, m0, dep0 + 1, wu6, w.6, wq7, wu7, t6, g7.posi(), g7.tag_statev(), ASN1Error::Invalid, 0, TagState::Fresh, ASN1Error::Invalid, 0, TagState::Fresh);
                                T7::lemma_outcomes_unique(d0, wq7, limit2, m0, dep0 + 1, wu7, w.7, wq8, wu8, t7, g8.posi(), g8.tag_statev(), ASN1Error::Invalid, 0, TagState::Fresh, ASN1Error::Invalid, 0, TagState::Fresh);
                            },
                            HeadStep::HeadFail { kind, end: ee, st: sx } => {},
                        }
                    }
                }
            }
        }
        rr
    }
}

impl<T0: BERDecodable, T1: BERDecodable, T2: BERDecodable, T3: BERDecodable, T4: BERDecodable, T5: BERDecodable, T6: BERDecodable, T7: BERDecodable, T8: BERDecodable> BERDecodable for (T0, T1, T2, T3, T4, T5, T6, T7, T8) {
    open spec fn sp_accepts(
        data: Seq<u8>,
        pos: int,
        limit: int,
        mode: BERMode,
        depth: int,
        st0: TagState,
        v: Self,
        end: int,
        st: TagState,
    ) -> bool {
        match sp_header(data, pos, limit, mode, depth, st0, spec_univ_tag(16), TagType::Explicit) {
            HeadStep::HeadFail { kind, end: e, st: s } => false,
            HeadStep::HeadOk { pc, length, end: e0, limit2, st: sth } => pc
                == PCBit::Constructed && (exists|p1: int, s1: TagState, p2: int, s2: TagState, p3: int, s3: TagState, p4: int, s4: TagState, p5: int, s5: TagState, p6: int, s6: TagState, p7: int, s7: TagState, p8: int, s8: TagState, p9: int, s9: TagState|
                #![trigger T0::sp_accepts(data, e0, limit2, mode, depth + 1, sth, v.0, p1, s1), T1::sp_accepts(data, p1, limit2, mode, depth + 1, s1, v.1, p2, s2), T2::sp_accepts(data, p2, limit2, mode, depth + 1, s2, v.2, p3, s3), T3::sp_accepts(data, p3, limit2, mode, depth + 1, s3, v.3, p4, s4), T4::sp_accepts(data, p4, limit2, mode, depth + 1, s4, v.4, p5, s5), T5::sp_accepts(data, p5, limit2, mode, depth + 1, s5, v.5, p6, s6), T6::sp_accepts(data, p6, limit2, mode, depth + 1, s6, v.6, p7, s7), T7::sp_accepts(data, p7, limit2, mode, depth + 1, s7, v.7, p8, s8), T8::sp_accepts(data, p8, limit2, mode, depth + 1, s8, v.8, p9, s9)]
                {
                    &&& T0::sp_accepts(data, e0, limit2, mode, depth + 1, sth, v.0, p1, s1)
                    &&& T1::sp_accepts(data, p1, limit2, mode, depth + 1, s1, v.1, p2, s2)
                    &&& T2::sp_accepts(data, p2, limit2, mode, depth + 1, s2, v.2, p3, s3)
                    &&& T3::sp_accepts(data, p3, limit2, mode, depth + 1, s3, v.3, p4, s4)
                    &&& T4::sp_accepts(data, p4, limit2, mode, depth + 1, s4, v.4, p5, s5)
                    &&& T5::sp_accepts(data, p5, limit2, mode, depth + 1, s5, v.5, p6, s6)
                    &&& T6::sp_accepts(data, p6, limit2, mode, depth + 1, s6, v.6, p7, s7)
                    &&& T7::sp_accepts(data, p7, limit2, mode, depth + 1, s7, v.7, p8, s8)
                    &&& T8::sp_accepts(data, p8, limit2, mode, depth + 1, s8, v.8, p9, s9)
                    &&& rstep_matches(
                        sp_close(data, p9, limit2, s9, length, Ok::<Self, ASN1Error>(v)),
                        Ok::<Self, ASN1Error>(v),
                        end,
                        st,
                    )
                }),
        }
    }

    open spec fn sp_refusals_exact(mode: BERMode) -> bool {
        mode == BERMode::Der && T0::sp_refusals_exact(BERMode::Der) && T1::sp_refusals_exact(BERMode::Der) && T2::sp_refusals_exact(BERMode::Der) && T3::sp_refusals_exact(BERMode::Der) && T4::sp_refusals_exact(BERMode::Der) && T5::sp_refusals_exact(BERMode::Der) && T6::sp_refusals_exact(BERMode::Der) && T7::sp_refusals_exact(BERMode::Der) && T8::sp_refusals_exact(BERMode::Der)
    }

    open spec fn sp_refuses(
        data: Seq<u8>,
        pos: int,
        limit: int,
        mode: BERMode,
        depth: int,
        st0: TagState,
        kind: ASN1Error,
        end: int,
        st: TagState,
    ) -> bool {
        !(exists|w: Self, e2: int, s2: TagState|
            Self::sp_accepts(data, pos, limit, mode, depth, st0, w, e2, s2))
    }

    proof fn lemma_outcomes_unique(
        data: Seq<u8>,
        pos: int,
        limit: int,
        mode: BERMode,
        depth: int,
        st0: TagState,
        v1: Self,
        e1: int,
        s1: TagState,
        v2: Self,
        e2: int,
        s2: TagState,
        k3: ASN1Error,
        e3: int,
        s3: TagState,
        k4: ASN1Error,
        e4: int,
        s4: TagState,
    ) {
        if Self::sp_accepts(data, pos, limit, mode, depth, st0, v1, e1, s1) && Self::sp_accepts(
            data,
            pos,
            limit,
            mode,
            depth,
            st0,
            v2,
            e2,
            s2,
        ) {
            match sp_header(data, pos, limit, mode, depth, st0, spec_univ_tag(16), TagType::Explicit) {
                HeadStep::HeadOk { pc, length, end: e0, limit2, st: sth } => {
                    let (aq1, au1, aq2, au2, aq3, au3, aq4, au4, aq5, au5, aq6, au6, aq7, au7, aq8, au8, aq9, au9) = choose|q1: int, u1: TagState, q2: int, u2: TagState, q3: int, u3: TagState, q4: int, u4: TagState, q5: int, u5: TagState, q6: int, u6: TagState, q7: int, u7: TagState, q8: int, u8: TagState, q9: int, u9: TagState|
                        #![trigger T0::sp_accepts(data, e0, limit2, mode, depth + 1, sth, v1.0, q1, u1), T1::sp_accepts(data, q1, limit2, mode, depth + 1, u1, v1.1, q2, u2), T2::sp_accepts(data, q2, limit2, mode, depth + 1, u2, v1.2, q3, u3), T3::sp_accepts(data, q3, limit2, mode, depth + 1, u3, v1.3, q4, u4), T4::sp_accepts(data, q4, limit2, mode, depth + 1, u4, v1.4, q5, u5), T5::sp_accepts(data, q5, limit2, mode, depth + 1, u5, v1.5, q6, u6), T6::sp_accepts(data, q6, limit2, mode, depth + 1, u6, v1.6, q7, u7), T7::sp_accepts(data, q7, limit2, mode, depth + 1, u7, v1.7, q8, u8), T8::sp_accepts(data, q8, limit2, mode, depth + 1, u8, v1.8, q9, u9)]
                                            T0::sp_accepts(data, e0, limit2, mode, depth + 1, sth, v1.0, q1, u1)
                        && T1::sp_accepts(data, q1, limit2, mode, depth + 1, u1, v1.1, q2, u2)
                        && T2::sp_accepts(data, q2, limit2, mode, depth + 1, u2, v1.2, q3, u3)
                        && T3::sp_accepts(data, q3, limit2, mode, depth + 1, u3, v1.3, q4, u4)
                        && T4::sp_accepts(data, q4, limit2, mode, depth + 1, u4, v1.4, q5, u5)
                        && T5::sp_accepts(data, q5, limit2, mode, depth + 1, u5, v1.5, q6, u6)
                        && T6::sp_accepts(data, q6, limit2, mode, depth + 1, u6, v1.6, q7, u7)
                        && T7::sp_accepts(data, q7, limit2, mode, depth + 1, u7, v1.7, q8, u8)
                        && T8::sp_accepts(data, q8, limit2, mode, depth + 1, u8, v1.8, q9, u9)
                        && rstep_matches(sp_close(data, q9, limit2, u9, length, Ok::<Self, ASN1Error>(v1)), Ok::<Self, ASN1Error>(v1), e1, s1);
                    let (bq1, bu1, bq2, bu2, bq3, bu3, bq4, bu4, bq5, bu5, bq6, bu6, bq7, bu7, bq8, bu8, bq9, bu9) = choose|q1: int, u1: TagState, q2: int, u2: TagState, q3: int, u3: TagState, q4: int, u4: TagState, q5: int, u5: TagState, q6: int, u6: TagState, q7: int, u7: TagState, q8: int, u8: TagState, q9: int, u9: TagState|
                        #![trigger T0::sp_accepts(data, e0, limit2, mode, depth + 1, sth, v2.0, q1, u1), T1::sp_accepts(data, q1, limit2, mode, depth + 1, u1, v2.1, q2, u2), T2::sp_accepts(data, q2, limit2, mode, depth + 1, u2, v2.2, q3, u3), T3::sp_accepts(data, q3, limit2, mode, depth + 1, u3, v2.3, q4, u4), T4::sp_accepts(data, q4, limit2, mode, depth + 1, u4, v2.4, q5, u5), T5::sp_accepts(data, q5, limit2, mode, depth + 1, u5, v2.5, q6, u6), T6::sp_accepts(data, q6, limit2, mode, depth + 1, u6, v2.6, q7, u7), T7::sp_accepts(data, q7, limit2, mode, depth + 1, u7, v2.7, q8, u8), T8::sp_accepts(data, q8, limit2, mode, depth + 1, u8, v2.8, q9, u9)]
                                            T0::sp_accepts(data, e0, limit2, mode, depth + 1, sth, v2.0, q1, u1)
                        && T1::sp_accepts(data, q1, limit2, mode, depth + 1, u1, v2.1, q2, u2)
                        && T2::sp_accepts(data, q2, limit2, mode, depth + 1, u2, v2.2, q3, u3)
                        && T3::sp_accepts(data, q3, limit2, mode, depth + 1, u3, v2.3, q4, u4)
                        && T4::sp_accepts(data, q4, limit2, mode, depth + 1, u4, v2.4, q5, u5)
                        && T5::sp_accepts(data, q5, limit2, mode, depth + 1, u5, v2.5, q6, u6)
                        && T6::sp_accepts(data, q6, limit2, mode, depth + 1, u6, v2.6, q7, u7)
                        && T7::sp_accepts(data, q7, limit2, mode, depth + 1, u7, v2.7, q8, u8)
                        && T8::sp_accepts(data, q8, limit2, mode, depth + 1, u8, v2.8, q9, u9)
                        && rstep_matches(sp_close(data, q9, limit2, u9, length, Ok::<Self, ASN1Error>(v2)), Ok::<Self, ASN1Error>(v2), e2, s2);
                    T0::lemma_outcomes_unique(data, e0, limit2, mode, depth + 1, sth, v1.0, aq1, au1, v2.0, bq1, bu1, ASN1Error::Invalid, 0, TagState::Fresh, ASN1Error::Invalid, 0, TagState::Fresh);
                    T1::lemma_outcomes_unique(data, aq1, limit2, mode, depth + 1, au1, v1.1, aq2, au2, v2.1, bq2, bu2, ASN1Error::Invalid, 0, TagState::Fresh, ASN1Error::Invalid, 0, TagState::Fresh);
                    T2::lemma_outcomes_unique(data, aq2, limit2, mode, depth + 1, au2, v1.2, aq3, au3, v2.2, bq3, bu3, ASN1Error::Invalid, 0, TagState::Fresh, ASN1Error::Invalid, 0, TagState::Fresh);
                    T3::lemma_outcomes_unique(data, aq3, limit2, mode, depth + 1, au3, v1.3, aq4, au4, v2.3, bq4, bu4, ASN1Error::Invalid, 0, TagState::Fresh, ASN1Error::Invalid, 0, TagState::Fresh);
                    T4::lemma_outcomes_unique(data, aq4, limit2, mode, depth + 1, au4, v1.4, aq5, au5, v2.4, bq5, bu5, ASN1Error::Invalid, 0, TagState::Fresh, ASN1Error::Invalid, 0, TagState::Fresh);
                    T5::lemma_outcomes_unique(data, aq5, limit2, mode, depth + 1, au5, v1.5, aq6, au6, v2.5, bq6, bu6, ASN1Error::Invalid, 0, TagState::Fresh, ASN1Error::Invalid, 0, TagState::Fresh);
                    T6::lemma_outcomes_unique(data, aq6, limit2, mode, depth + 1, au6, v1.6, aq7, au7, v2.6, bq7, bu7, ASN1Error::Invalid, 0, TagState::Fresh, ASN1Error::Invalid, 0, TagState::Fresh);
                    T7::lemma_outcomes_unique(data, aq7, limit2, mode, depth + 1, au7, v1.7, aq8, au8, v2.7, bq8, bu8, ASN1Error::Invalid, 0, TagState::Fresh, ASN1Error::Invalid, 0, TagState::Fresh);
                    T8::lemma_outcomes_unique(data, aq8, limit2, mode, depth + 1, au8, v1.8, aq9, au9, v2.8, bq9, bu9, ASN1Error::Invalid, 0, TagState::Fresh, ASN1Error::Invalid, 0, TagState::Fresh);
                },
                HeadStep::HeadFail { kind, end: ee, st: sx } => {},
            }
        }
    }

    fn decode_ber(reader: &mut BERReader) -> (r: ASN1Result<Self>) {
        let ghost d0 = old(reader).data();
        let ghost pos0 = old(reader).posi();
        let ghost lim0 = old(reader).limiti();
        let ghost m0 = old(reader).modev();
        let ghost dep0 = old(reader).depthv();
        let ghost st00 = old(reader).tag_statev();
        let frame = match reader.parse_header(
            Tag { tag_class: TagClass::Universal, tag_number: 16 },
            TagType::Explicit,
        ) {
            Ok(f) => f,
            Err(e) => {
                return Err(e);
            },
        };
        if frame.pc != PCBit::Constructed {
            let inner: ASN1Result<Self> = Err(ASN1Error::Invalid);
            return reader.close_frame(frame, inner);
        }
        let ghost g0 = *reader;
        let t0 = match T0::decode_ber(reader) {
            Ok(v) => v,
            Err(e) => {
                let ghost ferr = e;
                let ghost bad_pos = reader.posi();
                let ghost bad_st = reader.tag_statev();
                let inner: ASN1Result<Self> = Err(e);
                let rr = reader.close_frame(frame, inner);
                proof {
                    if Self::sp_refusals_exact(m0) {
                assert forall|w: Self, e2: int, s2: TagState| !Self::sp_accepts(
                    d0, pos0, lim0, m0, dep0, st00, w, e2, s2,
                ) by {
                    if Self::sp_accepts(d0, pos0, lim0, m0, dep0, st00, w, e2, s2) {
                        match sp_header(d0, pos0, lim0, m0, dep0, st00, spec_univ_tag(16), TagType::Explicit) {
                            HeadStep::HeadOk { pc, length, end: e0, limit2, st: sth } => {
                                let (wq1, wu1, wq2, wu2, wq3, wu3, wq4, wu4, wq5, wu5, wq6, wu6, wq7, wu7, wq8, wu8, wq9, wu9) = choose|q1: int, u1: TagState, q2: int, u2: TagState, q3: int, u3: TagState, q4: int, u4: TagState, q5: int, u5: TagState, q6: int, u6: TagState, q7: int, u7: TagState, q8: int, u8: TagState, q9: int, u9: TagState|
                                    #![trigger T0::sp_accepts(d0, e0, limit2, m0, dep0 + 1, sth, w.0, q1, u1), T1::sp_accepts(d0, q1, limit2, m0, dep0 + 1, u1, w.1, q2, u2), T2::sp_accepts(d0, q2, limit2, m0, dep0 + 1, u2, w.2, q3, u3), T3::sp_accepts(d0, q3, limit2, m0, dep0 + 1, u3, w.3, q4, u4), T4::sp_accepts(d0, q4, limit2, m0, dep0 + 1, u4, w.4, q5, u5), T5::sp_accepts(d0, q5, limit2, m0, dep0 + 1, u5, w.5, q6, u6), T6::sp_accepts(d0, q6, limit2, m0, dep0 + 1, u6, w.6, q7, u7), T7::sp_accepts(d0, q7, limit2, m0, dep0 + 1, u7, w.7, q8, u8), T8::sp_accepts(d0, q8, limit2, m0, dep0 + 1, u8, w.8, q9, u9)]
                                                            T0::sp_accepts(d0, e0, limit2, m0, dep0 + 1, sth, w.0, q1, u1)
                            && T1::sp_accepts(d0, q1, limit2, m0, dep0 + 1, u1, w.1, q2, u2)
                            && T2::sp_accepts(d0, q2, limit2, m0, dep0 + 1, u2, w.2, q3, u3)
                            && T3::sp_accepts(d0, q3, limit2, m0, dep0 + 1, u3, w.3, q4, u4)
                            && T4::sp_accepts(d0, q4, limit2, m0, dep0 + 1, u4, w.4, q5, u5)
                            && T5::sp_accepts(d0, q5, limit2, m0, dep0 + 1, u5, w.5, q6, u6)
                            && T6::sp_accepts(d0, q6, limit2, m0, dep0 + 1, u6, w.6, q7, u7)
                            && T7::sp_accepts(d0, q7, limit2, m0, dep0 + 1, u7, w.7, q8, u8)
                            && T8::sp_accepts(d0, q8, limit2, m0, dep0 + 1, u8, w.8, q9, u9)
                            && rstep_matches(sp_close(d0, q9, limit2, u9, length, Ok::<Self, ASN1Error>(w)), Ok::<Self, ASN1Error>(w), e2, s2);
                                T0::lemma_outcomes_unique(d0, e0, limit2, m0, dep0 + 1, sth, w.0, wq1, wu1, w.0, wq1, wu1, ferr, bad_pos, bad_st, ferr, bad_pos, bad_st);
                                assert(false);
                            },
                            HeadStep::HeadFail { kind, end: ee, st: sx } => {},
                        }
                    }
                }
                    }
                }
                return rr;
            },
        };
        let ghost g1 = *reader;
        let t1 = match T1::decode_ber(reader) {
            Ok(v) => v,
            Err(e) => {
                let ghost ferr = e;
                let ghost bad_pos = reader.posi();
                let ghost bad_st = reader.tag_statev();
                let inner: ASN1Result<Self> = Err(e);
                let rr = reader.close_frame(frame, inner);
                proof {
                    if Self::sp_refusals_exact(m0) {
                assert forall|w: Self, e2: int, s2: TagState| !Self::sp_accepts(
                    d0, pos0, lim0, m0, dep0, st00, w, e2, s2,
                ) by {
                    if Self::sp_accepts(d0, pos0, lim0, m0, dep0, st00, w, e2, s2) {
                        match sp_header(d0, pos0, lim0, m0, dep0, st00, spec_univ_tag(16), TagType::Explicit) {
                            HeadStep::HeadOk { pc, length, end: e0, limit2, st: sth } => {
                                let (wq1, wu1, wq2, wu2, wq3, wu3, wq4, wu4, wq5, wu5, wq6, wu6, wq7, wu7, wq8, wu8, wq9, wu9) = choose|q1: int, u1: TagState, q2: int, u2: TagState, q3: int, u3: TagState, q4: int, u4: TagState, q5: int, u5: TagState, q6: int, u6: TagState, q7: int, u7: TagState, q8: int, u8: TagState, q9: int, u9: TagState|
                                    #![trigger T0::sp_accepts(d0, e0, limit2, m0, dep0 + 1, sth, w.0, q1, u1), T1::sp_accepts(d0, q1, limit2, m0, dep0 + 1, u1, w.1, q2, u2), T2::sp_accepts(d0, q2, limit2, m0, dep0 + 1, u2, w.2, q3, u3), T3::sp_accepts(d0, q3, limit2, m0, dep0 + 1, u3, w.3, q4, u4), T4::sp_accepts(d0, q4, limit2, m0, dep0 + 1, u4, w.4, q5, u5), T5::sp_accepts(d0, q5, limit2, m0, dep0 + 1, u5, w.5, q6, u6), T6::sp_accepts(d0, q6, limit2, m0, dep0 + 1, u6, w.6, q7, u7), T7::sp_accepts(d0, q7, limit2, m0, dep0 + 1, u7, w.7, q8, u8), T8::sp_accepts(d0, q8, limit2, m0, dep0 + 1, u8, w.8, q9, u9)]
                                                            T0::sp_accepts(d0, e0, limit2, m0, dep0 + 1, sth, w.0, q1, u1)
                            && T1::sp_accepts(d0, q1, limit2, m0, dep0 + 1, u1, w.1, q2, u2)
                            && T2::sp_accepts(d0, q2, limit2, m0, dep0 + 1, u2, w.2, q3, u3)
                            && T3::sp_accepts(d0, q3, limit2, m0, dep0 + 1, u3, w.3, q4, u4)
                            && T4::sp_accepts(d0, q4, limit2, m0, dep0 + 1, u4, w.4, q5, u5)
                            && T5::sp_accepts(d0, q5, limit2, m0, dep0 + 1, u5, w.5, q6, u6)
                            && T6::sp_accepts(d0, q6, limit2, m0, dep0 + 1, u6, w.6, q7, u7)
                            && T7::sp_accepts(d0, q7, limit2, m0, dep0 + 1, u7, w.7, q8, u8)
                            && T8::sp_accepts(d0, q8, limit2, m0, dep0 + 1, u8, w.8, q9, u9)
                            && rstep_matches(sp_close(d0, q9, limit2, u9, length, Ok::<Self, ASN1Error>(w)), Ok::<Self, ASN1Error>(w), e2, s2);
                                T0::lemma_outcomes_unique(d0, e0, limit2, m0, dep0 + 1, sth, w.0, wq1, wu1, t0, g1.posi(), g1.tag_statev(), ASN1Error::Invalid, 0, TagState::Fresh, ASN1Error::Invalid, 0, TagState::Fresh);
                                T1::lemma_outcomes_unique(d0, wq1, limit2, m0, dep0 + 1, wu1, w.1, wq2, wu2, w.1, wq2, wu2, ferr, bad_pos, bad_st, ferr, bad_pos, bad_st);
                                assert(false);
                            },
                            HeadStep::HeadFail { kind, end: ee, st: sx } => {},
                        }
                    }
                }
                    }
                }
                return rr;
            },
        };
        let ghost g2 = *reader;
        let t2 = match T2::decode_ber(reader) {
            Ok(v) => v,
            Err(e) => {
                let ghost ferr = e;
                let ghost bad_pos = reader.posi();
                let ghost bad_st = reader.tag_statev();
                let inner: ASN1Result<Self> = Err(e);
                let rr = reader.close_frame(frame, inner);
                proof {
                    if Self::sp_refusals_exact(m0) {
                assert forall|w: Self, e2: int, s2: TagState| !Self::sp_accepts(
                    d0, pos0, lim0, m0, dep0, st00, w, e2, s2,
                ) by {
                    if Self::sp_accepts(d0, pos0, lim0, m0, dep0, st00, w, e2, s2) {
                        match sp_header(d0, pos0, lim0, m0, dep0, st00, spec_univ_tag(16), TagType::Explicit) {
                            HeadStep::HeadOk { pc, length, end: e0, limit2, st: sth } => {
                                let (wq1, wu1, wq2, wu2, wq3, wu3, wq4, wu4, wq5, wu5, wq6, wu6, wq7, wu7, wq8, wu8, wq9, wu9) = choose|q1: int, u1: TagState, q2: int, u2: TagState, q3: int, u3: TagState, q4: int, u4: TagState, q5: int, u5: TagState, q6: int, u6: TagState, q7: int, u7: TagState, q8: int, u8: TagState, q9: int, u9: TagState|
                                    #![trigger T0::sp_accepts(d0, e0, limit2, m0, dep0 + 1, sth, w.0, q1, u1), T1::sp_accepts(d0, q1, limit2, m0, dep0 + 1, u1, w.1, q2, u2), T2::sp_accepts(d0, q2, limit2, m0, dep0 + 1, u2, w.2, q3, u3), T3::sp_accepts(d0, q3, limit2, m0, dep0 + 1, u3, w.3, q4, u4), T4::sp_accepts(d0, q4, limit2, m0, dep0 + 1, u4, w.4, q5, u5), T5::sp_accepts(d0, q5, limit2, m0, dep0 + 1, u5, w.5, q6, u6), T6::sp_accepts(d0, q6, limit2, m0, dep0 + 1, u6, w.6, q7, u7), T7::sp_accepts(d0, q7, limit2, m0, dep0 + 1, u7, w.7, q8, u8), T8::sp_accepts(d0, q8, limit2, m0, dep0 + 1, u8, w.8, q9, u9)]
                                                            T0::sp_accepts(d0, e0, limit2, m0, dep0 + 1, sth, w.0, q1, u1)
                            && T1::sp_accepts(d0, q1, limit2, m0, dep0 + 1, u1, w.1, q2, u2)
                            && T2::sp_accepts(d0, q2, limit2, m0, dep0 + 1, u2, w.2, q3, u3)
                            && T3::sp_accepts(d0, q3, limit2, m0, dep0 + 1, u3, w.3, q4, u4)
                            && T4::sp_accepts(d0, q4, limit2, m0, dep0 + 1, u4, w.4, q5, u5)
                            && T5::sp_accepts(d0, q5, limit2, m0, dep0 + 1, u5, w.5, q6, u6)
                            && T6::sp_accepts(d0, q6, limit2, m0, dep0 + 1, u6, w.6, q7, u7)
                            && T7::sp_accepts(d0, q7, limit2, m0, dep0 + 1, u7, w.7, q8, u8)
                            && T8::sp_accepts(d0, q8, limit2, m0, dep0 + 1, u8, w.8, q9, u9)
                            && rstep_matches(sp_close(d0, q9, limit2, u9, length, Ok::<Self, ASN1Error>(w)), Ok::<Self, ASN1Error>(w), e2, s2);
                                T0::lemma_outcomes_unique(d0, e0, limit2, m0, dep0 + 1, sth, w.0, wq1, wu1, t0, g1.posi(), g1.tag_statev(), ASN1Error::Invalid, 0, TagState::Fresh, ASN1Error::Invalid, 0, TagState::Fresh);
                                T1::lemma_outcomes_unique(d0, wq1, limit2, m0, dep0 + 1, wu1, w.1, wq2, wu2, t1, g2.posi(), g2.tag_statev(), ASN1Error::Invalid, 0, TagState::Fresh, ASN1Error::Invalid, 0, TagState::Fresh);
                                T2::lemma_outcomes_unique(d0, wq2, limit2, m0, dep0 + 1, wu2, w.2, wq3, wu3, w.2, wq3, wu3, ferr, bad_pos, bad_st, ferr, bad_pos, bad_st);
                                assert(false);
                            },
                            HeadStep::HeadFail { kind, end: ee, st: sx } => {},
                        }
                    }
                }
                    }
                }
                return rr;
            },
        };
        let ghost g3 = *reader;
        let t3 = match T3::decode_ber(reader) {
            Ok(v) => v,
            Err(e) => {
                let ghost ferr = e;
                let ghost bad_pos = reader.posi();
                let ghost bad_st = reader.tag_statev();
                let inner: ASN1Result<Self> = Err(e);
                let rr = reader.close_frame(frame, inner);
                proof {
                    if Self::sp_refusals_exact(m0) {
                assert forall|w: Self, e2: int, s2: TagState| !Self::sp_accepts(
                    d0, pos0, lim0, m0, dep0, st00, w, e2, s2,
                ) by {
                    if Self::sp_accepts(d0, pos0, lim0, m0, dep0, st00, w, e2, s2) {
                        match sp_header(d0, pos0, lim0, m0, dep0, st00, spec_univ_tag(16), TagType::Explicit) {
                            HeadStep::HeadOk { pc, length, end: e0, limit2, st: sth } => {
                                let (wq1, wu1, wq2, wu2, wq3, wu3, wq4, wu4, wq5, wu5, wq6, wu6, wq7, wu7, wq8, wu8, wq9, wu9) = choose|q1: int, u1: TagState, q2: int, u2: TagState, q3: int, u3: TagState, q4: int, u4: TagState, q5: int, u5: TagState, q6: int, u6: TagState, q7: int, u7: TagState, q8: int, u8: TagState, q9: int, u9: TagState|
                                    #![trigger T0::sp_accepts(d0, e0, limit2, m0, dep0 + 1, sth, w.0, q1, u1), T1::sp_accepts(d0, q1, limit2, m0, dep0 + 1, u1, w.1, q2, u2), T2::sp_accepts(d0, q2, limit2, m0, dep0 + 1, u2, w.2, q3, u3), T3::sp_accepts(d0, q3, limit2, m0, dep0 + 1, u3, w.3, q4, u4), T4::sp_accepts(d0, q4, limit2, m0, dep0 + 1, u4, w.4, q5, u5), T5::sp_accepts(d0, q5, limit2, m0, dep0 + 1, u5, w.5, q6, u6), T6::sp_accepts(d0, q6, limit2, m0, dep0 + 1, u6, w.6, q7, u7), T7::sp_accepts(d0, q7, limit2, m0, dep0 + 1, u7, w.7, q8, u8), T8::sp_accepts(d0, q8, limit2, m0, dep0 + 1, u8, w.8, q9, u9)]
                                                            T0::sp_accepts(d0, e0, limit2, m0, dep0 + 1, sth, w.0, q1, u1)
                            && T1::sp_accepts(d0, q1, limit2, m0, dep0 + 1, u1, w.1, q2, u2)
                            && T2::sp_accepts(d0, q2, limit2, m0, dep0 + 1, u2, w.2, q3, u3)
                            && T3::sp_accepts(d0, q3, limit2, m0, dep0 + 1, u3, w.3, q4, u4)
                            && T4::sp_accepts(d0, q4, limit2, m0, dep0 + 1, u4, w.4, q5, u5)
                            && T5::sp_accepts(d0, q5, limit2, m0, dep0 + 1, u5, w.5, q6, u6)
                            && T6::sp_accepts(d0, q6, limit2, m0, dep0 + 1, u6, w.6, q7, u7)
                            && T7::sp_accepts(d0, q7, limit2, m0, dep0 + 1, u7, w.7, q8, u8)
                            && T8::sp_accepts(d0, q8, limit2, m0, dep0 + 1, u8, w.8, q9, u9)
                            && rstep_matches(sp_close(d0, q9, limit2, u9, length, Ok::<Self, ASN1Error>(w)), Ok::<Self, ASN1Error>(w), e2, s2);
                                T0::lemma_outcomes_unique(d0, e0, limit2, m0, dep0 + 1, sth, w.0, wq1, wu1, t0, g1.posi(), g1.tag_statev(), ASN1Error::Invalid, 0, TagState::Fresh, ASN1Error::Invalid, 0, TagState::Fresh);
                                T1::lemma_outcomes_unique(d0, wq1, limit2, m0, dep0 + 1, wu1, w.1, wq2, wu2, t1, g2.posi(), g2.tag_statev(), ASN1Error::Invalid, 0, TagState::Fresh, ASN1Error::Invalid, 0, TagState::Fresh);
                                T2::lemma_outcomes_unique(d0, wq2, limit2, m0, dep0 + 1, wu2, w.2, wq3, wu3, t2, g3.posi(), g3.tag_statev(), ASN1Error::Invalid, 0, TagState::Fresh, ASN1Error::Invalid, 0, TagState::Fresh);
                                T3::lemma_outcomes_unique(d0, wq3, limit2, m0, dep0 + 1, wu3, w.3, wq4, wu4, w.3, wq4, wu4, ferr, bad_pos, bad_st, ferr, bad_pos, bad_st);
                                assert(false);
                            },
                            HeadStep::HeadFail { kind, end: ee, st: sx } => {},
                        }
                    }
                }
                    }
                }
                return rr;
            },
        };
        let ghost g4 = *reader;
        let t4 = match T4::decode_ber(reader) {
            Ok(v) => v,
            Err(e) => {
                let ghost ferr = e;
                let ghost bad_pos = reader.posi();
                let ghost bad_st = reader.tag_statev();
                let inner: ASN1Result<Self> = Err(e);
                let rr = reader.close_frame(frame, inner);
                proof {
                    if Self::sp_refusals_exact(m0) {
                assert forall|w: Self, e2: int, s2: TagState| !Self::sp_accepts(
                    d0, pos0, lim0, m0, dep0, st00, w, e2, s2,
                ) by {
                    if Self::sp_accepts(d0, pos0, lim0, m0, dep0, st00, w, e2, s2) {
                        match sp_header(d0, pos0, lim0, m0, dep0, st00, spec_univ_tag(16), TagType::Explicit) {
                            HeadStep::HeadOk { pc, length, end: e0, limit2, st: sth } => {
                                let (wq1, wu1, wq2, wu2, wq3, wu3, wq4, wu4, wq5, wu5, wq6, wu6, wq7, wu7, wq8, wu8, wq9, wu9) = choose|q1: int, u1: TagState, q2: int, u2: TagState, q3: int, u3: TagState, q4: int, u4: TagState, q5: int, u5: TagState, q6: int, u6: TagState, q7: int, u7: TagState, q8: int, u8: TagState, q9: int, u9: TagState|
                                    #![trigger T0::sp_accepts(d0, e0, limit2, m0, dep0 + 1, sth, w.0, q1, u1), T1::sp_accepts(d0, q1, limit2, m0, dep0 + 1, u1, w.1, q2, u2), T2::sp_accepts(d0, q2, limit2, m0, dep0 + 1, u2, w.2, q3, u3), T3::sp_accepts(d0, q3, limit2, m0, dep0 + 1, u3, w.3, q4, u4), T4::sp_accepts(d0, q4, limit2, m0, dep0 + 1, u4, w.4, q5, u5), T5::sp_accepts(d0, q5, limit2, m0, dep0 + 1, u5, w.5, q6, u6), T6::sp_accepts(d0, q6, limit2, m0, dep0 + 1, u6, w.6, q7, u7), T7::sp_accepts(d0, q7, limit2, m0, dep0 + 1, u7, w.7, q8, u8), T8::sp_accepts(d0, q8, limit2, m0, dep0 + 1, u8, w.8, q9, u9)]
                                                            T0::sp_accepts(d0, e0, limit2, m0, dep0 + 1, sth, w.0, q1, u1)
                            && T1::sp_accepts(d0, q1, limit2, m0, dep0 + 1, u1, w.1, q2, u2)
                            && T2::sp_accepts(d0, q2, limit2, m0, dep0 + 1, u2, w.2, q3, u3)
                            && T3::sp_accepts(d0, q3, limit2, m0, dep0 + 1, u3, w.3, q4, u4)
                            && T4::sp_accepts(d0, q4, limit2, m0, dep0 + 1, u4, w.4, q5, u5)
                            && T5::sp_accepts(d0, q5, limit2, m0, dep0 + 1, u5, w.5, q6, u6)
                            && T6::sp_accepts(d0, q6, limit2, m0, dep0 + 1, u6, w.6, q7, u7)
                            && T7::sp_accepts(d0, q7, limit2, m0, dep0 + 1, u7, w.7, q8, u8)
                            && T8::sp_accepts(d0, q8, limit2, m0, dep0 + 1, u8, w.8, q9, u9)
                            && rstep_matches(sp_close(d0, q9, limit2, u9, length, Ok::<Self, ASN1Error>(w)), Ok::<Self, ASN1Error>(w), e2, s2);
                                T0::lemma_outcomes_unique(d0, e0, limit2, m0, dep0 + 1, sth, w.0, wq1, wu1, t0, g1.posi(), g1.tag_statev(), ASN1Error::Invalid, 0, TagState::Fresh, ASN1Error::Invalid, 0, TagState::Fresh);
                                T1::lemma_outcomes_unique(d0, wq1, limit2, m0, dep0 + 1, wu1, w.1, wq2, wu2, t1, g2.posi(), g2.tag_statev(), ASN1Error::Invalid, 0, TagState::Fresh, ASN1Error::Invalid, 0, TagState::Fresh);
                                T2::lemma_outcomes_unique(d0, wq2, limit2, m0, dep0 + 1, wu2, w.2, wq3, wu3, t2, g3.posi(), g3.tag_statev(), ASN1Error::Invalid, 0, TagState::Fresh, ASN1Error::Invalid, 0, TagState::Fresh);
                                T3::lemma_outcomes_unique(d0, wq3, limit2, m0, dep0 + 1, wu3, w.3, wq4, wu4, t3, g4.posi(), g4.tag_statev(), ASN1Error::Invalid, 0, TagState::Fresh, ASN1Error::Invalid, 0, TagState::Fresh);
                                T4::lemma_outcomes_unique(d0, wq4, limit2, m0, dep0 + 1, wu4, w.4, wq5, wu5, w.4, wq5, wu5, ferr, bad_pos, bad_st, ferr, bad_pos, bad_st);
                                assert(false);
                            },
                            HeadStep::HeadFail { kind, end: ee, st: sx } => {},
                        }
                    }
                }
                    }
                }
                return rr;
            },
        };
        let ghost g5 = *reader;
        let t5 = match T5::decode_ber(reader) {
            Ok(v) => v,
            Err(e) => {
                let ghost ferr = e;
                let ghost bad_pos = reader.posi();
                let ghost bad_st = reader.tag_statev();
                let inner: ASN1Result<Self> = Err(e);
                let rr = reader.close_frame(frame, inner);
                proof {
                    if Self::sp_refusals_exact(m0) {
                assert forall|w: Self, e2: int, s2: TagState| !Self::sp_accepts(
                    d0, pos0, lim0, m0, dep0, st00, w, e2, s2,
                ) by {
                    if Self::sp_accepts(d0, pos0, lim0, m0, dep0, st00, w, e2, s2) {
                        match sp_header(d0, pos0, lim0, m0, dep0, st00, spec_univ_tag(16), TagType::Explicit) {
                            HeadStep::HeadOk { pc, length, end: e0, limit2, st: sth } => {
                                let (wq1, wu1, wq2, wu2, wq3, wu3, wq4, wu4, wq5, wu5, wq6, wu6, wq7, wu7, wq8, wu8, wq9, wu9) = choose|q1: int, u1: TagState, q2: int, u2: TagState, q3: int, u3: TagState, q4: int, u4: TagState, q5: int, u5: TagState, q6: int, u6: TagState, q7: int, u7: TagState, q8: int, u8: TagState, q9: int, u9: TagState|
                                    #![trigger T0::sp_accepts(d0, e0, limit2, m0, dep0 + 1, sth, w.0, q1, u1), T1::sp_accepts(d0, q1, limit2, m0, dep0 + 1, u1, w.1, q2, u2), T2::sp_accepts(d0, q2, limit2, m0, dep0 + 1, u2, w.2, q3, u3), T3::sp_accepts(d0, q3, limit2, m0, dep0 + 1, u3, w.3, q4, u4), T4::sp_accepts(d0, q4, limit2, m0, dep0 + 1, u4, w.4, q5, u5), T5::sp_accepts(d0, q5, limit2, m0, dep0 + 1, u5, w.5, q6, u6), T6::sp_accepts(d0, q6, limit2, m0, dep0 + 1, u6, w.6, q7, u7), T7::sp_accepts(d0, q7, limit2, m0, dep0 + 1, u7, w.7, q8, u8), T8::sp_accepts(d0, q8, limit2, m0, dep0 + 1, u8, w.8, q9, u9)]
                                                            T0::sp_accepts(d0, e0, limit2, m0, dep0 + 1, sth, w.0, q1, u1)
                            && T1::sp_accepts(d0, q1, limit2, m0, dep0 + 1, u1, w.1, q2, u2)
                            && T2::sp_accepts(d0, q2, limit2, m0, dep0 + 1, u2, w.2, q3, u3)
                            && T3::sp_accepts(d0, q3, limit2, m0, dep0 + 1, u3, w.3, q4, u4)
                            && T4::sp_accepts(d0, q4, limit2, m0, dep0 + 1, u4, w.4, q5, u5)
                            && T5::sp_accepts(d0, q5, limit2, m0, dep0 + 1, u5, w.5, q6, u6)
                            && T6::sp_accepts(d0, q6, limit2, m0, dep0 + 1, u6, w.6, q7, u7)
                            && T7::sp_accepts(d0, q7, limit2, m0, dep0 + 1, u7, w.7, q8, u8)
                            && T8::sp_accepts(d0, q8, limit2, m0, dep0 + 1, u8, w.8, q9, u9)
                            && rstep_matches(sp_close(d0, q9, limit2, u9, length, Ok::<Self, ASN1Error>(w)), Ok::<Self, ASN1Error>(w), e2, s2);
                                T0::lemma_outcomes_unique(d0, e0, limit2, m0, dep0 + 1, sth, w.0, wq1, wu1, t0, g1.posi(), g1.tag_statev(), ASN1Error::Invalid, 0, TagState::Fresh, ASN1Error::Invalid, 0, TagState::Fresh);
                                T1::lemma_outcomes_unique(d0, wq1, limit2, m0, dep0 + 1, wu1, w.1, wq2, wu2, t1, g2.posi(), g2.tag_statev(), ASN1Error::Invalid, 0, TagState::Fresh, ASN1Error::Invalid, 0, TagState::Fresh);
                                T2::lemma_outcomes_unique(d0, wq2, limit2, m0, dep0 + 1, wu2, w.2, wq3, wu3, t2, g3.posi(), g3.tag_statev(), ASN1Error::Invalid, 0, TagState::Fresh, ASN1Error::Invalid, 0, TagState::Fresh);
                                T3::lemma_outcomes_unique(d0, wq3, limit2, m0, dep0 + 1, wu3, w.3, wq4, wu4, t3, g4.posi(), g4.tag_statev(), ASN1Error::Invalid, 0, TagState::Fresh, ASN1Error::Invalid, 0, TagState::Fresh);
                                T4::lemma_outcomes_unique(d0, wq4, limit2, m0, dep0 + 1, wu4, w.4, wq5, wu5, t4, g5.posi(), g5.tag_statev(), ASN1Error::Invalid, 0, TagState::Fresh, ASN1Error::Invalid, 0, TagState::Fresh);
                                T5::lemma_outcomes_unique(d0, wq5, limit2, m0, dep0 + 1, wu5, w.5, wq6, wu6, w.5, wq6, wu6, ferr, bad_pos, bad_st, ferr, bad_pos, bad_st);
                                assert(false);
                            },
                            HeadStep::HeadFail { kind, end: ee, st: sx } => {},
                        }
                    }
                }
                    }
                }
                return rr;
            },
        };
        let ghost g6 = *reader;
        let t6 = match T6::decode_ber(reader) {
            Ok(v) => v,
            Err(e) => {
                let ghost ferr = e;
                let ghost bad_pos = reader.posi();
                let ghost bad_st = reader.tag_statev();
                let inner: ASN1Result<Self> = Err(e);
                let rr = reader.close_frame(frame, inner);
                proof {
                    if Self::sp_refusals_exact(m0) {
                assert forall|w: Self, e2: int, s2: TagState| !Self::sp_accepts(
                    d0, pos0, lim0, m0, dep0, st00, w, e2, s2,
                ) by {
                    if Self::sp_accepts(d0, pos0, lim0, m0, dep0, st00, w, e2, s2) {
                        match sp_header(d0, pos0, lim0, m0, dep0, st00, spec_univ_tag(16), TagType::Explicit) {
                            HeadStep::HeadOk { pc, length, end: e0, limit2, st: sth } => {
                                let (wq1, wu1, wq2, wu2, wq3, wu3, wq4, wu4, wq5, wu5, wq6, wu6, wq7, wu7, wq8, wu8, wq9, wu9) = choose|q1: int, u1: TagState, q2: int, u2: TagState, q3: int, u3: TagState, q4: int, u4: TagState, q5: int, u5: TagState, q6: int, u6: TagState, q7: int, u7: TagState, q8: int, u8: TagState, q9: int, u9: TagState|
                                    #![trigger T0::sp_accepts(d0, e0, limit2, m0, dep0 + 1, sth, w.0, q1, u1), T1::sp_accepts(d0, q1, limit2, m0, dep0 + 1, u1, w.1, q2, u2), T2::sp_accepts(d0, q2, limit2, m0, dep0 + 1, u2, w.2, q3, u3), T3::sp_accepts(d0, q3, limit2, m0, dep0 + 1, u3, w.3, q4, u4), T4::sp_accepts(d0, q4, limit2, m0, dep0 + 1, u4, w.4, q5, u5), T5::sp_accepts(d0, q5, limit2, m0, dep0 + 1, u5, w.5, q6, u6), T6::sp_accepts(d0, q6, limit2, m0, dep0 + 1, u6, w.6, q7, u7), T7::sp_accepts(d0, q7, limit2, m0, dep0 + 1, u7, w.7, q8, u8), T8::sp_accepts(d0, q8, limit2, m0, dep0 + 1, u8, w.8, q9, u9)]
                                                            T0::sp_accepts(d0, e0, limit2, m0, dep0 + 1, sth, w.0, q1, u1)
                            && T1::sp_accepts(d0, q1, limit2, m0, dep0 + 1, u1, w.1, q2, u2)
                            && T2::sp_accepts(d0, q2, limit2, m0, dep0 + 1, u2, w.2, q3, u3)
                            && T3::sp_accepts(d0, q3, limit2, m0, dep0 + 1, u3, w.3, q4, u4)
                            && T4::sp_accepts(d0, q4, limit2, m0, dep0 + 1, u4, w.4, q5, u5)
                            && T5::sp_accepts(d0, q5, limit2, m0, dep0 + 1, u5, w.5, q6, u6)
                            && T6::sp_accepts(d0, q6, limit2, m0, dep0 + 1, u6, w.6, q7, u7)
                            && T7::sp_accepts(d0, q7, limit2, m0, dep0 + 1, u7, w.7, q8, u8)
                            && T8::sp_accepts(d0, q8, limit2, m0, dep0 + 1, u8, w.8, q9, u9)
                            && rstep_matches(sp_close(d0, q9, limit2, u9, length, Ok::<Self, ASN1Error>(w)), Ok::<Self, ASN1Error>(w), e2, s2);
                                T0::lemma_outcomes_unique(d0, e0, limit2, m0, dep0 + 1, sth, w.0, wq1, wu1, t0, g1.posi(), g1.tag_statev(), ASN1Error::Invalid, 0, TagState::Fresh, ASN1Error::Invalid, 0, TagState::Fresh);
                                T1::lemma_outcomes_unique(d0, wq1, limit2, m0, dep0 + 1, wu1, w.1, wq2, wu2, t1, g2.posi(), g2.tag_statev(), ASN1Error::Invalid, 0, TagState::Fresh, ASN1Error::Invalid, 0, TagState::Fresh);
                                T2::lemma_outcomes_unique(d0, wq2, limit2, m0, dep0 + 1, wu2, w.2, wq3, wu3, t2, g3.posi(), g3.tag_statev(), ASN1Error::Invalid, 0, TagState::Fresh, ASN1Error::Invalid, 0, TagState::Fresh);
                                T3::lemma_outcomes_unique(d0, wq3, limit2, m0, dep0 + 1, wu3, w.3, wq4, wu4, t3, g4.posi(), g4.tag_statev(), ASN1Error::Invalid, 0, TagState::Fresh, ASN1Error::Invalid, 0, TagState::Fresh);
                                T4::lemma_outcomes_unique(d0, wq4, limit2, m0, dep0 + 1, wu4, w.4, wq5, wu5, t4, g5.posi(), g5.tag_statev(), ASN1Error::Invalid, 0, TagState::Fresh, ASN1Error::Invalid, 0, TagState::Fresh);
                                T5::lemma_outcomes_unique(d0, wq5, limit2, m0, dep0 + 1, wu5, w.5, wq6, wu6, t5, g6.posi(), g6.tag_statev(), ASN1Error::Invalid, 0, TagState::Fresh, ASN1Error::Invalid, 0, TagState::Fresh);
                                T6::lemma_outcomes_unique(d0, wq6, limit2, m0, dep0 + 1, wu6, w.6, wq7, wu7, w.6, wq7, wu7, ferr, bad_pos, bad_st, ferr, bad_pos, bad_st);
                                assert(false);
                            },
                            HeadStep::HeadFail { kind, end: ee, st: sx } => {},
                        }
                    }
                }
                    }
                }
                return rr;
            },
        };
        let ghost g7 = *reader;
        let t7 = match T7::decode_ber(reader) {
            Ok(v) => v,
            Err(e) => {
                let ghost ferr = e;
                let ghost bad_pos = reader.posi();
                let ghost bad_st = reader.tag_statev();
                let inner: ASN1Result<Self> = Err(e);
                let rr = reader.close_frame(frame, inner);
                proof {
                    if Self::sp_refusals_exact(m0) {
                assert forall|w: Self, e2: int, s2: TagState| !Self::sp_accepts(
                    d0, pos0, lim0, m0, dep0, st00, w, e2, s2,
                ) by {
                    if Self::sp_accepts(d0, pos0, lim0, m0, dep0, st00, w, e2, s2) {
                        match sp_header(d0, pos0, lim0, m0, dep0, st00, spec_univ_tag(16), TagType::Explicit) {
                            HeadStep::HeadOk { pc, length, end: e0, limit2, st: sth } => {
                                let (wq1, wu1, wq2, wu2, wq3, wu3, wq4, wu4, wq5, wu5, wq6, wu6, wq7, wu7, wq8, wu8, wq9, wu9) = choose|q1: int, u1: TagState, q2: int, u2: TagState, q3: int, u3: TagState, q4: int, u4: TagState, q5: int, u5: TagState, q6: int, u6: TagState, q7: int, u7: TagState, q8: int, u8: TagState, q9: int, u9: TagState|
                                    #![trigger T0::sp_accepts(d0, e0, limit2, m0, dep0 + 1, sth, w.0, q1, u1), T1::sp_accepts(d0, q1, limit2, m0, dep0 + 1, u1, w.1, q2, u2), T2::sp_accepts(d0, q2, limit2, m0, dep0 + 1, u2, w.2, q3, u3), T3::sp_accepts(d0, q3, limit2, m0, dep0 + 1, u3, w.3, q4, u4), T4::sp_accepts(d0, q4, limit2, m0, dep0 + 1, u4, w.4, q5, u5), T5::sp_accepts(d0, q5, limit2, m0, dep0 + 1, u5, w.5, q6, u6), T6::sp_accepts(d0, q6, limit2, m0, dep0 + 1, u6, w.6, q7, u7), T7::sp_accepts(d0, q7, limit2, m0, dep0 + 1, u7, w.7, q8, u8), T8::sp_accepts(d0, q8, limit2, m0, dep0 + 1, u8, w.8, q9, u9)]
                                                            T0::sp_accepts(d0, e0, limit2, m0, dep0 + 1, sth, w.0, q1, u1)
                            && T1::sp_accepts(d0, q1, limit2, m0, dep0 + 1, u1, w.1, q2, u2)
                            && T2::sp_accepts(d0, q2, limit2, m0, dep0 + 1, u2, w.2, q3, u3)
                            && T3::sp_accepts(d0, q3, limit2, m0, dep0 + 1, u3, w.3, q4, u4)
                            && T4::sp_accepts(d0, q4, limit2, m0, dep0 + 1, u4, w.4, q5, u5)
                            && T5::sp_accepts(d0, q5, limit2, m0, dep0 + 1, u5, w.5, q6, u6)
                            && T6::sp_accepts(d0, q6, limit2, m0, dep0 + 1, u6, w.6, q7, u7)
                            && T7::sp_accepts(d0, q7, limit2, m0, dep0 + 1, u7, w.7, q8, u8)
                            && T8::sp_accepts(d0, q8, limit2, m0, dep0 + 1, u8, w.8, q9, u9)
                            && rstep_matches(sp_close(d0, q9, limit2, u9, length, Ok::<Self, ASN1Error>(w)), Ok::<Self, ASN1Error>(w), e2, s2);
                                T0::lemma_outcomes_unique(d0, e0, limit2, m0, dep0 + 1, sth, w.0, wq1, wu1, t0, g1.posi(), g1.tag_statev(), ASN1Error::Invalid, 0, TagState::Fresh, ASN1Error::Invalid, 0, TagState::Fresh);
                                T1::lemma_outcomes_unique(d0, wq1, limit2, m0, dep0 + 1, wu1, w.1, wq2, wu2, t1, g2.posi(), g2.tag_statev(), ASN1Error::Invalid, 0, TagState::Fresh, ASN1Error::Invalid, 0, TagState::Fresh);
                                T2::lemma_outcomes_unique(d0, wq2, limit2, m0, dep0 + 1, wu2, w.2, wq3, wu3, t2, g3.posi(), g3.tag_statev(), ASN1Error::Invalid, 0, TagState::Fresh, ASN1Error::Invalid, 0, TagState::Fresh);
                                T3::lemma_outcomes_unique(d0, wq3, limit2, m0, dep0 + 1, wu3, w.3, wq4, wu4, t3, g4.posi(), g4.tag_statev(), ASN1Error::Invalid, 0, TagState::Fresh, ASN1Error::Invalid, 0, TagState::Fresh);
                                T4::lemma_outcomes_unique(d0, wq4, limit2, m0, dep0 + 1, wu4, w.4, wq5, wu5, t4, g5.posi(), g5.tag_statev(), ASN1Error::Invalid, 0, TagState::Fresh, ASN1Error::Invalid, 0, TagState::Fresh);
                                T5::lemma_outcomes_unique(d0, wq5, limit2, m0, dep0 + 1, wu5, w.5, wq6, wu6, t5, g6.posi(), g6.tag_statev(), ASN1Error::Invalid, 0, TagState::Fresh, ASN1Error::Invalid, 0, TagState::Fresh);
                                T6::lemma_outcomes_unique(d0, wq6, limit2, m0, dep0 + 1, wu6, w.6, wq7, wu7, t6, g7.posi(), g7.tag_statev(), ASN1Error::Invalid, 0, TagState::Fresh, ASN1Error::Invalid, 0, TagState::Fresh);
                                T7::lemma_outcomes_unique(d0, wq7, limit2, m0, dep0 + 1, wu7, w.7, wq8, wu8, w.7, wq8, wu8, ferr, bad_pos, bad_st, ferr, bad_pos, bad_st);
                                assert(false);
                            },
                            HeadStep::HeadFail { kind, end: ee, st: sx } => {},
                        }
                    }
                }
                    }
                }
                return rr;
            },
        };
        let ghost g8 = *reader;
        let t8 = match T8::decode_ber(reader) {
            Ok(v) => v,
            Err(e) => {
                let ghost ferr = e;
                let ghost bad_pos = reader.posi();
                let ghost bad_st = reader.tag_statev();
                let inner: ASN1Result<Self> = Err(e);
                let rr = reader.close_frame(frame, inner);
                proof {
                    if Self::sp_refusals_exact(m0) {
                assert forall|w: Self, e2: int, s2: TagState| !Self::sp_accepts(
                    d0, pos0, lim0, m0, dep0, st00, w, e2, s2,
                ) by {
                    if Self::sp_accepts(d0, pos0, lim0, m0, dep0, st00, w, e2, s2) {
                        match sp_header(d0, pos0, lim0, m0, dep0, st00, spec_univ_tag(16), TagType::Explicit) {
                            HeadStep::HeadOk { pc, length, end: e0, limit2, st: sth } => {
                                let (wq1, wu1, wq2, wu2, wq3, wu3, wq4, wu4, wq5, wu5, wq6, wu6, wq7, wu7, wq8, wu8, wq9, wu9) = choose|q1: int, u1: TagState, q2: int, u2: TagState, q3: int, u3: TagState, q4: int, u4: TagState, q5: int, u5: TagState, q6: int, u6: TagState, q7: int, u7: TagState, q8: int, u8: TagState, q9: int, u9: TagState|
                                    #![trigger T0::sp_accepts(d0, e0, limit2, m0, dep0 + 1, sth, w.0, q1, u1), T1::sp_accepts(d0, q1, limit2, m0, dep0 + 1, u1, w.1, q2, u2), T2::sp_accepts(d0, q2, limit2, m0, dep0 + 1, u2, w.2, q3, u3), T3::sp_accepts(d0, q3, limit2, m0, dep0 + 1, u3, w.3, q4, u4), T4::sp_accepts(d0, q4, limit2, m0, dep0 + 1, u4, w.4, q5, u5), T5::sp_accepts(d0, q5, limit2, m0, dep0 + 1, u5, w.5, q6, u6), T6::sp_accepts(d0, q6, limit2, m0, dep0 + 1, u6, w.6, q7, u7), T7::sp_accepts(d0, q7, limit2, m0, dep0 + 1, u7, w.7, q8, u8), T8::sp_accepts(d0, q8, limit2, m0, dep0 + 1, u8, w.8, q9, u9)]
                                                            T0::sp_accepts(d0, e0, limit2, m0, dep0 + 1, sth, w.0, q1, u1)
                            && T1::sp_accepts(d0, q1, limit2, m0, dep0 + 1, u1, w.1, q2, u2)
                            && T2::sp_accepts(d0, q2, limit2, m0, dep0 + 1, u2, w.2, q3, u3)
                            && T3::sp_accepts(d0, q3, limit2, m0, dep0 + 1, u3, w.3, q4, u4)
                            && T4::sp_accepts(d0, q4, limit2, m0, dep0 + 1, u4, w.4, q5, u5)
                            && T5::sp_accepts(d0, q5, limit2, m0, dep0 + 1, u5, w.5, q6, u6)
                            && T6::sp_accepts(d0, q6, limit2, m0, dep0 + 1, u6, w.6, q7, u7)
                            && T7::sp_accepts(d0, q7, limit2, m0, dep0 + 1, u7, w.7, q8, u8)
                            && T8::sp_accepts(d0, q8, limit2, m0, dep0 + 1, u8, w.8, q9, u9)
                            && rstep_matches(sp_close(d0, q9, limit2, u9, length, Ok::<Self, ASN1Error>(w)), Ok::<Self, ASN1Error>(w), e2, s2);
                                T0::lemma_outcomes_unique(d0, e0, limit2, m0, dep0 + 1, sth, w.0, wq1, wu1, t0, g1.posi(), g1.tag_statev(), ASN1Error::Invalid, 0, TagState::Fresh, ASN1Error::Invalid, 0, TagState::Fresh);
                                T1::lemma_outcomes_unique(d0, wq1, limit2, m0, dep0 + 1, wu1, w.1, wq2, wu2, t1, g2.posi(), g2.tag_statev(), ASN1Error::Invalid, 0, TagState::Fresh, ASN1Error::Invalid, 0, TagState::Fresh);
                                T2::lemma_outcomes_unique(d0, wq2, limit2, m0, dep0 + 1, wu2, w.2, wq3, wu3, t2, g3.posi(), g3.tag_statev(), ASN1Error::Invalid, 0, TagState::Fresh, ASN1Error::Invalid, 0, TagState::Fresh);
                                T3::lemma_outcomes_unique(d0, wq3, limit2, m0, dep0 + 1, wu3, w.3, wq4, wu4, t3, g4.posi(), g4.tag_statev(), ASN1Error::Invalid, 0, TagState::Fresh, ASN1Error::Invalid, 0, TagState::Fresh);
                                T4::lemma_outcomes_unique(d0, wq4, limit2, m0, dep0 + 1, wu4, w.4, wq5, wu5, t4, g5.posi(), g5.tag_statev(), ASN1Error::Invalid, 0, TagState::Fresh, ASN1Error::Invalid, 0, TagState::Fresh);
                                T5::lemma_outcomes_unique(d0, wq5, limit2, m0, dep0 + 1, wu5, w.5, wq6, wu6, t5, g6.posi(), g6.tag_statev(), ASN1Error::Invalid, 0, TagState::Fresh, ASN1Error::Invalid, 0, TagState::Fresh);
                                T6::lemma_outcomes_unique(d0, wq6, limit2, m0, dep0 + 1, wu6, w.6, wq7, wu7, t6, g7.posi(), g7.tag_statev(), ASN1Error::Invalid, 0, TagState::Fresh, ASN1Error::Invalid, 0, TagState::Fresh);
                                T7::lemma_outcomes_unique(d0, wq7, limit2, m0, dep0 + 1, wu7, w.7, wq8, wu8, t7, g8.posi(), g8.tag_statev(), ASN1Error::Invalid, 0, TagState::Fresh, ASN1Error::Invalid, 0, TagState::Fresh);
                                T8::lemma_outcomes_unique(d0, wq8, limit2, m0, dep0 + 1, wu8, w.8, wq9, wu9, w.8, wq9, wu9, ferr, bad_pos, bad_st, ferr, bad_pos, bad_st);
                                assert(false);
                            },
                            HeadStep::HeadFail { kind, end: ee, st: sx } => {},
                        }
                    }
                }
                    }
                }
                return rr;
            },
        };
        let ghost g9 = *reader;
        let result = (t0, t1, t2, t3, t4, t5, t6, t7, t8);
        let ghost gv = result;
        let ghost before_close = *reader;
        let rr = reader.close_frame(frame, Ok(result));
        proof {
            if rr is Ok {
                assert(T0::sp_accepts(g0.data(), g0.posi(), g0.limiti(), g0.modev(), g0.depthv(), g0.tag_statev(), gv.0, g1.posi(), g1.tag_statev()));
                assert(T1::sp_accepts(g0.data(), g1.posi(), g0.limiti(), g0.modev(), g0.depthv(), g1.tag_statev(), gv.1, g2.posi(), g2.tag_statev()));
                assert(T2::sp_accepts(g0.data(), g2.posi(), g0.limiti(), g0.modev(), g0.depthv(), g2.tag_statev(), gv.2, g3.posi(), g3.tag_statev()));
                assert(T3::sp_accepts(g0.data(), g3.posi(), g0.limiti(), g0.modev(), g0.depthv(), g3.tag_statev(), gv.3, g4.posi(), g4.tag_statev()));
                assert(T4::sp_accepts(g0.data(), g4.posi(), g0.limiti(), g0.modev(), g0.depthv(), g4.tag_statev(), gv.4, g5.posi(), g5.tag_statev()));
                assert(T5::sp_accepts(g0.data(), g5.posi(), g0.limiti(), g0.modev(), g0.depthv(), g5.tag_statev(), gv.5, g6.posi(), g6.tag_statev()));
                assert(T6::sp_accepts(g0.data(), g6.posi(), g0.limiti(), g0.modev(), g0.depthv(), g6.tag_statev(), gv.6, g7.posi(), g7.tag_statev()));
                assert(T7::sp_accepts(g0.data(), g7.posi(), g0.limiti(), g0.modev(), g0.depthv(), g7.tag_statev(), gv.7, g8.posi(), g8.tag_statev()));
                assert(T8::sp_accepts(g0.data(), g8.posi(), g0.limiti(), g0.modev(), g0.depthv(), g8.tag_statev(), gv.8, g9.posi(), g9.tag_statev()));
            }
            if rr is Err && Self::sp_refusals_exact(m0) {
                assert forall|w: Self, e2: int, s2: TagState| !Self::sp_accepts(
                    d0, pos0, lim0, m0, dep0, st00, w, e2, s2,
                ) by {
                    if Self::sp_accepts(d0, pos0, lim0, m0, dep0, st00, w, e2, s2) {
                        match sp_header(d0, pos0, lim0, m0, dep0, st00, spec_univ_tag(16), TagType::Explicit) {
                            HeadStep::HeadOk { pc, length, end: e0, limit2, st: sth } => {
                                let (wq1, wu1, wq2, wu2, wq3, wu3, wq4, wu4, wq5, wu5, wq6, wu6, wq7, wu7, wq8, wu8, wq9, wu9) = choose|q1: int, u1: TagState, q2: int, u2: TagState, q3: int, u3: TagState, q4: int, u4: TagState, q5: int, u5: TagState, q6: int, u6: TagState, q7: int, u7: TagState, q8: int, u8: TagState, q9: int, u9: TagState|
                                    #![trigger T0::sp_accepts(d0, e0, limit2, m0, dep0 + 1, sth, w.0, q1, u1), T1::sp_accepts(d0, q1, limit2, m0, dep0 + 1, u1, w.1, q2, u2), T2::sp_accepts(d0, q2, limit2, m0, dep0 + 1, u2, w.2, q3, u3), T3::sp_accepts(d0, q3, limit2, m0, dep0 + 1, u3, w.3, q4, u4), T4::sp_accepts(d0, q4, limit2, m0, dep0 + 1, u4, w.4, q5, u5), T5::sp_accepts(d0, q5, limit2, m0, dep0 + 1, u5, w.5, q6, u6), T6::sp_accepts(d0, q6, limit2, m0, dep0 + 1, u6, w.6, q7, u7), T7::sp_accepts(d0, q7, limit2, m0, dep0 + 1, u7, w.7, q8, u8), T8::sp_accepts(d0, q8, limit2, m0, dep0 + 1, u8, w.8, q9, u9)]
                                                            T0::sp_accepts(d0, e0, limit2, m0, dep0 + 1, sth, w.0, q1, u1)
                            && T1::sp_accepts(d0, q1, limit2, m0, dep0 + 1, u1, w.1, q2, u2)
                            && T2::sp_accepts(d0, q2, limit2, m0, dep0 + 1, u2, w.2, q3, u3)
                            && T3::sp_accepts(d0, q3, limit2, m0, dep0 + 1, u3, w.3, q4, u4)
                            && T4::sp_accepts(d0, q4, limit2, m0, dep0 + 1, u4, w.4, q5, u5)
                            && T5::sp_accepts(d0, q5, limit2, m0, dep0 + 1, u5, w.5, q6, u6)
                            && T6::sp_accepts(d0, q6, limit2, m0, dep0 + 1, u6, w.6, q7, u7)
                            && T7::sp_accepts(d0, q7, limit2, m0, dep0 + 1, u7, w.7, q8, u8)
                            && T8::sp_accepts(d0, q8, limit2, m0, dep0 + 1, u8, w.8, q9, u9)
                            && rstep_matches(sp_close(d0, q9, limit2, u9, length, Ok::<Self, ASN1Error>(w)), Ok::<Self, ASN1Error>(w), e2, s2);
                                T0::lemma_outcomes_unique(d0, e0, limit2, m0, dep0 + 1, sth, w.0, wq1, wu1, t0, g1.posi(), g1.tag_statev(), ASN1Error::Invalid, 0, TagState::Fresh, ASN1Error::Invalid, 0, TagState::Fresh);
                                T1::lemma_outcomes_unique(d0, wq1, limit2, m0, dep0 + 1, wu1, w.1, wq2, wu2, t1, g2.posi(), g2.tag_statev(), ASN1Error::Invalid, 0, TagState::Fresh, ASN1Error::Invalid, 0, TagState::Fresh);
                                T2::lemma_outcomes_unique(d0, wq2, limit2, m0, dep0 + 1, wu2, w.2, wq3, wu3, t2, g3.posi(), g3.tag_statev(), ASN1Error::Invalid, 0, TagState::Fresh, ASN1Error::Invalid, 0, TagState::Fresh);
                                T3::lemma_outcomes_unique(d0, wq3, limit2, m0, dep0 + 1, wu3, w.3, wq4, wu4, t3, g4.posi(), g4.tag_statev(), ASN1Error::Invalid, 0, TagState::Fresh, ASN1Error::Invalid, 0, TagState::Fresh);
                                T4::lemma_outcomes_unique(d0, wq4, limit2, m0, dep0 + 1, wu4, w.4, wq5, wu5, t4, g5.posi(), g5.tag_statev(), ASN1Error::Invalid, 0, TagState::Fresh, ASN1Error::Invalid, 0, TagState::Fresh);
                                T5::lemma_outcomes_unique(d0, wq5, limit2, m0, dep0 + 1, wu5, w.5, wq6, wu6, t5, g6.posi(), g6.tag_statev(), ASN1Error::Invalid, 0, TagState::Fresh, ASN1Error::Invalid, 0, TagState::Fresh);
                                T6::lemma_outcomes_unique(d0, wq6, limit2, m0, dep0 + 1, wu6, w.6, wq7, wu7, t6, g7.posi(), g7.tag_statev(), ASN1Error::Invalid, 0, TagState::Fresh, ASN1Error::Invalid, 0, TagState::Fresh);
                                T7::lemma_outcomes_unique(d0, wq7, limit2, m0, dep0 + 1, wu7, w.7, wq8, wu8, t7, g8.posi(), g8.tag_statev(), ASN1Error::Invalid, 0, TagState::Fresh, ASN1Error::Invalid, 0, TagState::Fresh);
                                T8::lemma_outcomes_unique(d0, wq8, limit2, m0, dep0 + 1, wu8, w.8, wq9, wu9, t8, g9.posi(), g9.tag_statev(), ASN1Error::Invalid, 0, TagState::Fresh, ASN1Error::Invalid, 0, TagState::Fresh);
                            },
                            HeadStep::HeadFail { kind, end: ee, st: sx } => {},
                        }
                    }
                }
            }
        }
        rr
    }
}

impl<T0: BERDecodable, T1: BERDecodable, T2: BERDecodable, T3: BERDecodable, T4: BERDecodable, T5: BERDecodable, T6: BERDecodable, T7: BERDecodable, T8: BERDecodable, T9: BERDecodable> BERDecodable for (T0, T1, T2, T3, T4, T5, T6, T7, T8, T9) {
    open spec fn sp_accepts(
        data: Seq<u8>,
        pos: int,
        limit: int,
        mode: BERMode,
        depth: int,
        st0: TagState,
        v: Self,
        end: int,
        st: TagState,
    ) -> bool {
        match sp_header(data, pos, limit, mode, depth, st0, spec_univ_tag(16), TagType::Explicit) {
            HeadStep::HeadFail { kind, end: e, st: s } => false,
            HeadStep::HeadOk { pc, length, end: e0, limit2, st: sth } => pc
                == PCBit::Constructed && (exists|p1: int, s1: TagState, p2: int, s2: TagState, p3: int, s3: TagState, p4: int, s4: TagState, p5: int, s5: TagState, p6: int, s6: TagState, p7: int, s7: TagState, p8: int, s8: TagState, p9: int, s9: TagState, p10: int, s10: TagState|
                #![trigger T0::sp_accepts(data, e0, limit2, mode, depth + 1, sth, v.0, p1, s1), T1::sp_accepts(data, p1, limit2, mode, depth + 1, s1, v.1, p2, s2), T2::sp_accepts(data, p2, limit2, mode, depth + 1, s2, v.2, p3, s3), T3::sp_accepts(data, p3, limit2, mode, depth + 1, s3, v.3, p4, s4), T4::sp_accepts(data, p4, limit2, mode, depth + 1, s4, v.4, p5, s5), T5::sp_accepts(data, p5, limit2, mode, depth + 1, s5, v.5, p6, s6), T6::sp_accepts(data, p6, limit2, mode, depth + 1, s6, v.6, p7, s7), T7::sp_accepts(data, p7, limit2, mode, depth + 1, s7, v.7, p8, s8), T8::sp_accepts(data, p8, limit2, mode, depth + 1, s8, v.8, p9, s9), T9::sp_accepts(data, p9, limit2, mode, depth + 1, s9, v.9, p10, s10)]
                {
                    &&& T0::sp_accepts(data, e0, limit2, mode, depth + 1, sth, v.0, p1, s1)
                    &&& T1::sp_accepts(data, p1, limit2, mode, depth + 1, s1, v.1, p2, s2)
                    &&& T2::sp_accepts(data, p2, limit2, mode, depth + 1, s2, v.2, p3, s3)
                    &&& T3::sp_accepts(data, p3, limit2, mode, depth + 1, s3, v.3, p4, s4)
                    &&& T4::sp_accepts(data, p4, limit2, mode, depth + 1, s4, v.4, p5, s5)
                    &&& T5::sp_accepts(data, p5, limit2, mode, depth + 1, s5, v.5, p6, s6)
                    &&& T6::sp_accepts(data, p6, limit2, mode, depth + 1, s6, v.6, p7, s7)
                    &&& T7::sp_accepts(data, p7, limit2, mode, depth + 1, s7, v.7, p8, s8)
                    &&& T8::sp_accepts(data, p8, limit2, mode, depth + 1, s8, v.8, p9, s9)
                    &&& T9::sp_accepts(data, p9, limit2, mode, depth + 1, s9, v.9, p10, s10)
                    &&& rstep_matches(
                        sp_close(data, p10, limit2, s10, length, Ok::<Self, ASN1Error>(v)),
                        Ok::<Self, ASN1Error>(v),
                        end,
                        st,
                    )
                }),
        }
    }

    open spec fn sp_refusals_exact(mode: BERMode) -> bool {
        mode == BERMode::Der && T0::sp_refusals_exact(BERMode::Der) && T1::sp_refusals_exact(BERMode::Der) && T2::sp_refusals_exact(BERMode::Der) && T3::sp_refusals_exact(BERMode::Der) && T4::sp_refusals_exact(BERMode::Der) && T5::sp_refusals_exact(BERMode::Der) && T6::sp_refusals_exact(BERMode::Der) && T7::sp_refusals_exact(BERMode::Der) && T8::sp_refusals_exact(BERMode::Der) && T9::sp_refusals_exact(BERMode::Der)
    }

    open spec fn sp_refuses(
        data: Seq<u8>,
        pos: int,
        limit: int,
        mode: BERMode,
        depth: int,
        st0: TagState,
        kind: ASN1Error,
        end: int,
        st: TagState,
    ) -> bool {
        !(exists|w: Self, e2: int, s2: TagState|
            Self::sp_accepts(data, pos, limit, mode, depth, st0, w, e2, s2))
    }

    proof fn lemma_outcomes_unique(
        data: Seq<u8>,
        pos: int,
        limit: int,
        mode: BERMode,
        depth: int,
        st0: TagState,
        v1: Self,
        e1: int,
        s1: TagState,
        v2: Self,
        e2: int,
        s2: TagState,
        k3: ASN1Error,
        e3: int,
        s3: TagState,
        k4: ASN1Error,
        e4: int,
        s4: TagState,
    ) {
        if Self::sp_accepts(data, pos, limit, mode, depth, st0, v1, e1, s1) && Self::sp_accepts(
            data,
            pos,
            limit,
            mode,
            depth,
            st0,
            v2,
            e2,
            s2,
        ) {
            match sp_header(data, pos, limit, mode, depth, st0, spec_univ_tag(16), TagType::Explicit) {
                HeadStep::HeadOk { pc, length, end: e0, limit2, st: sth } => {
                    let (aq1, au1, aq2, au2, aq3, au3, aq4, au4, aq5, au5, aq6, au6, aq7, au7, aq8, au8, aq9, au9, aq10, au10) = choose|q1: int, u1: TagState, q2: int, u2: TagState, q3: int, u3: TagState, q4: int, u4: TagState, q5: int, u5: TagState, q6: int, u6: TagState, q7: int, u7: TagState, q8: int, u8: TagState, q9: int, u9: TagState, q10: int, u10: TagState|
                        #![trigger T0::sp_accepts(data, e0, limit2, mode, depth + 1, sth, v1.0, q1, u1), T1::sp_accepts(data, q1, limit2, mode, depth + 1, u1, v1.1, q2, u2), T2::sp_accepts(data, q2, limit2, mode, depth + 1, u2, v1.2, q3, u3), T3::sp_accepts(data, q3, limit2, mode, depth + 1, u3, v1.3, q4, u4), T4::sp_accepts(data, q4, limit2, mode, depth + 1, u4, v1.4, q5, u5), T5::sp_accepts(data, q5, limit2, mode, depth + 1, u5, v1.5, q6, u6), T6::sp_accepts(data, q6, limit2, mode, depth + 1, u6, v1.6, q7, u7), T7::sp_accepts(data, q7, limit2, mode, depth + 1, u7, v1.7, q8, u8), T8::sp_accepts(data, q8, limit2, mode, depth + 1, u8, v1.8, q9, u9), T9::sp_accepts(data, q9, limit2, mode, depth + 1, u9, v1.9, q10, u10)]
                                            T0::sp_accepts(data, e0, limit2, mode, depth + 1, sth, v1.0, q1, u1)
                        && T1::sp_accepts(data, q1, limit2, mode, depth + 1, u1, v1.1, q2, u2)
                        && T2::sp_accepts(data, q2, limit2, mode, depth + 1, u2, v1.2, q3, u3)
                        && T3::sp_accepts(data, q3, limit2, mode, depth + 1, u3, v1.3, q4, u4)
                        && T4::sp_accepts(data, q4, limit2, mode, depth + 1, u4, v1.4, q5, u5)
                        && T5::sp_accepts(data, q5, limit2, mode, depth + 1, u5, v1.5, q6, u6)
                        && T6::sp_accepts(data, q6, limit2, mode, depth + 1, u6, v1.6, q7, u7)
                        && T7::sp_accepts(data, q7, limit2, mode, depth + 1, u7, v1.7, q8, u8)
                        && T8::sp_accepts(data, q8, limit2, mode, depth + 1, u8, v1.8, q9, u9)
                        && T9::sp_accepts(data, q9, limit2, mode, depth + 1, u9, v1.9, q10, u10)
                        && rstep_matches(sp_close(data, q10, limit2, u10, length, Ok::<Self, ASN1Error>(v1)), Ok::<Self, ASN1Error>(v1), e1, s1);
                    let (bq1, bu1, bq2, bu2, bq3, bu3, bq4, bu4, bq5, bu5, bq6, bu6, bq7, bu7, bq8, bu8, bq9, bu9, bq10, bu10) = choose|q1: int, u1: TagState, q2: int, u2: TagState, q3: int, u3: TagState, q4: int, u4: TagState, q5: int, u5: TagState, q6: int, u6: TagState, q7: int, u7: TagState, q8: int, u8: TagState, q9: int, u9: TagState, q10: int, u10: TagState|
                        #![trigger T0::sp_accepts(data, e0, limit2, mode, depth + 1, sth, v2.0, q1, u1), T1::sp_accepts(data, q1, limit2, mode, depth + 1, u1, v2.1, q2, u2), T2::sp_accepts(data, q2, limit2, mode, depth + 1, u2, v2.2, q3, u3), T3::sp_accepts(data, q3, limit2, mode, depth + 1, u3, v2.3, q4, u4), T4::sp_accepts(data, q4, limit2, mode, depth + 1, u4, v2.4, q5, u5), T5::sp_accepts(data, q5, limit2, mode, depth + 1, u5, v2.5, q6, u6), T6::sp_accepts(data, q6, limit2, mode, depth + 1, u6, v2.6, q7, u7), T7::sp_accepts(data, q7, limit2, mode, depth + 1, u7, v2.7, q8, u8), T8::sp_accepts(data, q8, limit2, mode, depth + 1, u8, v2.8, q9, u9), T9::sp_accepts(data, q9, limit2, mode, depth + 1, u9, v2.9, q10, u10)]
                                            T0::sp_accepts(data, e0, limit2, mode, depth + 1, sth, v2.0, q1, u1)
                        && T1::sp_accepts(data, q1, limit2, mode, depth + 1, u1, v2.1, q2, u2)
                        && T2::sp_accepts(data, q2, limit2, mode, depth + 1, u2, v2.2, q3, u3)
                        && T3::sp_accepts(data, q3, limit2, mode, depth + 1, u3, v2.3, q4, u4)
                        && T4::sp_accepts(data, q4, limit2, mode, depth + 1, u4, v2.4, q5, u5)
                        && T5::sp_accepts(data, q5, limit2, mode, depth + 1, u5, v2.5, q6, u6)
                        && T6::sp_accepts(data, q6, limit2, mode, depth + 1, u6, v2.6, q7, u7)
                        && T7::sp_accepts(data, q7, limit2, mode, depth + 1, u7, v2.7, q8, u8)
                        && T8::sp_accepts(data, q8, limit2, mode, depth + 1, u8, v2.8, q9, u9)
                        && T9::sp_accepts(data, q9, limit2, mode, depth + 1, u9, v2.9, q10, u10)
                        && rstep_matches(sp_close(data, q10, limit2, u10, length, Ok::<Self, ASN1Error>(v2)), Ok::<Self, ASN1Error>(v2), e2, s2);
                    T0::lemma_outcomes_unique(data, e0, limit2, mode, depth + 1, sth, v1.0, aq1, au1, v2.0, bq1, bu1, ASN1Error::Invalid, 0, TagState::Fresh, ASN1Error::Invalid, 0, TagState::Fresh);
                    T1::lemma_outcomes_unique(data, aq1, limit2, mode, depth + 1, au1, v1.1, aq2, au2, v2.1, bq2, bu2, ASN1Error::Invalid, 0, TagState::Fresh, ASN1Error::Invalid, 0, TagState::Fresh);
                    T2::lemma_outcomes_unique(data, aq2, limit2, mode, depth + 1, au2, v1.2, aq3, au3, v2.2, bq3, bu3, ASN1Error::Invalid, 0, TagState::Fresh, ASN1Error::Invalid, 0, TagState::Fresh);
                    T3::lemma_outcomes_unique(data, aq3, limit2, mode, depth + 1, au3, v1.3, aq4, au4, v2.3, bq4, bu4, ASN1Error::Invalid, 0, TagState::Fresh, ASN1Error::Invalid, 0, TagState::Fresh);
                    T4::lemma_outcomes_unique(data, aq4, limit2, mode, depth + 1, au4, v1.4, aq5, au5, v2.4, bq5, bu5, ASN1Error::Invalid, 0, TagState::Fresh, ASN1Error::Invalid, 0, TagState::Fresh);
                    T5::lemma_outcomes_unique(data, aq5, limit2, mode, depth + 1, au5, v1.5, aq6, au6, v2.5, bq6, bu6, ASN1Error::Invalid, 0, TagState::Fresh, ASN1Error::Invalid, 0, TagState::Fresh);
                    T6::lemma_outcomes_unique(data, aq6, limit2, mode, depth + 1, au6, v1.6, aq7, au7, v2.6, bq7, bu7, ASN1Error::Invalid, 0, TagState::Fresh, ASN1Error::Invalid, 0, TagState::Fresh);
                    T7::lemma_outcomes_unique(data, aq7, limit2, mode, depth + 1, au7, v1.7, aq8, au8, v2.7, bq8, bu8, ASN1Error::Invalid, 0, TagState::Fresh, ASN1Error::Invalid, 0, TagState::Fresh);
                    T8::lemma_outcomes_unique(data, aq8, limit2, mode, depth + 1, au8, v1.8, aq9, au9, v2.8, bq9, bu9, ASN1Error::Invalid, 0, TagState::Fresh, ASN1Error::Invalid, 0, TagState::Fresh);
                    T9::lemma_outcomes_unique(data, aq9, limit2, mode, depth + 1, au9, v1.9, aq10, au10, v2.9, bq10, bu10, ASN1Error::Invalid, 0, TagState::Fresh, ASN1Error::Invalid, 0, TagState::Fresh);
                },
                HeadStep::HeadFail { kind, end: ee, st: sx } => {},
            }
        }
    }

    fn decode_ber(reader: &mut BERReader) -> (r: ASN1Result<Self>) {
        let ghost d0 = old(reader).data();
        let ghost pos0 = old(reader).posi();
        let ghost lim0 = old(reader).limiti();
        let ghost m0 = old(reader).modev();
        let ghost dep0 = old(reader).depthv();
        let ghost st00 = old(reader).tag_statev();
        let frame = match reader.parse_header(
            Tag { tag_class: TagClass::Universal, tag_number: 16 },
            TagType::Explicit,
        ) {
            Ok(f) => f,
            Err(e) => {
                return Err(e);
            },
        };
        if frame.pc != PCBit::Constructed {
            let inner: ASN1Result<Self> = Err(ASN1Error::Invalid);
            return reader.close_frame(frame, inner);
        }
        let ghost g0 = *reader;
        let t0 = match T0::decode_ber(reader) {
            Ok(v) => v,
            Err(e) => {
                let ghost ferr = e;
                let ghost bad_pos = reader.posi();
                let ghost bad_st = reader.tag_statev();
                let inner: ASN1Result<Self> = Err(e);
                let rr = reader.close_frame(frame, inner);
                proof {
                    if Self::sp_refusals_exact(m0) {
                assert forall|w: Self, e2: int, s2: TagState| !Self::sp_accepts(
                    d0, pos0, lim0, m0, dep0, st00, w, e2, s2,
                ) by {
                    if Self::sp_accepts(d0, pos0, lim0, m0, dep0, st00, w, e2, s2) {
                        match sp_header(d0, pos0, lim0, m0, dep0, st00, spec_univ_tag(16), TagType::Explicit) {
                            HeadStep::HeadOk { pc, length, end: e0, limit2, st: sth } => {
                                let (wq1, wu1, wq2, wu2, wq3, wu3, wq4, wu4, wq5, wu5, wq6, wu6, wq7, wu7, wq8, wu8, wq9, wu9, wq10, wu10) = choose|q1: int, u1: TagState, q2: int, u2: TagState, q3: int, u3: TagState, q4: int, u4: TagState, q5: int, u5: TagState, q6: int, u6: TagState, q7: int, u7: TagState, q8: int, u8: TagState, q9: int, u9: TagState, q10: int, u10: TagState|
                                    #![trigger T0::sp_accepts(d0, e0, limit2, m0, dep0 + 1, sth, w.0, q1, u1), T1::sp_accepts(d0, q1, limit2, m0, dep0 + 1, u1, w.1, q2, u2), T2::sp_accepts(d0, q2, limit2, m0, dep0 + 1, u2, w.2, q3, u3), T3::sp_accepts(d0, q3, limit2, m0, dep0 + 1, u3, w.3, q4, u4), T4::sp_accepts(d0, q4, limit2, m0, dep0 + 1, u4, w.4, q5, u5), T5::sp_accepts(d0, q5, limit2, m0, dep0 + 1, u5, w.5, q6, u6), T6::sp_accepts(d0, q6, limit2, m0, dep0 + 1, u6, w.6, q7, u7), T7::sp_accepts(d0, q7, limit2, m0, dep0 + 1, u7, w.7, q8, u8), T8::sp_accepts(d0, q8, limit2, m0, dep0 + 1, u8, w.8, q9, u9), T9::sp_accepts(d0, q9, limit2, m0, dep0 + 1, u9, w.9, q10, u10)]
                                                            T0::sp_accepts(d0, e0, limit2, m0, dep0 + 1, sth, w.0, q1, u1)
                            && T1::sp_accepts(d0, q1, limit2, m0, dep0 + 1, u1, w.1, q2, u2)
                            && T2::sp_accepts(d0, q2, limit2, m0, dep0 + 1, u2, w.2, q3, u3)
                            && T3::sp_accepts(d0, q3, limit2, m0, dep0 + 1, u3, w.3, q4, u4)
                            && T4::sp_accepts(d0, q4, limit2, m0, dep0 + 1, u4, w.4, q5, u5)
                            && T5::sp_accepts(d0, q5, limit2, m0, dep0 + 1, u5, w.5, q6, u6)
                            && T6::sp_accepts(d0, q6, limit2, m0, dep0 + 1, u6, w.6, q7, u7)
                            && T7::sp_accepts(d0, q7, limit2, m0, dep0 + 1, u7, w.7, q8, u8)
                            && T8::sp_accepts(d0, q8, limit2, m0, dep0 + 1, u8, w.8, q9, u9)
                            && T9::sp_accepts(d0, q9, limit2, m0, dep0 + 1, u9, w.9, q10, u10)
                            && rstep_matches(sp_close(d0, q10, limit2, u10, length, Ok::<Self, ASN1Error>(w)), Ok::<Self, ASN1Error>(w), e2, s2);
                                T0::lemma_outcomes_unique(d0, e0, limit2, m0, dep0 + 1, sth, w.0, wq1, wu1, w.0, wq1, wu1, ferr, bad_pos, bad_st, ferr, bad_pos, bad_st);
                                assert(false);
                            },
                            HeadStep::HeadFail { kind, end: ee, st: sx } => {},
                        }
                    }
                }
                    }
                }
                return rr;
            },
        };
        let ghost g1 = *reader;
        let t1 = match T1::decode_ber(reader) {
            Ok(v) => v,
            Err(e) => {
                let ghost ferr = e;
                let ghost bad_pos = reader.posi();
                let ghost bad_st = reader.tag_statev();
                let inner: ASN1Result<Self> = Err(e);
                let rr = reader.close_frame(frame, inner);
                proof {
                    if Self::sp_refusals_exact(m0) {
                assert forall|w: Self, e2: int, s2: TagState| !Self::sp_accepts(
                    d0, pos0, lim0, m0, dep0, st00, w, e2, s2,
                ) by {
                    if Self::sp_accepts(d0, pos0, lim0, m0, dep0, st00, w, e2, s2) {
                        match sp_header(d0, pos0, lim0, m0, dep0, st00, spec_univ_tag(16), TagType::Explicit) {
                            HeadStep::HeadOk { pc, length, end: e0, limit2, st: sth } => {
                                let (wq1, wu1, wq2, wu2, wq3, wu3, wq4, wu4, wq5, wu5, wq6, wu6, wq7, wu7, wq8, wu8, wq9, wu9, wq10, wu10) = choose|q1: int, u1: TagState, q2: int, u2: TagState, q3: int, u3: TagState, q4: int, u4: TagState, q5: int, u5: TagState, q6: int, u6: TagState, q7: int, u7: TagState, q8: int, u8: TagState, q9: int, u9: TagState, q10: int, u10: TagState|
                                    #![trigger T0::sp_accepts(d0, e0, limit2, m0, dep0 + 1, sth, w.0, q1, u1), T1::sp_accepts(d0, q1, limit2, m0, dep0 + 1, u1, w.1, q2, u2), T2::sp_accepts(d0, q2, limit2, m0, dep0 + 1, u2, w.2, q3, u3), T3::sp_accepts(d0, q3, limit2, m0, dep0 + 1, u3, w.3, q4, u4), T4::sp_accepts(d0, q4, limit2, m0, dep0 + 1, u4, w.4, q5, u5), T5::sp_accepts(d0, q5, limit2, m0, dep0 + 1, u5, w.5, q6, u6), T6::sp_accepts(d0, q6, limit2, m0, dep0 + 1, u6, w.6, q7, u7), T7::sp_accepts(d0, q7, limit2, m0, dep0 + 1, u7, w.7, q8, u8), T8::sp_accepts(d0, q8, limit2, m0, dep0 + 1, u8, w.8, q9, u9), T9::sp_accepts(d0, q9, limit2, m0, dep0 + 1, u9, w.9, q10, u10)]
                                                            T0::sp_accepts(d0, e0, limit2, m0, dep0 + 1, sth, w.0, q1, u1)
                            && T1::sp_accepts(d0, q1, limit2, m0, dep0 + 1, u1, w.1, q2, u2)
                            && T2::sp_accepts(d0, q2, limit2, m0, dep0 + 1, u2, w.2, q3, u3)
                            && T3::sp_accepts(d0, q3, limit2, m0, dep0 + 1, u3, w.3, q4, u4)
                            && T4::sp_accepts(d0, q4, limit2, m0, dep0 + 1, u4, w.4, q5, u5)
                            && T5::sp_accepts(d0, q5, limit2, m0, dep0 + 1, u5, w.5, q6, u6)
                            && T6::sp_accepts(d0, q6, limit2, m0, dep0 + 1, u6, w.6, q7, u7)
                            && T7::sp_accepts(d0, q7, limit2, m0, dep0 + 1, u7, w.7, q8, u8)
                            && T8::sp_accepts(d0, q8, limit2, m0, dep0 + 1, u8, w.8, q9, u9)
                            && T9::sp_accepts(d0, q9, limit2, m0, dep0 + 1, u9, w.9, q10, u10)
                            && rstep_matches(sp_close(d0, q10, limit2, u10, length, Ok::<Self, ASN1Error>(w)), Ok::<Self, ASN1Error>(w), e2, s2);
                                T0::lemma_outcomes_unique(d0, e0, limit2, m0, dep0 + 1, sth, w.0, wq1, wu1, t0, g1.posi(), g1.tag_statev(), ASN1Error::Invalid, 0, TagState::Fresh, ASN1Error::Invalid, 0, TagState::Fresh);
                                T1::lemma_outcomes_unique(d0, wq1, limit2, m0, dep0 + 1, wu1, w.1, wq2, wu2, w.1, wq2, wu2, ferr, bad_pos, bad_st, ferr, bad_pos, bad_st);
                                assert(false);
                            },
                            HeadStep::HeadFail { kind, end: ee, st: sx } => {},
                        }
                    }
                }
                    }
                }
                return rr;
            },
        };
        let ghost g2 = *reader;
        let t2 = match T2::decode_ber(reader) {
            Ok(v) => v,
            Err(e) => {
                let ghost ferr = e;
                let ghost bad_pos = reader.posi();
                let ghost bad_st = reader.tag_statev();
                let inner: ASN1Result<Self> = Err(e);
                let rr = reader.close_frame(frame, inner);
                proof {
                    if Self::sp_refusals_exact(m0) {
                assert forall|w: Self, e2: int, s2: TagState| !Self::sp_accepts(
                    d0, pos0, lim0, m0, dep0, st00, w, e2, s2,
                ) by {
                    if Self::sp_accepts(d0, pos0, lim0, m0, dep0, st00, w, e2, s2) {
                        match sp_header(d0, pos0, lim0, m0, dep0, st00, spec_univ_tag(16), TagType::Explicit) {
                            HeadStep::HeadOk { pc, length, end: e0, limit2, st: sth } => {
                                let (wq1, wu1, wq2, wu2, wq3, wu3, wq4, wu4, wq5, wu5, wq6, wu6, wq7, wu7, wq8, wu8, wq9, wu9, wq10, wu10) = choose|q1: int, u1: TagState, q2: int, u2: TagState, q3: int, u3: TagState, q4: int, u4: TagState, q5: int, u5: TagState, q6: int, u6: TagState, q7: int, u7: TagState, q8: int, u8: TagState, q9: int, u9: TagState, q10: int, u10: TagState|
                                    #![trigger T0::sp_accepts(d0, e0, limit2, m0, dep0 + 1, sth, w.0, q1, u1), T1::sp_accepts(d0, q1, limit2, m0, dep0 + 1, u1, w.1, q2, u2), T2::sp_accepts(d0, q2, limit2, m0, dep0 + 1, u2, w.2, q3, u3), T3::sp_accepts(d0, q3, limit2, m0, dep0 + 1, u3, w.3, q4, u4), T4::sp_accepts(d0, q4, limit2, m0, dep0 + 1, u4, w.4, q5, u5), T5::sp_accepts(d0, q5, limit2, m0, dep0 + 1, u5, w.5, q6, u6), T6::sp_accepts(d0, q6, limit2, m0, dep0 + 1, u6, w.6, q7, u7), T7::sp_accepts(d0, q7, limit2, m0, dep0 + 1, u7, w.7, q8, u8), T8::sp_accepts(d0, q8, limit2, m0, dep0 + 1, u8, w.8, q9, u9), T9::sp_accepts(d0, q9, limit2, m0, dep0 + 1, u9, w.9, q10, u10)]
                                                            T0::sp_accepts(d0, e0, limit2, m0, dep0 + 1, sth, w.0, q1, u1)
                            && T1::sp_accepts(d0, q1, limit2, m0, dep0 + 1, u1, w.1, q2, u2)
                            && T2::sp_accepts(d0, q2, limit2, m0, dep0 + 1, u2, w.2, q3, u3)
                            && T3::sp_accepts(d0, q3, limit2, m0, dep0 + 1, u3, w.3, q4, u4)
                            && T4::sp_accepts(d0, q4, limit2, m0, dep0 + 1, u4, w.4, q5, u5)
                            && T5::sp_accepts(d0, q5, limit2, m0, dep0 + 1, u5, w.5, q6, u6)
                            && T6::sp_accepts(d0, q6, limit2, m0, dep0 + 1, u6, w.6, q7, u7)
                            && T7::sp_accepts(d0, q7, limit2, m0, dep0 + 1, u7, w.7, q8, u8)
                            && T8::sp_accepts(d0, q8, limit2, m0, dep0 + 1, u8, w.8, q9, u9)
                            && T9::sp_accepts(d0, q9, limit2, m0, dep0 + 1, u9, w.9, q10, u10)
                            && rstep_matches(sp_close(d0, q10, limit2, u10, length, Ok::<Self, ASN1Error>(w)), Ok::<Self, ASN1Error>(w), e2, s2);
                                T0::lemma_outcomes_unique(d0, e0, limit2, m0, dep0 + 1, sth, w.0, wq1, wu1, t0, g1.posi(), g1.tag_statev(), ASN1Error::Invalid, 0, TagState::Fresh, ASN1Error::Invalid, 0, TagState::Fresh);
                                T1::lemma_outcomes_unique(d0, wq1, limit2, m0, dep0 + 1, wu1, w.1, wq2, wu2, t1, g2.posi(), g2.tag_statev(), ASN1Error::Invalid, 0, TagState::Fresh, ASN1Error::Invalid, 0, TagState::Fresh);
                                T2::lemma_outcomes_unique(d0, wq2, limit2, m0, dep0 + 1, wu2, w.2, wq3, wu3, w.2, wq3, wu3, ferr, bad_pos, bad_st, ferr, bad_pos, bad_st);
                                assert(false);
                            },
                            HeadStep::HeadFail { kind, end: ee, st: sx } => {},
                        }
                    }
                }
                    }
                }
                return rr;
            },
        };
        let ghost g3 = *reader;
        let t3 = match T3::decode_ber(reader) {
            Ok(v) => v,
            Err(e) => {
                let ghost ferr = e;
                let ghost bad_pos = reader.posi();
                let ghost bad_st = reader.tag_statev();
                let inner: ASN1Result<Self> = Err(e);
                let rr = reader.close_frame(frame, inner);
                proof {
                    if Self::sp_refusals_exact(m0) {
                assert forall|w: Self, e2: int, s2: TagState| !Self::sp_accepts(
                    d0, pos0, lim0, m0, dep0, st00, w, e2, s2,
                ) by {
                    if Self::sp_accepts(d0, pos0, lim0, m0, dep0, st00, w, e2, s2) {
                        match sp_header(d0, pos0, lim0, m0, dep0, st00, spec_univ_tag(16), TagType::Explicit) {
                            HeadStep::HeadOk { pc, length, end: e0, limit2, st: sth } => {
                                let (wq1, wu1, wq2, wu2, wq3, wu3, wq4, wu4, wq5, wu5, wq6, wu6, wq7, wu7, wq8, wu8, wq9, wu9, wq10, wu10) = choose|q1: int, u1: TagState, q2: int, u2: TagState, q3: int, u3: TagState, q4: int, u4: TagState, q5: int, u5: TagState, q6: int, u6: TagState, q7: int, u7: TagState, q8: int, u8: TagState, q9: int, u9: TagState, q10: int, u10: TagState|
                                    #![trigger T0::sp_accepts(d0, e0, limit2, m0, dep0 + 1, sth, w.0, q1, u1), T1::sp_accepts(d0, q1, limit2, m0, dep0 + 1, u1, w.1, q2, u2), T2::sp_accepts(d0, q2, limit2, m0, dep0 + 1, u2, w.2, q3, u3), T3::sp_accepts(d0, q3, limit2, m0, dep0 + 1, u3, w.3, q4, u4), T4::sp_accepts(d0, q4, limit2, m0, dep0 + 1, u4, w.4, q5, u5), T5::sp_accepts(d0, q5, limit2, m0, dep0 + 1, u5, w.5, q6, u6), T6::sp_accepts(d0, q6, limit2, m0, dep0 + 1, u6, w.6, q7, u7), T7::sp_accepts(d0, q7, limit2, m0, dep0 + 1, u7, w.7, q8, u8), T8::sp_accepts(d0, q8, limit2, m0, dep0 + 1, u8, w.8, q9, u9), T9::sp_accepts(d0, q9, limit2, m0, dep0 + 1, u9, w.9, q10, u10)]
                                                            T0::sp_accepts(d0, e0, limit2, m0, dep0 + 1, sth, w.0, q1, u1)
                            && T1::sp_accepts(d0, q1, limit2, m0, dep0 + 1, u1, w.1, q2, u2)
                            && T2::sp_accepts(d0, q2, limit2, m0, dep0 + 1, u2, w.2, q3, u3)
                            && T3::sp_accepts(d0, q3, limit2, m0, dep0 + 1, u3, w.3, q4, u4)
                            && T4::sp_accepts(d0, q4, limit2, m0, dep0 + 1, u4, w.4, q5, u5)
                            && T5::sp_accepts(d0, q5, limit2, m0, dep0 + 1, u5, w.5, q6, u6)
                            && T6::sp_accepts(d0, q6, limit2, m0, dep0 + 1, u6, w.6, q7, u7)
                            && T7::sp_accepts(d0, q7, limit2, m0, dep0 + 1, u7, w.7, q8, u8)
                            && T8::sp_accepts(d0, q8, limit2, m0, dep0 + 1, u8, w.8, q9, u9)
                            && T9::sp_accepts(d0, q9, limit2, m0, dep0 + 1, u9, w.9, q10, u10)
                            && rstep_matches(sp_close(d0, q10, limit2, u10, length, Ok::<Self, ASN1Error>(w)), Ok::<Self, ASN1Error>(w), e2, s2);
                                T0::lemma_outcomes_unique(d0, e0, limit2, m0, dep0 + 1, sth, w.0, wq1, wu1, t0, g1.posi(), g1.tag_statev(), ASN1Error::Invalid, 0, TagState::Fresh, ASN1Error::Invalid, 0, TagState::Fresh);
                                T1::lemma_outcomes_unique(d0, wq1, limit2, m0, dep0 + 1, wu1, w.1, wq2, wu2, t1, g2.posi(), g2.tag_statev(), ASN1Error::Invalid, 0, TagState::Fresh, ASN1Error::Invalid, 0, TagState::Fresh);
                                T2::lemma_outcomes_unique(d0, wq2, limit2, m0, dep0 + 1, wu2, w.2, wq3, wu3, t2, g3.posi(), g3.tag_statev(), ASN1Error::Invalid, 0, TagState::Fresh, ASN1Error::Invalid, 0, TagState::Fresh);
                                T3::lemma_outcomes_unique(d0, wq3, limit2, m0, dep0 + 1, wu3, w.3, wq4, wu4, w.3, wq4, wu4, ferr, bad_pos, bad_st, ferr, bad_pos, bad_st);
                                assert(false);
                            },
                            HeadStep::HeadFail { kind, end: ee, st: sx } => {},
                        }
                    }
                }
                    }
                }
                return rr;
            },
        };
        let ghost g4 = *reader;
        let t4 = match T4::decode_ber(reader) {
            Ok(v) => v,
            Err(e) => {
                let ghost ferr = e;
                let ghost bad_pos = reader.posi();
                let ghost bad_st = reader.tag_statev();
                let inner: ASN1Result<Self> = Err(e);
                let rr = reader.close_frame(frame, inner);
                proof {
                    if Self::sp_refusals_exact(m0) {
                assert forall|w: Self, e2: int, s2: TagState| !Self::sp_accepts(
                    d0, pos0, lim0, m0, dep0, st00, w, e2, s2,
                ) by {
                    if Self::sp_accepts(d0, pos0, lim0, m0, dep0, st00, w, e2, s2) {
                        match sp_header(d0, pos0, lim0, m0, dep0, st00, spec_univ_tag(16), TagType::Explicit) {
                            HeadStep::HeadOk { pc, length, end: e0, limit2, st: sth } => {
                                let (wq1, wu1, wq2, wu2, wq3, wu3, wq4, wu4, wq5, wu5, wq6, wu6, wq7, wu7, wq8, wu8, wq9, wu9, wq10, wu10) = choose|q1: int, u1: TagState, q2: int, u2: TagState, q3: int, u3: TagState, q4: int, u4: TagState, q5: int, u5: TagState, q6: int, u6: TagState, q7: int, u7: TagState, q8: int, u8: TagState, q9: int, u9: TagState, q10: int, u10: TagState|
                                    #![trigger T0::sp_accepts(d0, e0, limit2, m0, dep0 + 1, sth, w.0, q1, u1), T1::sp_accepts(d0, q1, limit2, m0, dep0 + 1, u1, w.1, q2, u2), T2::sp_accepts(d0, q2, limit2, m0, dep0 + 1, u2, w.2, q3, u3), T3::sp_accepts(d0, q3, limit2, m0, dep0 + 1, u3, w.3, q4, u4), T4::sp_accepts(d0, q4, limit2, m0, dep0 + 1, u4, w.4, q5, u5), T5::sp_accepts(d0, q5, limit2, m0, dep0 + 1, u5, w.5, q6, u6), T6::sp_accepts(d0, q6, limit2, m0, dep0 + 1, u6, w.6, q7, u7), T7::sp_accepts(d0, q7, limit2, m0, dep0 + 1, u7, w.7, q8, u8), T8::sp_accepts(d0, q8, limit2, m0, dep0 + 1, u8, w.8, q9, u9), T9::sp_accepts(d0, q9, limit2, m0, dep0 + 1, u9, w.9, q10, u10)]
                                                            T0::sp_accepts(d0, e0, limit2, m0, dep0 + 1, sth, w.0, q1, u1)
                            && T1::sp_accepts(d0, q1, limit2, m0, dep0 + 1, u1, w.1, q2, u2)
                            && T2::sp_accepts(d0, q2, limit2, m0, dep0 + 1, u2, w.2, q3, u3)
                            && T3::sp_accepts(d0, q3, limit2, m0, dep0 + 1, u3, w.3, q4, u4)
                            && T4::sp_accepts(d0, q4, limit2, m0, dep0 + 1, u4, w.4, q5, u5)
                            && T5::sp_accepts(d0, q5, limit2, m0, dep0 + 1, u5, w.5, q6, u6)
                            && T6::sp_accepts(d0, q6, limit2, m0, dep0 + 1, u6, w.6, q7, u7)
                            && T7::sp_accepts(d0, q7, limit2, m0, dep0 + 1, u7, w.7, q8, u8)
                            && T8::sp_accepts(d0, q8, limit2, m0, dep0 + 1, u8, w.8, q9, u9)
                            && T9::sp_accepts(d0, q9, limit2, m0, dep0 + 1, u9, w.9, q10, u10)
                            && rstep_matches(sp_close(d0, q10, limit2, u10, length, Ok::<Self, ASN1Error>(w)), Ok::<Self, ASN1Error>(w), e2, s2);
                                T0::lemma_outcomes_unique(d0, e0, limit2, m0, dep0 + 1, sth, w.0, wq1, wu1, t0, g1.posi(), g1.tag_statev(), ASN1Error::Invalid, 0, TagState::Fresh, ASN1Error::Invalid, 0, TagState::Fresh);
                                T1::lemma_outcomes_unique(d0, wq1, limit2, m0, dep0 + 1, wu1, w.1, wq2, wu2, t1, g2.posi(), g2.tag_statev(), ASN1Error::Invalid, 0, TagState::Fresh, ASN1Error::Invalid, 0, TagState::Fresh);
                                T2::lemma_outcomes_unique(d0, wq2, limit2, m0, dep0 + 1, wu2, w.2, wq3, wu3, t2, g3.posi(), g3.tag_statev(), ASN1Error::Invalid, 0, TagState::Fresh, ASN1Error::Invalid, 0, TagState::Fresh);
                                T3::lemma_outcomes_unique(d0, wq3, limit2, m0, dep0 + 1, wu3, w.3, wq4, wu4, t3, g4.posi(), g4.tag_statev(), ASN1Error::Invalid, 0, TagState::Fresh, ASN1Error::Invalid, 0, TagState::Fresh);
                                T4::lemma_outcomes_unique(d0, wq4, limit2, m0, dep0 + 1, wu4, w.4, wq5, wu5, w.4, wq5, wu5, ferr, bad_pos, bad_st, ferr, bad_pos, bad_st);
                                assert(false);
                            },
                            HeadStep::HeadFail { kind, end: ee, st: sx } => {},
                        }
                    }
                }
                    }
                }
                return rr;
            },
        };
        let ghost g5 = *reader;
        let t5 = match T5::decode_ber(reader) {
            Ok(v) => v,
            Err(e) => {
                let ghost ferr = e;
                let ghost bad_pos = reader.posi();
                let ghost bad_st = reader.tag_statev();
                let inner: ASN1Result<Self> = Err(e);
                let rr = reader.close_frame(frame, inner);
                proof {
                    if Self::sp_refusals_exact(m0) {
                assert forall|w: Self, e2: int, s2: TagState| !Self::sp_accepts(
                    d0, pos0, lim0, m0, dep0, st00, w, e2, s2,
                ) by {
                    if Self::sp_accepts(d0, pos0, lim0, m0, dep0, st00, w, e2, s2) {
                        match sp_header(d0, pos0, lim0, m0, dep0, st00, spec_univ_tag(16), TagType::Explicit) {
                            HeadStep::HeadOk { pc, length, end: e0, limit2, st: sth } => {
                                let (wq1, wu1, wq2, wu2, wq3, wu3, wq4, wu4, wq5, wu5, wq6, wu6, wq7, wu7, wq8, wu8, wq9, wu9, wq10, wu10) = choose|q1: int, u1: TagState, q2: int, u2: TagState, q3: int, u3: TagState, q4: int, u4: TagState, q5: int, u5: TagState, q6: int, u6: TagState, q7: int, u7: TagState, q8: int, u8: TagState, q9: int, u9: TagState, q10: int, u10: TagState|
                                    #![trigger T0::sp_accepts(d0, e0, limit2, m0, dep0 + 1, sth, w.0, q1, u1), T1::sp_accepts(d0, q1, limit2, m0, dep0 + 1, u1, w.1, q2, u2), T2::sp_accepts(d0, q2, limit2, m0, dep0 + 1, u2, w.2, q3, u3), T3::sp_accepts(d0, q3, limit2, m0, dep0 + 1, u3, w.3, q4, u4), T4::sp_accepts(d0, q4, limit2, m0, dep0 + 1, u4, w.4, q5, u5), T5::sp_accepts(d0, q5, limit2, m0, dep0 + 1, u5, w.5, q6, u6), T6::sp_accepts(d0, q6, limit2, m0, dep0 + 1, u6, w.6, q7, u7), T7::sp_accepts(d0, q7, limit2, m0, dep0 + 1, u7, w.7, q8, u8), T8::sp_accepts(d0, q8, limit2, m0, dep0 + 1, u8, w.8, q9, u9), T9::sp_accepts(d0, q9, limit2, m0, dep0 + 1, u9, w.9, q10, u10)]
                                                            T0::sp_accepts(d0, e0, limit2, m0, dep0 + 1, sth, w.0, q1, u1)
                            && T1::sp_accepts(d0, q1, limit2, m0, dep0 + 1, u1, w.1, q2, u2)
                            && T2::sp_accepts(d0, q2, limit2, m0, dep0 + 1, u2, w.2, q3, u3)
                            && T3::sp_accepts(d0, q3, limit2, m0, dep0 + 1, u3, w.3, q4, u4)
                            && T4::sp_accepts(d0, q4, limit2, m0, dep0 + 1, u4, w.4, q5, u5)
                            && T5::sp_accepts(d0, q5, limit2, m0, dep0 + 1, u5, w.5, q6, u6)
                            && T6::sp_accepts(d0, q6, limit2, m0, dep0 + 1, u6, w.6, q7, u7)
                            && T7::sp_accepts(d0, q7, limit2, m0, dep0 + 1, u7, w.7, q8, u8)
                            && T8::sp_accepts(d0, q8, limit2, m0, dep0 + 1, u8, w.8, q9, u9)
                            && T9::sp_accepts(d0, q9, limit2, m0, dep0 + 1, u9, w.9, q10, u10)
                            && rstep_matches(sp_close(d0, q10, limit2, u10, length, Ok::<Self, ASN1Error>(w)), Ok::<Self, ASN1Error>(w), e2, s2);
                                T0::lemma_outcomes_unique(d0, e0, limit2, m0, dep0 + 1, sth, w.0, wq1, wu1, t0, g1.posi(), g1.tag_statev(), ASN1Error::Invalid, 0, TagState::Fresh, ASN1Error::Invalid, 0, TagState::Fresh);
                                T1::lemma_outcomes_unique(d0, wq1, limit2, m0, dep0 + 1, wu1, w.1, wq2, wu2, t1, g2.posi(), g2.tag_statev(), ASN1Error::Invalid, 0, TagState::Fresh, ASN1Error::Invalid, 0, TagState::Fresh);
                                T2::lemma_outcomes_unique(d0, wq2, limit2, m0, dep0 + 1, wu2, w.2, wq3, wu3, t2, g3.posi(), g3.tag_statev(), ASN1Error::Invalid, 0, TagState::Fresh, ASN1Error::Invalid, 0, TagState::Fresh);
                                T3::lemma_outcomes_unique(d0, wq3, limit2, m0, dep0 + 1, wu3, w.3, wq4, wu4, t3, g4.posi(), g4.tag_statev(), ASN1Error::Invalid, 0, TagState::Fresh, ASN1Error::Invalid, 0, TagState::Fresh);
                                T4::lemma_outcomes_unique(d0, wq4, limit2, m0, dep0 + 1, wu4, w.4, wq5, wu5, t4, g5.posi(), g5.tag_statev(), ASN1Error::Invalid, 0, TagState::Fresh, ASN1Error::Invalid, 0, TagState::Fresh);
                                T5::lemma_outcomes_unique(d0, wq5, limit2, m0, dep0 + 1, wu5, w.5, wq6, wu6, w.5, wq6, wu6, ferr, bad_pos, bad_st, ferr, bad_pos, bad_st);
                                assert(false);
                            },
                            HeadStep::HeadFail { kind, end: ee, st: sx } => {},
                        }
                    }
                }
                    }
                }
                return rr;
            },
        };
        let ghost g6 = *reader;
        let t6 = match T6::decode_ber(reader) {
            Ok(v) => v,
            Err(e) => {
                let ghost ferr = e;
                let ghost bad_pos = reader.posi();
                let ghost bad_st = reader.tag_statev();
                let inner: ASN1Result<Self> = Err(e);
                let rr = reader.close_frame(frame, inner);
                proof {
                    if Self::sp_refusals_exact(m0) {
                assert forall|w: Self, e2: int, s2: TagState| !Self::sp_accepts(
                    d0, pos0, lim0, m0, dep0, st00, w, e2, s2,
                ) by {
                    if Self::sp_accepts(d0, pos0, lim0, m0, dep0, st00, w, e2, s2) {
                        match sp_header(d0, pos0, lim0, m0, dep0, st00, spec_univ_tag(16), TagType::Explicit) {
                            HeadStep::HeadOk { pc, length, end: e0, limit2, st: sth } => {
                                let (wq1, wu1, wq2, wu2, wq3, wu3, wq4, wu4, wq5, wu5, wq6, wu6, wq7, wu7, wq8, wu8, wq9, wu9, wq10, wu10) = choose|q1: int, u1: TagState, q2: int, u2: TagState, q3: int, u3: TagState, q4: int, u4: TagState, q5: int, u5: TagState, q6: int, u6: TagState, q7: int, u7: TagState, q8: int, u8: TagState, q9: int, u9: TagState, q10: int, u10: TagState|
                                    #![trigger T0::sp_accepts(d0, e0, limit2, m0, dep0 + 1, sth, w.0, q1, u1), T1::sp_accepts(d0, q1, limit2, m0, dep0 + 1, u1, w.1, q2, u2), T2::sp_accepts(d0, q2, limit2, m0, dep0 + 1, u2, w.2, q3, u3), T3::sp_accepts(d0, q3, limit2, m0, dep0 + 1, u3, w.3, q4, u4), T4::sp_accepts(d0, q4, limit2, m0, dep0 + 1, u4, w.4, q5, u5), T5::sp_accepts(d0, q5, limit2, m0, dep0 + 1, u5, w.5, q6, u6), T6::sp_accepts(d0, q6, limit2, m0, dep0 + 1, u6, w.6, q7, u7), T7::sp_accepts(d0, q7, limit2, m0, dep0 + 1, u7, w.7, q8, u8), T8::sp_accepts(d0, q8, limit2, m0, dep0 + 1, u8, w.8, q9, u9), T9::sp_accepts(d0, q9, limit2, m0, dep0 + 1, u9, w.9, q10, u10)]
                                                            T0::sp_accepts(d0, e0, limit2, m0, dep0 + 1, sth, w.0, q1, u1)
                            && T1::sp_accepts(d0, q1, limit2, m0, dep0 + 1, u1, w.1, q2, u2)
                            && T2::sp_accepts(d0, q2, limit2, m0, dep0 + 1, u2, w.2, q3, u3)
                            && T3::sp_accepts(d0, q3, limit2, m0, dep0 + 1, u3, w.3, q4, u4)
                            && T4::sp_accepts(d0, q4, limit2, m0, dep0 + 1, u4, w.4, q5, u5)
                            && T5::sp_accepts(d0, q5, limit2, m0, dep0 + 1, u5, w.5, q6, u6)
                            && T6::sp_accepts(d0, q6, limit2, m0, dep0 + 1, u6, w.6, q7, u7)
                            && T7::sp_accepts(d0, q7, limit2, m0, dep0 + 1, u7, w.7, q8, u8)
                            && T8::sp_accepts(d0, q8, limit2, m0, dep0 + 1, u8, w.8, q9, u9)
                            && T9::sp_accepts(d0, q9, limit2, m0, dep0 + 1, u9, w.9, q10, u10)
                            && rstep_matches(sp_close(d0, q10, limit2, u10, length, Ok::<Self, ASN1Error>(w)), Ok::<Self, ASN1Error>(w), e2, s2);
                                T0::lemma_outcomes_unique(d0, e0, limit2, m0, dep0 + 1, sth, w.0, wq1, wu1, t0, g1.posi(), g1.tag_statev(), ASN1Error::Invalid, 0, TagState::Fresh, ASN1Error::Invalid, 0, TagState::Fresh);
                                T1::lemma_outcomes_unique(d0, wq1, limit2, m0, dep0 + 1, wu1, w.1, wq2, wu2, t1, g2.posi(), g2.tag_statev(), ASN1Error::Invalid, 0, TagState::Fresh, ASN1Error::Invalid, 0, TagState::Fresh);
                                T2::lemma_outcomes_unique(d0, wq2, limit2, m0, dep0 + 1, wu2, w.2, wq3, wu3, t2, g3.posi(), g3.tag_statev(), ASN1Error::Invalid, 0, TagState::Fresh, ASN1Error::Invalid, 0, TagState::Fresh);
                                T3::lemma_outcomes_unique(d0, wq3, limit2, m0, dep0 + 1, wu3, w.3, wq4, wu4, t3, g4.posi(), g4.tag_statev(), ASN1Error::Invalid, 0, TagState::Fresh, ASN1Error::Invalid, 0, TagState::Fresh);
                                T4::lemma_outcomes_unique(d0, wq4, limit2, m0, dep0 + 1, wu4, w.4, wq5, wu5, t4, g5.posi(), g5.tag_statev(), ASN1Error::Invalid, 0, TagState::Fresh, ASN1Error::Invalid, 0, TagState::Fresh);
                                T5::lemma_outcomes_unique(d0, wq5, limit2, m0, dep0 + 1, wu5, w.5, wq6, wu6, t5, g6.posi(), g6.tag_statev(), ASN1Error::Invalid, 0, TagState::Fresh, ASN1Error::Invalid, 0, TagState::Fresh);
                                T6::lemma_outcomes_unique(d0, wq6, limit2, m0, dep0 + 1, wu6, w.6, wq7, wu7, w.6, wq7, wu7, ferr, bad_pos, bad_st, ferr, bad_pos, bad_st);
                                assert(false);
                            },
                            HeadStep::HeadFail { kind, end: ee, st: sx } => {},
                        }
                    }
                }
                    }
                }
                return rr;
            },
        };
        let ghost g7 = *reader;
        let t7 = match T7::decode_ber(reader) {
            Ok(v) => v,
            Err(e) => {
                let ghost ferr = e;
                let ghost bad_pos = reader.posi();
                let ghost bad_st = reader.tag_statev();
                let inner: ASN1Result<Self> = Err(e);
                let rr = reader.close_frame(frame, inner);
                proof {
                    if Self::sp_refusals_exact(m0) {
                assert forall|w: Self, e2: int, s2: TagState| !Self::sp_accepts(
                    d0, pos0, lim0, m0, dep0, st00, w, e2, s2,
                ) by {
                    if Self::sp_accepts(d0, pos0, lim0, m0, dep0, st00, w, e2, s2) {
                        match sp_header(d0, pos0, lim0, m0, dep0, st00, spec_univ_tag(16), TagType::Explicit) {
                            HeadStep::HeadOk { pc, length, end: e0, limit2, st: sth } => {
                                let (wq1, wu1, wq2, wu2, wq3, wu3, wq4, wu4, wq5, wu5, wq6, wu6, wq7, wu7, wq8, wu8, wq9, wu9, wq10, wu10) = choose|q1: int, u1: TagState, q2: int, u2: TagState, q3: int, u3: TagState, q4: int, u4: TagState, q5: int, u5: TagState, q6: int, u6: TagState, q7: int, u7: TagState, q8: int, u8: TagState, q9: int, u9: TagState, q10: int, u10: TagState|
                                    #![trigger T0::sp_accepts(d0, e0, limit2, m0, dep0 + 1, sth, w.0, q1, u1), T1::sp_accepts(d0, q1, limit2, m0, dep0 + 1, u1, w.1, q2, u2), T2::sp_accepts(d0, q2, limit2, m0, dep0 + 1, u2, w.2, q3, u3), T3::sp_accepts(d0, q3, limit2, m0, dep0 + 1, u3, w.3, q4, u4), T4::sp_accepts(d0, q4, limit2, m0, dep0 + 1, u4, w.4, q5, u5), T5::sp_accepts(d0, q5, limit2, m0, dep0 + 1, u5, w.5, q6, u6), T6::sp_accepts(d0, q6, limit2, m0, dep0 + 1, u6, w.6, q7, u7), T7::sp_accepts(d0, q7, limit2, m0, dep0 + 1, u7, w.7, q8, u8), T8::sp_accepts(d0, q8, limit2, m0, dep0 + 1, u8, w.8, q9, u9), T9::sp_accepts(d0, q9, limit2, m0, dep0 + 1, u9, w.9, q10, u10)]
                                                            T0::sp_accepts(d0, e0, limit2, m0, dep0 + 1, sth, w.0, q1, u1)
                            && T1::sp_accepts(d0, q1, limit2, m0, dep0 + 1, u1, w.1, q2, u2)
                            && T2::sp_accepts(d0, q2, limit2, m0, dep0 + 1, u2, w.2, q3, u3)
                            && T3::sp_accepts(d0, q3, limit2, m0, dep0 + 1, u3, w.3, q4, u4)
                            && T4::sp_accepts(d0, q4, limit2, m0, dep0 + 1, u4, w.4, q5, u5)
                            && T5::sp_accepts(d0, q5, limit2, m0, dep0 + 1, u5, w.5, q6, u6)
                            && T6::sp_accepts(d0, q6, limit2, m0, dep0 + 1, u6, w.6, q7, u7)
                            && T7::sp_accepts(d0, q7, limit2, m0, dep0 + 1, u7, w.7, q8, u8)
                            && T8::sp_accepts(d0, q8, limit2, m0, dep0 + 1, u8, w.8, q9, u9)
                            && T9::sp_accepts(d0, q9, limit2, m0, dep0 + 1, u9, w.9, q10, u10)
                            && rstep_matches(sp_close(d0, q10, limit2, u10, length, Ok::<Self, ASN1Error>(w)), Ok::<Self, ASN1Error>(w), e2, s2);
                                T0::lemma_outcomes_unique(d0, e0, limit2, m0, dep0 + 1, sth, w.0, wq1, wu1, t0, g1.posi(), g1.tag_statev(), ASN1Error::Invalid, 0, TagState::Fresh, ASN1Error::Invalid, 0, TagState::Fresh);
                                T1::lemma_outcomes_unique(d0, wq1, limit2, m0, dep0 + 1, wu1, w.1, wq2, wu2, t1, g2.posi(), g2.tag_statev(), ASN1Error::Invalid, 0, TagState::Fresh, ASN1Error::Invalid, 0, TagState::Fresh);
                                T2::lemma_outcomes_unique(d0, wq2, limit2, m0, dep0 + 1, wu2, w.2, wq3, wu3, t2, g3.posi(), g3.tag_statev(), ASN1Error::Invalid, 0, TagState::Fresh, ASN1Error::Invalid, 0, TagState::Fresh);
                                T3::lemma_outcomes_unique(d0, wq3, limit2, m0, dep0 + 1, wu3, w.3, wq4, wu4, t3, g4.posi(), g4.tag_statev(), ASN1Error::Invalid, 0, TagState::Fresh, ASN1Error::Invalid, 0, TagState::Fresh);
                                T4::lemma_outcomes_unique(d0, wq4, limit2, m0, dep0 + 1, wu4, w.4, wq5, wu5, t4, g5.posi(), g5.tag_statev(), ASN1Error::Invalid, 0, TagState::Fresh, ASN1Error::Invalid, 0, TagState::Fresh);
                                T5::lemma_outcomes_unique(d0, wq5, limit2, m0, dep0 + 1, wu5, w.5, wq6, wu6, t5, g6.posi(), g6.tag_statev(), ASN1Error::Invalid, 0, TagState::Fresh, ASN1Error::Invalid, 0, TagState::Fresh);
                                T6::lemma_outcomes_unique(d0, wq6, limit2, m0, dep0 + 1, wu6, w.6, wq7, wu7, t6, g7.posi(), g7.tag_statev(), ASN1Error::Invalid, 0, TagState::Fresh, ASN1Error::Invalid, 0, TagState::Fresh);
                                T7::lemma_outcomes_unique(d0, wq7, limit2, m0, dep0 + 1, wu7, w.7, wq8, wu8, w.7, wq8, wu8, ferr, bad_pos, bad_st, ferr, bad_pos, bad_st);
                                assert(false);
                            },
                            HeadStep::HeadFail { kind, end: ee, st: sx } => {},
                        }
                    }
                }
                    }
                }
                return rr;
            },
        };
        let ghost g8 = *reader;
        let t8 = match T8::decode_ber(reader) {
            Ok(v) => v,
            Err(e) => {
                let ghost ferr = e;
                let ghost bad_pos = reader.posi();
                let ghost bad_st = reader.tag_statev();
                let inner: ASN1Result<Self> = Err(e);
                let rr = reader.close_frame(frame, inner);
                proof {
                    if Self::sp_refusals_exact(m0) {
                assert forall|w: Self, e2: int, s2: TagState| !Self::sp_accepts(
                    d0, pos0, lim0, m0, dep0, st00, w, e2, s2,
                ) by {
                    if Self::sp_accepts(d0, pos0, lim0, m0, dep0, st00, w, e2, s2) {
                        match sp_header(d0, pos0, lim0, m0, dep0, st00, spec_univ_tag(16), TagType::Explicit) {
                            HeadStep::HeadOk { pc, length, end: e0, limit2, st: sth } => {
                                let (wq1, wu1, wq2, wu2, wq3, wu3, wq4, wu4, wq5, wu5, wq6, wu6, wq7, wu7, wq8, wu8, wq9, wu9, wq10, wu10) = choose|q1: int, u1: TagState, q2: int, u2: TagState, q3: int, u3: TagState, q4: int, u4: TagState, q5: int, u5: TagState, q6: int, u6: TagState, q7: int, u7: TagState, q8: int, u8: TagState, q9: int, u9: TagState, q10: int, u10: TagState|
                                    #![trigger T0::sp_accepts(d0, e0, limit2, m0, dep0 + 1, sth, w.0, q1, u1), T1::sp_accepts(d0, q1, limit2, m0, dep0 + 1, u1, w.1, q2, u2), T2::sp_accepts(d0, q2, limit2, m0, dep0 + 1, u2, w.2, q3, u3), T3::sp_accepts(d0, q3, limit2, m0, dep0 + 1, u3, w.3, q4, u4), T4::sp_accepts(d0, q4, limit2, m0, dep0 + 1, u4, w.4, q5, u5), T5::sp_accepts(d0, q5, limit2, m0, dep0 + 1, u5, w.5, q6, u6), T6::sp_accepts(d0, q6, limit2, m0, dep0 + 1, u6, w.6, q7, u7), T7::sp_accepts(d0, q7, limit2, m0, dep0 + 1, u7, w.7, q8, u8), T8::sp_accepts(d0, q8, limit2, m0, dep0 + 1, u8, w.8, q9, u9), T9::sp_accepts(d0, q9, limit2, m0, dep0 + 1, u9, w.9, q10, u10)]
                                                            T0::sp_accepts(d0, e0, limit2, m0, dep0 + 1, sth, w.0, q1, u1)
                            && T1::sp_accepts(d0, q1, limit2, m0, dep0 + 1, u1, w.1, q2, u2)
                            && T2::sp_accepts(d0, q2, limit2, m0, dep0 + 1, u2, w.2, q3, u3)
                            && T3::sp_accepts(d0, q3, limit2, m0, dep0 + 1, u3, w.3, q4, u4)
                            && T4::sp_accepts(d0, q4, limit2, m0, dep0 + 1, u4, w.4, q5, u5)
                            && T5::sp_accepts(d0, q5, limit2, m0, dep0 + 1, u5, w.5, q6, u6)
                            && T6::sp_accepts(d0, q6, limit2, m0, dep0 + 1, u6, w.6, q7, u7)
                            && T7::sp_accepts(d0, q7, limit2, m0, dep0 + 1, u7, w.7, q8, u8)
                            && T8::sp_accepts(d0, q8, limit2, m0, dep0 + 1, u8, w.8, q9, u9)
                            && T9::sp_accepts(d0, q9, limit2, m0, dep0 + 1, u9, w.9, q10, u10)
                            && rstep_matches(sp_close(d0, q10, limit2, u10, length, Ok::<Self, ASN1Error>(w)), Ok::<Self, ASN1Error>(w), e2, s2);
                                T0::lemma_outcomes_unique(d0, e0, limit2, m0, dep0 + 1, sth, w.0, wq1, wu1, t0, g1.posi(), g1.tag_statev(), ASN1Error::Invalid, 0, TagState::Fresh, ASN1Error::Invalid, 0, TagState::Fresh);
                                T1::lemma_outcomes_unique(d0, wq1, limit2, m0, dep0 + 1, wu1, w.1, wq2, wu2, t1, g2.posi(), g2.tag_statev(), ASN1Error::Invalid, 0, TagState::Fresh, ASN1Error::Invalid, 0, TagState::Fresh);
                                T2::lemma_outcomes_unique(d0, wq2, limit2, m0, dep0 + 1, wu2, w.2, wq3, wu3, t2, g3.posi(), g3.tag_statev(), ASN1Error::Invalid, 0, TagState::Fresh, ASN1Error::Invalid, 0, TagState::Fresh);
                                T3::lemma_outcomes_unique(d0, wq3, limit2, m0, dep0 + 1, wu3, w.3, wq4, wu4, t3, g4.posi(), g4.tag_statev(), ASN1Error::Invalid, 0, TagState::Fresh, ASN1Error::Invalid, 0, TagState::Fresh);
                                T4::lemma_outcomes_unique(d0, wq4, limit2, m0, dep0 + 1, wu4, w.4, wq5, wu5, t4, g5.posi(), g5.tag_statev(), ASN1Error::Invalid, 0, TagState::Fresh, ASN1Error::Invalid, 0, TagState::Fresh);
                                T5::lemma_outcomes_unique(d0, wq5, limit2, m0, dep0 + 1, wu5, w.5, wq6, wu6, t5, g6.posi(), g6.tag_statev(), ASN1Error::Invalid, 0, TagState::Fresh, ASN1Error::Invalid, 0, TagState::Fresh);
                                T6::lemma_outcomes_unique(d0, wq6, limit2, m0, dep0 + 1, wu6, w.6, wq7, wu7, t6, g7.posi(), g7.tag_statev(), ASN1Error::Invalid, 0, TagState::Fresh, ASN1Error::Invalid, 0, TagState::Fresh);
                                T7::lemma_outcomes_unique(d0, wq7, limit2, m0, dep0 + 1, wu7, w.7, wq8, wu8, t7, g8.posi(), g8.tag_statev(), ASN1Error::Invalid, 0, TagState::Fresh, ASN1Error::Invalid, 0, TagState::Fresh);
                                T8::lemma_outcomes_unique(d0, wq8, limit2, m0, dep0 + 1, wu8, w.8, wq9, wu9, w.8, wq9, wu9, ferr, bad_pos, bad_st, ferr, bad_pos, bad_st);
                                assert(false);
                            },
                            HeadStep::HeadFail { kind, end: ee, st: sx } => {},
                        }
                    }
                }
                    }
                }
                return rr;
            },
        };
        let ghost g9 = *reader;
        let t9 = match T9::decode_ber(reader) {
            Ok(v) => v,
            Err(e) => {
                let ghost ferr = e;
                let ghost bad_pos = reader.posi();
                let ghost bad_st = reader.tag_statev();
                let inner: ASN1Result<Self> = Err(e);
                let rr = reader.close_frame(frame, inner);
                proof {
                    if Self::sp_refusals_exact(m0) {
                assert forall|w: Self, e2: int, s2: TagState| !Self::sp_accepts(
                    d0, pos0, lim0, m0, dep0, st00, w, e2, s2,
                ) by {
                    if Self::sp_accepts(d0, pos0, lim0, m0, dep0, st00, w, e2, s2) {
                        match sp_header(d0, pos0, lim0, m0, dep0, st00, spec_univ_tag(16), TagType::Explicit) {
                            HeadStep::HeadOk { pc, length, end: e0, limit2, st: sth } => {
                                let (wq1, wu1, wq2, wu2, wq3, wu3, wq4, wu4, wq5, wu5, wq6, wu6, wq7, wu7, wq8, wu8, wq9, wu9, wq10, wu10) = choose|q1: int, u1: TagState, q2: int, u2: TagState, q3: int, u3: TagState, q4: int, u4: TagState, q5: int, u5: TagState, q6: int, u6: TagState, q7: int, u7: TagState, q8: int, u8: TagState, q9: int, u9: TagState, q10: int, u10: TagState|
                                    #![trigger T0::sp_accepts(d0, e0, limit2, m0, dep0 + 1, sth, w.0, q1, u1), T1::sp_accepts(d0, q1, limit2, m0, dep0 + 1, u1, w.1, q2, u2), T2::sp_accepts(d0, q2, limit2, m0, dep0 + 1, u2, w.2, q3, u3), T3::sp_accepts(d0, q3, limit2, m0, dep0 + 1, u3, w.3, q4, u4), T4::sp_accepts(d0, q4, limit2, m0, dep0 + 1, u4, w.4, q5, u5), T5::sp_accepts(d0, q5, limit2, m0, dep0 + 1, u5, w.5, q6, u6), T6::sp_accepts(d0, q6, limit2, m0, dep0 + 1, u6, w.6, q7, u7), T7::sp_accepts(d0, q7, limit2, m0, dep0 + 1, u7, w.7, q8, u8), T8::sp_accepts(d0, q8, limit2, m0, dep0 + 1, u8, w.8, q9, u9), T9::sp_accepts(d0, q9, limit2, m0, dep0 + 1, u9, w.9, q10, u10)]
                                                            T0::sp_accepts(d0, e0, limit2, m0, dep0 + 1, sth, w.0, q1, u1)
                            && T1::sp_accepts(d0, q1, limit2, m0, dep0 + 1, u1, w.1, q2, u2)
                            && T2::sp_accepts(d0, q2, limit2, m0, dep0 + 1, u2, w.2, q3, u3)
                            && T3::sp_accepts(d0, q3, limit2, m0, dep0 + 1, u3, w.3, q4, u4)
                            && T4::sp_accepts(d0, q4, limit2, m0, dep0 + 1, u4, w.4, q5, u5)
                            && T5::sp_accepts(d0, q5, limit2, m0, dep0 + 1, u5, w.5, q6, u6)
                            && T6::sp_accepts(d0, q6, limit2, m0, dep0 + 1, u6, w.6, q7, u7)
                            && T7::sp_accepts(d0, q7, limit2, m0, dep0 + 1, u7, w.7, q8, u8)
                            && T8::sp_accepts(d0, q8, limit2, m0, dep0 + 1, u8, w.8, q9, u9)
                            && T9::sp_accepts(d0, q9, limit2, m0, dep0 + 1, u9, w.9, q10, u10)
                            && rstep_matches(sp_close(d0, q10, limit2, u10, length, Ok::<Self, ASN1Error>(w)), Ok::<Self, ASN1Error>(w), e2, s2);
                                T0::lemma_outcomes_unique(d0, e0, limit2, m0, dep0 + 1, sth, w.0, wq1, wu1, t0, g1.posi(), g1.tag_statev(), ASN1Error::Invalid, 0, TagState::Fresh, ASN1Error::Invalid, 0, TagState::Fresh);
                                T1::lemma_outcomes_unique(d0, wq1, limit2, m0, dep0 + 1, wu1, w.1, wq2, wu2, t1, g2.posi(), g2.tag_statev(), ASN1Error::Invalid, 0, TagState::Fresh, ASN1Error::Invalid, 0, TagState::Fresh);
                                T2::lemma_outcomes_unique(d0, wq2, limit2, m0, dep0 + 1, wu2, w.2, wq3, wu3, t2, g3.posi(), g3.tag_statev(), ASN1Error::Invalid, 0, TagState::Fresh, ASN1Error::Invalid, 0, TagState::Fresh);
                                T3::lemma_outcomes_unique(d0, wq3, limit2, m0, dep0 + 1, wu3, w.3, wq4, wu4, t3, g4.posi(), g4.tag_statev(), ASN1Error::Invalid, 0, TagState::Fresh, ASN1Error::Invalid, 0, TagState::Fresh);
                                T4::lemma_outcomes_unique(d0, wq4, limit2, m0, dep0 + 1, wu4, w.4, wq5, wu5, t4, g5.posi(), g5.tag_statev(), ASN1Error::Invalid, 0, TagState::Fresh, ASN1Error::Invalid, 0, TagState::Fresh);
                                T5::lemma_outcomes_unique(d0, wq5, limit2, m0, dep0 + 1, wu5, w.5, wq6, wu6, t5, g6.posi(), g6.tag_statev(), ASN1Error::Invalid, 0, TagState::Fresh, ASN1Error::Invalid, 0, TagState::Fresh);
                                T6::lemma_outcomes_unique(d0, wq6, limit2, m0, dep0 + 1, wu6, w.6, wq7, wu7, t6, g7.posi(), g7.tag_statev(), ASN1Error::Invalid, 0, TagState::Fresh, ASN1Error::Invalid, 0, TagState::Fresh);
                                T7::lemma_outcomes_unique(d0, wq7, limit2, m0, dep0 + 1, wu7, w.7, wq8, wu8, t7, g8.posi(), g8.tag_statev(), ASN1Error::Invalid, 0, TagState::Fresh, ASN1Error::Invalid, 0, TagState::Fresh);
                                T8::lemma_outcomes_unique(d0, wq8, limit2, m0, dep0 + 1, wu8, w.8, wq9, wu9, t8, g9.posi(), g9.tag_statev(), ASN1Error::Invalid, 0, TagState::Fresh, ASN1Error::Invalid, 0, TagState::Fresh);
                                T9::lemma_outcomes_unique(d0, wq9, limit2, m0, dep0 + 1, wu9, w.9, wq10, wu10, w.9, wq10, wu10, ferr, bad_pos, bad_st, ferr, bad_pos, bad_st);
                                assert(false);
                            },
                            HeadStep::HeadFail { kind, end: ee, st: sx } => {},
                        }
                    }
                }
                    }
                }
                return rr;
            },
        };
        let ghost g10 = *reader;
        let result = (t0, t1, t2, t3, t4, t5, t6, t7, t8, t9);
        let ghost gv = result;
        let ghost before_close = *reader;
        let rr = reader.close_frame(frame, Ok(result));
        proof {
            if rr is Ok {
                assert(T0::sp_accepts(g0.data(), g0.posi(), g0.limiti(), g0.modev(), g0.depthv(), g0.tag_statev(), gv.0, g1.posi(), g1.tag_statev()));
                assert(T1::sp_accepts(g0.data(), g1.posi(), g0.limiti(), g0.modev(), g0.depthv(), g1.tag_statev(), gv.1, g2.posi(), g2.tag_statev()));
                assert(T2::sp_accepts(g0.data(), g2.posi(), g0.limiti(), g0.modev(), g0.depthv(), g2.tag_statev(), gv.2, g3.posi(), g3.tag_statev()));
                assert(T3::sp_accepts(g0.data(), g3.posi(), g0.limiti(), g0.modev(), g0.depthv(), g3.tag_statev(), gv.3, g4.posi(), g4.tag_statev()));
                assert(T4::sp_accepts(g0.data(), g4.posi(), g0.limiti(), g0.modev(), g0.depthv(), g4.tag_statev(), gv.4, g5.posi(), g5.tag_statev()));
                assert(T5::sp_accepts(g0.data(), g5.posi(), g0.limiti(), g0.modev(), g0.depthv(), g5.tag_statev(), gv.5, g6.posi(), g6.tag_statev()));
                assert(T6::sp_accepts(g0.data(), g6.posi(), g0.limiti(), g0.modev(), g0.depthv(), g6.tag_statev(), gv.6, g7.posi(), g7.tag_statev()));
                assert(T7::sp_accepts(g0.data(), g7.posi(), g0.limiti(), g0.modev(), g0.depthv(), g7.tag_statev(), gv.7, g8.posi(), g8.tag_statev()));
                assert(T8::sp_accepts(g0.data(), g8.posi(), g0.limiti(), g0.modev(), g0.depthv(), g8.tag_statev(), gv.8, g9.posi(), g9.tag_statev()));
                assert(T9::sp_accepts(g0.data(), g9.posi(), g0.limiti(), g0.modev(), g0.depthv(), g9.tag_statev(), gv.9, g10.posi(), g10.tag_statev()));
            }
            if rr is Err && Self::sp_refusals_exact(m0) {
                assert forall|w: Self, e2: int, s2: TagState| !Self::sp_accepts(
                    d0, pos0, lim0, m0, dep0, st00, w, e2, s2,
                ) by {
                    if Self::sp_accepts(d0, pos0, lim0, m0, dep0, st00, w, e2, s2) {
                        match sp_header(d0, pos0, lim0, m0, dep0, st00, spec_univ_tag(16), TagType::Explicit) {
                            HeadStep::HeadOk { pc, length, end: e0, limit2, st: sth } => {
                                let (wq1, wu1, wq2, wu2, wq3, wu3, wq4, wu4, wq5, wu5, wq6, wu6, wq7, wu7, wq8, wu8, wq9, wu9, wq10, wu10) = choose|q1: int, u1: TagState, q2: int, u2: TagState, q3: int, u3: TagState, q4: int, u4: TagState, q5: int, u5: TagState, q6: int, u6: TagState, q7: int, u7: TagState, q8: int, u8: TagState, q9: int, u9: TagState, q10: int, u10: TagState|
                                    #![trigger T0::sp_accepts(d0, e0, limit2, m0, dep0 + 1, sth, w.0, q1, u1), T1::sp_accepts(d0, q1, limit2, m0, dep0 + 1, u1, w.1, q2, u2), T2::sp_accepts(d0, q2, limit2, m0, dep0 + 1, u2, w.2, q3, u3), T3::sp_accepts(d0, q3, limit2, m0, dep0 + 1, u3, w.3, q4, u4), T4::sp_accepts(d0, q4, limit2, m0, dep0 + 1, u4, w.4, q5, u5), T5::sp_accepts(d0, q5, limit2, m0, dep0 + 1, u5, w.5, q6, u6), T6::sp_accepts(d0, q6, limit2, m0, dep0 + 1, u6, w.6, q7, u7), T7::sp_accepts(d0, q7, limit2, m0, dep0 + 1, u7, w.7, q8, u8), T8::sp_accepts(d0, q8, limit2, m0, dep0 + 1, u8, w.8, q9, u9), T9::sp_accepts(d0, q9, limit2, m0, dep0 + 1, u9, w.9, q10, u10)]
                                                            T0::sp_accepts(d0, e0, limit2, m0, dep0 + 1, sth, w.0, q1, u1)
                            && T1::sp_accepts(d0, q1, limit2, m0, dep0 + 1, u1, w.1, q2, u2)
                            && T2::sp_accepts(d0, q2, limit2, m0, dep0 + 1, u2, w.2, q3, u3)
                            && T3::sp_accepts(d0, q3, limit2, m0, dep0 + 1, u3, w.3, q4, u4)
                            && T4::sp_accepts(d0, q4, limit2, m0, dep0 + 1, u4, w.4, q5, u5)
                            && T5::sp_accepts(d0, q5, limit2, m0, dep0 + 1, u5, w.5, q6, u6)
                            && T6::sp_accepts(d0, q6, limit2, m0, dep0 + 1, u6, w.6, q7, u7)
                            && T7::sp_accepts(d0, q7, limit2, m0, dep0 + 1, u7, w.7, q8, u8)
                            && T8::sp_accepts(d0, q8, limit2, m0, dep0 + 1, u8, w.8, q9, u9)
                            && T9::sp_accepts(d0, q9, limit2, m0, dep0 + 1, u9, w.9, q10, u10)
                            && rstep_matches(sp_close(d0, q10, limit2, u10, length, Ok::<Self, ASN1Error>(w)), Ok::<Self, ASN1Error>(w), e2, s2);
                                T0::lemma_outcomes_unique(d0, e0, limit2, m0, dep0 + 1, sth, w.0, wq1, wu1, t0, g1.posi(), g1.tag_statev(), ASN1Error::Invalid, 0, TagState::Fresh, ASN1Error::Invalid, 0, TagState::Fresh);
                                T1::lemma_outcomes_unique(d0, wq1, limit2, m0, dep0 + 1, wu1, w.1, wq2, wu2, t1, g2.posi(), g2.tag_statev(), ASN1Error::Invalid, 0, TagState::Fresh, ASN1Error::Invalid, 0, TagState::Fresh);
                                T2::lemma_outcomes_unique(d0, wq2, limit2, m0, dep0 + 1, wu2, w.2, wq3, wu3, t2, g3.posi(), g3.tag_statev(), ASN1Error::Invalid, 0, TagState::Fresh, ASN1Error::Invalid, 0, TagState::Fresh);
                                T3::lemma_outcomes_unique(d0, wq3, limit2, m0, dep0 + 1, wu3, w.3, wq4, wu4, t3, g4.posi(), g4.tag_statev(), ASN1Error::Invalid, 0, TagState::Fresh, ASN1Error::Invalid, 0, TagState::Fresh);
                                T4::lemma_outcomes_unique(d0, wq4, limit2, m0, dep0 + 1, wu4, w.4, wq5, wu5, t4, g5.posi(), g5.tag_statev(), ASN1Error::Invalid, 0, TagState::Fresh, ASN1Error::Invalid, 0, TagState::Fresh);
                                T5::lemma_outcomes_unique(d0, wq5, limit2, m0, dep0 + 1, wu5, w.5, wq6, wu6, t5, g6.posi(), g6.tag_statev(), ASN1Error::Invalid, 0, TagState::Fresh, ASN1Error::Invalid, 0, TagState::Fresh);
                                T6::lemma_outcomes_unique(d0, wq6, limit2, m0, dep0 + 1, wu6, w.6, wq7, wu7, t6, g7.posi(), g7.tag_statev(), ASN1Error::Invalid, 0, TagState::Fresh, ASN1Error::Invalid, 0, TagState::Fresh);
                                T7::lemma_outcomes_unique(d0, wq7, limit2, m0, dep0 + 1, wu7, w.7, wq8, wu8, t7, g8.posi(), g8.tag_statev(), ASN1Error::Invalid, 0, TagState::Fresh, ASN1Error::Invalid, 0, TagState::Fresh);
                                T8::lemma_outcomes_unique(d0, wq8, limit2, m0, dep0 + 1, wu8, w.8, wq9, wu9, t8, g9.posi(), g9.tag_statev(), ASN1Error::Invalid, 0, TagState::Fresh, ASN1Error::Invalid, 0, TagState::Fresh);
                                T9::lemma_outcomes_unique(d0, wq9, limit2, m0, dep0 + 1, wu9, w.9, wq10, wu10, t9, g10.posi(), g10.tag_statev(), ASN1Error::Invalid, 0, TagState::Fresh, ASN1Error::Invalid, 0, TagState::Fresh);
                            },
                            HeadStep::HeadFail { kind, end: ee, st: sx } => {},
                        }
                    }
                }
            }
        }
        rr
    }
}

impl<T0: BERDecodable, T1: BERDecodable, T2: BERDecodable, T3: BERDecodable, T4: BERDecodable, T5: BERDecodable, T6: BERDecodable, T7: BERDecodable, T8: BERDecodable, T9: BERDecodable, T10: BERDecodable> BERDecodable for (T0, T1, T2, T3, T4, T5, T6, T7, T8, T9, T10) {
    open spec fn sp_accepts(
        data: Seq<u8>,
        pos: int,
        limit: int,
        mode: BERMode,
        depth: int,
        st0: TagState,
        v: Self,
        end: int,
        st: TagState,
    ) -> bool {
        match sp_header(data, pos, limit, mode, depth, st0, spec_univ_tag(16), TagType::Explicit) {
            HeadStep::HeadFail { kind, end: e, st: s } => false,
            HeadStep::HeadOk { pc, length, end: e0, limit2, st: sth } => pc
                == PCBit::Constructed && (exists|p1: int, s1: TagState, p2: int, s2: TagState, p3: int, s3: TagState, p4: int, s4: TagState, p5: int, s5: TagState, p6: int, s6: TagState, p7: int, s7: TagState, p8: int, s8: TagState, p9: int, s9: TagState, p10: int, s10: TagState, p11: int, s11: TagState|
                #![trigger T0::sp_accepts(data, e0, limit2, mode, depth + 1, sth, v.0, p1, s1), T1::sp_accepts(data, p1, limit2, mode, depth + 1, s1, v.1, p2, s2), T2::sp_accepts(data, p2, limit2, mode, depth + 1, s2, v.2, p3, s3), T3::sp_accepts(data, p3, limit2, mode, depth + 1, s3, v.3, p4, s4), T4::sp_accepts(data, p4, limit2, mode, depth + 1, s4, v.4, p5, s5), T5::sp_accepts(data, p5, limit2, mode, depth + 1, s5, v.5, p6, s6), T6::sp_accepts(data, p6, limit2, mode, depth + 1, s6, v.6, p7, s7), T7::sp_accepts(data, p7, limit2, mode, depth + 1, s7, v.7, p8, s8), T8::sp_accepts(data, p8, limit2, mode, depth + 1, s8, v.8, p9, s9), T9::sp_accepts(data, p9, limit2, mode, depth + 1, s9, v.9, p10, s10), T10::sp_accepts(data, p10, limit2, mode, depth + 1, s10, v.10, p11, s11)]
                {
                    &&& T0::sp_accepts(data, e0, limit2, mode, depth + 1, sth, v.0, p1, s1)
                    &&& T1::sp_accepts(data, p1, limit2, mode, depth + 1, s1, v.1, p2, s2)
                    &&& T2::sp_accepts(data, p2, limit2, mode, depth + 1, s2, v.2, p3, s3)
                    &&& T3::sp_accepts(data, p3, limit2, mode, depth + 1, s3, v.3, p4, s4)
                    &&& T4::sp_accepts(data, p4, limit2, mode, depth + 1, s4, v.4, p5, s5)
                    &&& T5::sp_accepts(data, p5, limit2, mode, depth + 1, s5, v.5, p6, s6)
                    &&& T6::sp_accepts(data, p6, limit2, mode, depth + 1, s6, v.6, p7, s7)
                    &&& T7::sp_accepts(data, p7, limit2, mode, depth + 1, s7, v.7, p8, s8)
                    &&& T8::sp_accepts(data, p8, limit2, mode, depth + 1, s8, v.8, p9, s9)
                    &&& T9::sp_accepts(data, p9, limit2, mode, depth + 1, s9, v.9, p10, s10)
                    &&& T10::sp_accepts(data, p10, limit2, mode, depth + 1, s10, v.10, p11, s11)
                    &&& rstep_matches(
                        sp_close(data, p11, limit2, s11, length, Ok::<Self, ASN1Error>(v)),
                        Ok::<Self, ASN1Error>(v),
                        end,
                        st,
                    )
                }),
        }
    }

    open spec fn sp_refusals_exact(mode: BERMode) -> bool {
        mode == BERMode::Der && T0::sp_refusals_exact(BERMode::Der) && T1::sp_refusals_exact(BERMode::Der) && T2::sp_refusals_exact(BERMode::Der) && T3::sp_refusals_exact(BERMode::Der) && T4::sp_refusals_exact(BERMode::Der) && T5::sp_refusals_exact(BERMode::Der) && T6::sp_refusals_exact(BERMode::Der) && T7::sp_refusals_exact(BERMode::Der) && T8::sp_refusals_exact(BERMode::Der) && T9::sp_refusals_exact(BERMode::Der) && T10::sp_refusals_exact(BERMode::Der)
    }

    open spec fn sp_refuses(
        data: Seq<u8>,
        pos: int,
        limit: int,
        mode: BERMode,
        depth: int,
        st0: TagState,
        kind: ASN1Error,
        end: int,
        st: TagState,
    ) -> bool {
        !(exists|w: Self, e2: int, s2: TagState|
            Self::sp_accepts(data, pos, limit, mode, depth, st0, w, e2, s2))
    }

    proof fn lemma_outcomes_unique(
        data: Seq<u8>,
        pos: int,
        limit: int,
        mode: BERMode,
        depth: int,
        st0: TagState,
        v1: Self,
        e1: int,
        s1: TagState,
        v2: Self,
        e2: int,
        s2: TagState,
        k3: ASN1Error,
        e3: int,
        s3: TagState,
        k4: ASN1Error,
        e4: int,
        s4: TagState,
    ) {
        if Self::sp_accepts(data, pos, limit, mode, depth, st0, v1, e1, s1) && Self::sp_accepts(
            data,
            pos,
            limit,
            mode,
            depth,
            st0,
            v2,
            e2,
            s2,
        ) {
            match sp_header(data, pos, limit, mode, depth, st0, spec_univ_tag(16), TagType::Explicit) {
                HeadStep::HeadOk { pc, length, end: e0, limit2, st: sth } => {
                    let (aq1, au1, aq2, au2, aq3, au3, aq4, au4, aq5, au5, aq6, au6, aq7, au7, aq8, au8, aq9, au9, aq10, au10, aq11, au11) = choose|q1: int, u1: TagState, q2: int, u2: TagState, q3: int, u3: TagState, q4: int, u4: TagState, q5: int, u5: TagState, q6: int, u6: TagState, q7: int, u7: TagState, q8: int, u8: TagState, q9: int, u9: TagState, q10: int, u10: TagState, q11: int, u11: TagState|
                        #![trigger T0::sp_accepts(data, e0, limit2, mode, depth + 1, sth, v1.0, q1, u1), T1::sp_accepts(data, q1, limit2, mode, depth + 1, u1, v1.1, q2, u2), T2::sp_accepts(data, q2, limit2, mode, depth + 1, u2, v1.2, q3, u3), T3::sp_accepts(data, q3, limit2, mode, depth + 1, u3, v1.3, q4, u4), T4::sp_accepts(data, q4, limit2, mode, depth + 1, u4, v1.4, q5, u5), T5::sp_accepts(data, q5, limit2, mode, depth + 1, u5, v1.5, q6, u6), T6::sp_accepts(data, q6, limit2, mode, depth + 1, u6, v1.6, q7, u7), T7::sp_accepts(data, q7, limit2, mode, depth + 1, u7, v1.7, q8, u8), T8::sp_accepts(data, q8, limit2, mode, depth + 1, u8, v1.8, q9, u9), T9::sp_accepts(data, q9, limit2, mode, depth + 1, u9, v1.9, q10, u10), T10::sp_accepts(data, q10, limit2, mode, depth + 1, u10, v1.10, q11, u11)]
                                            T0::sp_accepts(data, e0, limit2, mode, depth + 1, sth, v1.0, q1, u1)
                        && T1::sp_accepts(data, q1, limit2, mode, depth + 1, u1, v1.1, q2, u2)
                        && T2::sp_accepts(data, q2, limit2, mode, depth + 1, u2, v1.2, q3, u3)
                        && T3::sp_accepts(data, q3, limit2, mode, depth + 1, u3, v1.3, q4, u4)
                        && T4::sp_accepts(data, q4, limit2, mode, depth + 1, u4, v1.4, q5, u5)
                        && T5::sp_accepts(data, q5, limit2, mode, depth + 1, u5, v1.5, q6, u6)
                        && T6::sp_accepts(data, q6, limit2, mode, depth + 1, u6, v1.6, q7, u7)
                        && T7::sp_accepts(data, q7, limit2, mode, depth + 1, u7, v1.7, q8, u8)
                        && T8::sp_accepts(data, q8, limit2, mode, depth + 1, u8, v1.8, q9, u9)
                        && T9::sp_accepts(data, q9, limit2, mode, depth + 1, u9, v1.9, q10, u10)
                        && T10::sp_accepts(data, q10, limit2, mode, depth + 1, u10, v1.10, q11, u11)
                        && rstep_matches(sp_close(data, q11, limit2, u11, length, Ok::<Self, ASN1Error>(v1)), Ok::<Self, ASN1Error>(v1), e1, s1);
                    let (bq1, bu1, bq2, bu2, bq3, bu3, bq4, bu4, bq5, bu5, bq6, bu6, bq7, bu7, bq8, bu8, bq9, bu9, bq10, bu10, bq11, bu11) = choose|q1: int, u1: TagState, q2: int, u2: TagState, q3: int, u3: TagState, q4: int, u4: TagState, q5: int, u5: TagState, q6: int, u6: TagState, q7: int, u7: TagState, q8: int, u8: TagState, q9: int, u9: TagState, q10: int, u10: TagState, q11: int, u11: TagState|
                        #![trigger T0::sp_accepts(data, e0, limit2, mode, depth + 1, sth, v2.0, q1, u1), T1::sp_accepts(data, q1, limit2, mode, depth + 1, u1, v2.1, q2, u2), T2::sp_accepts(data, q2, limit2, mode, depth + 1, u2, v2.2, q3, u3), T3::sp_accepts(data, q3, limit2, mode, depth + 1, u3, v2.3, q4, u4), T4::sp_accepts(data, q4, limit2, mode, depth + 1, u4, v2.4, q5, u5), T5::sp_accepts(data, q5, limit2, mode, depth + 1, u5, v2.5, q6, u6), T6::sp_accepts(data, q6, limit2, mode, depth + 1, u6, v2.6, q7, u7), T7::sp_accepts(data, q7, limit2, mode, depth + 1, u7, v2.7, q8, u8), T8::sp_accepts(data, q8, limit2, mode, depth + 1, u8, v2.8, q9, u9), T9::sp_accepts(data, q9, limit2, mode, depth + 1, u9, v2.9, q10, u10), T10::sp_accepts(data, q10, limit2, mode, depth + 1, u10, v2.10, q11, u11)]
                                            T0::sp_accepts(data, e0, limit2, mode, depth + 1, sth, v2.0, q1, u1)
                        && T1::sp_accepts(data, q1, limit2, mode, depth + 1, u1, v2.1, q2, u2)
                        && T2::sp_accepts(data, q2, limit2, mode, depth + 1, u2, v2.2, q3, u3)
                        && T3::sp_accepts(data, q3, limit2, mode, depth + 1, u3, v2.3, q4, u4)
                        && T4::sp_accepts(data, q4, limit2, mode, depth + 1, u4, v2.4, q5, u5)
                        && T5::sp_accepts(data, q5, limit2, mode, depth + 1, u5, v2.5, q6, u6)
                        && T6::sp_accepts(data, q6, limit2, mode, depth + 1, u6, v2.6, q7, u7)
                        && T7::sp_accepts(data, q7, limit2, mode, depth + 1, u7, v2.7, q8, u8)
                        && T8::sp_accepts(data, q8, limit2, mode, depth + 1, u8, v2.8, q9, u9)
                        && T9::sp_accepts(data, q9, limit2, mode, depth + 1, u9, v2.9, q10, u10)
                        && T10::sp_accepts(data, q10, limit2, mode, depth + 1, u10, v2.10, q11, u11)
                        && rstep_matches(sp_close(data, q11, limit2, u11, length, Ok::<Self, ASN1Error>(v2)), Ok::<Self, ASN1Error>(v2), e2, s2);
                    T0::lemma_outcomes_unique(data, e0, limit2, mode, depth + 1, sth, v1.0, aq1, au1, v2.0, bq1, bu1, ASN1Error::Invalid, 0, TagState::Fresh, ASN1Error::Invalid, 0, TagState::Fresh);
                    T1::lemma_outcomes_unique(data, aq1, limit2, mode, depth + 1, au1, v1.1, aq2, au2, v2.1, bq2, bu2, ASN1Error::Invalid, 0, TagState::Fresh, ASN1Error::Invalid, 0, TagState::Fresh);
                    T2::lemma_outcomes_unique(data, aq2, limit2, mode, depth + 1, au2, v1.2, aq3, au3, v2.2, bq3, bu3, ASN1Error::Invalid, 0, TagState::Fresh, ASN1Error::Invalid, 0, TagState::Fresh);
                    T3::lemma_outcomes_unique(data, aq3, limit2, mode, depth + 1, au3, v1.3, aq4, au4, v2.3, bq4, bu4, ASN1Error::Invalid, 0, TagState::Fresh, ASN1Error::Invalid, 0, TagState::Fresh);
                    T4::lemma_outcomes_unique(data, aq4, limit2, mode, depth + 1, au4, v1.4, aq5, au5, v2.4, bq5, bu5, ASN1Error::Invalid, 0, TagState::Fresh, ASN1Error::Invalid, 0, TagState::Fresh);
                    T5::lemma_outcomes_unique(data, aq5, limit2, mode, depth + 1, au5, v1.5, aq6, au6, v2.5, bq6, bu6, ASN1Error::Invalid, 0, TagState::Fresh, ASN1Error::Invalid, 0, TagState::Fresh);
                    T6::lemma_outcomes_unique(data, aq6, limit2, mode, depth + 1, au6, v1.6, aq7, au7, v2.6, bq7, bu7, ASN1Error::Invalid, 0, TagState::Fresh, ASN1Error::Invalid, 0, TagState::Fresh);
                    T7::lemma_outcomes_unique(data, aq7, limit2, mode, depth + 1, au7, v1.7, aq8, au8, v2.7, bq8, bu8, ASN1Error::Invalid, 0, TagState::Fresh, ASN1Error::Invalid, 0, TagState::Fresh);
                    T8::lemma_outcomes_unique(data, aq8, limit2, mode, depth + 1, au8, v1.8, aq9, au9, v2.8, bq9, bu9, ASN1Error::Invalid, 0, TagState::Fresh, ASN1Error::Invalid, 0, TagState::Fresh);
                    T9::lemma_outcomes_unique(data, aq9, limit2, mode, depth + 1, au9, v1.9, aq10, au10, v2.9, bq10, bu10, ASN1Error::Invalid, 0, TagState::Fresh, ASN1Error::Invalid, 0, TagState::Fresh);
                    T10::lemma_outcomes_unique(data, aq10, limit2, mode, depth + 1, au10, v1.10, aq11, au11, v2.10, bq11, bu11, ASN1Error::Invalid, 0, TagState::Fresh, ASN1Error::Invalid, 0, TagState::Fresh);
                },
                HeadStep::HeadFail { kind, end: ee, st: sx } => {},
            }
        }
    }

    fn decode_ber(reader: &mut BERReader) -> (r: ASN1Result<Self>) {
        let ghost d0 = old(reader).data();
        let ghost pos0 = old(reader).posi();
        let ghost lim0 = old(reader).limiti();
        let ghost m0 = old(reader).modev();
        let ghost dep0 = old(reader).depthv();
        let ghost st00 = old(reader).tag_statev();
        let frame = match reader.parse_header(
            Tag { tag_class: TagClass::Universal, tag_number: 16 },
            TagType::Explicit,
        ) {
            Ok(f) => f,
            Err(e) => {
                return Err(e);
            },
        };
        if frame.pc != PCBit::Constructed {
            let inner: ASN1Result<Self> = Err(ASN1Error::Invalid);
            return reader.close_frame(frame, inner);
        }
        let ghost g0 = *reader;
        let t0 = match T0::decode_ber(reader) {
            Ok(v) => v,
            Err(e) => {
                let ghost ferr = e;
                let ghost bad_pos = reader.posi();
                let ghost bad_st = reader.tag_statev();
                let inner: ASN1Result<Self> = Err(e);
                let rr = reader.close_frame(frame, inner);
                proof {
                    if Self::sp_refusals_exact(m0) {
                assert forall|w: Self, e2: int, s2: TagState| !Self::sp_accepts(
                    d0, pos0, lim0, m0, dep0, st00, w, e2, s2,
                ) by {
                    if Self::sp_accepts(d0, pos0, lim0, m0, dep0, st00, w, e2, s2) {
                        match sp_header(d0, pos0, lim0, m0, dep0, st00, spec_univ_tag(16), TagType::Explicit) {
                            HeadStep::HeadOk { pc, length, end: e0, limit2, st: sth } => {
                                let (wq1, wu1, wq2, wu2, wq3, wu3, wq4, wu4, wq5, wu5, wq6, wu6, wq7, wu7, wq8, wu8, wq9, wu9, wq10, wu10, wq11, wu11) = choose|q1: int, u1: TagState, q2: int, u2: TagState, q3: int, u3: TagState, q4: int, u4: TagState, q5: int, u5: TagState, q6: int, u6: TagState, q7: int, u7: TagState, q8: int, u8: TagState, q9: int, u9: TagState, q10: int, u10: TagState, q11: int, u11: TagState|
                                    #![trigger T0::sp_accepts(d0, e0, limit2, m0, dep0 + 1, sth, w.0, q1, u1), T1::sp_accepts(d0, q1, limit2, m0, dep0 + 1, u1, w.1, q2, u2), T2::sp_accepts(d0, q2, limit2, m0, dep0 + 1, u2, w.2, q3, u3), T3::sp_accepts(d0, q3, limit2, m0, dep0 + 1, u3, w.3, q4, u4), T4::sp_accepts(d0, q4, limit2, m0, dep0 + 1, u4, w.4, q5, u5), T5::sp_accepts(d0, q5, limit2, m0, dep0 + 1, u5, w.5, q6, u6), T6::sp_accepts(d0, q6, limit2, m0, dep0 + 1, u6, w.6, q7, u7), T7::sp_accepts(d0, q7, limit2, m0, dep0 + 1, u7, w.7, q8, u8), T8::sp_accepts(d0, q8, limit2, m0, dep0 + 1, u8, w.8, q9, u9), T9::sp_accepts(d0, q9, limit2, m0, dep0 + 1, u9, w.9, q10, u10), T10::sp_accepts(d0, q10, limit2, m0, dep0 + 1, u10, w.10, q11, u11)]
                                                            T0::sp_accepts(d0, e0, limit2, m0, dep0 + 1, sth, w.0, q1, u1)
                            && T1::sp_accepts(d0, q1, limit2, m0, dep0 + 1, u1, w.1, q2, u2)
                            && T2::sp_accepts(d0, q2, limit2, m0, dep0 + 1, u2, w.2, q3, u3)
                            && T3::sp_accepts(d0, q3, limit2, m0, dep0 + 1, u3, w.3, q4, u4)
                            && T4::sp_accepts(d0, q4, limit2, m0, dep0 + 1, u4, w.4, q5, u5)
                            && T5::sp_accepts(d0, q5, limit2, m0, dep0 + 1, u5, w.5, q6, u6)
                            && T6::sp_accepts(d0, q6, limit2, m0, dep0 + 1, u6, w.6, q7, u7)
                            && T7::sp_accepts(d0, q7, limit2, m0, dep0 + 1, u7, w.7, q8, u8)
                            && T8::sp_accepts(d0, q8, limit2, m0, dep0 + 1, u8, w.8, q9, u9)
                            && T9::sp_accepts(d0, q9, limit2, m0, dep0 + 1, u9, w.9, q10, u10)
                            && T10::sp_accepts(d0, q10, limit2, m0, dep0 + 1, u10, w.10, q11, u11)
                            && rstep_matches(sp_close(d0, q11, limit2, u11, length, Ok::<Self, ASN1Error>(w)), Ok::<Self, ASN1Error>(w), e2, s2);
                                T0::lemma_outcomes_unique(d0, e0, limit2, m0, dep0 + 1, sth, w.0, wq1, wu1, w.0, wq1, wu1, ferr, bad_pos, bad_st, ferr, bad_pos, bad_st);
                                assert(false);
                            },
                            HeadStep::HeadFail { kind, end: ee, st: sx } => {},
                        }
                    }
                }
                    }
                }
                return rr;
            },
        };
        let ghost g1 = *reader;
        let t1 = match T1::decode_ber(reader) {
            Ok(v) => v,
            Err(e) => {
                let ghost ferr = e;
                let ghost bad_pos = reader.posi();
                let ghost bad_st = reader.tag_statev();
                let inner: ASN1Result<Self> = Err(e);
                let rr = reader.close_frame(frame, inner);
                proof {
                    if Self::sp_refusals_exact(m0) {
                assert forall|w: Self, e2: int, s2: TagState| !Self::sp_accepts(
                    d0, pos0, lim0, m0, dep0, st00, w, e2, s2,
                ) by {
                    if Self::sp_accepts(d0, pos0, lim0, m0, dep0, st00, w, e2, s2) {
                        match sp_header(d0, pos0, lim0, m0, dep0, st00, spec_univ_tag(16), TagType::Explicit) {
                            HeadStep::HeadOk { pc, length, end: e0, limit2, st: sth } => {
                                let (wq1, wu1, wq2, wu2, wq3, wu3, wq4, wu4, wq5, wu5, wq6, wu6, wq7, wu7, wq8, wu8, wq9, wu9, wq10, wu10, wq11, wu11) = choose|q1: int, u1: TagState, q2: int, u2: TagState, q3: int, u3: TagState, q4: int, u4: TagState, q5: int, u5: TagState, q6: int, u6: TagState, q7: int, u7: TagState, q8: int, u8: TagState, q9: int, u9: TagState, q10: int, u10: TagState, q11: int, u11: TagState|
                                    #![trigger T0::sp_accepts(d0, e0, limit2, m0, dep0 + 1, sth, w.0, q1, u1), T1::sp_accepts(d0, q1, limit2, m0, dep0 + 1, u1, w.1, q2, u2), T2::sp_accepts(d0, q2, limit2, m0, dep0 + 1, u2, w.2, q3, u3), T3::sp_accepts(d0, q3, limit2, m0, dep0 + 1, u3, w.3, q4, u4), T4::sp_accepts(d0, q4, limit2, m0, dep0 + 1, u4, w.4, q5, u5), T5::sp_accepts(d0, q5, limit2, m0, dep0 + 1, u5, w.5, q6, u6), T6::sp_accepts(d0, q6, limit2, m0, dep0 + 1, u6, w.6, q7, u7), T7::sp_accepts(d0, q7, limit2, m0, dep0 + 1, u7, w.7, q8, u8), T8::sp_accepts(d0, q8, limit2, m0, dep0 + 1, u8, w.8, q9, u9), T9::sp_accepts(d0, q9, limit2, m0, dep0 + 1, u9, w.9, q10, u10), T10::sp_accepts(d0, q10, limit2, m0, dep0 + 1, u10, w.10, q11, u11)]
                                                            T0::sp_accepts(d0, e0, limit2, m0, dep0 + 1, sth, w.0, q1, u1)
                            && T1::sp_accepts(d0, q1, limit2, m0, dep0 + 1, u1, w.1, q2, u2)
                            && T2::sp_accepts(d0, q2, limit2, m0, dep0 + 1, u2, w.2, q3, u3)
                            && T3::sp_accepts(d0, q3, limit2, m0, dep0 + 1, u3, w.3, q4, u4)
                            && T4::sp_accepts(d0, q4, limit2, m0, dep0 + 1, u4, w.4, q5, u5)
                            && T5::sp_accepts(d0, q5, limit2, m0, dep0 + 1, u5, w.5, q6, u6)
                            && T6::sp_accepts(d0, q6, limit2, m0, dep0 + 1, u6, w.6, q7, u7)
                            && T7::sp_accepts(d0, q7, limit2, m0, dep0 + 1, u7, w.7, q8, u8)
                            && T8::sp_accepts(d0, q8, limit2, m0, dep0 + 1, u8, w.8, q9, u9)
                            && T9::sp_accepts(d0, q9, limit2, m0, dep0 + 1, u9, w.9, q10, u10)
                            && T10::sp_accepts(d0, q10, limit2, m0, dep0 + 1, u10, w.10, q11, u11)
                            && rstep_matches(sp_close(d0, q11, limit2, u11, length, Ok::<Self, ASN1Error>(w)), Ok::<Self, ASN1Error>(w), e2, s2);
                                T0::lemma_outcomes_unique(d0, e0, limit2, m0, dep0 + 1, sth, w.0, wq1, wu1, t0, g1.posi(), g1.tag_statev(), ASN1Error::Invalid, 0, TagState::Fresh, ASN1Error::Invalid, 0, TagState::Fresh);
                                T1::lemma_outcomes_unique(d0, wq1, limit2, m0, dep0 + 1, wu1, w.1, wq2, wu2, w.1, wq2, wu2, ferr, bad_pos, bad_st, ferr, bad_pos, bad_st);
                                assert(false);
                            },
                            HeadStep::HeadFail { kind, end: ee, st: sx } => {},
                        }
                    }
                }
                    }
                }
                return rr;
            },
        };
        let ghost g2 = *reader;
        let t2 = match T2::decode_ber(reader) {
            Ok(v) => v,
            Err(e) => {
                let ghost ferr = e;
                let ghost bad_pos = reader.posi();
                let ghost bad_st = reader.tag_statev();
                let inner: ASN1Result<Self> = Err(e);
                let rr = reader.close_frame(frame, inner);
                proof {
                    if Self::sp_refusals_exact(m0) {
                assert forall|w: Self, e2: int, s2: TagState| !Self::sp_accepts(
                    d0, pos0, lim0, m0, dep0, st00, w, e2, s2,
                ) by {
                    if Self::sp_accepts(d0, pos0, lim0, m0, dep0, st00, w, e2, s2) {
                        match sp_header(d0, pos0, lim0, m0, dep0, st00, spec_univ_tag(16), TagType::Explicit) {
                            HeadStep::HeadOk { pc, length, end: e0, limit2, st: sth } => {
                                let (wq1, wu1, wq2, wu2, wq3, wu3, wq4, wu4, wq5, wu5, wq6, wu6, wq7, wu7, wq8, wu8, wq9, wu9, wq10, wu10, wq11, wu11) = choose|q1: int, u1: TagState, q2: int, u2: TagState, q3: int, u3: TagState, q4: int, u4: TagState, q5: int, u5: TagState, q6: int, u6: TagState, q7: int, u7: TagState, q8: int, u8: TagState, q9: int, u9: TagState, q10: int, u10: TagState, q11: int, u11: TagState|
                                    #![trigger T0::sp_accepts(d0, e0, limit2, m0, dep0 + 1, sth, w.0, q1, u1), T1::sp_accepts(d0, q1, limit2, m0, dep0 + 1, u1, w.1, q2, u2), T2::sp_accepts(d0, q2, limit2, m0, dep0 + 1, u2, w.2, q3, u3), T3::sp_accepts(d0, q3, limit2, m0, dep0 + 1, u3, w.3, q4, u4), T4::sp_accepts(d0, q4, limit2, m0, dep0 + 1, u4, w.4, q5, u5), T5::sp_accepts(d0, q5, limit2, m0, dep0 + 1, u5, w.5, q6, u6), T6::sp_accepts(d0, q6, limit2, m0, dep0 + 1, u6, w.6, q7, u7), T7::sp_accepts(d0, q7, limit2, m0, dep0 + 1, u7, w.7, q8, u8), T8::sp_accepts(d0, q8, limit2, m0, dep0 + 1, u8, w.8, q9, u9), T9::sp_accepts(d0, q9, limit2, m0, dep0 + 1, u9, w.9, q10, u10), T10::sp_accepts(d0, q10, limit2, m0, dep0 + 1, u10, w.10, q11, u11)]
                                                            T0::sp_accepts(d0, e0, limit2, m0, dep0 + 1, sth, w.0, q1, u1)
                            && T1::sp_accepts(d0, q1, limit2, m0, dep0 + 1, u1, w.1, q2, u2)
                            && T2::sp_accepts(d0, q2, limit2, m0, dep0 + 1, u2, w.2, q3, u3)
                            && T3::sp_accepts(d0, q3, limit2, m0, dep0 + 1, u3, w.3, q4, u4)
                            && T4::sp_accepts(d0, q4, limit2, m0, dep0 + 1, u4, w.4, q5, u5)
                            && T5::sp_accepts(d0, q5, limit2, m0, dep0 + 1, u5, w.5, q6, u6)
                            && T6::sp_accepts(d0, q6, limit2, m0, dep0 + 1, u6, w.6, q7, u7)
                            && T7::sp_accepts(d0, q7, limit2, m0, dep0 + 1, u7, w.7, q8, u8)
                            && T8::sp_accepts(d0, q8, limit2, m0, dep0 + 1, u8, w.8, q9, u9)
                            && T9::sp_accepts(d0, q9, limit2, m0, dep0 + 1, u9, w.9, q10, u10)
                            && T10::sp_accepts(d0, q10, limit2, m0, dep0 + 1, u10, w.10, q11, u11)
                            && rstep_matches(sp_close(d0, q11, limit2, u11, length, Ok::<Self, ASN1Error>(w)), Ok::<Self, ASN1Error>(w), e2, s2);
                                T0::lemma_outcomes_unique(d0, e0, limit2, m0, dep0 + 1, sth, w.0, wq1, wu1, t0, g1.posi(), g1.tag_statev(), ASN1Error::Invalid, 0, TagState::Fresh, ASN1Error::Invalid, 0, TagState::Fresh);
                                T1::lemma_outcomes_unique(d0, wq1, limit2, m0, dep0 + 1, wu1, w.1, wq2, wu2, t1, g2.posi(), g2.tag_statev(), ASN1Error::Invalid, 0, TagState::Fresh, ASN1Error::Invalid, 0, TagState::Fresh);
                                T2::lemma_outcomes_unique(d0, wq2, limit2, m0, dep0 + 1, wu2, w.2, wq3, wu3, w.2, wq3, wu3, ferr, bad_pos, bad_st, ferr, bad_pos, bad_st);
                                assert(false);
                            },
                            HeadStep::HeadFail { kind, end: ee, st: sx } => {},
                        }
                    }
                }
                    }
                }
                return rr;
            },
        };
        let ghost g3 = *reader;
        let t3 = match T3::decode_ber(reader) {
            Ok(v) => v,
            Err(e) => {
                let ghost ferr = e;
                let ghost bad_pos = reader.posi();
                let ghost bad_st = reader.tag_statev();
                let inner: ASN1Result<Self> = Err(e);
                let rr = reader.close_frame(frame, inner);
                proof {
                    if Self::sp_refusals_exact(m0) {
                assert forall|w: Self, e2: int, s2: TagState| !Self::sp_accepts(
                    d0, pos0, lim0, m0, dep0, st00, w, e2, s2,
                ) by {
                    if Self::sp_accepts(d0, pos0, lim0, m0, dep0, st00, w, e2, s2) {
                        match sp_header(d0, pos0, lim0, m0, dep0, st00, spec_univ_tag(16), TagType::Explicit) {
                            HeadStep::HeadOk { pc, length, end: e0, limit2, st: sth } => {
                                let (wq1, wu1, wq2, wu2, wq3, wu3, wq4, wu4, wq5, wu5, wq6, wu6, wq7, wu7, wq8, wu8, wq9, wu9, wq10, wu10, wq11, wu11) = choose|q1: int, u1: TagState, q2: int, u2: TagState, q3: int, u3: TagState, q4: int, u4: TagState, q5: int, u5: TagState, q6: int, u6: TagState, q7: int, u7: TagState, q8: int, u8: TagState, q9: int, u9: TagState, q10: int, u10: TagState, q11: int, u11: TagState|
                                    #![trigger T0::sp_accepts(d0, e0, limit2, m0, dep0 + 1, sth, w.0, q1, u1), T1::sp_accepts(d0, q1, limit2, m0, dep0 + 1, u1, w.1, q2, u2), T2::sp_accepts(d0, q2, limit2, m0, dep0 + 1, u2, w.2, q3, u3), T3::sp_accepts(d0, q3, limit2, m0, dep0 + 1, u3, w.3, q4, u4), T4::sp_accepts(d0, q4, limit2, m0, dep0 + 1, u4, w.4, q5, u5), T5::sp_accepts(d0, q5, limit2, m0, dep0 + 1, u5, w.5, q6, u6), T6::sp_accepts(d0, q6, limit2, m0, dep0 + 1, u6, w.6, q7, u7), T7::sp_accepts(d0, q7, limit2, m0, dep0 + 1, u7, w.7, q8, u8), T8::sp_accepts(d0, q8, limit2, m0, dep0 + 1, u8, w.8, q9, u9), T9::sp_accepts(d0, q9, limit2, m0, dep0 + 1, u9, w.9, q10, u10), T10::sp_accepts(d0, q10, limit2, m0, dep0 + 1, u10, w.10, q11, u11)]
                                                            T0::sp_accepts(d0, e0, limit2, m0, dep0 + 1, sth, w.0, q1, u1)
                            && T1::sp_accepts(d0, q1, limit2, m0, dep0 + 1, u1, w.1, q2, u2)
                            && T2::sp_accepts(d0, q2, limit2, m0, dep0 + 1, u2, w.2, q3, u3)
                            && T3::sp_accepts(d0, q3, limit2, m0, dep0 + 1, u3, w.3, q4, u4)
                            && T4::sp_accepts(d0, q4, limit2, m0, dep0 + 1, u4, w.4, q5, u5)
                            && T5::sp_accepts(d0, q5, limit2, m0, dep0 + 1, u5, w.5, q6, u6)
                            && T6::sp_accepts(d0, q6, limit2, m0, dep0 + 1, u6, w.6, q7, u7)
                            && T7::sp_accepts(d0, q7, limit2, m0, dep0 + 1, u7, w.7, q8, u8)
                            && T8::sp_accepts(d0, q8, limit2, m0, dep0 + 1, u8, w.8, q9, u9)
                            && T9::sp_accepts(d0, q9, limit2, m0, dep0 + 1, u9, w.9, q10, u10)
                            && T10::sp_accepts(d0, q10, limit2, m0, dep0 + 1, u10, w.10, q11, u11)
                            && rstep_matches(sp_close(d0, q11, limit2, u11, length, Ok::<Self, ASN1Error>(w)), Ok::<Self, ASN1Error>(w), e2, s2);
                                T0::lemma_outcomes_unique(d0, e0, limit2, m0, dep0 + 1, sth, w.0, wq1, wu1, t0, g1.posi(), g1.tag_statev(), ASN1Error::Invalid, 0, TagState::Fresh, ASN1Error::Invalid, 0, TagState::Fresh);
                                T1::lemma_outcomes_unique(d0, wq1, limit2, m0, dep0 + 1, wu1, w.1, wq2, wu2, t1, g2.posi(), g2.tag_statev(), ASN1Error::Invalid, 0, TagState::Fresh, ASN1Error::Invalid, 0, TagState::Fresh);
                                T2::lemma_outcomes_unique(d0, wq2, limit2, m0, dep0 + 1, wu2, w.2, wq3, wu3, t2, g3.posi(), g3.tag_statev(), ASN1Error::Invalid, 0, TagState::Fresh, ASN1Error::Invalid, 0, TagState::Fresh);
                                T3::lemma_outcomes_unique(d0, wq3, limit2, m0, dep0 + 1, wu3, w.3, wq4, wu4, w.3, wq4, wu4, ferr, bad_pos, bad_st, ferr, bad_pos, bad_st);
                                assert(false);
                            },
                            HeadStep::HeadFail { kind, end: ee, st: sx } => {},
                        }
                    }
                }
                    }
                }
                return rr;
            },
        };
        let ghost g4 = *reader;
        let t4 = match T4::decode_ber(reader) {
            Ok(v) => v,
            Err(e) => {
                let ghost ferr = e;
                let ghost bad_pos = reader.posi();
                let ghost bad_st = reader.tag_statev();
                let inner: ASN1Result<Self> = Err(e);
                let rr = reader.close_frame(frame, inner);
                proof {
                    if Self::sp_refusals_exact(m0) {
                assert forall|w: Self, e2: int, s2: TagState| !Self::sp_accepts(
                    d0, pos0, lim0, m0, dep0, st00, w, e2, s2,
                ) by {
                    if Self::sp_accepts(d0, pos0, lim0, m0, dep0, st00, w, e2, s2) {
                        match sp_header(d0, pos0, lim0, m0, dep0, st00, spec_univ_tag(16), TagType::Explicit) {
                            HeadStep::HeadOk { pc, length, end: e0, limit2, st: sth } => {
                                let (wq1, wu1, wq2, wu2, wq3, wu3, wq4, wu4, wq5, wu5, wq6, wu6, wq7, wu7, wq8, wu8, wq9, wu9, wq10, wu10, wq11, wu11) = choose|q1: int, u1: TagState, q2: int, u2: TagState, q3: int, u3: TagState, q4: int, u4: TagState, q5: int, u5: TagState, q6: int, u6: TagState, q7: int, u7: TagState, q8: int, u8: TagState, q9: int, u9: TagState, q10: int, u10: TagState, q11: int, u11: TagState|
                                    #![trigger T0::sp_accepts(d0, e0, limit2, m0, dep0 + 1, sth, w.0, q1, u1), T1::sp_accepts(d0, q1, limit2, m0, dep0 + 1, u1, w.1, q2, u2), T2::sp_accepts(d0, q2, limit2, m0, dep0 + 1, u2, w.2, q3, u3), T3::sp_accepts(d0, q3, limit2, m0, dep0 + 1, u3, w.3, q4, u4), T4::sp_accepts(d0, q4, limit2, m0, dep0 + 1, u4, w.4, q5, u5), T5::sp_accepts(d0, q5, limit2, m0, dep0 + 1, u5, w.5, q6, u6), T6::sp_accepts(d0, q6, limit2, m0, dep0 + 1, u6, w.6, q7, u7), T7::sp_accepts(d0, q7, limit2, m0, dep0 + 1, u7, w.7, q8, u8), T8::sp_accepts(d0, q8, limit2, m0, dep0 + 1, u8, w.8, q9, u9), T9::sp_accepts(d0, q9, limit2, m0, dep0 + 1, u9, w.9, q10, u10), T10::sp_accepts(d0, q10, limit2, m0, dep0 + 1, u10, w.10, q11, u11)]
                                                            T0::sp_accepts(d0, e0, limit2, m0, dep0 + 1, sth, w.0, q1, u1)
                            && T1::sp_accepts(d0, q1, limit2, m0, dep0 + 1, u1, w.1, q2, u2)
                            && T2::sp_accepts(d0, q2, limit2, m0, dep0 + 1, u2, w.2, q3, u3)
                            && T3::sp_accepts(d0, q3, limit2, m0, dep0 + 1, u3, w.3, q4, u4)
                            && T4::sp_accepts(d0, q4, limit2, m0, dep0 + 1, u4, w.4, q5, u5)
                            && T5::sp_accepts(d0, q5, limit2, m0, dep0 + 1, u5, w.5, q6, u6)
                            && T6::sp_accepts(d0, q6, limit2, m0, dep0 + 1, u6, w.6, q7, u7)
                            && T7::sp_accepts(d0, q7, limit2, m0, dep0 + 1, u7, w.7, q8, u8)
                            && T8::sp_accepts(d0, q8, limit2, m0, dep0 + 1, u8, w.8, q9, u9)
                            && T9::sp_accepts(d0, q9, limit2, m0, dep0 + 1, u9, w.9, q10, u10)
                            && T10::sp_accepts(d0, q10, limit2, m0, dep0 + 1, u10, w.10, q11, u11)
                            && rstep_matches(sp_close(d0, q11, limit2, u11, length, Ok::<Self, ASN1Error>(w)), Ok::<Self, ASN1Error>(w), e2, s2);
                                T0::lemma_outcomes_unique(d0, e0, limit2, m0, dep0 + 1, sth, w.0, wq1, wu1, t0, g1.posi(), g1.tag_statev(), ASN1Error::Invalid, 0, TagState::Fresh, ASN1Error::Invalid, 0, TagState::Fresh);
                                T1::lemma_outcomes_unique(d0, wq1, limit2, m0, dep0 + 1, wu1, w.1, wq2, wu2, t1, g2.posi(), g2.tag_statev(), ASN1Error::Invalid, 0, TagState::Fresh, ASN1Error::Invalid, 0, TagState::Fresh);
                                T2::lemma_outcomes_unique(d0, wq2, limit2, m0, dep0 + 1, wu2, w.2, wq3, wu3, t2, g3.posi(), g3.tag_statev(), ASN1Error::Invalid, 0, TagState::Fresh, ASN1Error::Invalid, 0, TagState::Fresh);
                                T3::lemma_outcomes_unique(d0, wq3, limit2, m0, dep0 + 1, wu3, w.3, wq4, wu4, t3, g4.posi(), g4.tag_statev(), ASN1Error::Invalid, 0, TagState::Fresh, ASN1Error::Invalid, 0, TagState::Fresh);
                                T4::lemma_outcomes_unique(d0, wq4, limit2, m0, dep0 + 1, wu4, w.4, wq5, wu5, w.4, wq5, wu5, ferr, bad_pos, bad_st, ferr, bad_pos, bad_st);
                                assert(false);
                            },
                            HeadStep::HeadFail { kind, end: ee, st: sx } => {},
                        }
                    }
                }
                    }
                }
                return rr;
            },
        };
        let ghost g5 = *reader;
        let t5 = match T5::decode_ber(reader) {
            Ok(v) => v,
            Err(e) => {
                let ghost ferr = e;
                let ghost bad_pos = reader.posi();
                let ghost bad_st = reader.tag_statev();
                let inner: ASN1Result<Self> = Err(e);
                let rr = reader.close_frame(frame, inner);
                proof {
                    if Self::sp_refusals_exact(m0) {
                assert forall|w: Self, e2: int, s2: TagState| !Self::sp_accepts(
                    d0, pos0, lim0, m0, dep0, st00, w, e2, s2,
                ) by {
                    if Self::sp_accepts(d0, pos0, lim0, m0, dep0, st00, w, e2, s2) {
                        match sp_header(d0, pos0, lim0, m0, dep0, st00, spec_univ_tag(16), TagType::Explicit) {
                            HeadStep::HeadOk { pc, length, end: e0, limit2, st: sth } => {
                                let (wq1, wu1, wq2, wu2, wq3, wu3, wq4, wu4, wq5, wu5, wq6, wu6, wq7, wu7, wq8, wu8, wq9, wu9, wq10, wu10, wq11, wu11) = choose|q1: int, u1: TagState, q2: int, u2: TagState, q3: int, u3: TagState, q4: int, u4: TagState, q5: int, u5: TagState, q6: int, u6: TagState, q7: int, u7: TagState, q8: int, u8: TagState, q9: int, u9: TagState, q10: int, u10: TagState, q11: int, u11: TagState|
                                    #![trigger T0::sp_accepts(d0, e0, limit2, m0, dep0 + 1, sth, w.0, q1, u1), T1::sp_accepts(d0, q1, limit2, m0, dep0 + 1, u1, w.1, q2, u2), T2::sp_accepts(d0, q2, limit2, m0, dep0 + 1, u2, w.2, q3, u3), T3::sp_accepts(d0, q3, limit2, m0, dep0 + 1, u3, w.3, q4, u4), T4::sp_accepts(d0, q4, limit2, m0, dep0 + 1, u4, w.4, q5, u5), T5::sp_accepts(d0, q5, limit2, m0, dep0 + 1, u5, w.5, q6, u6), T6::sp_accepts(d0, q6, limit2, m0, dep0 + 1, u6, w.6, q7, u7), T7::sp_accepts(d0, q7, limit2, m0, dep0 + 1, u7, w.7, q8, u8), T8::sp_accepts(d0, q8, limit2, m0, dep0 + 1, u8, w.8, q9, u9), T9::sp_accepts(d0, q9, limit2, m0, dep0 + 1, u9, w.9, q10, u10), T10::sp_accepts(d0, q10, limit2, m0, dep0 + 1, u10, w.10, q11, u11)]
                                                            T0::sp_accepts(d0, e0, limit2, m0, dep0 + 1, sth, w.0, q1, u1)
                            && T1::sp_accepts(d0, q1, limit2, m0, dep0 + 1, u1, w.1, q2, u2)
                            && T2::sp_accepts(d0, q2, limit2, m0, dep0 + 1, u2, w.2, q3, u3)
                            && T3::sp_accepts(d0, q3, limit2, m0, dep0 + 1, u3, w.3, q4, u4)
                            && T4::sp_accepts(d0, q4, limit2, m0, dep0 + 1, u4, w.4, q5, u5)
                            && T5::sp_accepts(d0, q5, limit2, m0, dep0 + 1, u5, w.5, q6, u6)
                            && T6::sp_accepts(d0, q6, limit2, m0, dep0 + 1, u6, w.6, q7, u7)
                            && T7::sp_accepts(d0, q7, limit2, m0, dep0 + 1, u7, w.7, q8, u8)
                            && T8::sp_accepts(d0, q8, limit2, m0, dep0 + 1, u8, w.8, q9, u9)
                            && T9::sp_accepts(d0, q9, limit2, m0, dep0 + 1, u9, w.9, q10, u10)
                            && T10::sp_accepts(d0, q10, limit2, m0, dep0 + 1, u10, w.10, q11, u11)
                            && rstep_matches(sp_close(d0, q11, limit2, u11, length, Ok::<Self, ASN1Error>(w)), Ok::<Self, ASN1Error>(w), e2, s2);
                                T0::lemma_outcomes_unique(d0, e0, limit2, m0, dep0 + 1, sth, w.0, wq1, wu1, t0, g1.posi(), g1.tag_statev(), ASN1Error::Invalid, 0, TagState::Fresh, ASN1Error::Invalid, 0, TagState::Fresh);
                                T1::lemma_outcomes_unique(d0, wq1, limit2, m0, dep0 + 1, wu1, w.1, wq2, wu2, t1, g2.posi(), g2.tag_statev(), ASN1Error::Invalid, 0, TagState::Fresh, ASN1Error::Invalid, 0, TagState::Fresh);
                                T2::lemma_outcomes_unique(d0, wq2, limit2, m0, dep0 + 1, wu2, w.2, wq3, wu3, t2, g3.posi(), g3.tag_statev(), ASN1Error::Invalid, 0, TagState::Fresh, ASN1Error::Invalid, 0, TagState::Fresh);
                                T3::lemma_outcomes_unique(d0, wq3, limit2, m0, dep0 + 1, wu3, w.3, wq4, wu4, t3, g4.posi(), g4.tag_statev(), ASN1Error::Invalid, 0, TagState::Fresh, ASN1Error::Invalid, 0, TagState::Fresh);
                                T4::lemma_outcomes_unique(d0, wq4, limit2, m0, dep0 + 1, wu4, w.4, wq5, wu5, t4, g5.posi(), g5.tag_statev(), ASN1Error::Invalid, 0, TagState::Fresh, ASN1Error::Invalid, 0, TagState::Fresh);
                                T5::lemma_outcomes_unique(d0, wq5, limit2, m0, dep0 + 1, wu5, w.5, wq6, wu6, w.5, wq6, wu6, ferr, bad_pos, bad_st, ferr, bad_pos, bad_st);
                                assert(false);
                            },
                            HeadStep::HeadFail { kind, end: ee, st: sx } => {},
                        }
                    }
                }
                    }
                }
                return rr;
            },
        };
        let ghost g6 = *reader;
        let t6 = match T6::decode_ber(reader) {
            Ok(v) => v,
            Err(e) => {
                let ghost ferr = e;
                let ghost bad_pos = reader.posi();
                let ghost bad_st = reader.tag_statev();
                let inner: ASN1Result<Self> = Err(e);
                let rr = reader.close_frame(frame, inner);
                proof {
                    if Self::sp_refusals_exact(m0) {
                assert forall|w: Self, e2: int, s2: TagState| !Self::sp_accepts(
                    d0, pos0, lim0, m0, dep0, st00, w, e2, s2,
                ) by {
                    if Self::sp_accepts(d0, pos0, lim0, m0, dep0, st00, w, e2, s2) {
                        match sp_header(d0, pos0, lim0, m0, dep0, st00, spec_univ_tag(16), TagType::Explicit) {
                            HeadStep::HeadOk { pc, length, end: e0, limit2, st: sth } => {
                                let (wq1, wu1, wq2, wu2, wq3, wu3, wq4, wu4, wq5, wu5, wq6, wu6, wq7, wu7, wq8, wu8, wq9, wu9, wq10, wu10, wq11, wu11) = choose|q1: int, u1: TagState, q2: int, u2: TagState, q3: int, u3: TagState, q4: int, u4: TagState, q5: int, u5: TagState, q6: int, u6: TagState, q7: int, u7: TagState, q8: int, u8: TagState, q9: int, u9: TagState, q10: int, u10: TagState, q11: int, u11: TagState|
                                    #![trigger T0::sp_accepts(d0, e0, limit2, m0, dep0 + 1, sth, w.0, q1, u1), T1::sp_accepts(d0, q1, limit2, m0, dep0 + 1, u1, w.1, q2, u2), T2::sp_accepts(d0, q2, limit2, m0, dep0 + 1, u2, w.2, q3, u3), T3::sp_accepts(d0, q3, limit2, m0, dep0 + 1, u3, w.3, q4, u4), T4::sp_accepts(d0, q4, limit2, m0, dep0 + 1, u4, w.4, q5, u5), T5::sp_accepts(d0, q5, limit2, m0, dep0 + 1, u5, w.5, q6, u6), T6::sp_accepts(d0, q6, limit2, m0, dep0 + 1, u6, w.6, q7, u7), T7::sp_accepts(d0, q7, limit2, m0, dep0 + 1, u7, w.7, q8, u8), T8::sp_accepts(d0, q8, limit2, m0, dep0 + 1, u8, w.8, q9, u9), T9::sp_accepts(d0, q9, limit2, m0, dep0 + 1, u9, w.9, q10, u10), T10::sp_accepts(d0, q10, limit2, m0, dep0 + 1, u10, w.10, q11, u11)]
                                                            T0::sp_accepts(d0, e0, limit2, m0, dep0 + 1, sth, w.0, q1, u1)
                            && T1::sp_accepts(d0, q1, limit2, m0, dep0 + 1, u1, w.1, q2, u2)
                            && T2::sp_accepts(d0, q2, limit2, m0, dep0 + 1, u2, w.2, q3, u3)
                            && T3::sp_accepts(d0, q3, limit2, m0, dep0 + 1, u3, w.3, q4, u4)
                            && T4::sp_accepts(d0, q4, limit2, m0, dep0 + 1, u4, w.4, q5, u5)
                            && T5::sp_accepts(d0, q5, limit2, m0, dep0 + 1, u5, w.5, q6, u6)
                            && T6::sp_accepts(d0, q6, limit2, m0, dep0 + 1, u6, w.6, q7, u7)
                            && T7::sp_accepts(d0, q7, limit2, m0, dep0 + 1, u7, w.7, q8, u8)
                            && T8::sp_accepts(d0, q8, limit2, m0, dep0 + 1, u8, w.8, q9, u9)
                            && T9::sp_accepts(d0, q9, limit2, m0, dep0 + 1, u9, w.9, q10, u10)
                            && T10::sp_accepts(d0, q10, limit2, m0, dep0 + 1, u10, w.10, q11, u11)
                            && rstep_matches(sp_close(d0, q11, limit2, u11, length, Ok::<Self, ASN1Error>(w)), Ok::<Self, ASN1Error>(w), e2, s2);
                                T0::lemma_outcomes_unique(d0, e0, limit2, m0, dep0 + 1, sth, w.0, wq1, wu1, t0, g1.posi(), g1.tag_statev(), ASN1Error::Invalid, 0, TagState::Fresh, ASN1Error::Invalid, 0, TagState::Fresh);
                                T1::lemma_outcomes_unique(d0, wq1, limit2, m0, dep0 + 1, wu1, w.1, wq2, wu2, t1, g2.posi(), g2.tag_statev(), ASN1Error::Invalid, 0, TagState::Fresh, ASN1Error::Invalid, 0, TagState::Fresh);
                                T2::lemma_outcomes_unique(d0, wq2, limit2, m0, dep0 + 1, wu2, w.2, wq3, wu3, t2, g3.posi(), g3.tag_statev(), ASN1Error::Invalid, 0, TagState::Fresh, ASN1Error::Invalid, 0, TagState::Fresh);
                                T3::lemma_outcomes_unique(d0, wq3, limit2, m0, dep0 + 1, wu3, w.3, wq4, wu4, t3, g4.posi(), g4.tag_statev(), ASN1Error::Invalid, 0, TagState::Fresh, ASN1Error::Invalid, 0, TagState::Fresh);
                                T4::lemma_outcomes_unique(d0, wq4, limit2, m0, dep0 + 1, wu4, w.4, wq5, wu5, t4, g5.posi(), g5.tag_statev(), ASN1Error::Invalid, 0, TagState::Fresh, ASN1Error::Invalid, 0, TagState::Fresh);
                                T5::lemma_outcomes_unique(d0, wq5, limit2, m0, dep0 + 1, wu5, w.5, wq6, wu6, t5, g6.posi(), g6.tag_statev(), ASN1Error::Invalid, 0, TagState::Fresh, ASN1Error::Invalid, 0, TagState::Fresh);
                                T6::lemma_outcomes_unique(d0, wq6, limit2, m0, dep0 + 1, wu6, w.6, wq7, wu7, w.6, wq7, wu7, ferr, bad_pos, bad_st, ferr, bad_pos, bad_st);
                                assert(false);
                            },
                            HeadStep::HeadFail { kind, end: ee, st: sx } => {},
                        }
                    }
                }
                    }
                }
                return rr;
            },
        };
        let ghost g7 = *reader;
        let t7 = match T7::decode_ber(reader) {
            Ok(v) => v,
            Err(e) => {
                let ghost ferr = e;
                let ghost bad_pos = reader.posi();
                let ghost bad_st = reader.tag_statev();
                let inner: ASN1Result<Self> = Err(e);
                let rr = reader.close_frame(frame, inner);
                proof {
                    if Self::sp_refusals_exact(m0) {
                assert forall|w: Self, e2: int, s2: TagState| !Self::sp_accepts(
                    d0, pos0, lim0, m0, dep0, st00, w, e2, s2,
                ) by {
                    if Self::sp_accepts(d0, pos0, lim0, m0, dep0, st00, w, e2, s2) {
                        match sp_header(d0, pos0, lim0, m0, dep0, st00, spec_univ_tag(16), TagType::Explicit) {
                            HeadStep::HeadOk { pc, length, end: e0, limit2, st: sth } => {
                                let (wq1, wu1, wq2, wu2, wq3, wu3, wq4, wu4, wq5, wu5, wq6, wu6, wq7, wu7, wq8, wu8, wq9, wu9, wq10, wu10, wq11, wu11) = choose|q1: int, u1: TagState, q2: int, u2: TagState, q3: int, u3: TagState, q4: int, u4: TagState, q5: int, u5: TagState, q6: int, u6: TagState, q7: int, u7: TagState, q8: int, u8: TagState, q9: int, u9: TagState, q10: int, u10: TagState, q11: int, u11: TagState|
                                    #![trigger T0::sp_accepts(d0, e0, limit2, m0, dep0 + 1, sth, w.0, q1, u1), T1::sp_accepts(d0, q1, limit2, m0, dep0 + 1, u1, w.1, q2, u2), T2::sp_accepts(d0, q2, limit2, m0, dep0 + 1, u2, w.2, q3, u3), T3::sp_accepts(d0, q3, limit2, m0, dep0 + 1, u3, w.3, q4, u4), T4::sp_accepts(d0, q4, limit2, m0, dep0 + 1, u4, w.4, q5, u5), T5::sp_accepts(d0, q5, limit2, m0, dep0 + 1, u5, w.5, q6, u6), T6::sp_accepts(d0, q6, limit2, m0, dep0 + 1, u6, w.6, q7, u7), T7::sp_accepts(d0, q7, limit2, m0, dep0 + 1, u7, w.7, q8, u8), T8::sp_accepts(d0, q8, limit2, m0, dep0 + 1, u8, w.8, q9, u9), T9::sp_accepts(d0, q9, limit2, m0, dep0 + 1, u9, w.9, q10, u10), T10::sp_accepts(d0, q10, limit2, m0, dep0 + 1, u10, w.10, q11, u11)]
                                                            T0::sp_accepts(d0, e0, limit2, m0, dep0 + 1, sth, w.0, q1, u1)
                            && T1::sp_accepts(d0, q1, limit2, m0, dep0 + 1, u1, w.1, q2, u2)
                            && T2::sp_accepts(d0, q2, limit2, m0, dep0 + 1, u2, w.2, q3, u3)
                            && T3::sp_accepts(d0, q3, limit2, m0, dep0 + 1, u3, w.3, q4, u4)
                            && T4::sp_accepts(d0, q4, limit2, m0, dep0 + 1, u4, w.4, q5, u5)
                            && T5::sp_accepts(d0, q5, limit2, m0, dep0 + 1, u5, w.5, q6, u6)
                            && T6::sp_accepts(d0, q6, limit2, m0, dep0 + 1, u6, w.6, q7, u7)
                            && T7::sp_accepts(d0, q7, limit2, m0, dep0 + 1, u7, w.7, q8, u8)
                            && T8::sp_accepts(d0, q8, limit2, m0, dep0 + 1, u8, w.8, q9, u9)
                            && T9::sp_accepts(d0, q9, limit2, m0, dep0 + 1, u9, w.9, q10, u10)
                            && T10::sp_accepts(d0, q10, limit2, m0, dep0 + 1, u10, w.10, q11, u11)
                            && rstep_matches(sp_close(d0, q11, limit2, u11, length, Ok::<Self, ASN1Error>(w)), Ok::<Self, ASN1Error>(w), e2, s2);
                                T0::lemma_outcomes_unique(d0, e0, limit2, m0, dep0 + 1, sth, w.0, wq1, wu1, t0, g1.posi(), g1.tag_statev(), ASN1Error::Invalid, 0, TagState::Fresh, ASN1Error::Invalid, 0, TagState::Fresh);
                                T1::lemma_outcomes_unique(d0, wq1, limit2, m0, dep0 + 1, wu1, w.1, wq2, wu2, t1, g2.posi(), g2.tag_statev(), ASN1Error::Invalid, 0, TagState::Fresh, ASN1Error::Invalid, 0, TagState::Fresh);
                                T2::lemma_outcomes_unique(d0, wq2, limit2, m0, dep0 + 1, wu2, w.2, wq3, wu3, t2, g3.posi(), g3.tag_statev(), ASN1Error::Invalid, 0, TagState::Fresh, ASN1Error::Invalid, 0, TagState::Fresh);
                                T3::lemma_outcomes_unique(d0, wq3, limit2, m0, dep0 + 1, wu3, w.3, wq4, wu4, t3, g4.posi(), g4.tag_statev(), ASN1Error::Invalid, 0, TagState::Fresh, ASN1Error::Invalid, 0, TagState::Fresh);
                                T4::lemma_outcomes_unique(d0, wq4, limit2, m0, dep0 + 1, wu4, w.4, wq5, wu5, t4, g5.posi(), g5.tag_statev(), ASN1Error::Invalid, 0, TagState::Fresh, ASN1Error::Invalid, 0, TagState::Fresh);
                                T5::lemma_outcomes_unique(d0, wq5, limit2, m0, dep0 + 1, wu5, w.5, wq6, wu6, t5, g6.posi(), g6.tag_statev(), ASN1Error::Invalid, 0, TagState::Fresh, ASN1Error::Invalid, 0, TagState::Fresh);
                                T6::lemma_outcomes_unique(d0, wq6, limit2, m0, dep0 + 1, wu6, w.6, wq7, wu7, t6, g7.posi(), g7.tag_statev(), ASN1Error::Invalid, 0, TagState::Fresh, ASN1Error::Invalid, 0, TagState::Fresh);
                                T7::lemma_outcomes_unique(d0, wq7, limit2, m0, dep0 + 1, wu7, w.7, wq8, wu8, w.7, wq8, wu8, ferr, bad_pos, bad_st, ferr, bad_pos, bad_st);
                                assert(false);
                            },
                            HeadStep::HeadFail { kind, end: ee, st: sx } => {},
                        }
                    }
                }
                    }
                }
                return rr;
            },
        };
        let ghost g8 = *reader;
        let t8 = match T8::decode_ber(reader) {
            Ok(v) => v,
            Err(e) => {
                let ghost ferr = e;
                let ghost bad_pos = reader.posi();
                let ghost bad_st = reader.tag_statev();
                let inner: ASN1Result<Self> = Err(e);
                let rr = reader.close_frame(frame, inner);
                proof {
                    if Self::sp_refusals_exact(m0) {
                assert forall|w: Self, e2: int, s2: TagState| !Self::sp_accepts(
                    d0, pos0, lim0, m0, dep0, st00, w, e2, s2,
                ) by {
                    if Self::sp_accepts(d0, pos0, lim0, m0, dep0, st00, w, e2, s2) {
                        match sp_header(d0, pos0, lim0, m0, dep0, st00, spec_univ_tag(16), TagType::Explicit) {
                            HeadStep::HeadOk { pc, length, end: e0, limit2, st: sth } => {
                                let (wq1, wu1, wq2, wu2, wq3, wu3, wq4, wu4, wq5, wu5, wq6, wu6, wq7, wu7, wq8, wu8, wq9, wu9, wq10, wu10, wq11, wu11) = choose|q1: int, u1: TagState, q2: int, u2: TagState, q3: int, u3: TagState, q4: int, u4: TagState, q5: int, u5: TagState, q6: int, u6: TagState, q7: int, u7: TagState, q8: int, u8: TagState, q9: int, u9: TagState, q10: int, u10: TagState, q11: int, u11: TagState|
                                    #![trigger T0::sp_accepts(d0, e0, limit2, m0, dep0 + 1, sth, w.0, q1, u1), T1::sp_accepts(d0, q1, limit2, m0, dep0 + 1, u1, w.1, q2, u2), T2::sp_accepts(d0, q2, limit2, m0, dep0 + 1, u2, w.2, q3, u3), T3::sp_accepts(d0, q3, limit2, m0, dep0 + 1, u3, w.3, q4, u4), T4::sp_accepts(d0, q4, limit2, m0, dep0 + 1, u4, w.4, q5, u5), T5::sp_accepts(d0, q5, limit2, m0, dep0 + 1, u5, w.5, q6, u6), T6::sp_accepts(d0, q6, limit2, m0, dep0 + 1, u6, w.6, q7, u7), T7::sp_accepts(d0, q7, limit2, m0, dep0 + 1, u7, w.7, q8, u8), T8::sp_accepts(d0, q8, limit2, m0, dep0 + 1, u8, w.8, q9, u9), T9::sp_accepts(d0, q9, limit2, m0, dep0 + 1, u9, w.9, q10, u10), T10::sp_accepts(d0, q10, limit2, m0, dep0 + 1, u10, w.10, q11, u11)]
                                                            T0::sp_accepts(d0, e0, limit2, m0, dep0 + 1, sth, w.0, q1, u1)
                            && T1::sp_accepts(d0, q1, limit2, m0, dep0 + 1, u1, w.1, q2, u2)
                            && T2::sp_accepts(d0, q2, limit2, m0, dep0 + 1, u2, w.2, q3, u3)
                            && T3::sp_accepts(d0, q3, limit2, m0, dep0 + 1, u3, w.3, q4, u4)
                            && T4::sp_accepts(d0, q4, limit2, m0, dep0 + 1, u4, w.4, q5, u5)
                            && T5::sp_accepts(d0, q5, limit2, m0, dep0 + 1, u5, w.5, q6, u6)
                            && T6::sp_accepts(d0, q6, limit2, m0, dep0 + 1, u6, w.6, q7, u7)
                            && T7::sp_accepts(d0, q7, limit2, m0, dep0 + 1, u7, w.7, q8, u8)
                            && T8::sp_accepts(d0, q8, limit2, m0, dep0 + 1, u8, w.8, q9, u9)
                            && T9::sp_accepts(d0, q9, limit2, m0, dep0 + 1, u9, w.9, q10, u10)
                            && T10::sp_accepts(d0, q10, limit2, m0, dep0 + 1, u10, w.10, q11, u11)
                            && rstep_matches(sp_close(d0, q11, limit2, u11, length, Ok::<Self, ASN1Error>(w)), Ok::<Self, ASN1Error>(w), e2, s2);
                                T0::lemma_outcomes_unique(d0, e0, limit2, m0, dep0 + 1, sth, w.0, wq1, wu1, t0, g1.posi(), g1.tag_statev(), ASN1Error::Invalid, 0, TagState::Fresh, ASN1Error::Invalid, 0, TagState::Fresh);
                                T1::lemma_outcomes_unique(d0, wq1, limit2, m0, dep0 + 1, wu1, w.1, wq2, wu2, t1, g2.posi(), g2.tag_statev(), ASN1Error::Invalid, 0, TagState::Fresh, ASN1Error::Invalid, 0, TagState::Fresh);
                                T2::lemma_outcomes_unique(d0, wq2, limit2, m0, dep0 + 1, wu2, w.2, wq3, wu3, t2, g3.posi(), g3.tag_statev(), ASN1Error::Invalid, 0, TagState::Fresh, ASN1Error::Invalid, 0, TagState::Fresh);
                                T3::lemma_outcomes_unique(d0, wq3, limit2, m0, dep0 + 1, wu3, w.3, wq4, wu4, t3, g4.posi(), g4.tag_statev(), ASN1Error::Invalid, 0, TagState::Fresh, ASN1Error::Invalid, 0, TagState::Fresh);
                                T4::lemma_outcomes_unique(d0, wq4, limit2, m0, dep0 + 1, wu4, w.4, wq5, wu5, t4, g5.posi(), g5.tag_statev(), ASN1Error::Invalid, 0, TagState::Fresh, ASN1Error::Invalid, 0, TagState::Fresh);
                                T5::lemma_outcomes_unique(d0, wq5, limit2, m0, dep0 + 1, wu5, w.5, wq6, wu6, t5, g6.posi(), g6.tag_statev(), ASN1Error::Invalid, 0, TagState::Fresh, ASN1Error::Invalid, 0, TagState::Fresh);
                                T6::lemma_outcomes_unique(d0, wq6, limit2, m0, dep0 + 1, wu6, w.6, wq7, wu7, t6, g7.posi(), g7.tag_statev(), ASN1Error::Invalid, 0, TagState::Fresh, ASN1Error::Invalid, 0, TagState::Fresh);
                                T7::lemma_outcomes_unique(d0, wq7, limit2, m0, dep0 + 1, wu7, w.7, wq8, wu8, t7, g8.posi(), g8.tag_statev(), ASN1Error::Invalid, 0, TagState::Fresh, ASN1Error::Invalid, 0, TagState::Fresh);
                                T8::lemma_outcomes_unique(d0, wq8, limit2, m0, dep0 + 1, wu8, w.8, wq9, wu9, w.8, wq9, wu9, ferr, bad_pos, bad_st, ferr, bad_pos, bad_st);
                                assert(false);
                            },
                            HeadStep::HeadFail { kind, end: ee, st: sx } => {},
                        }
                    }
                }
                    }
                }
                return rr;
            },
        };
        let ghost g9 = *reader;
        let t9 = match T9::decode_ber(reader) {
            Ok(v) => v,
            Err(e) => {
                let ghost ferr = e;
                let ghost bad_pos = reader.posi();
                let ghost bad_st = reader.tag_statev();
                let inner: ASN1Result<Self> = Err(e);
                let rr = reader.close_frame(frame, inner);
                proof {
                    if Self::sp_refusals_exact(m0) {
                assert forall|w: Self, e2: int, s2: TagState| !Self::sp_accepts(
                    d0, pos0, lim0, m0, dep0, st00, w, e2, s2,
                ) by {
                    if Self::sp_accepts(d0, pos0, lim0, m0, dep0, st00, w, e2, s2) {
                        match sp_header(d0, pos0, lim0, m0, dep0, st00, spec_univ_tag(16), TagType::Explicit) {
                            HeadStep::HeadOk { pc, length, end: e0, limit2, st: sth } => {
                                let (wq1, wu1, wq2, wu2, wq3, wu3, wq4, wu4, wq5, wu5, wq6, wu6, wq7, wu7, wq8, wu8, wq9, wu9, wq10, wu10, wq11, wu11) = choose|q1: int, u1: TagState, q2: int, u2: TagState, q3: int, u3: TagState, q4: int, u4: TagState, q5: int, u5: TagState, q6: int, u6: TagState, q7: int, u7: TagState, q8: int, u8: TagState, q9: int, u9: TagState, q10: int, u10: TagState, q11: int, u11: TagState|
                                    #![trigger T0::sp_accepts(d0, e0, limit2, m0, dep0 + 1, sth, w.0, q1, u1), T1::sp_accepts(d0, q1, limit2, m0, dep0 + 1, u1, w.1, q2, u2), T2::sp_accepts(d0, q2, limit2, m0, dep0 + 1, u2, w.2, q3, u3), T3::sp_accepts(d0, q3, limit2, m0, dep0 + 1, u3, w.3, q4, u4), T4::sp_accepts(d0, q4, limit2, m0, dep0 + 1, u4, w.4, q5, u5), T5::sp_accepts(d0, q5, limit2, m0, dep0 + 1, u5, w.5, q6, u6), T6::sp_accepts(d0, q6, limit2, m0, dep0 + 1, u6, w.6, q7, u7), T7::sp_accepts(d0, q7, limit2, m0, dep0 + 1, u7, w.7, q8, u8), T8::sp_accepts(d0, q8, limit2, m0, dep0 + 1, u8, w.8, q9, u9), T9::sp_accepts(d0, q9, limit2, m0, dep0 + 1, u9, w.9, q10, u10), T10::sp_accepts(d0, q10, limit2, m0, dep0 + 1, u10, w.10, q11, u11)]
                                                            T0::sp_accepts(d0, e0, limit2, m0, dep0 + 1, sth, w.0, q1, u1)
                            && T1::sp_accepts(d0, q1, limit2, m0, dep0 + 1, u1, w.1, q2, u2)
                            && T2::sp_accepts(d0, q2, limit2, m0, dep0 + 1, u2, w.2, q3, u3)
                            && T3::sp_accepts(d0, q3, limit2, m0, dep0 + 1, u3, w.3, q4, u4)
                            && T4::sp_accepts(d0, q4, limit2, m0, dep0 + 1, u4, w.4, q5, u5)
                            && T5::sp_accepts(d0, q5, limit2, m0, dep0 + 1, u5, w.5, q6, u6)
                            && T6::sp_accepts(d0, q6, limit2, m0, dep0 + 1, u6, w.6, q7, u7)
                            && T7::sp_accepts(d0, q7, limit2, m0, dep0 + 1, u7, w.7, q8, u8)
                            && T8::sp_accepts(d0, q8, limit2, m0, dep0 + 1, u8, w.8, q9, u9)
                            && T9::sp_accepts(d0, q9, limit2, m0, dep0 + 1, u9, w.9, q10, u10)
                            && T10::sp_accepts(d0, q10, limit2, m0, dep0 + 1, u10, w.10, q11, u11)
                            && rstep_matches(sp_close(d0, q11, limit2, u11, length, Ok::<Self, ASN1Error>(w)), Ok::<Self, ASN1Error>(w), e2, s2);
                                T0::lemma_outcomes_unique(d0, e0, limit2, m0, dep0 + 1, sth, w.0, wq1, wu1, t0, g1.posi(), g1.tag_statev(), ASN1Error::Invalid, 0, TagState::Fresh, ASN1Error::Invalid, 0, TagState::Fresh);
                                T1::lemma_outcomes_unique(d0, wq1, limit2, m0, dep0 + 1, wu1, w.1, wq2, wu2, t1, g2.posi(), g2.tag_statev(), ASN1Error::Invalid, 0, TagState::Fresh, ASN1Error::Invalid, 0, TagState::Fresh);
                                T2::lemma_outcomes_unique(d0, wq2, limit2, m0, dep0 + 1, wu2, w.2, wq3, wu3, t2, g3.posi(), g3.tag_statev(), ASN1Error::Invalid, 0, TagState::Fresh, ASN1Error::Invalid, 0, TagState::Fresh);
                                T3::lemma_outcomes_unique(d0, wq3, limit2, m0, dep0 + 1, wu3, w.3, wq4, wu4, t3, g4.posi(), g4.tag_statev(), ASN1Error::Invalid, 0, TagState::Fresh, ASN1Error::Invalid, 0, TagState::Fresh);
                                T4::lemma_outcomes_unique(d0, wq4, limit2, m0, dep0 + 1, wu4, w.4, wq5, wu5, t4, g5.posi(), g5.tag_statev(), ASN1Error::Invalid, 0, TagState::Fresh, ASN1Error::Invalid, 0, TagState::Fresh);
                                T5::lemma_outcomes_unique(d0, wq5, limit2, m0, dep0 + 1, wu5, w.5, wq6, wu6, t5, g6.posi(), g6.tag_statev(), ASN1Error::Invalid, 0, TagState::Fresh, ASN1Error::Invalid, 0, TagState::Fresh);
                                T6::lemma_outcomes_unique(d0, wq6, limit2, m0, dep0 + 1, wu6, w.6, wq7, wu7, t6, g7.posi(), g7.tag_statev(), ASN1Error::Invalid, 0, TagState::Fresh, ASN1Error::Invalid, 0, TagState::Fresh);
                                T7::lemma_outcomes_unique(d0, wq7, limit2, m0, dep0 + 1, wu7, w.7, wq8, wu8, t7, g8.posi(), g8.tag_statev(), ASN1Error::Invalid, 0, TagState::Fresh, ASN1Error::Invalid, 0, TagState::Fresh);
                                T8::lemma_outcomes_unique(d0, wq8, limit2, m0, dep0 + 1, wu8, w.8, wq9, wu9, t8, g9.posi(), g9.tag_statev(), ASN1Error::Invalid, 0, TagState::Fresh, ASN1Error::Invalid, 0, TagState::Fresh);
                                T9::lemma_outcomes_unique(d0, wq9, limit2, m0, dep0 + 1, wu9, w.9, wq10, wu10, w.9, wq10, wu10, ferr, bad_pos, bad_st, ferr, bad_pos, bad_st);
                                assert(false);
                            },
                            HeadStep::HeadFail { kind, end: ee, st: sx } => {},
                        }
                    }
                }
                    }
                }
                return rr;
            },
        };
        let ghost g10 = *reader;
        let t10 = match T10::decode_ber(reader) {
            Ok(v) => v,
            Err(e) => {
                let ghost ferr = e;
                let ghost bad_pos = reader.posi();
                let ghost bad_st = reader.tag_statev();
                let inner: ASN1Result<Self> = Err(e);
                let rr = reader.close_frame(frame, inner);
                proof {
                    if Self::sp_refusals_exact(m0) {
                assert forall|w: Self, e2: int, s2: TagState| !Self::sp_accepts(
                    d0, pos0, lim0, m0, dep0, st00, w, e2, s2,
                ) by {
                    if Self::sp_accepts(d0, pos0, lim0, m0, dep0, st00, w, e2, s2) {
                        match sp_header(d0, pos0, lim0, m0, dep0, st00, spec_univ_tag(16), TagType::Explicit) {
                            HeadStep::HeadOk { pc, length, end: e0, limit2, st: sth } => {
                                let (wq1, wu1, wq2, wu2, wq3, wu3, wq4, wu4, wq5, wu5, wq6, wu6, wq7, wu7, wq8, wu8, wq9, wu9, wq10, wu10, wq11, wu11) = choose|q1: int, u1: TagState, q2: int, u2: TagState, q3: int, u3: TagState, q4: int, u4: TagState, q5: int, u5: TagState, q6: int, u6: TagState, q7: int, u7: TagState, q8: int, u8: TagState, q9: int, u9: TagState, q10: int, u10: TagState, q11: int, u11: TagState|
                                    #![trigger T0::sp_accepts(d0, e0, limit2, m0, dep0 + 1, sth, w.0, q1, u1), T1::sp_accepts(d0, q1, limit2, m0, dep0 + 1, u1, w.1, q2, u2), T2::sp_accepts(d0, q2, limit2, m0, dep0 + 1, u2, w.2, q3, u3), T3::sp_accepts(d0, q3, limit2, m0, dep0 + 1, u3, w.3, q4, u4), T4::sp_accepts(d0, q4, limit2, m0, dep0 + 1, u4, w.4, q5, u5), T5::sp_accepts(d0, q5, limit2, m0, dep0 + 1, u5, w.5, q6, u6), T6::sp_accepts(d0, q6, limit2, m0, dep0 + 1, u6, w.6, q7, u7), T7::sp_accepts(d0, q7, limit2, m0, dep0 + 1, u7, w.7, q8, u8), T8::sp_accepts(d0, q8, limit2, m0, dep0 + 1, u8, w.8, q9, u9), T9::sp_accepts(d0, q9, limit2, m0, dep0 + 1, u9, w.9, q10, u10), T10::sp_accepts(d0, q10, limit2, m0, dep0 + 1, u10, w.10, q11, u11)]
                                                            T0::sp_accepts(d0, e0, limit2, m0, dep0 + 1, sth, w.0, q1, u1)
                            && T1::sp_accepts(d0, q1, limit2, m0, dep0 + 1, u1, w.1, q2, u2)
                            && T2::sp_accepts(d0, q2, limit2, m0, dep0 + 1, u2, w.2, q3, u3)
                            && T3::sp_accepts(d0, q3, limit2, m0, dep0 + 1, u3, w.3, q4, u4)
                            && T4::sp_accepts(d0, q4, limit2, m0, dep0 + 1, u4, w.4, q5, u5)
                            && T5::sp_accepts(d0, q5, limit2, m0, dep0 + 1, u5, w.5, q6, u6)
                            && T6::sp_accepts(d0, q6, limit2, m0, dep0 + 1, u6, w.6, q7, u7)
                            && T7::sp_accepts(d0, q7, limit2, m0, dep0 + 1, u7, w.7, q8, u8)
                            && T8::sp_accepts(d0, q8, limit2, m0, dep0 + 1, u8, w.8, q9, u9)
                            && T9::sp_accepts(d0, q9, limit2, m0, dep0 + 1, u9, w.9, q10, u10)
                            && T10::sp_accepts(d0, q10, limit2, m0, dep0 + 1, u10, w.10, q11, u11)
                            && rstep_matches(sp_close(d0, q11, limit2, u11, length, Ok::<Self, ASN1Error>(w)), Ok::<Self, ASN1Error>(w), e2, s2);
                                T0::lemma_outcomes_unique(d0, e0, limit2, m0, dep0 + 1, sth, w.0, wq1, wu1, t0, g1.posi(), g1.tag_statev(), ASN1Error::Invalid, 0, TagState::Fresh, ASN1Error::Invalid, 0, TagState::Fresh);
                                T1::lemma_outcomes_unique(d0, wq1, limit2, m0, dep0 + 1, wu1, w.1, wq2, wu2, t1, g2.posi(), g2.tag_statev(), ASN1Error::Invalid, 0, TagState::Fresh, ASN1Error::Invalid, 0, TagState::Fresh);
                                T2::lemma_outcomes_unique(d0, wq2, limit2, m0, dep0 + 1, wu2, w.2, wq3, wu3, t2, g3.posi(), g3.tag_statev(), ASN1Error::Invalid, 0, TagState::Fresh, ASN1Error::Invalid, 0, TagState::Fresh);
                                T3::lemma_outcomes_unique(d0, wq3, limit2, m0, dep0 + 1, wu3, w.3, wq4, wu4, t3, g4.posi(), g4.tag_statev(), ASN1Error::Invalid, 0, TagState::Fresh, ASN1Error::Invalid, 0, TagState::Fresh);
                                T4::lemma_outcomes_unique(d0, wq4, limit2, m0, dep0 + 1, wu4, w.4, wq5, wu5, t4, g5.posi(), g5.tag_statev(), ASN1Error::Invalid, 0, TagState::Fresh, ASN1Error::Invalid, 0, TagState::Fresh);
                                T5::lemma_outcomes_unique(d0, wq5, limit2, m0, dep0 + 1, wu5, w.5, wq6, wu6, t5, g6.posi(), g6.tag_statev(), ASN1Error::Invalid, 0, TagState::Fresh, ASN1Error::Invalid, 0, TagState::Fresh);
                                T6::lemma_outcomes_unique(d0, wq6, limit2, m0, dep0 + 1, wu6, w.6, wq7, wu7, t6, g7.posi(), g7.tag_statev(), ASN1Error::Invalid, 0, TagState::Fresh, ASN1Error::Invalid, 0, TagState::Fresh);
                                T7::lemma_outcomes_unique(d0, wq7, limit2, m0, dep0 + 1, wu7, w.7, wq8, wu8, t7, g8.posi(), g8.tag_statev(), ASN1Error::Invalid, 0, TagState::Fresh, ASN1Error::Invalid, 0, TagState::Fresh);
                                T8::lemma_outcomes_unique(d0, wq8, limit2, m0, dep0 + 1, wu8, w.8, wq9, wu9, t8, g9.posi(), g9.tag_statev(), ASN1Error::Invalid, 0, TagState::Fresh, ASN1Error::Invalid, 0, TagState::Fresh);
                                T9::lemma_outcomes_unique(d0, wq9, limit2, m0, dep0 + 1, wu9, w.9, wq10, wu10, t9, g10.posi(), g10.tag_statev(), ASN1Error::Invalid, 0, TagState::Fresh, ASN1Error::Invalid, 0, TagState::Fresh);
                                T10::lemma_outcomes_unique(d0, wq10, limit2, m0, dep0 + 1, wu10, w.10, wq11, wu11, w.10, wq11, wu11, ferr, bad_pos, bad_st, ferr, bad_pos, bad_st);
                                assert(false);
                            },
                            HeadStep::HeadFail { kind, end: ee, st: sx } => {},
                        }
                    }
                }
                    }
                }
                return rr;
            },
        };
        let ghost g11 = *reader;
        let result = (t0, t1, t2, t3, t4, t5, t6, t7, t8, t9, t10);
        let ghost gv = result;
        let ghost before_close = *reader;
        let rr = reader.close_frame(frame, Ok(result));
        proof {
            if rr is Ok {
                assert(T0::sp_accepts(g0.data(), g0.posi(), g0.limiti(), g0.modev(), g0.depthv(), g0.tag_statev(), gv.0, g1.posi(), g1.tag_statev()));
                assert(T1::sp_accepts(g0.data(), g1.posi(), g0.limiti(), g0.modev(), g0.depthv(), g1.tag_statev(), gv.1, g2.posi(), g2.tag_statev()));
                assert(T2::sp_accepts(g0.data(), g2.posi(), g0.limiti(), g0.modev(), g0.depthv(), g2.tag_statev(), gv.2, g3.posi(), g3.tag_statev()));
                assert(T3::sp_accepts(g0.data(), g3.posi(), g0.limiti(), g0.modev(), g0.depthv(), g3.tag_statev(), gv.3, g4.posi(), g4.tag_statev()));
                assert(T4::sp_accepts(g0.data(), g4.posi(), g0.limiti(), g0.modev(), g0.depthv(), g4.tag_statev(), gv.4, g5.posi(), g5.tag_statev()));
                assert(T5::sp_accepts(g0.data(), g5.posi(), g0.limiti(), g0.modev(), g0.depthv(), g5.tag_statev(), gv.5, g6.posi(), g6.tag_statev()));
                assert(T6::sp_accepts(g0.data(), g6.posi(), g0.limiti(), g0.modev(), g0.depthv(), g6.tag_statev(), gv.6, g7.posi(), g7.tag_statev()));
                assert(T7::sp_accepts(g0.data(), g7.posi(), g0.limiti(), g0.modev(), g0.depthv(), g7.tag_statev(), gv.7, g8.posi(), g8.tag_statev()));
                assert(T8::sp_accepts(g0.data(), g8.posi(), g0.limiti(), g0.modev(), g0.depthv(), g8.tag_statev(), gv.8, g9.posi(), g9.tag_statev()));
                assert(T9::sp_accepts(g0.data(), g9.posi(), g0.limiti(), g0.modev(), g0.depthv(), g9.tag_statev(), gv.9, g10.posi(), g10.tag_statev()));
                assert(T10::sp_accepts(g0.data(), g10.posi(), g0.limiti(), g0.modev(), g0.depthv(), g10.tag_statev(), gv.10, g11.posi(), g11.tag_statev()));
            }
            if rr is Err && Self::sp_refusals_exact(m0) {
                assert forall|w: Self, e2: int, s2: TagState| !Self::sp_accepts(
                    d0, pos0, lim0, m0, dep0, st00, w, e2, s2,
                ) by {
                    if Self::sp_accepts(d0, pos0, lim0, m0, dep0, st00, w, e2, s2) {
                        match sp_header(d0, pos0, lim0, m0, dep0, st00, spec_univ_tag(16), TagType::Explicit) {
                            HeadStep::HeadOk { pc, length, end: e0, limit2, st: sth } => {
                                let (wq1, wu1, wq2, wu2, wq3, wu3, wq4, wu4, wq5, wu5, wq6, wu6, wq7, wu7, wq8, wu8, wq9, wu9, wq10, wu10, wq11, wu11) = choose|q1: int, u1: TagState, q2: int, u2: TagState, q3: int, u3: TagState, q4: int, u4: TagState, q5: int, u5: TagState, q6: int, u6: TagState, q7: int, u7: TagState, q8: int, u8: TagState, q9: int, u9: TagState, q10: int, u10: TagState, q11: int, u11: TagState|
                                    #![trigger T0::sp_accepts(d0, e0, limit2, m0, dep0 + 1, sth, w.0, q1, u1), T1::sp_accepts(d0, q1, limit2, m0, dep0 + 1, u1, w.1, q2, u2), T2::sp_accepts(d0, q2, limit2, m0, dep0 + 1, u2, w.2, q3, u3), T3::sp_accepts(d0, q3, limit2, m0, dep0 + 1, u3, w.3, q4, u4), T4::sp_accepts(d0, q4, limit2, m0, dep0 + 1, u4, w.4, q5, u5), T5::sp_accepts(d0, q5, limit2, m0, dep0 + 1, u5, w.5, q6, u6), T6::sp_accepts(d0, q6, limit2, m0, dep0 + 1, u6, w.6, q7, u7), T7::sp_accepts(d0, q7, limit2, m0, dep0 + 1, u7, w.7, q8, u8), T8::sp_accepts(d0, q8, limit2, m0, dep0 + 1, u8, w.8, q9, u9), T9::sp_accepts(d0, q9, limit2, m0, dep0 + 1, u9, w.9, q10, u10), T10::sp_accepts(d0, q10, limit2, m0, dep0 + 1, u10, w.10, q11, u11)]
                                                            T0::sp_accepts(d0, e0, limit2, m0, dep0 + 1, sth, w.0, q1, u1)
                            && T1::sp_accepts(d0, q1, limit2, m0, dep0 + 1, u1, w.1, q2, u2)
                            && T2::sp_accepts(d0, q2, limit2, m0, dep0 + 1, u2, w.2, q3, u3)
                            && T3::sp_accepts(d0, q3, limit2, m0, dep0 + 1, u3, w.3, q4, u4)
                            && T4::sp_accepts(d0, q4, limit2, m0, dep0 + 1, u4, w.4, q5, u5)
                            && T5::sp_accepts(d0, q5, limit2, m0, dep0 + 1, u5, w.5, q6, u6)
                            && T6::sp_accepts(d0, q6, limit2, m0, dep0 + 1, u6, w.6, q7, u7)
                            && T7::sp_accepts(d0, q7, limit2, m0, dep0 + 1, u7, w.7, q8, u8)
                            && T8::sp_accepts(d0, q8, limit2, m0, dep0 + 1, u8, w.8, q9, u9)
                            && T9::sp_accepts(d0, q9, limit2, m0, dep0 + 1, u9, w.9, q10, u10)
                            && T10::sp_accepts(d0, q10, limit2, m0, dep0 + 1, u10, w.10, q11, u11)
                            && rstep_matches(sp_close(d0, q11, limit2, u11, length, Ok::<Self, ASN1Error>(w)), Ok::<Self, ASN1Error>(w), e2, s2);
                                T0::lemma_outcomes_unique(d0, e0, limit2, m0, dep0 + 1, sth, w.0, wq1, wu1, t0, g1.posi(), g1.tag_statev(), ASN1Error::Invalid, 0, TagState::Fresh, ASN1Error::Invalid, 0, TagState::Fresh);
                                T1::lemma_outcomes_unique(d0, wq1, limit2, m0, dep0 + 1, wu1, w.1, wq2, wu2, t1, g2.posi(), g2.tag_statev(), ASN1Error::Invalid, 0, TagState::Fresh, ASN1Error::Invalid, 0, TagState::Fresh);
                                T2::lemma_outcomes_unique(d0, wq2, limit2, m0, dep0 + 1, wu2, w.2, wq3, wu3, t2, g3.posi(), g3.tag_statev(), ASN1Error::Invalid, 0, TagState::Fresh, ASN1Error::Invalid, 0, TagState::Fresh);
                                T3::lemma_outcomes_unique(d0, wq3, limit2, m0, dep0 + 1, wu3, w.3, wq4, wu4, t3, g4.posi(), g4.tag_statev(), ASN1Error::Invalid, 0, TagState::Fresh, ASN1Error::Invalid, 0, TagState::Fresh);
                                T4::lemma_outcomes_unique(d0, wq4, limit2, m0, dep0 + 1, wu4, w.4, wq5, wu5, t4, g5.posi(), g5.tag_statev(), ASN1Error::Invalid, 0, TagState::Fresh, ASN1Error::Invalid, 0, TagState::Fresh);
                                T5::lemma_outcomes_unique(d0, wq5, limit2, m0, dep0 + 1, wu5, w.5, wq6, wu6, t5, g6.posi(), g6.tag_statev(), ASN1Error::Invalid, 0, TagState::Fresh, ASN1Error::Invalid, 0, TagState::Fresh);
                                T6::lemma_outcomes_unique(d0, wq6, limit2, m0, dep0 + 1, wu6, w.6, wq7, wu7, t6, g7.posi(), g7.tag_statev(), ASN1Error::Invalid, 0, TagState::Fresh, ASN1Error::Invalid, 0, TagState::Fresh);
                                T7::lemma_outcomes_unique(d0, wq7, limit2, m0, dep0 + 1, wu7, w.7, wq8, wu8, t7, g8.posi(), g8.tag_statev(), ASN1Error::Invalid, 0, TagState::Fresh, ASN1Error::Invalid, 0, TagState::Fresh);
                                T8::lemma_outcomes_unique(d0, wq8, limit2, m0, dep0 + 1, wu8, w.8, wq9, wu9, t8, g9.posi(), g9.tag_statev(), ASN1Error::Invalid, 0, TagState::Fresh, ASN1Error::Invalid, 0, TagState::Fresh);
                                T9::lemma_outcomes_unique(d0, wq9, limit2, m0, dep0 + 1, wu9, w.9, wq10, wu10, t9, g10.posi(), g10.tag_statev(), ASN1Error::Invalid, 0, TagState::Fresh, ASN1Error::Invalid, 0, TagState::Fresh);
                                T10::lemma_outcomes_unique(d0, wq10, limit2, m0, dep0 + 1, wu10, w.10, wq11, wu11, t10, g11.posi(), g11.tag_statev(), ASN1Error::Invalid, 0, TagState::Fresh, ASN1Error::Invalid, 0, TagState::Fresh);
                            },
                            HeadStep::HeadFail { kind, end: ee, st: sx } => {},
                        }
                    }
                }
            }
        }
        rr
    }
}

impl<T0: BERDecodable, T1: BERDecodable, T2: BERDecodable, T3: BERDecodable, T4: BERDecodable, T5: BERDecodable, T6: BERDecodable, T7: BERDecodable, T8: BERDecodable, T9: BERDecodable, T10: BERDecodable, T11: BERDecodable> BERDecodable for (T0, T1, T2, T3, T4, T5, T6, T7, T8, T9, T10, T11) {
    open spec fn sp_accepts(
        data: Seq<u8>,
        pos: int,
        limit: int,
        mode: BERMode,
        depth: int,
        st0: TagState,
        v: Self,
        end: int,
        st: TagState,
    ) -> bool {
        match sp_header(data, pos, limit, mode, depth, st0, spec_univ_tag(16), TagType::Explicit) {
            HeadStep::HeadFail { kind, end: e, st: s } => false,
            HeadStep::HeadOk { pc, length, end: e0, limit2, st: sth } => pc
                == PCBit::Constructed && (exists|p1: int, s1: TagState, p2: int, s2: TagState, p3: int, s3: TagState, p4: int, s4: TagState, p5: int, s5: TagState, p6: int, s6: TagState, p7: int, s7: TagState, p8: int, s8: TagState, p9: int, s9: TagState, p10: int, s10: TagState, p11: int, s11: TagState, p12: int, s12: TagState|
                #![trigger T0::sp_accepts(data, e0, limit2, mode, depth + 1, sth, v.0, p1, s1), T1::sp_accepts(data, p1, limit2, mode, depth + 1, s1, v.1, p2, s2), T2::sp_accepts(data, p2, limit2, mode, depth + 1, s2, v.2, p3, s3), T3::sp_accepts(data, p3, limit2, mode, depth + 1, s3, v.3, p4, s4), T4::sp_accepts(data, p4, limit2, mode, depth + 1, s4, v.4, p5, s5), T5::sp_accepts(data, p5, limit2, mode, depth + 1, s5, v.5, p6, s6), T6::sp_accepts(data, p6, limit2, mode, depth + 1, s6, v.6, p7, s7), T7::sp_accepts(data, p7, limit2, mode, depth + 1, s7, v.7, p8, s8), T8::sp_accepts(data, p8, limit2, mode, depth + 1, s8, v.8, p9, s9), T9::sp_accepts(data, p9, limit2, mode, depth + 1, s9, v.9, p10, s10), T10::sp_accepts(data, p10, limit2, mode, depth + 1, s10, v.10, p11, s11), T11::sp_accepts(data, p11, limit2, mode, depth + 1, s11, v.11, p12, s12)]
                {
                    &&& T0::sp_accepts(data, e0, limit2, mode, depth + 1, sth, v.0, p1, s1)
                    &&& T1::sp_accepts(data, p1, limit2, mode, depth + 1, s1, v.1, p2, s2)
                    &&& T2::sp_accepts(data, p2, limit2, mode, depth + 1, s2, v.2, p3, s3)
                    &&& T3::sp_accepts(data, p3, limit2, mode, depth + 1, s3, v.3, p4, s4)
                    &&& T4::sp_accepts(data, p4, limit2, mode, depth + 1, s4, v.4, p5, s5)
                    &&& T5::sp_accepts(data, p5, limit2, mode, depth + 1, s5, v.5, p6, s6)
                    &&& T6::sp_accepts(data, p6, limit2, mode, depth + 1, s6, v.6, p7, s7)
                    &&& T7::sp_accepts(data, p7, limit2, mode, depth + 1, s7, v.7, p8, s8)
                    &&& T8::sp_accepts(data, p8, limit2, mode, depth + 1, s8, v.8, p9, s9)
                    &&& T9::sp_accepts(data, p9, limit2, mode, depth + 1, s9, v.9, p10, s10)
                    &&& T10::sp_accepts(data, p10, limit2, mode, depth + 1, s10, v.10, p11, s11)
                    &&& T11::sp_accepts(data, p11, limit2, mode, depth + 1, s11, v.11, p12, s12)
                    &&& rstep_matches(
                        sp_close(data, p12, limit2, s12, length, Ok::<Self, ASN1Error>(v)),
                        Ok::<Self, ASN1Error>(v),
                        end,
                        st,
                    )
                }),
        }
    }

    open spec fn sp_refusals_exact(mode: BERMode) -> bool {
        mode == BERMode::Der && T0::sp_refusals_exact(BERMode::Der) && T1::sp_refusals_exact(BERMode::Der) && T2::sp_refusals_exact(BERMode::Der) && T3::sp_refusals_exact(BERMode::Der) && T4::sp_refusals_exact(BERMode::Der) && T5::sp_refusals_exact(BERMode::Der) && T6::sp_refusals_exact(BERMode::Der) && T7::sp_refusals_exact(BERMode::Der) && T8::sp_refusals_exact(BERMode::Der) && T9::sp_refusals_exact(BERMode::Der) && T10::sp_refusals_exact(BERMode::Der) && T11::sp_refusals_exact(BERMode::Der)
    }

    open spec fn sp_refuses(
        data: Seq<u8>,
        pos: int,
        limit: int,
        mode: BERMode,
        depth: int,
        st0: TagState,
        kind: ASN1Error,
        end: int,
        st: TagState,
    ) -> bool {
        !(exists|w: Self, e2: int, s2: TagState|
            Self::sp_accepts(data, pos, limit, mode, depth, st0, w, e2, s2))
    }

    proof fn lemma_outcomes_unique(
        data: Seq<u8>,
        pos: int,
        limit: int,
        mode: BERMode,
        depth: int,
        st0: TagState,
        v1: Self,
        e1: int,
        s1: TagState,
        v2: Self,
        e2: int,
        s2: TagState,
        k3: ASN1Error,
        e3: int,
        s3: TagState,
        k4: ASN1Error,
        e4: int,
        s4: TagState,
    ) {
        if Self::sp_accepts(data, pos, limit, mode, depth, st0, v1, e1, s1) && Self::sp_accepts(
            data,
            pos,
            limit,
            mode,
            depth,
            st0,
            v2,
            e2,
            s2,
        ) {
            match sp_header(data, pos, limit, mode, depth, st0, spec_univ_tag(16), TagType::Explicit) {
                HeadStep::HeadOk { pc, length, end: e0, limit2, st: sth } => {
                    let (aq1, au1, aq2, au2, aq3, au3, aq4, au4, aq5, au5, aq6, au6, aq7, au7, aq8, au8, aq9, au9, aq10, au10, aq11, au11, aq12, au12) = choose|q1: int, u1: TagState, q2: int, u2: TagState, q3: int, u3: TagState, q4: int, u4: TagState, q5: int, u5: TagState, q6: int, u6: TagState, q7: int, u7: TagState, q8: int, u8: TagState, q9: int, u9: TagState, q10: int, u10: TagState, q11: int, u11: TagState, q12: int, u12: TagState|
                        #![trigger T0::sp_accepts(data, e0, limit2, mode, depth + 1, sth, v1.0, q1, u1), T1::sp_accepts(data, q1, limit2, mode, depth + 1, u1, v1.1, q2, u2), T2::sp_accepts(data, q2, limit2, mode, depth + 1, u2, v1.2, q3, u3), T3::sp_accepts(data, q3, limit2, mode, depth + 1, u3, v1.3, q4, u4), T4::sp_accepts(data, q4, limit2, mode, depth + 1, u4, v1.4, q5, u5), T5::sp_accepts(data, q5, limit2, mode, depth + 1, u5, v1.5, q6, u6), T6::sp_accepts(data, q6, limit2, mode, depth + 1, u6, v1.6, q7, u7), T7::sp_accepts(data, q7, limit2, mode, depth + 1, u7, v1.7, q8, u8), T8::sp_accepts(data, q8, limit2, mode, depth + 1, u8, v1.8, q9, u9), T9::sp_accepts(data, q9, limit2, mode, depth + 1, u9, v1.9, q10, u10), T10::sp_accepts(data, q10, limit2, mode, depth + 1, u10, v1.10, q11, u11), T11::sp_accepts(data, q11, limit2, mode, depth + 1, u11, v1.11, q12, u12)]
                                            T0::sp_accepts(data, e0, limit2, mode, depth + 1, sth, v1.0, q1, u1)
                        && T1::sp_accepts(data, q1, limit2, mode, depth + 1, u1, v1.1, q2, u2)
                        && T2::sp_accepts(data, q2, limit2, mode, depth + 1, u2, v1.2, q3, u3)
                        && T3::sp_accepts(data, q3, limit2, mode, depth + 1, u3, v1.3, q4, u4)
                        && T4::sp_accepts(data, q4, limit2, mode, depth + 1, u4, v1.4, q5, u5)
                        && T5::sp_accepts(data, q5, limit2, mode, depth + 1, u5, v1.5, q6, u6)
                        && T6::sp_accepts(data, q6, limit2, mode, depth + 1, u6, v1.6, q7, u7)
                        && T7::sp_accepts(data, q7, limit2, mode, depth + 1, u7, v1.7, q8, u8)
                        && T8::sp_accepts(data, q8, limit2, mode, depth + 1, u8, v1.8, q9, u9)
                        && T9::sp_accepts(data, q9, limit2, mode, depth + 1, u9, v1.9, q10, u10)
                        && T10::sp_accepts(data, q10, limit2, mode, depth + 1, u10, v1.10, q11, u11)
                        && T11::sp_accepts(data, q11, limit2, mode, depth + 1, u11, v1.11, q12, u12)
                        && rstep_matches(sp_close(data, q12, limit2, u12, length, Ok::<Self, ASN1Error>(v1)), Ok::<Self, ASN1Error>(v1), e1, s1);
                    let (bq1, bu1, bq2, bu2, bq3, bu3, bq4, bu4, bq5, bu5, bq6, bu6, bq7, bu7, bq8, bu8, bq9, bu9, bq10, bu10, bq11, bu11, bq12, bu12) = choose|q1: int, u1: TagState, q2: int, u2: TagState, q3: int, u3: TagState, q4: int, u4: TagState, q5: int, u5: TagState, q6: int, u6: TagState, q7: int, u7: TagState, q8: int, u8: TagState, q9: int, u9: TagState, q10: int, u10: TagState, q11: int, u11: TagState, q12: int, u12: TagState|
                        #![trigger T0::sp_accepts(data, e0, limit2, mode, depth + 1, sth, v2.0, q1, u1), T1::sp_accepts(data, q1, limit2, mode, depth + 1, u1, v2.1, q2, u2), T2::sp_accepts(data, q2, limit2, mode, depth + 1, u2, v2.2, q3, u3), T3::sp_accepts(data, q3, limit2, mode, depth + 1, u3, v2.3, q4, u4), T4::sp_accepts(data, q4, limit2, mode, depth + 1, u4, v2.4, q5, u5), T5::sp_accepts(data, q5, limit2, mode, depth + 1, u5, v2.5, q6, u6), T6::sp_accepts(data, q6, limit2, mode, depth + 1, u6, v2.6, q7, u7), T7::sp_accepts(data, q7, limit2, mode, depth + 1, u7, v2.7, q8, u8), T8::sp_accepts(data, q8, limit2, mode, depth + 1, u8, v2.8, q9, u9), T9::sp_accepts(data, q9, limit2, mode, depth + 1, u9, v2.9, q10, u10), T10::sp_accepts(data, q10, limit2, mode, depth + 1, u10, v2.10, q11, u11), T11::sp_accepts(data, q11, limit2, mode, depth + 1, u11, v2.11, q12, u12)]
                                            T0::sp_accepts(data, e0, limit2, mode, depth + 1, sth, v2.0, q1, u1)
                        && T1::sp_accepts(data, q1, limit2, mode, depth + 1, u1, v2.1, q2, u2)
                        && T2::sp_accepts(data, q2, limit2, mode, depth + 1, u2, v2.2, q3, u3)
                        && T3::sp_accepts(data, q3, limit2, mode, depth + 1, u3, v2.3, q4, u4)
                        && T4::sp_accepts(data, q4, limit2, mode, depth + 1, u4, v2.4, q5, u5)
                        && T5::sp_accepts(data, q5, limit2, mode, depth + 1, u5, v2.5, q6, u6)
                        && T6::sp_accepts(data, q6, limit2, mode, depth + 1, u6, v2.6, q7, u7)
                        && T7::sp_accepts(data, q7, limit2, mode, depth + 1, u7, v2.7, q8, u8)
                        && T8::sp_accepts(data, q8, limit2, mode, depth + 1, u8, v2.8, q9, u9)
                        && T9::sp_accepts(data, q9, limit2, mode, depth + 1, u9, v2.9, q10, u10)
                        && T10::sp_accepts(data, q10, limit2, mode, depth + 1, u10, v2.10, q11, u11)
                        && T11::sp_accepts(data, q11, limit2, mode, depth + 1, u11, v2.11, q12, u12)
                        && rstep_matches(sp_close(data, q12, limit2, u12, length, Ok::<Self, ASN1Error>(v2)), Ok::<Self, ASN1Error>(v2), e2, s2);
                    T0::lemma_outcomes_unique(data, e0, limit2, mode, depth + 1, sth, v1.0, aq1, au1, v2.0, bq1, bu1, ASN1Error::Invalid, 0, TagState::Fresh, ASN1Error::Invalid, 0, TagState::Fresh);
                    T1::lemma_outcomes_unique(data, aq1, limit2, mode, depth + 1, au1, v1.1, aq2, au2, v2.1, bq2, bu2, ASN1Error::Invalid, 0, TagState::Fresh, ASN1Error::Invalid, 0, TagState::Fresh);
                    T2::lemma_outcomes_unique(data, aq2, limit2, mode, depth + 1, au2, v1.2, aq3, au3, v2.2, bq3, bu3, ASN1Error::Invalid, 0, TagState::Fresh, ASN1Error::Invalid, 0, TagState::Fresh);
                    T3::lemma_outcomes_unique(data, aq3, limit2, mode, depth + 1, au3, v1.3, aq4, au4, v2.3, bq4, bu4, ASN1Error::Invalid, 0, TagState::Fresh, ASN1Error::Invalid, 0, TagState::Fresh);
                    T4::lemma_outcomes_unique(data, aq4, limit2, mode, depth + 1, au4, v1.4, aq5, au5, v2.4, bq5, bu5, ASN1Error::Invalid, 0, TagState::Fresh, ASN1Error::Invalid, 0, TagState::Fresh);
                    T5::lemma_outcomes_unique(data, aq5, limit2, mode, depth + 1, au5, v1.5, aq6, au6, v2.5, bq6, bu6, ASN1Error::Invalid, 0, TagState::Fresh, ASN1Error::Invalid, 0, TagState::Fresh);
                    T6::lemma_outcomes_unique(data, aq6, limit2, mode, depth + 1, au6, v1.6, aq7, au7, v2.6, bq7, bu7, ASN1Error::Invalid, 0, TagState::Fresh, ASN1Error::Invalid, 0, TagState::Fresh);
                    T7::lemma_outcomes_unique(data, aq7, limit2, mode, depth + 1, au7, v1.7, aq8, au8, v2.7, bq8, bu8, ASN1Error::Invalid, 0, TagState::Fresh, ASN1Error::Invalid, 0, TagState::Fresh);
                    T8::lemma_outcomes_unique(data, aq8, limit2, mode, depth + 1, au8, v1.8, aq9, au9, v2.8, bq9, bu9, ASN1Error::Invalid, 0, TagState::Fresh, ASN1Error::Invalid, 0, TagState::Fresh);
                    T9::lemma_outcomes_unique(data, aq9, limit2, mode, depth + 1, au9, v1.9, aq10, au10, v2.9, bq10, bu10, ASN1Error::Invalid, 0, TagState::Fresh, ASN1Error::Invalid, 0, TagState::Fresh);
                    T10::lemma_outcomes_unique(data, aq10, limit2, mode, depth + 1, au10, v1.10, aq11, au11, v2.10, bq11, bu11, ASN1Error::Invalid, 0, TagState::Fresh, ASN1Error::Invalid, 0, TagState::Fresh);
                    T11::lemma_outcomes_unique(data, aq11, limit2, mode, depth + 1, au11, v1.11, aq12, au12, v2.11, bq12, bu12, ASN1Error::Invalid, 0, TagState::Fresh, ASN1Error::Invalid, 0, TagState::Fresh);
                },
                HeadStep::HeadFail { kind, end: ee, st: sx } => {},
            }
        }
    }

    fn decode_ber(reader: &mut BERReader) -> (r: ASN1Result<Self>) {
        let ghost d0 = old(reader).data();
        let ghost pos0 = old(reader).posi();
        let ghost lim0 = old(reader).limiti();
        let ghost m0 = old(reader).modev();
        let ghost dep0 = old(reader).depthv();
        let ghost st00 = old(reader).tag_statev();
        let frame = match reader.parse_header(
            Tag { tag_class: TagClass::Universal, tag_number: 16 },
            TagType::Explicit,
        ) {
            Ok(f) => f,
            Err(e) => {
                return Err(e);
            },
        };
        if frame.pc != PCBit::Constructed {
            let inner: ASN1Result<Self> = Err(ASN1Error::Invalid);
            return reader.close_frame(frame, inner);
        }
        let ghost g0 = *reader;
        let t0 = match T0::decode_ber(reader) {
            Ok(v) => v,
            Err(e) => {
                let ghost ferr = e;
                let ghost bad_pos = reader.posi();
                let ghost bad_st = reader.tag_statev();
                let inner: ASN1Result<Self> = Err(e);
                let rr = reader.close_frame(frame, inner);
                proof {
                    if Self::sp_refusals_exact(m0) {
                assert forall|w: Self, e2: int, s2: TagState| !Self::sp_accepts(
                    d0, pos0, lim0, m0, dep0, st00, w, e2, s2,
                ) by {
                    if Self::sp_accepts(d0, pos0, lim0, m0, dep0, st00, w, e2, s2) {
                        match sp_header(d0, pos0, lim0, m0, dep0, st00, spec_univ_tag(16), TagType::Explicit) {
                            HeadStep::HeadOk { pc, length, end: e0, limit2, st: sth } => {
                                let (wq1, wu1, wq2, wu2, wq3, wu3, wq4, wu4, wq5, wu5, wq6, wu6, wq7, wu7, wq8, wu8, wq9, wu9, wq10, wu10, wq11, wu11, wq12, wu12) = choose|q1: int, u1: TagState, q2: int, u2: TagState, q3: int, u3: TagState, q4: int, u4: TagState, q5: int, u5: TagState, q6: int, u6: TagState, q7: int, u7: TagState, q8: int, u8: TagState, q9: int, u9: TagState, q10: int, u10: TagState, q11: int, u11: TagState, q12: int, u12: TagState|
                                    #![trigger T0::sp_accepts(d0, e0, limit2, m0, dep0 + 1, sth, w.0, q1, u1), T1::sp_accepts(d0, q1, limit2, m0, dep0 + 1, u1, w.1, q2, u2), T2::sp_accepts(d0, q2, limit2, m0, dep0 + 1, u2, w.2, q3, u3), T3::sp_accepts(d0, q3, limit2, m0, dep0 + 1, u3, w.3, q4, u4), T4::sp_accepts(d0, q4, limit2, m0, dep0 + 1, u4, w.4, q5, u5), T5::sp_accepts(d0, q5, limit2, m0, dep0 + 1, u5, w.5, q6, u6), T6::sp_accepts(d0, q6, limit2, m0, dep0 + 1, u6, w.6, q7, u7), T7::sp_accepts(d0, q7, limit2, m0, dep0 + 1, u7, w.7, q8, u8), T8::sp_accepts(d0, q8, limit2, m0, dep0 + 1, u8, w.8, q9, u9), T9::sp_accepts(d0, q9, limit2, m0, dep0 + 1, u9, w.9, q10, u10), T10::sp_accepts(d0, q10, limit2, m0, dep0 + 1, u10, w.10, q11, u11), T11::sp_accepts(d0, q11, limit2, m0, dep0 + 1, u11, w.11, q12, u12)]
                                                            T0::sp_accepts(d0, e0, limit2, m0, dep0 + 1, sth, w.0, q1, u1)
                            && T1::sp_accepts(d0, q1, limit2, m0, dep0 + 1, u1, w.1, q2, u2)
                            && T2::sp_accepts(d0, q2, limit2, m0, dep0 + 1, u2, w.2, q3, u3)
                            && T3::sp_accepts(d0, q3, limit2, m0, dep0 + 1, u3, w.3, q4, u4)
                            && T4::sp_accepts(d0, q4, limit2, m0, dep0 + 1, u4, w.4, q5, u5)
                            && T5::sp_accepts(d0, q5, limit2, m0, dep0 + 1, u5, w.5, q6, u6)
                            && T6::sp_accepts(d0, q6, limit2, m0, dep0 + 1, u6, w.6, q7, u7)
                            && T7::sp_accepts(d0, q7, limit2, m0, dep0 + 1, u7, w.7, q8, u8)
                            && T8::sp_accepts(d0, q8, limit2, m0, dep0 + 1, u8, w.8, q9, u9)
                            && T9::sp_accepts(d0, q9, limit2, m0, dep0 + 1, u9, w.9, q10, u10)
                            && T10::sp_accepts(d0, q10, limit2, m0, dep0 + 1, u10, w.10, q11, u11)
                            && T11::sp_accepts(d0, q11, limit2, m0, dep0 + 1, u11, w.11, q12, u12)
                            && rstep_matches(sp_close(d0, q12, limit2, u12, length, Ok::<Self, ASN1Error>(w)), Ok::<Self, ASN1Error>(w), e2, s2);
                                T0::lemma_outcomes_unique(d0, e0, limit2, m0, dep0 + 1, sth, w.0, wq1, wu1, w.0, wq1, wu1, ferr, bad_pos, bad_st, ferr, bad_pos, bad_st);
                                assert(false);
                            },
                            HeadStep::HeadFail { kind, end: ee, st: sx } => {},
                        }
                    }
                }
                    }
                }
                return rr;
            },
        };
        let ghost g1 = *reader;
        let t1 = match T1::decode_ber(reader) {
            Ok(v) => v,
            Err(e) => {
                let ghost ferr = e;
                let ghost bad_pos = reader.posi();
                let ghost bad_st = reader.tag_statev();
                let inner: ASN1Result<Self> = Err(e);
                let rr = reader.close_frame(frame, inner);
                proof {
                    if Self::sp_refusals_exact(m0) {
                assert forall|w: Self, e2: int, s2: TagState| !Self::sp_accepts(
                    d0, pos0, lim0, m0, dep0, st00, w, e2, s2,
                ) by {
                    if Self::sp_accepts(d0, pos0, lim0, m0, dep0, st00, w, e2, s2) {
                        match sp_header(d0, pos0, lim0, m0, dep0, st00, spec_univ_tag(16), TagType::Explicit) {
                            HeadStep::HeadOk { pc, length, end: e0, limit2, st: sth } => {
                                let (wq1, wu1, wq2, wu2, wq3, wu3, wq4, wu4, wq5, wu5, wq6, wu6, wq7, wu7, wq8, wu8, wq9, wu9, wq10, wu10, wq11, wu11, wq12, wu12) = choose|q1: int, u1: TagState, q2: int, u2: TagState, q3: int, u3: TagState, q4: int, u4: TagState, q5: int, u5: TagState, q6: int, u6: TagState, q7: int, u7: TagState, q8: int, u8: TagState, q9: int, u9: TagState, q10: int, u10: TagState, q11: int, u11: TagState, q12: int, u12: TagState|
                                    #![trigger T0::sp_accepts(d0, e0, limit2, m0, dep0 + 1, sth, w.0, q1, u1), T1::sp_accepts(d0, q1, limit2, m0, dep0 + 1, u1, w.1, q2, u2), T2::sp_accepts(d0, q2, limit2, m0, dep0 + 1, u2, w.2, q3, u3), T3::sp_accepts(d0, q3, limit2, m0, dep0 + 1, u3, w.3, q4, u4), T4::sp_accepts(d0, q4, limit2, m0, dep0 + 1, u4, w.4, q5, u5), T5::sp_accepts(d0, q5, limit2, m0, dep0 + 1, u5, w.5, q6, u6), T6::sp_accepts(d0, q6, limit2, m0, dep0 + 1, u6, w.6, q7, u7), T7::sp_accepts(d0, q7, limit2, m0, dep0 + 1, u7, w.7, q8, u8), T8::sp_accepts(d0, q8, limit2, m0, dep0 + 1, u8, w.8, q9, u9), T9::sp_accepts(d0, q9, limit2, m0, dep0 + 1, u9, w.9, q10, u10), T10::sp_accepts(d0, q10, limit2, m0, dep0 + 1, u10, w.10, q11, u11), T11::sp_accepts(d0, q11, limit2, m0, dep0 + 1, u11, w.11, q12, u12)]
                                                            T0::sp_accepts(d0, e0, limit2, m0, dep0 + 1, sth, w.0, q1, u1)
                            && T1::sp_accepts(d0, q1, limit2, m0, dep0 + 1, u1, w.1, q2, u2)
                            && T2::sp_accepts(d0, q2, limit2, m0, dep0 + 1, u2, w.2, q3, u3)
                            && T3::sp_accepts(d0, q3, limit2, m0, dep0 + 1, u3, w.3, q4, u4)
                            && T4::sp_accepts(d0, q4, limit2, m0, dep0 + 1, u4, w.4, q5, u5)
                            && T5::sp_accepts(d0, q5, limit2, m0, dep0 + 1, u5, w.5, q6, u6)
                            && T6::sp_accepts(d0, q6, limit2, m0, dep0 + 1, u6, w.6, q7, u7)
                            && T7::sp_accepts(d0, q7, limit2, m0, dep0 + 1, u7, w.7, q8, u8)
                            && T8::sp_accepts(d0, q8, limit2, m0, dep0 + 1, u8, w.8, q9, u9)
                            && T9::sp_accepts(d0, q9, limit2, m0, dep0 + 1, u9, w.9, q10, u10)
                            && T10::sp_accepts(d0, q10, limit2, m0, dep0 + 1, u10, w.10, q11, u11)
                            && T11::sp_accepts(d0, q11, limit2, m0, dep0 + 1, u11, w.11, q12, u12)
                            && rstep_matches(sp_close(d0, q12, limit2, u12, length, Ok::<Self, ASN1Error>(w)), Ok::<Self, ASN1Error>(w), e2, s2);
                                T0::lemma_outcomes_unique(d0, e0, limit2, m0, dep0 + 1, sth, w.0, wq1, wu1, t0, g1.posi(), g1.tag_statev(), ASN1Error::Invalid, 0, TagState::Fresh, ASN1Error::Invalid, 0, TagState::Fresh);
                                T1::lemma_outcomes_unique(d0, wq1, limit2, m0, dep0 + 1, wu1, w.1, wq2, wu2, w.1, wq2, wu2, ferr, bad_pos, bad_st, ferr, bad_pos, bad_st);
                                assert(false);
                            },
                            HeadStep::HeadFail { kind, end: ee, st: sx } => {},
                        }
                    }
                }
                    }
                }
                return rr;
            },
        };
        let ghost g2 = *reader;
        let t2 = match T2::decode_ber(reader) {
            Ok(v) => v,
            Err(e) => {
                let ghost ferr = e;
                let ghost bad_pos = reader.posi();
                let ghost bad_st = reader.tag_statev();
                let inner: ASN1Result<Self> = Err(e);
                let rr = reader.close_frame(frame, inner);
                proof {
                    if Self::sp_refusals_exact(m0) {
                assert forall|w: Self, e2: int, s2: TagState| !Self::sp_accepts(
                    d0, pos0, lim0, m0, dep0, st00, w, e2, s2,
                ) by {
                    if Self::sp_accepts(d0, pos0, lim0, m0, dep0, st00, w, e2, s2) {
                        match sp_header(d0, pos0, lim0, m0, dep0, st00, spec_univ_tag(16), TagType::Explicit) {
                            HeadStep::HeadOk { pc, length, end: e0, limit2, st: sth } => {
                                let (wq1, wu1, wq2, wu2, wq3, wu3, wq4, wu4, wq5, wu5, wq6, wu6, wq7, wu7, wq8, wu8, wq9, wu9, wq10, wu10, wq11, wu11, wq12, wu12) = choose|q1: int, u1: TagState, q2: int, u2: TagState, q3: int, u3: TagState, q4: int, u4: TagState, q5: int, u5: TagState, q6: int, u6: TagState, q7: int, u7: TagState, q8: int, u8: TagState, q9: int, u9: TagState, q10: int, u10: TagState, q11: int, u11: TagState, q12: int, u12: TagState|
                                    #![trigger T0::sp_accepts(d0, e0, limit2, m0, dep0 + 1, sth, w.0, q1, u1), T1::sp_accepts(d0, q1, limit2, m0, dep0 + 1, u1, w.1, q2, u2), T2::sp_accepts(d0, q2, limit2, m0, dep0 + 1, u2, w.2, q3, u3), T3::sp_accepts(d0, q3, limit2, m0, dep0 + 1, u3, w.3, q4, u4), T4::sp_accepts(d0, q4, limit2, m0, dep0 + 1, u4, w.4, q5, u5), T5::sp_accepts(d0, q5, limit2, m0, dep0 + 1, u5, w.5, q6, u6), T6::sp_accepts(d0, q6, limit2, m0, dep0 + 1, u6, w.6, q7, u7), T7::sp_accepts(d0, q7, limit2, m0, dep0 + 1, u7, w.7, q8, u8), T8::sp_accepts(d0, q8, limit2, m0, dep0 + 1, u8, w.8, q9, u9), T9::sp_accepts(d0, q9, limit2, m0, dep0 + 1, u9, w.9, q10, u10), T10::sp_accepts(d0, q10, limit2, m0, dep0 + 1, u10, w.10, q11, u11), T11::sp_accepts(d0, q11, limit2, m0, dep0 + 1, u11, w.11, q12, u12)]
                                                            T0::sp_accepts(d0, e0, limit2, m0, dep0 + 1, sth, w.0, q1, u1)
                            && T1::sp_accepts(d0, q1, limit2, m0, dep0 + 1, u1, w.1, q2, u2)
                            && T2::sp_accepts(d0, q2, limit2, m0, dep0 + 1, u2, w.2, q3, u3)
                            && T3::sp_accepts(d0, q3, limit2, m0, dep0 + 1, u3, w.3, q4, u4)
                            && T4::sp_accepts(d0, q4, limit2, m0, dep0 + 1, u4, w.4, q5, u5)
                            && T5::sp_accepts(d0, q5, limit2, m0, dep0 + 1, u5, w.5, q6, u6)
                            && T6::sp_accepts(d0, q6, limit2, m0, dep0 + 1, u6, w.6, q7, u7)
                            && T7::sp_accepts(d0, q7, limit2, m0, dep0 + 1, u7, w.7, q8, u8)
                            && T8::sp_accepts(d0, q8, limit2, m0, dep0 + 1, u8, w.8, q9, u9)
                            && T9::sp_accepts(d0, q9, limit2, m0, dep0 + 1, u9, w.9, q10, u10)
                            && T10::sp_accepts(d0, q10, limit2, m0, dep0 + 1, u10, w.10, q11, u11)
                            && T11::sp_accepts(d0, q11, limit2, m0, dep0 + 1, u11, w.11, q12, u12)
                            && rstep_matches(sp_close(d0, q12, limit2, u12, length, Ok::<Self, ASN1Error>(w)), Ok::<Self, ASN1Error>(w), e2, s2);
                                T0::lemma_outcomes_unique(d0, e0, limit2, m0, dep0 + 1, sth, w.0, wq1, wu1, t0, g1.posi(), g1.tag_statev(), ASN1Error::Invalid, 0, TagState::Fresh, ASN1Error::Invalid, 0, TagState::Fresh);
                                T1::lemma_outcomes_unique(d0, wq1, limit2, m0, dep0 + 1, wu1, w.1, wq2, wu2, t1, g2.posi(), g2.tag_statev(), ASN1Error::Invalid, 0, TagState::Fresh, ASN1Error::Invalid, 0, TagState::Fresh);
                                T2::lemma_outcomes_unique(d0, wq2, limit2, m0, dep0 + 1, wu2, w.2, wq3, wu3, w.2, wq3, wu3, ferr, bad_pos, bad_st, ferr, bad_pos, bad_st);
                                assert(false);
                            },
                            HeadStep::HeadFail { kind, end: ee, st: sx } => {},
                        }
                    }
                }
                    }
                }
                return rr;
            },
        };
        let ghost g3 = *reader;
        let t3 = match T3::decode_ber(reader) {
            Ok(v) => v,
            Err(e) => {
                let ghost ferr = e;
                let ghost bad_pos = reader.posi();
                let ghost bad_st = reader.tag_statev();
                let inner: ASN1Result<Self> = Err(e);
                let rr = reader.close_frame(frame, inner);
                proof {
                    if Self::sp_refusals_exact(m0) {
                assert forall|w: Self, e2: int, s2: TagState| !Self::sp_accepts(
                    d0, pos0, lim0, m0, dep0, st00, w, e2, s2,
                ) by {
                    if Self::sp_accepts(d0, pos0, lim0, m0, dep0, st00, w, e2, s2) {
                        match sp_header(d0, pos0, lim0, m0, dep0, st00, spec_univ_tag(16), TagType::Explicit) {
                            HeadStep::HeadOk { pc, length, end: e0, limit2, st: sth } => {
                                let (wq1, wu1, wq2, wu2, wq3, wu3, wq4, wu4, wq5, wu5, wq6, wu6, wq7, wu7, wq8, wu8, wq9, wu9, wq10, wu10, wq11, wu11, wq12, wu12) = choose|q1: int, u1: TagState, q2: int, u2: TagState, q3: int, u3: TagState, q4: int, u4: TagState, q5: int, u5: TagState, q6: int, u6: TagState, q7: int, u7: TagState, q8: int, u8: TagState, q9: int, u9: TagState, q10: int, u10: TagState, q11: int, u11: TagState, q12: int, u12: TagState|
                                    #![trigger T0::sp_accepts(d0, e0, limit2, m0, dep0 + 1, sth, w.0, q1, u1), T1::sp_accepts(d0, q1, limit2, m0, dep0 + 1, u1, w.1, q2, u2), T2::sp_accepts(d0, q2, limit2, m0, dep0 + 1, u2, w.2, q3, u3), T3::sp_accepts(d0, q3, limit2, m0, dep0 + 1, u3, w.3, q4, u4), T4::sp_accepts(d0, q4, limit2, m0, dep0 + 1, u4, w.4, q5, u5), T5::sp_accepts(d0, q5, limit2, m0, dep0 + 1, u5, w.5, q6, u6), T6::sp_accepts(d0, q6, limit2, m0, dep0 + 1, u6, w.6, q7, u7), T7::sp_accepts(d0, q7, limit2, m0, dep0 + 1, u7, w.7, q8, u8), T8::sp_accepts(d0, q8, limit2, m0, dep0 + 1, u8, w.8, q9, u9), T9::sp_accepts(d0, q9, limit2, m0, dep0 + 1, u9, w.9, q10, u10), T10::sp_accepts(d0, q10, limit2, m0, dep0 + 1, u10, w.10, q11, u11), T11::sp_accepts(d0, q11, limit2, m0, dep0 + 1, u11, w.11, q12, u12)]
                                                            T0::sp_accepts(d0, e0, limit2, m0, dep0 + 1, sth, w.0, q1, u1)
                            && T1::sp_accepts(d0, q1, limit2, m0, dep0 + 1, u1, w.1, q2, u2)
                            && T2::sp_accepts(d0, q2, limit2, m0, dep0 + 1, u2, w.2, q3, u3)
                            && T3::sp_accepts(d0, q3, limit2, m0, dep0 + 1, u3, w.3, q4, u4)
                            && T4::sp_accepts(d0, q4, limit2, m0, dep0 + 1, u4, w.4, q5, u5)
                            && T5::sp_accepts(d0, q5, limit2, m0, dep0 + 1, u5, w.5, q6, u6)
                            && T6::sp_accepts(d0, q6, limit2, m0, dep0 + 1, u6, w.6, q7, u7)
                            && T7::sp_accepts(d0, q7, limit2, m0, dep0 + 1, u7, w.7, q8, u8)
                            && T8::sp_accepts(d0, q8, limit2, m0, dep0 + 1, u8, w.8, q9, u9)
                            && T9::sp_accepts(d0, q9, limit2, m0, dep0 + 1, u9, w.9, q10, u10)
                            && T10::sp_accepts(d0, q10, limit2, m0, dep0 + 1, u10, w.10, q11, u11)
                            && T11::sp_accepts(d0, q11, limit2, m0, dep0 + 1, u11, w.11, q12, u12)
                            && rstep_matches(sp_close(d0, q12, limit2, u12, length, Ok::<Self, ASN1Error>(w)), Ok::<Self, ASN1Error>(w), e2, s2);
                                T0::lemma_outcomes_unique(d0, e0, limit2, m0, dep0 + 1, sth, w.0, wq1, wu1, t0, g1.posi(), g1.tag_statev(), ASN1Error::Invalid, 0, TagState::Fresh, ASN1Error::Invalid, 0, TagState::Fresh);
                                T1::lemma_outcomes_unique(d0, wq1, limit2, m0, dep0 + 1, wu1, w.1, wq2, wu2, t1, g2.posi(), g2.tag_statev(), ASN1Error::Invalid, 0, TagState::Fresh, ASN1Error::Invalid, 0, TagState::Fresh);
                                T2::lemma_outcomes_unique(d0, wq2, limit2, m0, dep0 + 1, wu2, w.2, wq3, wu3, t2, g3.posi(), g3.tag_statev(), ASN1Error::Invalid, 0, TagState::Fresh, ASN1Error::Invalid, 0, TagState::Fresh);
                                T3::lemma_outcomes_unique(d0, wq3, limit2, m0, dep0 + 1, wu3, w.3, wq4, wu4, w.3, wq4, wu4, ferr, bad_pos, bad_st, ferr, bad_pos, bad_st);
                                assert(false);
                            },
                            HeadStep::HeadFail { kind, end: ee, st: sx } => {},
                        }
                    }
                }
                    }
                }
                return rr;
            },
        };
        let ghost g4 = *reader;
        let t4 = match T4::decode_ber(reader) {
            Ok(v) => v,
            Err(e) => {
                let ghost ferr = e;
                let ghost bad_pos = reader.posi();
                let ghost bad_st = reader.tag_statev();
                let inner: ASN1Result<Self> = Err(e);
                let rr = reader.close_frame(frame, inner);
                proof {
                    if Self::sp_refusals_exact(m0) {
                assert forall|w: Self, e2: int, s2: TagState| !Self::sp_accepts(
                    d0, pos0, lim0, m0, dep0, st00, w, e2, s2,
                ) by {
                    if Self::sp_accepts(d0, pos0, lim0, m0, dep0, st00, w, e2, s2) {
                        match sp_header(d0, pos0, lim0, m0, dep0, st00, spec_univ_tag(16), TagType::Explicit) {
                            HeadStep::HeadOk { pc, length, end: e0, limit2, st: sth } => {
                                let (wq1, wu1, wq2, wu2, wq3, wu3, wq4, wu4, wq5, wu5, wq6, wu6, wq7, wu7, wq8, wu8, wq9, wu9, wq10, wu10, wq11, wu11, wq12, wu12) = choose|q1: int, u1: TagState, q2: int, u2: TagState, q3: int, u3: TagState, q4: int, u4: TagState, q5: int, u5: TagState, q6: int, u6: TagState, q7: int, u7: TagState, q8: int, u8: TagState, q9: int, u9: TagState, q10: int, u10: TagState, q11: int, u11: TagState, q12: int, u12: TagState|
                                    #![trigger T0::sp_accepts(d0, e0, limit2, m0, dep0 + 1, sth, w.0, q1, u1), T1::sp_accepts(d0, q1, limit2, m0, dep0 + 1, u1, w.1, q2, u2), T2::sp_accepts(d0, q2, limit2, m0, dep0 + 1, u2, w.2, q3, u3), T3::sp_accepts(d0, q3, limit2, m0, dep0 + 1, u3, w.3, q4, u4), T4::sp_accepts(d0, q4, limit2, m0, dep0 + 1, u4, w.4, q5, u5), T5::sp_accepts(d0, q5, limit2, m0, dep0 + 1, u5, w.5, q6, u6), T6::sp_accepts(d0, q6, limit2, m0, dep0 + 1, u6, w.6, q7, u7), T7::sp_accepts(d0, q7, limit2, m0, dep0 + 1, u7, w.7, q8, u8), T8::sp_accepts(d0, q8, limit2, m0, dep0 + 1, u8, w.8, q9, u9), T9::sp_accepts(d0, q9, limit2, m0, dep0 + 1, u9, w.9, q10, u10), T10::sp_accepts(d0, q10, limit2, m0, dep0 + 1, u10, w.10, q11, u11), T11::sp_accepts(d0, q11, limit2, m0, dep0 + 1, u11, w.11, q12, u12)]
                                                            T0::sp_accepts(d0, e0, limit2, m0, dep0 + 1, sth, w.0, q1, u1)
                            && T1::sp_accepts(d0, q1, limit2, m0, dep0 + 1, u1, w.1, q2, u2)
                            && T2::sp_accepts(d0, q2, limit2, m0, dep0 + 1, u2, w.2, q3, u3)
                            && T3::sp_accepts(d0, q3, limit2, m0, dep0 + 1, u3, w.3, q4, u4)
                            && T4::sp_accepts(d0, q4, limit2, m0, dep0 + 1, u4, w.4, q5, u5)
                            && T5::sp_accepts(d0, q5, limit2, m0, dep0 + 1, u5, w.5, q6, u6)
                            && T6::sp_accepts(d0, q6, limit2, m0, dep0 + 1, u6, w.6, q7, u7)
                            && T7::sp_accepts(d0, q7, limit2, m0, dep0 + 1, u7, w.7, q8, u8)
                            && T8::sp_accepts(d0, q8, limit2, m0, dep0 + 1, u8, w.8, q9, u9)
                            && T9::sp_accepts(d0, q9, limit2, m0, dep0 + 1, u9, w.9, q10, u10)
                            && T10::sp_accepts(d0, q10, limit2, m0, dep0 + 1, u10, w.10, q11, u11)
                            && T11::sp_accepts(d0, q11, limit2, m0, dep0 + 1, u11, w.11, q12, u12)
                            && rstep_matches(sp_close(d0, q12, limit2, u12, length, Ok::<Self, ASN1Error>(w)), Ok::<Self, ASN1Error>(w), e2, s2);
                                T0::lemma_outcomes_unique(d0, e0, limit2, m0, dep0 + 1, sth, w.0, wq1, wu1, t0, g1.posi(), g1.tag_statev(), ASN1Error::Invalid, 0, TagState::Fresh, ASN1Error::Invalid, 0, TagState::Fresh);
                                T1::lemma_outcomes_unique(d0, wq1, limit2, m0, dep0 + 1, wu1, w.1, wq2, wu2, t1, g2.posi(), g2.tag_statev(), ASN1Error::Invalid, 0, TagState::Fresh, ASN1Error::Invalid, 0, TagState::Fresh);
                                T2::lemma_outcomes_unique(d0, wq2, limit2, m0, dep0 + 1, wu2, w.2, wq3, wu3, t2, g3.posi(), g3.tag_statev(), ASN1Error::Invalid, 0, TagState::Fresh, ASN1Error::Invalid, 0, TagState::Fresh);
                                T3::lemma_outcomes_unique(d0, wq3, limit2, m0, dep0 + 1, wu3, w.3, wq4, wu4, t3, g4.posi(), g4.tag_statev(), ASN1Error::Invalid, 0, TagState::Fresh, ASN1Error::Invalid, 0, TagState::Fresh);
                                T4::lemma_outcomes_unique(d0, wq4, limit2, m0, dep0 + 1, wu4, w.4, wq5, wu5, w.4, wq5, wu5, ferr, bad_pos, bad_st, ferr, bad_pos, bad_st);
                                assert(false);
                            },
                            HeadStep::HeadFail { kind, end: ee, st: sx } => {},
                        }
                    }
                }
                    }
                }
                return rr;
            },
        };
        let ghost g5 = *reader;
        let t5 = match T5::decode_ber(reader) {
            Ok(v) => v,
            Err(e) => {
                let ghost ferr = e;
                let ghost bad_pos = reader.posi();
                let ghost bad_st = reader.tag_statev();
                let inner: ASN1Result<Self> = Err(e);
                let rr = reader.close_frame(frame, inner);
                proof {
                    if Self::sp_refusals_exact(m0) {
                assert forall|w: Self, e2: int, s2: TagState| !Self::sp_accepts(
                    d0, pos0, lim0, m0, dep0, st00, w, e2, s2,
                ) by {
                    if Self::sp_accepts(d0, pos0, lim0, m0, dep0, st00, w, e2, s2) {
                        match sp_header(d0, pos0, lim0, m0, dep0, st00, spec_univ_tag(16), TagType::Explicit) {
                            HeadStep::HeadOk { pc, length, end: e0, limit2, st: sth } => {
                                let (wq1, wu1, wq2, wu2, wq3, wu3, wq4, wu4, wq5, wu5, wq6, wu6, wq7, wu7, wq8, wu8, wq9, wu9, wq10, wu10, wq11, wu11, wq12, wu12) = choose|q1: int, u1: TagState, q2: int, u2: TagState, q3: int, u3: TagState, q4: int, u4: TagState, q5: int, u5: TagState, q6: int, u6: TagState, q7: int, u7: TagState, q8: int, u8: TagState, q9: int, u9: TagState, q10: int, u10: TagState, q11: int, u11: TagState, q12: int, u12: TagState|
                                    #![trigger T0::sp_accepts(d0, e0, limit2, m0, dep0 + 1, sth, w.0, q1, u1), T1::sp_accepts(d0, q1, limit2, m0, dep0 + 1, u1, w.1, q2, u2), T2::sp_accepts(d0, q2, limit2, m0, dep0 + 1, u2, w.2, q3, u3), T3::sp_accepts(d0, q3, limit2, m0, dep0 + 1, u3, w.3, q4, u4), T4::sp_accepts(d0, q4, limit2, m0, dep0 + 1, u4, w.4, q5, u5), T5::sp_accepts(d0, q5, limit2, m0, dep0 + 1, u5, w.5, q6, u6), T6::sp_accepts(d0, q6, limit2, m0, dep0 + 1, u6, w.6, q7, u7), T7::sp_accepts(d0, q7, limit2, m0, dep0 + 1, u7, w.7, q8, u8), T8::sp_accepts(d0, q8, limit2, m0, dep0 + 1, u8, w.8, q9, u9), T9::sp_accepts(d0, q9, limit2, m0, dep0 + 1, u9, w.9, q10, u10), T10::sp_accepts(d0, q10, limit2, m0, dep0 + 1, u10, w.10, q11, u11), T11::sp_accepts(d0, q11, limit2, m0, dep0 + 1, u11, w.11, q12, u12)]
                                                            T0::sp_accepts(d0, e0, limit2, m0, dep0 + 1, sth, w.0, q1, u1)
                            && T1::sp_accepts(d0, q1, limit2, m0, dep0 + 1, u1, w.1, q2, u2)
                            && T2::sp_accepts(d0, q2, limit2, m0, dep0 + 1, u2, w.2, q3, u3)
                            && T3::sp_accepts(d0, q3, limit2, m0, dep0 + 1, u3, w.3, q4, u4)
                            && T4::sp_accepts(d0, q4, limit2, m0, dep0 + 1, u4, w.4, q5, u5)
                            && T5::sp_accepts(d0, q5, limit2, m0, dep0 + 1, u5, w.5, q6, u6)
                            && T6::sp_accepts(d0, q6, limit2, m0, dep0 + 1, u6, w.6, q7, u7)
                            && T7::sp_accepts(d0, q7, limit2, m0, dep0 + 1, u7, w.7, q8, u8)
                            && T8::sp_accepts(d0, q8, limit2, m0, dep0 + 1, u8, w.8, q9, u9)
                            && T9::sp_accepts(d0, q9, limit2, m0, dep0 + 1, u9, w.9, q10, u10)
                            && T10::sp_accepts(d0, q10, limit2, m0, dep0 + 1, u10, w.10, q11, u11)
                            && T11::sp_accepts(d0, q11, limit2, m0, dep0 + 1, u11, w.11, q12, u12)
                            && rstep_matches(sp_close(d0, q12, limit2, u12, length, Ok::<Self, ASN1Error>(w)), Ok::<Self, ASN1Error>(w), e2, s2);
                                T0::lemma_outcomes_unique(d0, e0, limit2, m0, dep0 + 1, sth, w.0, wq1, wu1, t0, g1.posi(), g1.tag_statev(), ASN1Error::Invalid, 0, TagState::Fresh, ASN1Error::Invalid, 0, TagState::Fresh);
                                T1::lemma_outcomes_unique(d0, wq1, limit2, m0, dep0 + 1, wu1, w.1, wq2, wu2, t1, g2.posi(), g2.tag_statev(), ASN1Error::Invalid, 0, TagState::Fresh, ASN1Error::Invalid, 0, TagState::Fresh);
                                T2::lemma_outcomes_unique(d0, wq2, limit2, m0, dep0 + 1, wu2, w.2, wq3, wu3, t2, g3.posi(), g3.tag_statev(), ASN1Error::Invalid, 0, TagState::Fresh, ASN1Error::Invalid, 0, TagState::Fresh);
                                T3::lemma_outcomes_unique(d0, wq3, limit2, m0, dep0 + 1, wu3, w.3, wq4, wu4, t3, g4.posi(), g4.tag_statev(), ASN1Error::Invalid, 0, TagState::Fresh, ASN1Error::Invalid, 0, TagState::Fresh);
                                T4::lemma_outcomes_unique(d0, wq4, limit2, m0, dep0 + 1, wu4, w.4, wq5, wu5, t4, g5.posi(), g5.tag_statev(), ASN1Error::Invalid, 0, TagState::Fresh, ASN1Error::Invalid, 0, TagState::Fresh);
                                T5::lemma_outcomes_unique(d0, wq5, limit2, m0, dep0 + 1, wu5, w.5, wq6, wu6, w.5, wq6, wu6, ferr, bad_pos, bad_st, ferr, bad_pos, bad_st);
                                assert(false);
                            },
                            HeadStep::HeadFail { kind, end: ee, st: sx } => {},
                        }
                    }
                }
                    }
                }
                return rr;
            },
        };
        let ghost g6 = *reader;
        let t6 = match T6::decode_ber(reader) {
            Ok(v) => v,
            Err(e) => {
                let ghost ferr = e;
                let ghost bad_pos = reader.posi();
                let ghost bad_st = reader.tag_statev();
                let inner: ASN1Result<Self> = Err(e);
                let rr = reader.close_frame(frame, inner);
                proof {
                    if Self::sp_refusals_exact(m0) {
                assert forall|w: Self, e2: int, s2: TagState| !Self::sp_accepts(
                    d0, pos0, lim0, m0, dep0, st00, w, e2, s2,
                ) by {
                    if Self::sp_accepts(d0, pos0, lim0, m0, dep0, st00, w, e2, s2) {
                        match sp_header(d0, pos0, lim0, m0, dep0, st00, spec_univ_tag(16), TagType::Explicit) {
                            HeadStep::HeadOk { pc, length, end: e0, limit2, st: sth } => {
                                let (wq1, wu1, wq2, wu2, wq3, wu3, wq4, wu4, wq5, wu5, wq6, wu6, wq7, wu7, wq8, wu8, wq9, wu9, wq10, wu10, wq11, wu11, wq12, wu12) = choose|q1: int, u1: TagState, q2: int, u2: TagState, q3: int, u3: TagState, q4: int, u4: TagState, q5: int, u5: TagState, q6: int, u6: TagState, q7: int, u7: TagState, q8: int, u8: TagState, q9: int, u9: TagState, q10: int, u10: TagState, q11: int, u11: TagState, q12: int, u12: TagState|
                                    #![trigger T0::sp_accepts(d0, e0, limit2, m0, dep0 + 1, sth, w.0, q1, u1), T1::sp_accepts(d0, q1, limit2, m0, dep0 + 1, u1, w.1, q2, u2), T2::sp_accepts(d0, q2, limit2, m0, dep0 + 1, u2, w.2, q3, u3), T3::sp_accepts(d0, q3, limit2, m0, dep0 + 1, u3, w.3, q4, u4), T4::sp_accepts(d0, q4, limit2, m0, dep0 + 1, u4, w.4, q5, u5), T5::sp_accepts(d0, q5, limit2, m0, dep0 + 1, u5, w.5, q6, u6), T6::sp_accepts(d0, q6, limit2, m0, dep0 + 1, u6, w.6, q7, u7), T7::sp_accepts(d0, q7, limit2, m0, dep0 + 1, u7, w.7, q8, u8), T8::sp_accepts(d0, q8, limit2, m0, dep0 + 1, u8, w.8, q9, u9), T9::sp_accepts(d0, q9, limit2, m0, dep0 + 1, u9, w.9, q10, u10), T10::sp_accepts(d0, q10, limit2, m0, dep0 + 1, u10, w.10, q11, u11), T11::sp_accepts(d0, q11, limit2, m0, dep0 + 1, u11, w.11, q12, u12)]
                                                            T0::sp_accepts(d0, e0, limit2, m0, dep0 + 1, sth, w.0, q1, u1)
                            && T1::sp_accepts(d0, q1, limit2, m0, dep0 + 1, u1, w.1, q2, u2)
                            && T2::sp_accepts(d0, q2, limit2, m0, dep0 + 1, u2, w.2, q3, u3)
                            && T3::sp_accepts(d0, q3, limit2, m0, dep0 + 1, u3, w.3, q4, u4)
                            && T4::sp_accepts(d0, q4, limit2, m0, dep0 + 1, u4, w.4, q5, u5)
                            && T5::sp_accepts(d0, q5, limit2, m0, dep0 + 1, u5, w.5, q6, u6)
                            && T6::sp_accepts(d0, q6, limit2, m0, dep0 + 1, u6, w.6, q7, u7)
                            && T7::sp_accepts(d0, q7, limit2, m0, dep0 + 1, u7, w.7, q8, u8)
                            && T8::sp_accepts(d0, q8, limit2, m0, dep0 + 1, u8, w.8, q9, u9)
                            && T9::sp_accepts(d0, q9, limit2, m0, dep0 + 1, u9, w.9, q10, u10)
                            && T10::sp_accepts(d0, q10, limit2, m0, dep0 + 1, u10, w.10, q11, u11)
                            && T11::sp_accepts(d0, q11, limit2, m0, dep0 + 1, u11, w.11, q12, u12)
                            && rstep_matches(sp_close(d0, q12, limit2, u12, length, Ok::<Self, ASN1Error>(w)), Ok::<Self, ASN1Error>(w), e2, s2);
                                T0::lemma_outcomes_unique(d0, e0, limit2, m0, dep0 + 1, sth, w.0, wq1, wu1, t0, g1.posi(), g1.tag_statev(), ASN1Error::Invalid, 0, TagState::Fresh, ASN1Error::Invalid, 0, TagState::Fresh);
                                T1::lemma_outcomes_unique(d0, wq1, limit2, m0, dep0 + 1, wu1, w.1, wq2, wu2, t1, g2.posi(), g2.tag_statev(), ASN1Error::Invalid, 0, TagState::Fresh, ASN1Error::Invalid, 0, TagState::Fresh);
                                T2::lemma_outcomes_unique(d0, wq2, limit2, m0, dep0 + 1, wu2, w.2, wq3, wu3, t2, g3.posi(), g3.tag_statev(), ASN1Error::Invalid, 0, TagState::Fresh, ASN1Error::Invalid, 0, TagState::Fresh);
                                T3::lemma_outcomes_unique(d0, wq3, limit2, m0, dep0 + 1, wu3, w.3, wq4, wu4, t3, g4.posi(), g4.tag_statev(), ASN1Error::Invalid, 0, TagState::Fresh, ASN1Error::Invalid, 0, TagState::Fresh);
                                T4::lemma_outcomes_unique(d0, wq4, limit2, m0, dep0 + 1, wu4, w.4, wq5, wu5, t4, g5.posi(), g5.tag_statev(), ASN1Error::Invalid, 0, TagState::Fresh, ASN1Error::Invalid, 0, TagState::Fresh);
                                T5::lemma_outcomes_unique(d0, wq5, limit2, m0, dep0 + 1, wu5, w.5, wq6, wu6, t5, g6.posi(), g6.tag_statev(), ASN1Error::Invalid, 0, TagState::Fresh, ASN1Error::Invalid, 0, TagState::Fresh);
                                T6::lemma_outcomes_unique(d0, wq6, limit2, m0, dep0 + 1, wu6, w.6, wq7, wu7, w.6, wq7, wu7, ferr, bad_pos, bad_st, ferr, bad_pos, bad_st);
                                assert(false);
                            },
                            HeadStep::HeadFail { kind, end: ee, st: sx } => {},
                        }
                    }
                }
                    }
                }
                return rr;
            },
        };
        let ghost g7 = *reader;
        let t7 = match T7::decode_ber(reader) {
            Ok(v) => v,
            Err(e) => {
                let ghost ferr = e;
                let ghost bad_pos = reader.posi();
                let ghost bad_st = reader.tag_statev();
                let inner: ASN1Result<Self> = Err(e);
                let rr = reader.close_frame(frame, inner);
                proof {
                    if Self::sp_refusals_exact(m0) {
                assert forall|w: Self, e2: int, s2: TagState| !Self::sp_accepts(
                    d0, pos0, lim0, m0, dep0, st00, w, e2, s2,
                ) by {
                    if Self::sp_accepts(d0, pos0, lim0, m0, dep0, st00, w, e2, s2) {
                        match sp_header(d0, pos0, lim0, m0, dep0, st00, spec_univ_tag(16), TagType::Explicit) {
                            HeadStep::HeadOk { pc, length, end: e0, limit2, st: sth } => {
                                let (wq1, wu1, wq2, wu2, wq3, wu3, wq4, wu4, wq5, wu5, wq6, wu6, wq7, wu7, wq8, wu8, wq9, wu9, wq10, wu10, wq11, wu11, wq12, wu12) = choose|q1: int, u1: TagState, q2: int, u2: TagState, q3: int, u3: TagState, q4: int, u4: TagState, q5: int, u5: TagState, q6: int, u6: TagState, q7: int, u7: TagState, q8: int, u8: TagState, q9: int, u9: TagState, q10: int, u10: TagState, q11: int, u11: TagState, q12: int, u12: TagState|
                                    #![trigger T0::sp_accepts(d0, e0, limit2, m0, dep0 + 1, sth, w.0, q1, u1), T1::sp_accepts(d0, q1, limit2, m0, dep0 + 1, u1, w.1, q2, u2), T2::sp_accepts(d0, q2, limit2, m0, dep0 + 1, u2, w.2, q3, u3), T3::sp_accepts(d0, q3, limit2, m0, dep0 + 1, u3, w.3, q4, u4), T4::sp_accepts(d0, q4, limit2, m0, dep0 + 1, u4, w.4, q5, u5), T5::sp_accepts(d0, q5, limit2, m0, dep0 + 1, u5, w.5, q6, u6), T6::sp_accepts(d0, q6, limit2, m0, dep0 + 1, u6, w.6, q7, u7), T7::sp_accepts(d0, q7, limit2, m0, dep0 + 1, u7, w.7, q8, u8), T8::sp_accepts(d0, q8, limit2, m0, dep0 + 1, u8, w.8, q9, u9), T9::sp_accepts(d0, q9, limit2, m0, dep0 + 1, u9, w.9, q10, u10), T10::sp_accepts(d0, q10, limit2, m0, dep0 + 1, u10, w.10, q11, u11), T11::sp_accepts(d0, q11, limit2, m0, dep0 + 1, u11, w.11, q12, u12)]
                                                            T0::sp_accepts(d0, e0, limit2, m0, dep0 + 1, sth, w.0, q1, u1)
                            && T1::sp_accepts(d0, q1, limit2, m0, dep0 + 1, u1, w.1, q2, u2)
                            && T2::sp_accepts(d0, q2, limit2, m0, dep0 + 1, u2, w.2, q3, u3)
                            && T3::sp_accepts(d0, q3, limit2, m0, dep0 + 1, u3, w.3, q4, u4)
                            && T4::sp_accepts(d0, q4, limit2, m0, dep0 + 1, u4, w.4, q5, u5)
                            && T5::sp_accepts(d0, q5, limit2, m0, dep0 + 1, u5, w.5, q6, u6)
                            && T6::sp_accepts(d0, q6, limit2, m0, dep0 + 1, u6, w.6, q7, u7)
                            && T7::sp_accepts(d0, q7, limit2, m0, dep0 + 1, u7, w.7, q8, u8)
                            && T8::sp_accepts(d0, q8, limit2, m0, dep0 + 1, u8, w.8, q9, u9)
                            && T9::sp_accepts(d0, q9, limit2, m0, dep0 + 1, u9, w.9, q10, u10)
                            && T10::sp_accepts(d0, q10, limit2, m0, dep0 + 1, u10, w.10, q11, u11)
                            && T11::sp_accepts(d0, q11, limit2, m0, dep0 + 1, u11, w.11, q12, u12)
                            && rstep_matches(sp_close(d0, q12, limit2, u12, length, Ok::<Self, ASN1Error>(w)), Ok::<Self, ASN1Error>(w), e2, s2);
                                T0::lemma_outcomes_unique(d0, e0, limit2, m0, dep0 + 1, sth, w.0, wq1, wu1, t0, g1.posi(), g1.tag_statev(), ASN1Error::Invalid, 0, TagState::Fresh, ASN1Error::Invalid, 0, TagState::Fresh);
                                T1::lemma_outcomes_unique(d0, wq1, limit2, m0, dep0 + 1, wu1, w.1, wq2, wu2, t1, g2.posi(), g2.tag_statev(), ASN1Error::Invalid, 0, TagState::Fresh, ASN1Error::Invalid, 0, TagState::Fresh);
                                T2::lemma_outcomes_unique(d0, wq2, limit2, m0, dep0 + 1, wu2, w.2, wq3, wu3, t2, g3.posi(), g3.tag_statev(), ASN1Error::Invalid, 0, TagState::Fresh, ASN1Error::Invalid, 0, TagState::Fresh);
                                T3::lemma_outcomes_unique(d0, wq3, limit2, m0, dep0 + 1, wu3, w.3, wq4, wu4, t3, g4.posi(), g4.tag_statev(), ASN1Error::Invalid, 0, TagState::Fresh, ASN1Error::Invalid, 0, TagState::Fresh);
                                T4::lemma_outcomes_unique(d0, wq4, limit2, m0, dep0 + 1, wu4, w.4, wq5, wu5, t4, g5.posi(), g5.tag_statev(), ASN1Error::Invalid, 0, TagState::Fresh, ASN1Error::Invalid, 0, TagState::Fresh);
                                T5::lemma_outcomes_unique(d0, wq5, limit2, m0, dep0 + 1, wu5, w.5, wq6, wu6, t5, g6.posi(), g6.tag_statev(), ASN1Error::Invalid, 0, TagState::Fresh, ASN1Error::Invalid, 0, TagState::Fresh);
                                T6::lemma_outcomes_unique(d0, wq6, limit2, m0, dep0 + 1, wu6, w.6, wq7, wu7, t6, g7.posi(), g7.tag_statev(), ASN1Error::Invalid, 0, TagState::Fresh, ASN1Error::Invalid, 0, TagState::Fresh);
                                T7::lemma_outcomes_unique(d0, wq7, limit2, m0, dep0 + 1, wu7, w.7, wq8, wu8, w.7, wq8, wu8, ferr, bad_pos, bad_st, ferr, bad_pos, bad_st);
                                assert(false);
                            },
                            HeadStep::HeadFail { kind, end: ee, st: sx } => {},
                        }
                    }
                }
                    }
                }
                return rr;
            },
        };
        let ghost g8 = *reader;
        let t8 = match T8::decode_ber(reader) {
            Ok(v) => v,
            Err(e) => {
                let ghost ferr = e;
                let ghost bad_pos = reader.posi();
                let ghost bad_st = reader.tag_statev();
                let inner: ASN1Result<Self> = Err(e);
                let rr = reader.close_frame(frame, inner);
                proof {
                    if Self::sp_refusals_exact(m0) {
                assert forall|w: Self, e2: int, s2: TagState| !Self::sp_accepts(
                    d0, pos0, lim0, m0, dep0, st00, w, e2, s2,
                ) by {
                    if Self::sp_accepts(d0, pos0, lim0, m0, dep0, st00, w, e2, s2) {
                        match sp_header(d0, pos0, lim0, m0, dep0, st00, spec_univ_tag(16), TagType::Explicit) {
                            HeadStep::HeadOk { pc, length, end: e0, limit2, st: sth } => {
                                let (wq1, wu1, wq2, wu2, wq3, wu3, wq4, wu4, wq5, wu5, wq6, wu6, wq7, wu7, wq8, wu8, wq9, wu9, wq10, wu10, wq11, wu11, wq12, wu12) = choose|q1: int, u1: TagState, q2: int, u2: TagState, q3: int, u3: TagState, q4: int, u4: TagState, q5: int, u5: TagState, q6: int, u6: TagState, q7: int, u7: TagState, q8: int, u8: TagState, q9: int, u9: TagState, q10: int, u10: TagState, q11: int, u11: TagState, q12: int, u12: TagState|
                                    #![trigger T0::sp_accepts(d0, e0, limit2, m0, dep0 + 1, sth, w.0, q1, u1), T1::sp_accepts(d0, q1, limit2, m0, dep0 + 1, u1, w.1, q2, u2), T2::sp_accepts(d0, q2, limit2, m0, dep0 + 1, u2, w.2, q3, u3), T3::sp_accepts(d0, q3, limit2, m0, dep0 + 1, u3, w.3, q4, u4), T4::sp_accepts(d0, q4, limit2, m0, dep0 + 1, u4, w.4, q5, u5), T5::sp_accepts(d0, q5, limit2, m0, dep0 + 1, u5, w.5, q6, u6), T6::sp_accepts(d0, q6, limit2, m0, dep0 + 1, u6, w.6, q7, u7), T7::sp_accepts(d0, q7, limit2, m0, dep0 + 1, u7, w.7, q8, u8), T8::sp_accepts(d0, q8, limit2, m0, dep0 + 1, u8, w.8, q9, u9), T9::sp_accepts(d0, q9, limit2, m0, dep0 + 1, u9, w.9, q10, u10), T10::sp_accepts(d0, q10, limit2, m0, dep0 + 1, u10, w.10, q11, u11), T11::sp_accepts(d0, q11, limit2, m0, dep0 + 1, u11, w.11, q12, u12)]
                                                            T0::sp_accepts(d0, e0, limit2, m0, dep0 + 1, sth, w.0, q1, u1)
                            && T1::sp_accepts(d0, q1, limit2, m0, dep0 + 1, u1, w.1, q2, u2)
                            && T2::sp_accepts(d0, q2, limit2, m0, dep0 + 1, u2, w.2, q3, u3)
                            && T3::sp_accepts(d0, q3, limit2, m0, dep0 + 1, u3, w.3, q4, u4)
                            && T4::sp_accepts(d0, q4, limit2, m0, dep0 + 1, u4, w.4, q5, u5)
                            && T5::sp_accepts(d0, q5, limit2, m0, dep0 + 1, u5, w.5, q6, u6)
                            && T6::sp_accepts(d0, q6, limit2, m0, dep0 + 1, u6, w.6, q7, u7)
                            && T7::sp_accepts(d0, q7, limit2, m0, dep0 + 1, u7, w.7, q8, u8)
                            && T8::sp_accepts(d0, q8, limit2, m0, dep0 + 1, u8, w.8, q9, u9)
                            && T9::sp_accepts(d0, q9, limit2, m0, dep0 + 1, u9, w.9, q10, u10)
                            && T10::sp_accepts(d0, q10, limit2, m0, dep0 + 1, u10, w.10, q11, u11)
                            && T11::sp_accepts(d0, q11, limit2, m0, dep0 + 1, u11, w.11, q12, u12)
                            && rstep_matches(sp_close(d0, q12, limit2, u12, length, Ok::<Self, ASN1Error>(w)), Ok::<Self, ASN1Error>(w), e2, s2);
                                T0::lemma_outcomes_unique(d0, e0, limit2, m0, dep0 + 1, sth, w.0, wq1, wu1, t0, g1.posi(), g1.tag_statev(), ASN1Error::Invalid, 0, TagState::Fresh, ASN1Error::Invalid, 0, TagState::Fresh);
                                T1::lemma_outcomes_unique(d0, wq1, limit2, m0, dep0 + 1, wu1, w.1, wq2, wu2, t1, g2.posi(), g2.tag_statev(), ASN1Error::Invalid, 0, TagState::Fresh, ASN1Error::Invalid, 0, TagState::Fresh);
                                T2::lemma_outcomes_unique(d0, wq2, limit2, m0, dep0 + 1, wu2, w.2, wq3, wu3, t2, g3.posi(), g3.tag_statev(), ASN1Error::Invalid, 0, TagState::Fresh, ASN1Error::Invalid, 0, TagState::Fresh);
                                T3::lemma_outcomes_unique(d0, wq3, limit2, m0, dep0 + 1, wu3, w.3, wq4, wu4, t3, g4.posi(), g4.tag_statev(), ASN1Error::Invalid, 0, TagState::Fresh, ASN1Error::Invalid, 0, TagState::Fresh);
                                T4::lemma_outcomes_unique(d0, wq4, limit2, m0, dep0 + 1, wu4, w.4, wq5, wu5, t4, g5.posi(), g5.tag_statev(), ASN1Error::Invalid, 0, TagState::Fresh, ASN1Error::Invalid, 0, TagState::Fresh);
                                T5::lemma_outcomes_unique(d0, wq5, limit2, m0, dep0 + 1, wu5, w.5, wq6, wu6, t5, g6.posi(), g6.tag_statev(), ASN1Error::Invalid, 0, TagState::Fresh, ASN1Error::Invalid, 0, TagState::Fresh);
                                T6::lemma_outcomes_unique(d0, wq6, limit2, m0, dep0 + 1, wu6, w.6, wq7, wu7, t6, g7.posi(), g7.tag_statev(), ASN1Error::Invalid, 0, TagState::Fresh, ASN1Error::Invalid, 0, TagState::Fresh);
                                T7::lemma_outcomes_unique(d0, wq7, limit2, m0, dep0 + 1, wu7, w.7, wq8, wu8, t7, g8.posi(), g8.tag_statev(), ASN1Error::Invalid, 0, TagState::Fresh, ASN1Error::Invalid, 0, TagState::Fresh);
                                T8::lemma_outcomes_unique(d0, wq8, limit2, m0, dep0 + 1, wu8, w.8, wq9, wu9, w.8, wq9, wu9, ferr, bad_pos, bad_st, ferr, bad_pos, bad_st);
                                assert(false);
                            },
                            HeadStep::HeadFail { kind, end: ee, st: sx } => {},
                        }
                    }
                }
                    }
                }
                return rr;
            },
        };
        let ghost g9 = *reader;
        let t9 = match T9::decode_ber(reader) {
            Ok(v) => v,
            Err(e) => {
                let ghost ferr = e;
                let ghost bad_pos = reader.posi();
                let ghost bad_st = reader.tag_statev();
                let inner: ASN1Result<Self> = Err(e);
                let rr = reader.close_frame(frame, inner);
                proof {
                    if Self::sp_refusals_exact(m0) {
                assert forall|w: Self, e2: int, s2: TagState| !Self::sp_accepts(
                    d0, pos0, lim0, m0, dep0, st00, w, e2, s2,
                ) by {
                    if Self::sp_accepts(d0, pos0, lim0, m0, dep0, st00, w, e2, s2) {
                        match sp_header(d0, pos0, lim0, m0, dep0, st00, spec_univ_tag(16), TagType::Explicit) {
                            HeadStep::HeadOk { pc, length, end: e0, limit2, st: sth } => {
                                let (wq1, wu1, wq2, wu2, wq3, wu3, wq4, wu4, wq5, wu5, wq6, wu6, wq7, wu7, wq8, wu8, wq9, wu9, wq10, wu10, wq11, wu11, wq12, wu12) = choose|q1: int, u1: TagState, q2: int, u2: TagState, q3: int, u3: TagState, q4: int, u4: TagState, q5: int, u5: TagState, q6: int, u6: TagState, q7: int, u7: TagState, q8: int, u8: TagState, q9: int, u9: TagState, q10: int, u10: TagState, q11: int, u11: TagState, q12: int, u12: TagState|
                                    #![trigger T0::sp_accepts(d0, e0, limit2, m0, dep0 + 1, sth, w.0, q1, u1), T1::sp_accepts(d0, q1, limit2, m0, dep0 + 1, u1, w.1, q2, u2), T2::sp_accepts(d0, q2, limit2, m0, dep0 + 1, u2, w.2, q3, u3), T3::sp_accepts(d0, q3, limit2, m0, dep0 + 1, u3, w.3, q4, u4), T4::sp_accepts(d0, q4, limit2, m0, dep0 + 1, u4, w.4, q5, u5), T5::sp_accepts(d0, q5, limit2, m0, dep0 + 1, u5, w.5, q6, u6), T6::sp_accepts(d0, q6, limit2, m0, dep0 + 1, u6, w.6, q7, u7), T7::sp_accepts(d0, q7, limit2, m0, dep0 + 1, u7, w.7, q8, u8), T8::sp_accepts(d0, q8, limit2, m0, dep0 + 1, u8, w.8, q9, u9), T9::sp_accepts(d0, q9, limit2, m0, dep0 + 1, u9, w.9, q10, u10), T10::sp_accepts(d0, q10, limit2, m0, dep0 + 1, u10, w.10, q11, u11), T11::sp_accepts(d0, q11, limit2, m0, dep0 + 1, u11, w.11, q12, u12)]
                                                            T0::sp_accepts(d0, e0, limit2, m0, dep0 + 1, sth, w.0, q1, u1)
                            && T1::sp_accepts(d0, q1, limit2, m0, dep0 + 1, u1, w.1, q2, u2)
                            && T2::sp_accepts(d0, q2, limit2, m0, dep0 + 1, u2, w.2, q3, u3)
                            && T3::sp_accepts(d0, q3, limit2, m0, dep0 + 1, u3, w.3, q4, u4)
                            && T4::sp_accepts(d0, q4, limit2, m0, dep0 + 1, u4, w.4, q5, u5)
                            && T5::sp_accepts(d0, q5, limit2, m0, dep0 + 1, u5, w.5, q6, u6)
                            && T6::sp_accepts(d0, q6, limit2, m0, dep0 + 1, u6, w.6, q7, u7)
                            && T7::sp_accepts(d0, q7, limit2, m0, dep0 + 1, u7, w.7, q8, u8)
                            && T8::sp_accepts(d0, q8, limit2, m0, dep0 + 1, u8, w.8, q9, u9)
                            && T9::sp_accepts(d0, q9, limit2, m0, dep0 + 1, u9, w.9, q10, u10)
                            && T10::sp_accepts(d0, q10, limit2, m0, dep0 + 1, u10, w.10, q11, u11)
                            && T11::sp_accepts(d0, q11, limit2, m0, dep0 + 1, u11, w.11, q12, u12)
                            && rstep_matches(sp_close(d0, q12, limit2, u12, length, Ok::<Self, ASN1Error>(w)), Ok::<Self, ASN1Error>(w), e2, s2);
                                T0::lemma_outcomes_unique(d0, e0, limit2, m0, dep0 + 1, sth, w.0, wq1, wu1, t0, g1.posi(), g1.tag_statev(), ASN1Error::Invalid, 0, TagState::Fresh, ASN1Error::Invalid, 0, TagState::Fresh);
                                T1::lemma_outcomes_unique(d0, wq1, limit2, m0, dep0 + 1, wu1, w.1, wq2, wu2, t1, g2.posi(), g2.tag_statev(), ASN1Error::Invalid, 0, TagState::Fresh, ASN1Error::Invalid, 0, TagState::Fresh);
                                T2::lemma_outcomes_unique(d0, wq2, limit2, m0, dep0 + 1, wu2, w.2, wq3, wu3, t2, g3.posi(), g3.tag_statev(), ASN1Error::Invalid, 0, TagState::Fresh, ASN1Error::Invalid, 0, TagState::Fresh);
                                T3::lemma_outcomes_unique(d0, wq3, limit2, m0, dep0 + 1, wu3, w.3, wq4, wu4, t3, g4.posi(), g4.tag_statev(), ASN1Error::Invalid, 0, TagState::Fresh, ASN1Error::Invalid, 0, TagState::Fresh);
                                T4::lemma_outcomes_unique(d0, wq4, limit2, m0, dep0 + 1, wu4, w.4, wq5, wu5, t4, g5.posi(), g5.tag_statev(), ASN1Error::Invalid, 0, TagState::Fresh, ASN1Error::Invalid, 0, TagState::Fresh);
                                T5::lemma_outcomes_unique(d0, wq5, limit2, m0, dep0 + 1, wu5, w.5, wq6, wu6, t5, g6.posi(), g6.tag_statev(), ASN1Error::Invalid, 0, TagState::Fresh, ASN1Error::Invalid, 0, TagState::Fresh);
                                T6::lemma_outcomes_unique(d0, wq6, limit2, m0, dep0 + 1, wu6, w.6, wq7, wu7, t6, g7.posi(), g7.tag_statev(), ASN1Error::Invalid, 0, TagState::Fresh, ASN1Error::Invalid, 0, TagState::Fresh);
                                T7::lemma_outcomes_unique(d0, wq7, limit2, m0, dep0 + 1, wu7, w.7, wq8, wu8, t7, g8.posi(), g8.tag_statev(), ASN1Error::Invalid, 0, TagState::Fresh, ASN1Error::Invalid, 0, TagState::Fresh);
                                T8::lemma_outcomes_unique(d0, wq8, limit2, m0, dep0 + 1, wu8, w.8, wq9, wu9, t8, g9.posi(), g9.tag_statev(), ASN1Error::Invalid, 0, TagState::Fresh, ASN1Error::Invalid, 0, TagState::Fresh);
                                T9::lemma_outcomes_unique(d0, wq9, limit2, m0, dep0 + 1, wu9, w.9, wq10, wu10, w.9, wq10, wu10, ferr, bad_pos, bad_st, ferr, bad_pos, bad_st);
                                assert(false);
                            },
                            HeadStep::HeadFail { kind, end: ee, st: sx } => {},
                        }
                    }
                }
                    }
                }
                return rr;
            },
        };
        let ghost g10 = *reader;
        let t10 = match T10::decode_ber(reader) {
            Ok(v) => v,
            Err(e) => {
                let ghost ferr = e;
                let ghost bad_pos = reader.posi();
                let ghost bad_st = reader.tag_statev();
                let inner: ASN1Result<Self> = Err(e);
                let rr = reader.close_frame(frame, inner);
                proof {
                    if Self::sp_refusals_exact(m0) {
                assert forall|w: Self, e2: int, s2: TagState| !Self::sp_accepts(
                    d0, pos0, lim0, m0, dep0, st00, w, e2, s2,
                ) by {
                    if Self::sp_accepts(d0, pos0, lim0, m0, dep0, st00, w, e2, s2) {
                        match sp_header(d0, pos0, lim0, m0, dep0, st00, spec_univ_tag(16), TagType::Explicit) {
                            HeadStep::HeadOk { pc, length, end: e0, limit2, st: sth } => {
                                let (wq1, wu1, wq2, wu2, wq3, wu3, wq4, wu4, wq5, wu5, wq6, wu6, wq7, wu7, wq8, wu8, wq9, wu9, wq10, wu10, wq11, wu11, wq12, wu12) = choose|q1: int, u1: TagState, q2: int, u2: TagState, q3: int, u3: TagState, q4: int, u4: TagState, q5: int, u5: TagState, q6: int, u6: TagState, q7: int, u7: TagState, q8: int, u8: TagState, q9: int, u9: TagState, q10: int, u10: TagState, q11: int, u11: TagState, q12: int, u12: TagState|
                                    #![trigger T0::sp_accepts(d0, e0, limit2, m0, dep0 + 1, sth, w.0, q1, u1), T1::sp_accepts(d0, q1, limit2, m0, dep0 + 1, u1, w.1, q2, u2), T2::sp_accepts(d0, q2, limit2, m0, dep0 + 1, u2, w.2, q3, u3), T3::sp_accepts(d0, q3, limit2, m0, dep0 + 1, u3, w.3, q4, u4), T4::sp_accepts(d0, q4, limit2, m0, dep0 + 1, u4, w.4, q5, u5), T5::sp_accepts(d0, q5, limit2, m0, dep0 + 1, u5, w.5, q6, u6), T6::sp_accepts(d0, q6, limit2, m0, dep0 + 1, u6, w.6, q7, u7), T7::sp_accepts(d0, q7, limit2, m0, dep0 + 1, u7, w.7, q8, u8), T8::sp_accepts(d0, q8, limit2, m0, dep0 + 1, u8, w.8, q9, u9), T9::sp_accepts(d0, q9, limit2, m0, dep0 + 1, u9, w.9, q10, u10), T10::sp_accepts(d0, q10, limit2, m0, dep0 + 1, u10, w.10, q11, u11), T11::sp_accepts(d0, q11, limit2, m0, dep0 + 1, u11, w.11, q12, u12)]
                                                            T0::sp_accepts(d0, e0, limit2, m0, dep0 + 1, sth, w.0, q1, u1)
                            && T1::sp_accepts(d0, q1, limit2, m0, dep0 + 1, u1, w.1, q2, u2)
                            && T2::sp_accepts(d0, q2, limit2, m0, dep0 + 1, u2, w.2, q3, u3)
                            && T3::sp_accepts(d0, q3, limit2, m0, dep0 + 1, u3, w.3, q4, u4)
                            && T4::sp_accepts(d0, q4, limit2, m0, dep0 + 1, u4, w.4, q5, u5)
                            && T5::sp_accepts(d0, q5, limit2, m0, dep0 + 1, u5, w.5, q6, u6)
                            && T6::sp_accepts(d0, q6, limit2, m0, dep0 + 1, u6, w.6, q7, u7)
                            && T7::sp_accepts(d0, q7, limit2, m0, dep0 + 1, u7, w.7, q8, u8)
                            && T8::sp_accepts(d0, q8, limit2, m0, dep0 + 1, u8, w.8, q9, u9)
                            && T9::sp_accepts(d0, q9, limit2, m0, dep0 + 1, u9, w.9, q10, u10)
                            && T10::sp_accepts(d0, q10, limit2, m0, dep0 + 1, u10, w.10, q11, u11)
                            && T11::sp_accepts(d0, q11, limit2, m0, dep0 + 1, u11, w.11, q12, u12)
                            && rstep_matches(sp_close(d0, q12, limit2, u12, length, Ok::<Self, ASN1Error>(w)), Ok::<Self, ASN1Error>(w), e2, s2);
                                T0::lemma_outcomes_unique(d0, e0, limit2, m0, dep0 + 1, sth, w.0, wq1, wu1, t0, g1.posi(), g1.tag_statev(), ASN1Error::Invalid, 0, TagState::Fresh, ASN1Error::Invalid, 0, TagState::Fresh);
                                T1::lemma_outcomes_unique(d0, wq1, limit2, m0, dep0 + 1, wu1, w.1, wq2, wu2, t1, g2.posi(), g2.tag_statev(), ASN1Error::Invalid, 0, TagState::Fresh, ASN1Error::Invalid, 0, TagState::Fresh);
                                T2::lemma_outcomes_unique(d0, wq2, limit2, m0, dep0 + 1, wu2, w.2, wq3, wu3, t2, g3.posi(), g3.tag_statev(), ASN1Error::Invalid, 0, TagState::Fresh, ASN1Error::Invalid, 0, TagState::Fresh);
                                T3::lemma_outcomes_unique(d0, wq3, limit2, m0, dep0 + 1, wu3, w.3, wq4, wu4, t3, g4.posi(), g4.tag_statev(), ASN1Error::Invalid, 0, TagState::Fresh, ASN1Error::Invalid, 0, TagState::Fresh);
                                T4::lemma_outcomes_unique(d0, wq4, limit2, m0, dep0 + 1, wu4, w.4, wq5, wu5, t4, g5.posi(), g5.tag_statev(), ASN1Error::Invalid, 0, TagState::Fresh, ASN1Error::Invalid, 0, TagState::Fresh);
                                T5::lemma_outcomes_unique(d0, wq5, limit2, m0, dep0 + 1, wu5, w.5, wq6, wu6, t5, g6.posi(), g6.tag_statev(), ASN1Error::Invalid, 0, TagState::Fresh, ASN1Error::Invalid, 0, TagState::Fresh);
                                T6::lemma_outcomes_unique(d0, wq6, limit2, m0, dep0 + 1, wu6, w.6, wq7, wu7, t6, g7.posi(), g7.tag_statev(), ASN1Error::Invalid, 0, TagState::Fresh, ASN1Error::Invalid, 0, TagState::Fresh);
                                T7::lemma_outcomes_unique(d0, wq7, limit2, m0, dep0 + 1, wu7, w.7, wq8, wu8, t7, g8.posi(), g8.tag_statev(), ASN1Error::Invalid, 0, TagState::Fresh, ASN1Error::Invalid, 0, TagState::Fresh);
                                T8::lemma_outcomes_unique(d0, wq8, limit2, m0, dep0 + 1, wu8, w.8, wq9, wu9, t8, g9.posi(), g9.tag_statev(), ASN1Error::Invalid, 0, TagState::Fresh, ASN1Error::Invalid, 0, TagState::Fresh);
                                T9::lemma_outcomes_unique(d0, wq9, limit2, m0, dep0 + 1, wu9, w.9, wq10, wu10, t9, g10.posi(), g10.tag_statev(), ASN1Error::Invalid, 0, TagState::Fresh, ASN1Error::Invalid, 0, TagState::Fresh);
                                T10::lemma_outcomes_unique(d0, wq10, limit2, m0, dep0 + 1, wu10, w.10, wq11, wu11, w.10, wq11, wu11, ferr, bad_pos, bad_st, ferr, bad_pos, bad_st);
                                assert(false);
                            },
                            HeadStep::HeadFail { kind, end: ee, st: sx } => {},
                        }
                    }
                }
                    }
                }
                return rr;
            },
        };
        let ghost g11 = *reader;
        let t11 = match T11::decode_ber(reader) {
            Ok(v) => v,
            Err(e) => {
                let ghost ferr = e;
                let ghost bad_pos = reader.posi();
                let ghost bad_st = reader.tag_statev();
                let inner: ASN1Result<Self> = Err(e);
                let rr = reader.close_frame(frame, inner);
                proof {
                    if Self::sp_refusals_exact(m0) {
                assert forall|w: Self, e2: int, s2: TagState| !Self::sp_accepts(
                    d0, pos0, lim0, m0, dep0, st00, w, e2, s2,
                ) by {
                    if Self::sp_accepts(d0, pos0, lim0, m0, dep0, st00, w, e2, s2) {
                        match sp_header(d0, pos0, lim0, m0, dep0, st00, spec_univ_tag(16), TagType::Explicit) {
                            HeadStep::HeadOk { pc, length, end: e0, limit2, st: sth } => {
                                let (wq1, wu1, wq2, wu2, wq3, wu3, wq4, wu4, wq5, wu5, wq6, wu6, wq7, wu7, wq8, wu8, wq9, wu9, wq10, wu10, wq11, wu11, wq12, wu12) = choose|q1: int, u1: TagState, q2: int, u2: TagState, q3: int, u3: TagState, q4: int, u4: TagState, q5: int, u5: TagState, q6: int, u6: TagState, q7: int, u7: TagState, q8: int, u8: TagState, q9: int, u9: TagState, q10: int, u10: TagState, q11: int, u11: TagState, q12: int, u12: TagState|
                                    #![trigger T0::sp_accepts(d0, e0, limit2, m0, dep0 + 1, sth, w.0, q1, u1), T1::sp_accepts(d0, q1, limit2, m0, dep0 + 1, u1, w.1, q2, u2), T2::sp_accepts(d0, q2, limit2, m0, dep0 + 1, u2, w.2, q3, u3), T3::sp_accepts(d0, q3, limit2, m0, dep0 + 1, u3, w.3, q4, u4), T4::sp_accepts(d0, q4, limit2, m0, dep0 + 1, u4, w.4, q5, u5), T5::sp_accepts(d0, q5, limit2, m0, dep0 + 1, u5, w.5, q6, u6), T6::sp_accepts(d0, q6, limit2, m0, dep0 + 1, u6, w.6, q7, u7), T7::sp_accepts(d0, q7, limit2, m0, dep0 + 1, u7, w.7, q8, u8), T8::sp_accepts(d0, q8, limit2, m0, dep0 + 1, u8, w.8, q9, u9), T9::sp_accepts(d0, q9, limit2, m0, dep0 + 1, u9, w.9, q10, u10), T10::sp_accepts(d0, q10, limit2, m0, dep0 + 1, u10, w.10, q11, u11), T11::sp_accepts(d0, q11, limit2, m0, dep0 + 1, u11, w.11, q12, u12)]
                                                            T0::sp_accepts(d0, e0, limit2, m0, dep0 + 1, sth, w.0, q1, u1)
                            && T1::sp_accepts(d0, q1, limit2, m0, dep0 + 1, u1, w.1, q2, u2)
                            && T2::sp_accepts(d0, q2, limit2, m0, dep0 + 1, u2, w.2, q3, u3)
                            && T3::sp_accepts(d0, q3, limit2, m0, dep0 + 1, u3, w.3, q4, u4)
                            && T4::sp_accepts(d0, q4, limit2, m0, dep0 + 1, u4, w.4, q5, u5)
                            && T5::sp_accepts(d0, q5, limit2, m0, dep0 + 1, u5, w.5, q6, u6)
                            && T6::sp_accepts(d0, q6, limit2, m0, dep0 + 1, u6, w.6, q7, u7)
                            && T7::sp_accepts(d0, q7, limit2, m0, dep0 + 1, u7, w.7, q8, u8)
                            && T8::sp_accepts(d0, q8, limit2, m0, dep0 + 1, u8, w.8, q9, u9)
                            && T9::sp_accepts(d0, q9, limit2, m0, dep0 + 1, u9, w.9, q10, u10)
                            && T10::sp_accepts(d0, q10, limit2, m0, dep0 + 1, u10, w.10, q11, u11)
                            && T11::sp_accepts(d0, q11, limit2, m0, dep0 + 1, u11, w.11, q12, u12)
                            && rstep_matches(sp_close(d0, q12, limit2, u12, length, Ok::<Self, ASN1Error>(w)), Ok::<Self, ASN1Error>(w), e2, s2);
                                T0::lemma_outcomes_unique(d0, e0, limit2, m0, dep0 + 1, sth, w.0, wq1, wu1, t0, g1.posi(), g1.tag_statev(), ASN1Error::Invalid, 0, TagState::Fresh, ASN1Error::Invalid, 0, TagState::Fresh);
                                T1::lemma_outcomes_unique(d0, wq1, limit2, m0, dep0 + 1, wu1, w.1, wq2, wu2, t1, g2.posi(), g2.tag_statev(), ASN1Error::Invalid, 0, TagState::Fresh, ASN1Error::Invalid, 0, TagState::Fresh);
                                T2::lemma_outcomes_unique(d0, wq2, limit2, m0, dep0 + 1, wu2, w.2, wq3, wu3, t2, g3.posi(), g3.tag_statev(), ASN1Error::Invalid, 0, TagState::Fresh, ASN1Error::Invalid, 0, TagState::Fresh);
                                T3::lemma_outcomes_unique(d0, wq3, limit2, m0, dep0 + 1, wu3, w.3, wq4, wu4, t3, g4.posi(), g4.tag_statev(), ASN1Error::Invalid, 0, TagState::Fresh, ASN1Error::Invalid, 0, TagState::Fresh);
                                T4::lemma_outcomes_unique(d0, wq4, limit2, m0, dep0 + 1, wu4, w.4, wq5, wu5, t4, g5.posi(), g5.tag_statev(), ASN1Error::Invalid, 0, TagState::Fresh, ASN1Error::Invalid, 0, TagState::Fresh);
                                T5::lemma_outcomes_unique(d0, wq5, limit2, m0, dep0 + 1, wu5, w.5, wq6, wu6, t5, g6.posi(), g6.tag_statev(), ASN1Error::Invalid, 0, TagState::Fresh, ASN1Error::Invalid, 0, TagState::Fresh);
                                T6::lemma_outcomes_unique(d0, wq6, limit2, m0, dep0 + 1, wu6, w.6, wq7, wu7, t6, g7.posi(), g7.tag_statev(), ASN1Error::Invalid, 0, TagState::Fresh, ASN1Error::Invalid, 0, TagState::Fresh);
                                T7::lemma_outcomes_unique(d0, wq7, limit2, m0, dep0 + 1, wu7, w.7, wq8, wu8, t7, g8.posi(), g8.tag_statev(), ASN1Error::Invalid, 0, TagState::Fresh, ASN1Error::Invalid, 0, TagState::Fresh);
                                T8::lemma_outcomes_unique(d0, wq8, limit2, m0, dep0 + 1, wu8, w.8, wq9, wu9, t8, g9.posi(), g9.tag_statev(), ASN1Error::Invalid, 0, TagState::Fresh, ASN1Error::Invalid, 0, TagState::Fresh);
                                T9::lemma_outcomes_unique(d0, wq9, limit2, m0, dep0 + 1, wu9, w.9, wq10, wu10, t9, g10.posi(), g10.tag_statev(), ASN1Error::Invalid, 0, TagState::Fresh, ASN1Error::Invalid, 0, TagState::Fresh);
                                T10::lemma_outcomes_unique(d0, wq10, limit2, m0, dep0 + 1, wu10, w.10, wq11, wu11, t10, g11.posi(), g11.tag_statev(), ASN1Error::Invalid, 0, TagState::Fresh, ASN1Error::Invalid, 0, TagState::Fresh);
                                T11::lemma_outcomes_unique(d0, wq11, limit2, m0, dep0 + 1, wu11, w.11, wq12, wu12, w.11, wq12, wu12, ferr, bad_pos, bad_st, ferr, bad_pos, bad_st);
                                assert(false);
                            },
                            HeadStep::HeadFail { kind, end: ee, st: sx } => {},
                        }
                    }
                }
                    }
                }
                return rr;
            },
        };
        let ghost g12 = *reader;
        let result = (t0, t1, t2, t3, t4, t5, t6, t7, t8, t9, t10, t11);
        let ghost gv = result;
        let ghost before_close = *reader;
        let rr = reader.close_frame(frame, Ok(result));
        proof {
            if rr is Ok {
                assert(T0::sp_accepts(g0.data(), g0.posi(), g0.limiti(), g0.modev(), g0.depthv(), g0.tag_statev(), gv.0, g1.posi(), g1.tag_statev()));
                assert(T1::sp_accepts(g0.data(), g1.posi(), g0.limiti(), g0.modev(), g0.depthv(), g1.tag_statev(), gv.1, g2.posi(), g2.tag_statev()));
                assert(T2::sp_accepts(g0.data(), g2.posi(), g0.limiti(), g0.modev(), g0.depthv(), g2.tag_statev(), gv.2, g3.posi(), g3.tag_statev()));
                assert(T3::sp_accepts(g0.data(), g3.posi(), g0.limiti(), g0.modev(), g0.depthv(), g3.tag_statev(), gv.3, g4.posi(), g4.tag_statev()));
                assert(T4::sp_accepts(g0.data(), g4.posi(), g0.limiti(), g0.modev(), g0.depthv(), g4.tag_statev(), gv.4, g5.posi(), g5.tag_statev()));
                assert(T5::sp_accepts(g0.data(), g5.posi(), g0.limiti(), g0.modev(), g0.depthv(), g5.tag_statev(), gv.5, g6.posi(), g6.tag_statev()));
                assert(T6::sp_accepts(g0.data(), g6.posi(), g0.limiti(), g0.modev(), g0.depthv(), g6.tag_statev(), gv.6, g7.posi(), g7.tag_statev()));
                assert(T7::sp_accepts(g0.data(), g7.posi(), g0.limiti(), g0.modev(), g0.depthv(), g7.tag_statev(), gv.7, g8.posi(), g8.tag_statev()));
                assert(T8::sp_accepts(g0.data(), g8.posi(), g0.limiti(), g0.modev(), g0.depthv(), g8.tag_statev(), gv.8, g9.posi(), g9.tag_statev()));
                assert(T9::sp_accepts(g0.data(), g9.posi(), g0.limiti(), g0.modev(), g0.depthv(), g9.tag_statev(), gv.9, g10.posi(), g10.tag_statev()));
                assert(T10::sp_accepts(g0.data(), g10.posi(), g0.limiti(), g0.modev(), g0.depthv(), g10.tag_statev(), gv.10, g11.posi(), g11.tag_statev()));
                assert(T11::sp_accepts(g0.data(), g11.posi(), g0.limiti(), g0.modev(), g0.depthv(), g11.tag_statev(), gv.11, g12.posi(), g12.tag_statev()));
            }
            if rr is Err && Self::sp_refusals_exact(m0) {
                assert forall|w: Self, e2: int, s2: TagState| !Self::sp_accepts(
                    d0, pos0, lim0, m0, dep0, st00, w, e2, s2,
                ) by {
                    if Self::sp_accepts(d0, pos0, lim0, m0, dep0, st00, w, e2, s2) {
                        match sp_header(d0, pos0, lim0, m0, dep0, st00, spec_univ_tag(16), TagType::Explicit) {
                            HeadStep::HeadOk { pc, length, end: e0, limit2, st: sth } => {
                                let (wq1, wu1, wq2, wu2, wq3, wu3, wq4, wu4, wq5, wu5, wq6, wu6, wq7, wu7, wq8, wu8, wq9, wu9, wq10, wu10, wq11, wu11, wq12, wu12) = choose|q1: int, u1: TagState, q2: int, u2: TagState, q3: int, u3: TagState, q4: int, u4: TagState, q5: int, u5: TagState, q6: int, u6: TagState, q7: int, u7: TagState, q8: int, u8: TagState, q9: int, u9: TagState, q10: int, u10: TagState, q11: int, u11: TagState, q12: int, u12: TagState|
                                    #![trigger T0::sp_accepts(d0, e0, limit2, m0, dep0 + 1, sth, w.0, q1, u1), T1::sp_accepts(d0, q1, limit2, m0, dep0 + 1, u1, w.1, q2, u2), T2::sp_accepts(d0, q2, limit2, m0, dep0 + 1, u2, w.2, q3, u3), T3::sp_accepts(d0, q3, limit2, m0, dep0 + 1, u3, w.3, q4, u4), T4::sp_accepts(d0, q4, limit2, m0, dep0 + 1, u4, w.4, q5, u5), T5::sp_accepts(d0, q5, limit2, m0, dep0 + 1, u5, w.5, q6, u6), T6::sp_accepts(d0, q6, limit2, m0, dep0 + 1, u6, w.6, q7, u7), T7::sp_accepts(d0, q7, limit2, m0, dep0 + 1, u7, w.7, q8, u8), T8::sp_accepts(d0, q8, limit2, m0, dep0 + 1, u8, w.8, q9, u9), T9::sp_accepts(d0, q9, limit2, m0, dep0 + 1, u9, w.9, q10, u10), T10::sp_accepts(d0, q10, limit2, m0, dep0 + 1, u10, w.10, q11, u11), T11::sp_accepts(d0, q11, limit2, m0, dep0 + 1, u11, w.11, q12, u12)]
                                                            T0::sp_accepts(d0, e0, limit2, m0, dep0 + 1, sth, w.0, q1, u1)
                            && T1::sp_accepts(d0, q1, limit2, m0, dep0 + 1, u1, w.1, q2, u2)
                            && T2::sp_accepts(d0, q2, limit2, m0, dep0 + 1, u2, w.2, q3, u3)
                            && T3::sp_accepts(d0, q3, limit2, m0, dep0 + 1, u3, w.3, q4, u4)
                            && T4::sp_accepts(d0, q4, limit2, m0, dep0 + 1, u4, w.4, q5, u5)
                            && T5::sp_accepts(d0, q5, limit2, m0, dep0 + 1, u5, w.5, q6, u6)
                            && T6::sp_accepts(d0, q6, limit2, m0, dep0 + 1, u6, w.6, q7, u7)
                            && T7::sp_accepts(d0, q7, limit2, m0, dep0 + 1, u7, w.7, q8, u8)
                            && T8::sp_accepts(d0, q8, limit2, m0, dep0 + 1, u8, w.8, q9, u9)
                            && T9::sp_accepts(d0, q9, limit2, m0, dep0 + 1, u9, w.9, q10, u10)
                            && T10::sp_accepts(d0, q10, limit2, m0, dep0 + 1, u10, w.10, q11, u11)
                            && T11::sp_accepts(d0, q11, limit2, m0, dep0 + 1, u11, w.11, q12, u12)
                            && rstep_matches(sp_close(d0, q12, limit2, u12, length, Ok::<Self, ASN1Error>(w)), Ok::<Self, ASN1Error>(w), e2, s2);
                                T0::lemma_outcomes_unique(d0, e0, limit2, m0, dep0 + 1, sth, w.0, wq1, wu1, t0, g1.posi(), g1.tag_statev(), ASN1Error::Invalid, 0, TagState::Fresh, ASN1Error::Invalid, 0, TagState::Fresh);
                                T1::lemma_outcomes_unique(d0, wq1, limit2, m0, dep0 + 1, wu1, w.1, wq2, wu2, t1, g2.posi(), g2.tag_statev(), ASN1Error::Invalid, 0, TagState::Fresh, ASN1Error::Invalid, 0, TagState::Fresh);
                                T2::lemma_outcomes_unique(d0, wq2, limit2, m0, dep0 + 1, wu2, w.2, wq3, wu3, t2, g3.posi(), g3.tag_statev(), ASN1Error::Invalid, 0, TagState::Fresh, ASN1Error::Invalid, 0, TagState::Fresh);
                                T3::lemma_outcomes_unique(d0, wq3, limit2, m0, dep0 + 1, wu3, w.3, wq4, wu4, t3, g4.posi(), g4.tag_statev(), ASN1Error::Invalid, 0, TagState::Fresh, ASN1Error::Invalid, 0, TagState::Fresh);
                                T4::lemma_outcomes_unique(d0, wq4, limit2, m0, dep0 + 1, wu4, w.4, wq5, wu5, t4, g5.posi(), g5.tag_statev(), ASN1Error::Invalid, 0, TagState::Fresh, ASN1Error::Invalid, 0, TagState::Fresh);
                                T5::lemma_outcomes_unique(d0, wq5, limit2, m0, dep0 + 1, wu5, w.5, wq6, wu6, t5, g6.posi(), g6.tag_statev(), ASN1Error::Invalid, 0, TagState::Fresh, ASN1Error::Invalid, 0, TagState::Fresh);
                                T6::lemma_outcomes_unique(d0, wq6, limit2, m0, dep0 + 1, wu6, w.6, wq7, wu7, t6, g7.posi(), g7.tag_statev(), ASN1Error::Invalid, 0, TagState::Fresh, ASN1Error::Invalid, 0, TagState::Fresh);
                                T7::lemma_outcomes_unique(d0, wq7, limit2, m0, dep0 + 1, wu7, w.7, wq8, wu8, t7, g8.posi(), g8.tag_statev(), ASN1Error::Invalid, 0, TagState::Fresh, ASN1Error::Invalid, 0, TagState::Fresh);
                                T8::lemma_outcomes_unique(d0, wq8, limit2, m0, dep0 + 1, wu8, w.8, wq9, wu9, t8, g9.posi(), g9.tag_statev(), ASN1Error::Invalid, 0, TagState::Fresh, ASN1Error::Invalid, 0, TagState::Fresh);
                                T9::lemma_outcomes_unique(d0, wq9, limit2, m0, dep0 + 1, wu9, w.9, wq10, wu10, t9, g10.posi(), g10.tag_statev(), ASN1Error::Invalid, 0, TagState::Fresh, ASN1Error::Invalid, 0, TagState::Fresh);
                                T10::lemma_outcomes_unique(d0, wq10, limit2, m0, dep0 + 1, wu10, w.10, wq11, wu11, t10, g11.posi(), g11.tag_statev(), ASN1Error::Invalid, 0, TagState::Fresh, ASN1Error::Invalid, 0, TagState::Fresh);
                                T11::lemma_outcomes_unique(d0, wq11, limit2, m0, dep0 + 1, wu11, w.11, wq12, wu12, t11, g12.posi(), g12.tag_statev(), ASN1Error::Invalid, 0, TagState::Fresh, ASN1Error::Invalid, 0, TagState::Fresh);
                            },
                            HeadStep::HeadFail { kind, end: ee, st: sx } => {},
                        }
                    }
                }
            }
        }
        rr
    }
}

} // verus!
