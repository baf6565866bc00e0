//! objects.000
//!
//! A whole-file format: no count is stored; each object is exactly 148
//! bytes, and objects run to the end of the file.

use vstd::prelude::*;

use crate::buffer::{le32_bytes, BufferReader, BufferWriter};
use crate::types::{
    dec_to_end, decode_to_end, enc_many, lemma_dec_to_end_enc, lemma_enc_many_len, wf_many, Binary,
    FixedArray, FixedCString,
};
use crate::DecodeError;

verus! {

/// The object table.
pub struct Objects000 {
    pub objects: Vec<Object>,
}

pub struct Object {
    pub unknown0: FixedArray<u32, 8>,
    pub name: FixedCString<16>,
    pub id: u32,
    pub unknown1: FixedArray<u32, 24>,
}

/// The model of an object record.
pub struct ObjectModel {
    pub unknown0: Seq<u32>,
    pub name: Seq<u8>,
    pub id: u32,
    pub unknown1: Seq<u32>,
}

impl DeepView for Object {
    type V = ObjectModel;

    open spec fn deep_view(&self) -> ObjectModel {
        ObjectModel {
            unknown0: self.unknown0.deep_view(),
            name: self.name.deep_view(),
            id: self.id,
            unknown1: self.unknown1.deep_view(),
        }
    }
}

impl Binary for Object {
    open spec fn m_wf(m: ObjectModel) -> bool {
        &&& <FixedArray<u32, 8> as Binary>::m_wf(m.unknown0)
        &&& <FixedCString<16> as Binary>::m_wf(m.name)
        &&& <FixedArray<u32, 24> as Binary>::m_wf(m.unknown1)
    }

    open spec fn m_enc(m: ObjectModel) -> Seq<u8> {
        <FixedArray<u32, 8> as Binary>::m_enc(m.unknown0) + <FixedCString<16> as Binary>::m_enc(
            m.name,
        ) + le32_bytes(m.id) + <FixedArray<u32, 24> as Binary>::m_enc(m.unknown1)
    }

    open spec fn m_dec(b: Seq<u8>) -> Result<(ObjectModel, int), DecodeError> {
        match <FixedArray<u32, 8> as Binary>::m_dec(b) {
            Err(e) => Err(e),
            Ok((unknown0, n1)) => match <FixedCString<16> as Binary>::m_dec(b.skip(n1)) {
                Err(e) => Err(e),
                Ok((name, n2)) => match <u32 as Binary>::m_dec(b.skip(n1 + n2)) {
                    Err(e) => Err(e),
                    Ok((id, n3)) => match <FixedArray<u32, 24> as Binary>::m_dec(
                        b.skip(n1 + n2 + n3),
                    ) {
                        Err(e) => Err(e),
                        Ok((unknown1, n4)) => Ok(
                            (ObjectModel { unknown0, name, id, unknown1 }, n1 + n2 + n3 + n4),
                        ),
                    },
                },
            },
        }
    }

    proof fn lemma_dec_ok(b: Seq<u8>) {
        <FixedArray<u32, 8> as Binary>::lemma_dec_ok(b);
        if let Ok((_, n1)) = <FixedArray<u32, 8> as Binary>::m_dec(b) {
            <FixedCString<16> as Binary>::lemma_dec_ok(b.skip(n1));
            if let Ok((_, n2)) = <FixedCString<16> as Binary>::m_dec(b.skip(n1)) {
                <u32 as Binary>::lemma_dec_ok(b.skip(n1 + n2));
                if let Ok((_, n3)) = <u32 as Binary>::m_dec(b.skip(n1 + n2)) {
                    <FixedArray<u32, 24> as Binary>::lemma_dec_ok(b.skip(n1 + n2 + n3));
                }
            }
        }
    }

    proof fn lemma_dec_enc(m: ObjectModel, rest: Seq<u8>) {
        let e1 = <FixedArray<u32, 8> as Binary>::m_enc(m.unknown0);
        let e2 = <FixedCString<16> as Binary>::m_enc(m.name);
        let e3 = le32_bytes(m.id);
        let e4 = <FixedArray<u32, 24> as Binary>::m_enc(m.unknown1);
        let b = e1 + (e2 + (e3 + (e4 + rest)));
        assert(Self::m_enc(m) + rest =~= b);
        <FixedArray<u32, 8> as Binary>::lemma_dec_enc(m.unknown0, e2 + (e3 + (e4 + rest)));
        assert(b.skip(e1.len() as int) =~= e2 + (e3 + (e4 + rest)));
        <FixedCString<16> as Binary>::lemma_dec_enc(m.name, e3 + (e4 + rest));
        assert(b.skip(e1.len() as int + e2.len() as int) =~= e3 + (e4 + rest));
        <u32 as Binary>::lemma_dec_enc(m.id, e4 + rest);
        assert(b.skip(e1.len() as int + e2.len() as int + e3.len() as int) =~= e4 + rest);
        <FixedArray<u32, 24> as Binary>::lemma_dec_enc(m.unknown1, rest);
    }

    fn from_bytes(r: &mut BufferReader) -> (res: Result<Self, DecodeError>) {
        r.bounds_check();
        let ghost orig = *r;
        let unknown0 = <FixedArray<u32, 8> as Binary>::from_bytes(r)?;
        proof {
            assert(r.rest() =~= orig.rest().skip(r.pos() - orig.pos()));
        }
        let name = <FixedCString<16> as Binary>::from_bytes(r)?;
        proof {
            assert(r.rest() =~= orig.rest().skip(r.pos() - orig.pos()));
        }
        let id = u32::from_bytes(r)?;
        proof {
            assert(r.rest() =~= orig.rest().skip(r.pos() - orig.pos()));
        }
        let unknown1 = <FixedArray<u32, 24> as Binary>::from_bytes(r)?;
        Ok(Object { unknown0, name, id, unknown1 })
    }

    fn to_bytes(&self, w: &mut BufferWriter) {
        self.unknown0.to_bytes(w);
        self.name.to_bytes(w);
        self.id.to_bytes(w);
        self.unknown1.to_bytes(w);
    }
}

/// Each object record occupies exactly 148 bytes.
pub proof fn lemma_object_enc_len(m: ObjectModel)
    requires
        <Object as Binary>::m_wf(m),
    ensures
        <Object as Binary>::m_enc(m).len() == 148,
{
    lemma_enc_many_len::<u32>(m.unknown0, 4);
    lemma_enc_many_len::<u32>(m.unknown1, 4);
}

impl DeepView for Objects000 {
    type V = Seq<ObjectModel>;

    open spec fn deep_view(&self) -> Seq<ObjectModel> {
        self.objects.deep_view()
    }
}

impl Objects000 {
    pub open spec fn m_wf(m: Seq<ObjectModel>) -> bool {
        wf_many::<Object>(m)
    }

    /// The exact byte encoding: every object, with no count.
    pub open spec fn m_enc(m: Seq<ObjectModel>) -> Seq<u8> {
        enc_many::<Object>(m)
    }

    /// What a whole object file decodes to.  The file length must be a
    /// multiple of the record size; objects then run to the end.
    pub open spec fn m_dec_file(data: Seq<u8>) -> Result<Seq<ObjectModel>, DecodeError> {
        if data.len() % 148 != 0 {
            Err(DecodeError::Malformed)
        } else {
            dec_to_end::<Object>(data)
        }
    }

    /// Round trip: decoding an encoding yields the objects back.
    pub proof fn lemma_dec_enc(m: Seq<ObjectModel>)
        requires
            Self::m_wf(m),
        ensures
            Self::m_dec_file(Self::m_enc(m)) == Ok::<Seq<ObjectModel>, DecodeError>(m),
    {
        assert forall|i: int| 0 <= i < m.len() implies <Object as Binary>::m_enc(
            #[trigger] m[i],
        ).len() == 148 by {
            lemma_object_enc_len(m[i]);
        }
        lemma_enc_many_len::<Object>(m, 148);
        assert(Self::m_enc(m).len() == 148 * m.len());
        assert((148 * m.len()) % 148 == 0) by (nonlinear_arith);
        lemma_dec_to_end_enc::<Object>(m);
    }

    /// Decodes a whole object file; the cursor must sit at its start.
    pub fn from_bytes(r: &mut BufferReader) -> (res: Result<Objects000, DecodeError>)
        requires
            old(r).pos() == 0,
        ensures
            final(r).data() == old(r).data(),
            0 <= final(r).pos() <= final(r).data().len(),
            match Self::m_dec_file(old(r).data()) {
                Ok(ms) => res matches Ok(v) && v.deep_view() == ms && final(r).pos() == final(r).data().len(),
                Err(e) => res == Err::<Objects000, DecodeError>(e),
            },
    {
        if r.len() % 148 != 0 {
            return Err(DecodeError::Malformed);
        }
        proof {
            assert(r.rest() =~= old(r).data());
        }
        let objects = decode_to_end::<Object>(r)?;
        Ok(Objects000 { objects })
    }

    /// Appends the exact encoding to the writer.
    pub fn to_bytes(&self, w: &mut BufferWriter)
        requires
            Self::m_wf(self.deep_view()),
        ensures
            final(w).data() == old(w).data() + Self::m_enc(self.deep_view()),
    {
        crate::types::encode_many::<Object>(&self.objects, w);
    }
}

} // verus!
