//! osiobjects.000

use vstd::prelude::*;

use crate::buffer::{le32_bytes, BufferReader, BufferWriter};
use crate::types::{
    dec_many, decode_many, enc_many, encode_many, lemma_dec_many_enc, lemma_dec_many_ok, Binary,
};
use crate::DecodeError;

verus! {

/// The script object table, with a trailing count whose purpose is
/// unconfirmed.
pub struct OsirisObjects {
    pub objects: Vec<Object>,
    pub unknown0: u32,
}

pub struct Object {
    pub index: u32,
    pub id: u32,
}

/// The model of the object table.
pub struct OsirisObjectsModel {
    pub objects: Seq<Object>,
    pub unknown0: u32,
}

impl Object {
    /// The fields in stream order.
    pub open spec fn fields(self) -> Seq<u32> {
        seq![self.index, self.id]
    }
}

impl DeepView for Object {
    type V = Object;

    open spec fn deep_view(&self) -> Object {
        *self
    }
}

impl Binary for Object {
    open spec fn m_wf(m: Object) -> bool {
        true
    }

    open spec fn m_enc(m: Object) -> Seq<u8> {
        enc_many::<u32>(m.fields())
    }

    open spec fn m_dec(b: Seq<u8>) -> Result<(Object, int), DecodeError> {
        match dec_many::<u32>(b, 2) {
            Ok((ms, n)) => Ok((Object { index: ms[0], id: ms[1] }, n)),
            Err(e) => Err(e),
        }
    }

    proof fn lemma_dec_ok(b: Seq<u8>) {
        lemma_dec_many_ok::<u32>(b, 2);
    }

    proof fn lemma_dec_enc(m: Object, rest: Seq<u8>) {
        lemma_dec_many_enc::<u32>(m.fields(), rest);
    }

    fn from_bytes(r: &mut BufferReader) -> (res: Result<Self, DecodeError>) {
        let ghost orig = *r;
        let ms = decode_many::<u32>(r, 2)?;
        proof {
            lemma_dec_many_ok::<u32>(orig.rest(), 2);
            assert(ms.deep_view() =~= ms@);
        }
        Ok(Object { index: ms[0], id: ms[1] })
    }

    fn to_bytes(&self, w: &mut BufferWriter) {
        let v: Vec<u32> = vec![self.index, self.id];
        proof {
            assert(v.deep_view() =~= self.deep_view().fields());
        }
        encode_many::<u32>(&v, w);
    }
}

impl DeepView for OsirisObjects {
    type V = OsirisObjectsModel;

    open spec fn deep_view(&self) -> OsirisObjectsModel {
        OsirisObjectsModel { objects: self.objects.deep_view(), unknown0: self.unknown0 }
    }
}

impl Binary for OsirisObjects {
    open spec fn m_wf(m: OsirisObjectsModel) -> bool {
        <Vec<Object> as Binary>::m_wf(m.objects)
    }

    open spec fn m_enc(m: OsirisObjectsModel) -> Seq<u8> {
        <Vec<Object> as Binary>::m_enc(m.objects) + le32_bytes(m.unknown0)
    }

    open spec fn m_dec(b: Seq<u8>) -> Result<(OsirisObjectsModel, int), DecodeError> {
        match <Vec<Object> as Binary>::m_dec(b) {
            Err(e) => Err(e),
            Ok((objects, n1)) => match <u32 as Binary>::m_dec(b.skip(n1)) {
                Err(e) => Err(e),
                Ok((unknown0, n2)) => Ok((OsirisObjectsModel { objects, unknown0 }, n1 + n2)),
            },
        }
    }

    proof fn lemma_dec_ok(b: Seq<u8>) {
        <Vec<Object> as Binary>::lemma_dec_ok(b);
        if let Ok((_, n1)) = <Vec<Object> as Binary>::m_dec(b) {
            <u32 as Binary>::lemma_dec_ok(b.skip(n1));
        }
    }

    proof fn lemma_dec_enc(m: OsirisObjectsModel, rest: Seq<u8>) {
        let e1 = <Vec<Object> as Binary>::m_enc(m.objects);
        let e2 = <u32 as Binary>::m_enc(m.unknown0);
        assert(Self::m_enc(m) + rest =~= e1 + (e2 + rest));
        <Vec<Object> as Binary>::lemma_dec_enc(m.objects, e2 + rest);
        assert((e1 + (e2 + rest)).skip(e1.len() as int) =~= e2 + rest);
        <u32 as Binary>::lemma_dec_enc(m.unknown0, rest);
    }

    fn from_bytes(r: &mut BufferReader) -> (res: Result<Self, DecodeError>) {
        r.bounds_check();
        let ghost orig = *r;
        let objects = <Vec<Object> as Binary>::from_bytes(r)?;
        proof {
            assert(r.rest() =~= orig.rest().skip(r.pos() - orig.pos()));
        }
        let unknown0 = u32::from_bytes(r)?;
        Ok(OsirisObjects { objects, unknown0 })
    }

    fn to_bytes(&self, w: &mut BufferWriter) {
        self.objects.to_bytes(w);
        self.unknown0.to_bytes(w);
    }
}

} // verus!
