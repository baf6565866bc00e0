//! props.000

use vstd::prelude::*;

use crate::buffer::{BufferReader, BufferWriter};
use crate::types::Binary;
use crate::DecodeError;

verus! {

/// The prop table.
pub struct Props {
    pub props: Vec<Unknown0>,
}

pub struct Unknown0 {
    pub unknown0: String,
    pub unknown1: Vec<u32>,
}

/// The model of a prop record.
pub struct PropModel {
    pub unknown0: Seq<char>,
    pub unknown1: Seq<u32>,
}

impl DeepView for Unknown0 {
    type V = PropModel;

    open spec fn deep_view(&self) -> PropModel {
        PropModel { unknown0: self.unknown0.deep_view(), unknown1: self.unknown1.deep_view() }
    }
}

impl Binary for Unknown0 {
    open spec fn m_wf(m: PropModel) -> bool {
        &&& <String as Binary>::m_wf(m.unknown0)
        &&& <Vec<u32> as Binary>::m_wf(m.unknown1)
    }

    open spec fn m_enc(m: PropModel) -> Seq<u8> {
        <String as Binary>::m_enc(m.unknown0) + <Vec<u32> as Binary>::m_enc(m.unknown1)
    }

    open spec fn m_dec(b: Seq<u8>) -> Result<(PropModel, int), DecodeError> {
        match <String as Binary>::m_dec(b) {
            Err(e) => Err(e),
            Ok((unknown0, n1)) => match <Vec<u32> as Binary>::m_dec(b.skip(n1)) {
                Err(e) => Err(e),
                Ok((unknown1, n2)) => Ok((PropModel { unknown0, unknown1 }, n1 + n2)),
            },
        }
    }

    proof fn lemma_dec_ok(b: Seq<u8>) {
        <String as Binary>::lemma_dec_ok(b);
        if let Ok((_, n1)) = <String as Binary>::m_dec(b) {
            <Vec<u32> as Binary>::lemma_dec_ok(b.skip(n1));
        }
    }

    proof fn lemma_dec_enc(m: PropModel, rest: Seq<u8>) {
        let e1 = <String as Binary>::m_enc(m.unknown0);
        let e2 = <Vec<u32> as Binary>::m_enc(m.unknown1);
        assert(Self::m_enc(m) + rest =~= e1 + (e2 + rest));
        <String as Binary>::lemma_dec_enc(m.unknown0, e2 + rest);
        assert((e1 + (e2 + rest)).skip(e1.len() as int) =~= e2 + rest);
        <Vec<u32> as Binary>::lemma_dec_enc(m.unknown1, rest);
    }

    fn from_bytes(r: &mut BufferReader) -> (res: Result<Self, DecodeError>) {
        r.bounds_check();
        let ghost orig = *r;
        let unknown0 = String::from_bytes(r)?;
        proof {
            assert(r.rest() =~= orig.rest().skip(r.pos() - orig.pos()));
        }
        let unknown1 = <Vec<u32> as Binary>::from_bytes(r)?;
        Ok(Unknown0 { unknown0, unknown1 })
    }

    fn to_bytes(&self, w: &mut BufferWriter) {
        self.unknown0.to_bytes(w);
        self.unknown1.to_bytes(w);
    }
}

impl DeepView for Props {
    type V = Seq<PropModel>;

    open spec fn deep_view(&self) -> Seq<PropModel> {
        self.props.deep_view()
    }
}

impl Binary for Props {
    open spec fn m_wf(m: Seq<PropModel>) -> bool {
        <Vec<Unknown0> as Binary>::m_wf(m)
    }

    open spec fn m_enc(m: Seq<PropModel>) -> Seq<u8> {
        <Vec<Unknown0> as Binary>::m_enc(m)
    }

    open spec fn m_dec(b: Seq<u8>) -> Result<(Seq<PropModel>, int), DecodeError> {
        <Vec<Unknown0> as Binary>::m_dec(b)
    }

    proof fn lemma_dec_ok(b: Seq<u8>) {
        <Vec<Unknown0> as Binary>::lemma_dec_ok(b);
    }

    proof fn lemma_dec_enc(m: Seq<PropModel>, rest: Seq<u8>) {
        <Vec<Unknown0> as Binary>::lemma_dec_enc(m, rest);
    }

    fn from_bytes(r: &mut BufferReader) -> (res: Result<Self, DecodeError>) {
        let props = <Vec<Unknown0> as Binary>::from_bytes(r)?;
        Ok(Props { props })
    }

    fn to_bytes(&self, w: &mut BufferWriter) {
        self.props.to_bytes(w);
    }
}

} // verus!
