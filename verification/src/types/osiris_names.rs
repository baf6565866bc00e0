//! osinames.000

use vstd::prelude::*;

use crate::buffer::{le32_bytes, BufferReader, BufferWriter};
use crate::types::{Binary, FixedCString};
use crate::DecodeError;

verus! {

/// The script name table.
pub struct OsirisNames {
    pub names: Vec<Name>,
}

pub struct Name {
    pub id: u32,
    pub name: FixedCString<32>,
}

/// The model of a name record.
pub struct NameModel {
    pub id: u32,
    pub name: Seq<u8>,
}

impl DeepView for Name {
    type V = NameModel;

    open spec fn deep_view(&self) -> NameModel {
        NameModel { id: self.id, name: self.name.deep_view() }
    }
}

impl Binary for Name {
    open spec fn m_wf(m: NameModel) -> bool {
        <FixedCString<32> as Binary>::m_wf(m.name)
    }

    open spec fn m_enc(m: NameModel) -> Seq<u8> {
        le32_bytes(m.id) + <FixedCString<32> as Binary>::m_enc(m.name)
    }

    open spec fn m_dec(b: Seq<u8>) -> Result<(NameModel, int), DecodeError> {
        match <u32 as Binary>::m_dec(b) {
            Err(e) => Err(e),
            Ok((id, n1)) => match <FixedCString<32> as Binary>::m_dec(b.skip(n1)) {
                Err(e) => Err(e),
                Ok((name, n2)) => Ok((NameModel { id, name }, n1 + n2)),
            },
        }
    }

    proof fn lemma_dec_ok(b: Seq<u8>) {
        <u32 as Binary>::lemma_dec_ok(b);
        if let Ok((_, n1)) = <u32 as Binary>::m_dec(b) {
            <FixedCString<32> as Binary>::lemma_dec_ok(b.skip(n1));
        }
    }

    proof fn lemma_dec_enc(m: NameModel, rest: Seq<u8>) {
        let e1 = <u32 as Binary>::m_enc(m.id);
        let e2 = <FixedCString<32> as Binary>::m_enc(m.name);
        assert(Self::m_enc(m) + rest =~= e1 + (e2 + rest));
        <u32 as Binary>::lemma_dec_enc(m.id, e2 + rest);
        assert((e1 + (e2 + rest)).skip(e1.len() as int) =~= e2 + rest);
        <FixedCString<32> as Binary>::lemma_dec_enc(m.name, rest);
    }

    fn from_bytes(r: &mut BufferReader) -> (res: Result<Self, DecodeError>) {
        r.bounds_check();
        let ghost orig = *r;
        let id = u32::from_bytes(r)?;
        proof {
            assert(r.rest() =~= orig.rest().skip(r.pos() - orig.pos()));
        }
        let name = <FixedCString<32> as Binary>::from_bytes(r)?;
        Ok(Name { id, name })
    }

    fn to_bytes(&self, w: &mut BufferWriter) {
        self.id.to_bytes(w);
        self.name.to_bytes(w);
    }
}

impl DeepView for OsirisNames {
    type V = Seq<NameModel>;

    open spec fn deep_view(&self) -> Seq<NameModel> {
        self.names.deep_view()
    }
}

impl Binary for OsirisNames {
    open spec fn m_wf(m: Seq<NameModel>) -> bool {
        <Vec<Name> as Binary>::m_wf(m)
    }

    open spec fn m_enc(m: Seq<NameModel>) -> Seq<u8> {
        <Vec<Name> as Binary>::m_enc(m)
    }

    open spec fn m_dec(b: Seq<u8>) -> Result<(Seq<NameModel>, int), DecodeError> {
        <Vec<Name> as Binary>::m_dec(b)
    }

    proof fn lemma_dec_ok(b: Seq<u8>) {
        <Vec<Name> as Binary>::lemma_dec_ok(b);
    }

    proof fn lemma_dec_enc(m: Seq<NameModel>, rest: Seq<u8>) {
        <Vec<Name> as Binary>::lemma_dec_enc(m, rest);
    }

    fn from_bytes(r: &mut BufferReader) -> (res: Result<Self, DecodeError>) {
        let names = <Vec<Name> as Binary>::from_bytes(r)?;
        Ok(OsirisNames { names })
    }

    fn to_bytes(&self, w: &mut BufferWriter) {
        self.names.to_bytes(w);
    }
}

} // verus!
