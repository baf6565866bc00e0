//! persist.dat

use vstd::prelude::*;

use crate::buffer::{BufferReader, BufferWriter};
use crate::types::{Binary, FixedArray};
use crate::DecodeError;

verus! {

/// The persistence table.
pub struct Persist {
    pub elements: Vec<Unknown0>,
}

pub struct Unknown0 {
    pub unknown0: FixedArray<u32, 8>,
}

impl DeepView for Unknown0 {
    type V = Seq<u32>;

    open spec fn deep_view(&self) -> Seq<u32> {
        self.unknown0.deep_view()
    }
}

impl Binary for Unknown0 {
    open spec fn m_wf(m: Seq<u32>) -> bool {
        <FixedArray<u32, 8> as Binary>::m_wf(m)
    }

    open spec fn m_enc(m: Seq<u32>) -> Seq<u8> {
        <FixedArray<u32, 8> as Binary>::m_enc(m)
    }

    open spec fn m_dec(b: Seq<u8>) -> Result<(Seq<u32>, int), DecodeError> {
        <FixedArray<u32, 8> as Binary>::m_dec(b)
    }

    proof fn lemma_dec_ok(b: Seq<u8>) {
        <FixedArray<u32, 8> as Binary>::lemma_dec_ok(b);
    }

    proof fn lemma_dec_enc(m: Seq<u32>, rest: Seq<u8>) {
        <FixedArray<u32, 8> as Binary>::lemma_dec_enc(m, rest);
    }

    fn from_bytes(r: &mut BufferReader) -> (res: Result<Self, DecodeError>) {
        let unknown0 = <FixedArray<u32, 8> as Binary>::from_bytes(r)?;
        Ok(Unknown0 { unknown0 })
    }

    fn to_bytes(&self, w: &mut BufferWriter) {
        self.unknown0.to_bytes(w);
    }
}

impl DeepView for Persist {
    type V = Seq<Seq<u32>>;

    open spec fn deep_view(&self) -> Seq<Seq<u32>> {
        self.elements.deep_view()
    }
}

impl Binary for Persist {
    open spec fn m_wf(m: Seq<Seq<u32>>) -> bool {
        <Vec<Unknown0> as Binary>::m_wf(m)
    }

    open spec fn m_enc(m: Seq<Seq<u32>>) -> Seq<u8> {
        <Vec<Unknown0> as Binary>::m_enc(m)
    }

    open spec fn m_dec(b: Seq<u8>) -> Result<(Seq<Seq<u32>>, int), DecodeError> {
        <Vec<Unknown0> as Binary>::m_dec(b)
    }

    proof fn lemma_dec_ok(b: Seq<u8>) {
        <Vec<Unknown0> as Binary>::lemma_dec_ok(b);
    }

    proof fn lemma_dec_enc(m: Seq<Seq<u32>>, rest: Seq<u8>) {
        <Vec<Unknown0> as Binary>::lemma_dec_enc(m, rest);
    }

    fn from_bytes(r: &mut BufferReader) -> (res: Result<Self, DecodeError>) {
        let elements = <Vec<Unknown0> as Binary>::from_bytes(r)?;
        Ok(Persist { elements })
    }

    fn to_bytes(&self, w: &mut BufferWriter) {
        self.elements.to_bytes(w);
    }
}

} // verus!
