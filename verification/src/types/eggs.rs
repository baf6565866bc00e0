//! eggs.000

use vstd::prelude::*;

use crate::buffer::{BufferReader, BufferWriter};
use crate::types::{Binary, FixedArray};
use crate::DecodeError;

verus! {

/// The egg table.
pub struct Eggs {
    pub eggs: Vec<Egg>,
}

pub struct Egg {
    pub unknown0: FixedArray<u32, 23>,
}

impl DeepView for Egg {
    type V = Seq<u32>;

    open spec fn deep_view(&self) -> Seq<u32> {
        self.unknown0.deep_view()
    }
}

impl Binary for Egg {
    open spec fn m_wf(m: Seq<u32>) -> bool {
        <FixedArray<u32, 23> as Binary>::m_wf(m)
    }

    open spec fn m_enc(m: Seq<u32>) -> Seq<u8> {
        <FixedArray<u32, 23> as Binary>::m_enc(m)
    }

    open spec fn m_dec(b: Seq<u8>) -> Result<(Seq<u32>, int), DecodeError> {
        <FixedArray<u32, 23> as Binary>::m_dec(b)
    }

    proof fn lemma_dec_ok(b: Seq<u8>) {
        <FixedArray<u32, 23> as Binary>::lemma_dec_ok(b);
    }

    proof fn lemma_dec_enc(m: Seq<u32>, rest: Seq<u8>) {
        <FixedArray<u32, 23> as Binary>::lemma_dec_enc(m, rest);
    }

    fn from_bytes(r: &mut BufferReader) -> (res: Result<Self, DecodeError>) {
        let unknown0 = <FixedArray<u32, 23> as Binary>::from_bytes(r)?;
        Ok(Egg { unknown0 })
    }

    fn to_bytes(&self, w: &mut BufferWriter) {
        self.unknown0.to_bytes(w);
    }
}

impl DeepView for Eggs {
    type V = Seq<Seq<u32>>;

    open spec fn deep_view(&self) -> Seq<Seq<u32>> {
        self.eggs.deep_view()
    }
}

impl Binary for Eggs {
    open spec fn m_wf(m: Seq<Seq<u32>>) -> bool {
        <Vec<Egg> as Binary>::m_wf(m)
    }

    open spec fn m_enc(m: Seq<Seq<u32>>) -> Seq<u8> {
        <Vec<Egg> as Binary>::m_enc(m)
    }

    open spec fn m_dec(b: Seq<u8>) -> Result<(Seq<Seq<u32>>, int), DecodeError> {
        <Vec<Egg> as Binary>::m_dec(b)
    }

    proof fn lemma_dec_ok(b: Seq<u8>) {
        <Vec<Egg> as Binary>::lemma_dec_ok(b);
    }

    proof fn lemma_dec_enc(m: Seq<Seq<u32>>, rest: Seq<u8>) {
        <Vec<Egg> as Binary>::lemma_dec_enc(m, rest);
    }

    fn from_bytes(r: &mut BufferReader) -> (res: Result<Self, DecodeError>) {
        let eggs = <Vec<Egg> as Binary>::from_bytes(r)?;
        Ok(Eggs { eggs })
    }

    fn to_bytes(&self, w: &mut BufferWriter) {
        self.eggs.to_bytes(w);
    }
}

} // verus!
