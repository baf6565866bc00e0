//! statuspl.cmp

use vstd::prelude::*;

use crate::buffer::{BufferReader, BufferWriter};
use crate::types::{Binary, FixedArray};
use crate::DecodeError;

verus! {

/// The status plate grid.
pub struct StatusPlate {
    pub unknown: FixedArray<FixedArray<u32, 9>, 10>,
}

impl DeepView for StatusPlate {
    type V = Seq<Seq<u32>>;

    open spec fn deep_view(&self) -> Seq<Seq<u32>> {
        self.unknown.deep_view()
    }
}

impl Binary for StatusPlate {
    open spec fn m_wf(m: Seq<Seq<u32>>) -> bool {
        <FixedArray<FixedArray<u32, 9>, 10> as Binary>::m_wf(m)
    }

    open spec fn m_enc(m: Seq<Seq<u32>>) -> Seq<u8> {
        <FixedArray<FixedArray<u32, 9>, 10> as Binary>::m_enc(m)
    }

    open spec fn m_dec(b: Seq<u8>) -> Result<(Seq<Seq<u32>>, int), DecodeError> {
        <FixedArray<FixedArray<u32, 9>, 10> as Binary>::m_dec(b)
    }

    proof fn lemma_dec_ok(b: Seq<u8>) {
        <FixedArray<FixedArray<u32, 9>, 10> as Binary>::lemma_dec_ok(b);
    }

    proof fn lemma_dec_enc(m: Seq<Seq<u32>>, rest: Seq<u8>) {
        <FixedArray<FixedArray<u32, 9>, 10> as Binary>::lemma_dec_enc(m, rest);
    }

    fn from_bytes(r: &mut BufferReader) -> (res: Result<Self, DecodeError>) {
        let unknown = <FixedArray<FixedArray<u32, 9>, 10> as Binary>::from_bytes(r)?;
        Ok(StatusPlate { unknown })
    }

    fn to_bytes(&self, w: &mut BufferWriter) {
        self.unknown.to_bytes(w);
    }
}

} // verus!
