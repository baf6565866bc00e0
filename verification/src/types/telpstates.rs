//! telpstates.000

use vstd::prelude::*;

use crate::buffer::{BufferReader, BufferWriter};
use crate::types::{
    dec_many, decode_many, enc_many, encode_many, lemma_dec_many_enc, lemma_dec_many_ok, Binary,
};
use crate::DecodeError;

verus! {

/// The teleporter states.
pub struct TelpStates {
    pub states: Vec<State>,
}

pub struct State {
    pub unknown0: u32,
    pub unknown1: u32,
}

impl State {
    /// The fields in stream order.
    pub open spec fn fields(self) -> Seq<u32> {
        seq![self.unknown0, self.unknown1]
    }
}

impl DeepView for State {
    type V = State;

    open spec fn deep_view(&self) -> State {
        *self
    }
}

impl Binary for State {
    open spec fn m_wf(m: State) -> bool {
        true
    }

    open spec fn m_enc(m: State) -> Seq<u8> {
        enc_many::<u32>(m.fields())
    }

    open spec fn m_dec(b: Seq<u8>) -> Result<(State, int), DecodeError> {
        match dec_many::<u32>(b, 2) {
            Ok((ms, n)) => Ok((State { unknown0: ms[0], unknown1: ms[1] }, n)),
            Err(e) => Err(e),
        }
    }

    proof fn lemma_dec_ok(b: Seq<u8>) {
        lemma_dec_many_ok::<u32>(b, 2);
    }

    proof fn lemma_dec_enc(m: State, rest: Seq<u8>) {
        lemma_dec_many_enc::<u32>(m.fields(), rest);
    }

    fn from_bytes(r: &mut BufferReader) -> (res: Result<Self, DecodeError>) {
        let ghost orig = *r;
        let ms = decode_many::<u32>(r, 2)?;
        proof {
            lemma_dec_many_ok::<u32>(orig.rest(), 2);
            assert(ms.deep_view() =~= ms@);
        }
        Ok(State { unknown0: ms[0], unknown1: ms[1] })
    }

    fn to_bytes(&self, w: &mut BufferWriter) {
        let v: Vec<u32> = vec![self.unknown0, self.unknown1];
        proof {
            assert(v.deep_view() =~= self.deep_view().fields());
        }
        encode_many::<u32>(&v, w);
    }
}

impl DeepView for TelpStates {
    type V = Seq<State>;

    open spec fn deep_view(&self) -> Seq<State> {
        self.states.deep_view()
    }
}

impl Binary for TelpStates {
    open spec fn m_wf(m: Seq<State>) -> bool {
        <Vec<State> as Binary>::m_wf(m)
    }

    open spec fn m_enc(m: Seq<State>) -> Seq<u8> {
        <Vec<State> as Binary>::m_enc(m)
    }

    open spec fn m_dec(b: Seq<u8>) -> Result<(Seq<State>, int), DecodeError> {
        <Vec<State> as Binary>::m_dec(b)
    }

    proof fn lemma_dec_ok(b: Seq<u8>) {
        <Vec<State> as Binary>::lemma_dec_ok(b);
    }

    proof fn lemma_dec_enc(m: Seq<State>, rest: Seq<u8>) {
        <Vec<State> as Binary>::lemma_dec_enc(m, rest);
    }

    fn from_bytes(r: &mut BufferReader) -> (res: Result<Self, DecodeError>) {
        let states = <Vec<State> as Binary>::from_bytes(r)?;
        Ok(TelpStates { states })
    }

    fn to_bytes(&self, w: &mut BufferWriter) {
        self.states.to_bytes(w);
    }
}

} // verus!
