//! magic.cmp

use vstd::prelude::*;

use crate::buffer::{BufferReader, BufferWriter};
use crate::types::{
    dec_many, decode_many, enc_many, encode_many, lemma_dec_many_enc, lemma_dec_many_ok, Binary,
};
use crate::DecodeError;

verus! {

/// The spell table.
pub struct Magic {
    pub spells: Vec<SpellData>,
}

pub struct SpellData {
    pub id: u32,
    pub min_level: u32,
    pub max_level: u32,
    pub cast: u32,
    pub connect: u32,
    pub execute: u32,
    pub after: u32,
}

impl SpellData {
    /// The fields in stream order.
    pub open spec fn fields(self) -> Seq<u32> {
        seq![
            self.id,
            self.min_level,
            self.max_level,
            self.cast,
            self.connect,
            self.execute,
            self.after,
        ]
    }
}

impl DeepView for SpellData {
    type V = SpellData;

    open spec fn deep_view(&self) -> SpellData {
        *self
    }
}

impl Binary for SpellData {
    open spec fn m_wf(m: SpellData) -> bool {
        true
    }

    open spec fn m_enc(m: SpellData) -> Seq<u8> {
        enc_many::<u32>(m.fields())
    }

    open spec fn m_dec(b: Seq<u8>) -> Result<(SpellData, int), DecodeError> {
        match dec_many::<u32>(b, 7) {
            Ok((ms, n)) => Ok(
                (
                    SpellData {
                        id: ms[0],
                        min_level: ms[1],
                        max_level: ms[2],
                        cast: ms[3],
                        connect: ms[4],
                        execute: ms[5],
                        after: ms[6],
                    },
                    n,
                ),
            ),
            Err(e) => Err(e),
        }
    }

    proof fn lemma_dec_ok(b: Seq<u8>) {
        lemma_dec_many_ok::<u32>(b, 7);
    }

    proof fn lemma_dec_enc(m: SpellData, rest: Seq<u8>) {
        lemma_dec_many_enc::<u32>(m.fields(), rest);
    }

    fn from_bytes(r: &mut BufferReader) -> (res: Result<Self, DecodeError>) {
        let ghost orig = *r;
        let ms = decode_many::<u32>(r, 7)?;
        proof {
            lemma_dec_many_ok::<u32>(orig.rest(), 7);
            assert(ms.deep_view() =~= ms@);
        }
        Ok(
            SpellData {
                id: ms[0],
                min_level: ms[1],
                max_level: ms[2],
                cast: ms[3],
                connect: ms[4],
                execute: ms[5],
                after: ms[6],
            },
        )
    }

    fn to_bytes(&self, w: &mut BufferWriter) {
        let v: Vec<u32> = vec![
            self.id,
            self.min_level,
            self.max_level,
            self.cast,
            self.connect,
            self.execute,
            self.after,
        ];
        proof {
            assert(v.deep_view() =~= self.deep_view().fields());
        }
        encode_many::<u32>(&v, w);
    }
}

impl DeepView for Magic {
    type V = Seq<SpellData>;

    open spec fn deep_view(&self) -> Seq<SpellData> {
        self.spells.deep_view()
    }
}

impl Binary for Magic {
    open spec fn m_wf(m: Seq<SpellData>) -> bool {
        <Vec<SpellData> as Binary>::m_wf(m)
    }

    open spec fn m_enc(m: Seq<SpellData>) -> Seq<u8> {
        <Vec<SpellData> as Binary>::m_enc(m)
    }

    open spec fn m_dec(b: Seq<u8>) -> Result<(Seq<SpellData>, int), DecodeError> {
        <Vec<SpellData> as Binary>::m_dec(b)
    }

    proof fn lemma_dec_ok(b: Seq<u8>) {
        <Vec<SpellData> as Binary>::lemma_dec_ok(b);
    }

    proof fn lemma_dec_enc(m: Seq<SpellData>, rest: Seq<u8>) {
        <Vec<SpellData> as Binary>::lemma_dec_enc(m, rest);
    }

    fn from_bytes(r: &mut BufferReader) -> (res: Result<Self, DecodeError>) {
        let spells = <Vec<SpellData> as Binary>::from_bytes(r)?;
        Ok(Magic { spells })
    }

    fn to_bytes(&self, w: &mut BufferWriter) {
        self.spells.to_bytes(w);
    }
}

} // verus!
