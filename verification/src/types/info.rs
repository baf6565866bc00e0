//! info.000

use vstd::prelude::*;

use crate::buffer::{BufferReader, BufferWriter};
use crate::types::{
    dec_many, decode_many, enc_many, encode_many, lemma_dec_many_enc, lemma_dec_many_ok, Binary,
};
use crate::DecodeError;

verus! {

/// The player's vitals block.
pub struct Info {
    pub unknown0: u32,
    pub unknown1: u32,
    pub unknown2: u32,
    pub current_health: u32,
    pub current_mana: u32,
    pub unknown3: u32,
    pub unknown4: u32,
    pub unknown5: u32,
}

impl Info {
    /// The fields in stream order.
    pub open spec fn fields(self) -> Seq<u32> {
        seq![
            self.unknown0,
            self.unknown1,
            self.unknown2,
            self.current_health,
            self.current_mana,
            self.unknown3,
            self.unknown4,
            self.unknown5,
        ]
    }
}

impl DeepView for Info {
    type V = Info;

    open spec fn deep_view(&self) -> Info {
        *self
    }
}

impl Binary for Info {
    open spec fn m_wf(m: Info) -> bool {
        true
    }

    open spec fn m_enc(m: Info) -> Seq<u8> {
        enc_many::<u32>(m.fields())
    }

    open spec fn m_dec(b: Seq<u8>) -> Result<(Info, int), DecodeError> {
        match dec_many::<u32>(b, 8) {
            Ok((ms, n)) => Ok(
                (
                    Info {
                        unknown0: ms[0],
                        unknown1: ms[1],
                        unknown2: ms[2],
                        current_health: ms[3],
                        current_mana: ms[4],
                        unknown3: ms[5],
                        unknown4: ms[6],
                        unknown5: ms[7],
                    },
                    n,
                ),
            ),
            Err(e) => Err(e),
        }
    }

    proof fn lemma_dec_ok(b: Seq<u8>) {
        lemma_dec_many_ok::<u32>(b, 8);
    }

    proof fn lemma_dec_enc(m: Info, rest: Seq<u8>) {
        lemma_dec_many_enc::<u32>(m.fields(), rest);
    }

    fn from_bytes(r: &mut BufferReader) -> (res: Result<Self, DecodeError>) {
        let ghost orig = *r;
        let ms = decode_many::<u32>(r, 8)?;
        proof {
            lemma_dec_many_ok::<u32>(orig.rest(), 8);
            assert(ms.deep_view() =~= ms@);
        }
        Ok(
            Info {
                unknown0: ms[0],
                unknown1: ms[1],
                unknown2: ms[2],
                current_health: ms[3],
                current_mana: ms[4],
                unknown3: ms[5],
                unknown4: ms[6],
                unknown5: ms[7],
            },
        )
    }

    fn to_bytes(&self, w: &mut BufferWriter) {
        let v: Vec<u32> = vec![
            self.unknown0,
            self.unknown1,
            self.unknown2,
            self.current_health,
            self.current_mana,
            self.unknown3,
            self.unknown4,
            self.unknown5,
        ];
        proof {
            assert(v.deep_view() =~= self.deep_view().fields());
        }
        encode_many::<u32>(&v, w);
    }
}

} // verus!
