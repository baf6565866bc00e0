//! reverbs.dat
//!
//! Ten of the numeric fields are 32-bit floating-point numbers in the file;
//! they are carried here as their little-endian bit patterns, which
//! round-trip byte-exactly.

use vstd::prelude::*;

use crate::buffer::{BufferReader, BufferWriter};
use crate::types::{
    dec_many, decode_many, enc_many, encode_many, lemma_dec_many_enc, lemma_dec_many_ok, Binary,
};
use crate::DecodeError;

verus! {

/// The reverb presets.
pub struct Reverbs {
    pub elements: Vec<Unknown0>,
}

pub struct Unknown0 {
    pub name: String,
    pub unknown0: u32,
    pub unknown1: u32,
    pub unknown2: u32,
    pub unknown3: u32,
    pub unknown4: u32,
    pub unknown5: u32,
    pub unknown6: u32,
    pub unknown7: u32,
    pub unknown8: u32,
    pub unknown9: u32,
    pub unknown10: u32,
    pub unknown11: u32,
    pub unknown12: u32,
    pub unknown13: Vec<String>,
}

/// The model of a reverb preset.
pub struct ReverbModel {
    pub name: Seq<char>,
    pub numbers: Seq<u32>,
    pub unknown13: Seq<Seq<char>>,
}

impl Unknown0 {
    /// The numeric fields in stream order.
    pub open spec fn numbers(&self) -> Seq<u32> {
        seq![
            self.unknown0,
            self.unknown1,
            self.unknown2,
            self.unknown3,
            self.unknown4,
            self.unknown5,
            self.unknown6,
            self.unknown7,
            self.unknown8,
            self.unknown9,
            self.unknown10,
            self.unknown11,
            self.unknown12,
        ]
    }
}

impl DeepView for Unknown0 {
    type V = ReverbModel;

    open spec fn deep_view(&self) -> ReverbModel {
        ReverbModel {
            name: self.name.deep_view(),
            numbers: self.numbers(),
            unknown13: self.unknown13.deep_view(),
        }
    }
}

impl Binary for Unknown0 {
    open spec fn m_wf(m: ReverbModel) -> bool {
        &&& <String as Binary>::m_wf(m.name)
        &&& m.numbers.len() == 13
        &&& <Vec<String> as Binary>::m_wf(m.unknown13)
    }

    open spec fn m_enc(m: ReverbModel) -> Seq<u8> {
        <String as Binary>::m_enc(m.name) + enc_many::<u32>(m.numbers)
            + <Vec<String> as Binary>::m_enc(m.unknown13)
    }

    open spec fn m_dec(b: Seq<u8>) -> Result<(ReverbModel, int), DecodeError> {
        match <String as Binary>::m_dec(b) {
            Err(e) => Err(e),
            Ok((name, n1)) => match dec_many::<u32>(b.skip(n1), 13) {
                Err(e) => Err(e),
                Ok((numbers, n2)) => match <Vec<String> as Binary>::m_dec(b.skip(n1 + n2)) {
                    Err(e) => Err(e),
                    Ok((unknown13, n3)) => Ok(
                        (ReverbModel { name, numbers, unknown13 }, n1 + n2 + n3),
                    ),
                },
            },
        }
    }

    proof fn lemma_dec_ok(b: Seq<u8>) {
        <String as Binary>::lemma_dec_ok(b);
        if let Ok((_, n1)) = <String as Binary>::m_dec(b) {
            lemma_dec_many_ok::<u32>(b.skip(n1), 13);
            if let Ok((_, n2)) = dec_many::<u32>(b.skip(n1), 13) {
                <Vec<String> as Binary>::lemma_dec_ok(b.skip(n1 + n2));
            }
        }
    }

    proof fn lemma_dec_enc(m: ReverbModel, rest: Seq<u8>) {
        let e1 = <String as Binary>::m_enc(m.name);
        let e2 = enc_many::<u32>(m.numbers);
        let e3 = <Vec<String> as Binary>::m_enc(m.unknown13);
        assert(Self::m_enc(m) + rest =~= e1 + (e2 + (e3 + rest)));
        <String as Binary>::lemma_dec_enc(m.name, e2 + (e3 + rest));
        assert((e1 + (e2 + (e3 + rest))).skip(e1.len() as int) =~= e2 + (e3 + rest));
        lemma_dec_many_enc::<u32>(m.numbers, e3 + rest);
        assert((e1 + (e2 + (e3 + rest))).skip(e1.len() as int + e2.len() as int) =~= e3 + rest);
        <Vec<String> as Binary>::lemma_dec_enc(m.unknown13, rest);
    }

    fn from_bytes(r: &mut BufferReader) -> (res: Result<Self, DecodeError>) {
        r.bounds_check();
        let ghost orig = *r;
        let name = String::from_bytes(r)?;
        let ghost mid = *r;
        proof {
            assert(r.rest() =~= orig.rest().skip(r.pos() - orig.pos()));
        }
        let ms = decode_many::<u32>(r, 13)?;
        proof {
            lemma_dec_many_ok::<u32>(mid.rest(), 13);
            assert(ms.deep_view() =~= ms@);
            assert(r.rest() =~= orig.rest().skip(r.pos() - orig.pos()));
        }
        let unknown13 = <Vec<String> as Binary>::from_bytes(r)?;
        let result = Unknown0 {
                name,
                unknown0: ms[0],
                unknown1: ms[1],
                unknown2: ms[2],
                unknown3: ms[3],
                unknown4: ms[4],
                unknown5: ms[5],
                unknown6: ms[6],
                unknown7: ms[7],
                unknown8: ms[8],
                unknown9: ms[9],
                unknown10: ms[10],
                unknown11: ms[11],
                unknown12: ms[12],
                unknown13,
            };
        proof {
            assert(result.numbers() =~= ms@);
        }
        Ok(result)
    }

    fn to_bytes(&self, w: &mut BufferWriter) {
        self.name.to_bytes(w);
        let v: Vec<u32> = vec![
            self.unknown0,
            self.unknown1,
            self.unknown2,
            self.unknown3,
            self.unknown4,
            self.unknown5,
            self.unknown6,
            self.unknown7,
            self.unknown8,
            self.unknown9,
            self.unknown10,
            self.unknown11,
            self.unknown12,
        ];
        proof {
            assert(v.deep_view() =~= self.numbers());
        }
        encode_many::<u32>(&v, w);
        self.unknown13.to_bytes(w);
    }
}

impl DeepView for Reverbs {
    type V = Seq<ReverbModel>;

    open spec fn deep_view(&self) -> Seq<ReverbModel> {
        self.elements.deep_view()
    }
}

impl Binary for Reverbs {
    open spec fn m_wf(m: Seq<ReverbModel>) -> bool {
        <Vec<Unknown0> as Binary>::m_wf(m)
    }

    open spec fn m_enc(m: Seq<ReverbModel>) -> Seq<u8> {
        <Vec<Unknown0> as Binary>::m_enc(m)
    }

    open spec fn m_dec(b: Seq<u8>) -> Result<(Seq<ReverbModel>, int), DecodeError> {
        <Vec<Unknown0> as Binary>::m_dec(b)
    }

    proof fn lemma_dec_ok(b: Seq<u8>) {
        <Vec<Unknown0> as Binary>::lemma_dec_ok(b);
    }

    proof fn lemma_dec_enc(m: Seq<ReverbModel>, rest: Seq<u8>) {
        <Vec<Unknown0> as Binary>::lemma_dec_enc(m, rest);
    }

    fn from_bytes(r: &mut BufferReader) -> (res: Result<Self, DecodeError>) {
        let elements = <Vec<Unknown0> as Binary>::from_bytes(r)?;
        Ok(Reverbs { elements })
    }

    fn to_bytes(&self, w: &mut BufferWriter) {
        self.elements.to_bytes(w);
    }
}

} // verus!
