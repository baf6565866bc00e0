//! .fnt
//!
//! Glyph pixel data is skipped on decode: only each glyph's header and the
//! length of its buffer are kept, and encoding writes a zeroed buffer of the
//! recorded length.  The 1024 bytes after the glyph count are skipped the
//! same way and written back as zeros.

use vstd::prelude::*;

use crate::buffer::{le32_bytes, BufferReader, BufferWriter};
use crate::types::{
    dec_many, decode_many, enc_many, encode_many, lemma_dec_many_enc, lemma_dec_many_ok,
    lemma_dec_many_sized, wf_many, Binary, FixedArray,
};
use crate::DecodeError;

verus! {

/// A font file.
pub struct Font {
    pub unknown0: FixedArray<u8, 18>,
    pub glyph_count: u32,
    pub glyphs: Vec<GlyphData>,
}

pub struct GlyphData {
    pub unknown0: FixedArray<u8, 20>,
    pub character: char,
    pub buffer_length: u32,
    pub buffer: Vec<u8>,
}

/// The model of a glyph.
pub struct GlyphModel {
    pub unknown0: Seq<u8>,
    pub character: char,
    pub buffer_length: u32,
    pub buffer: Seq<u8>,
}

/// The model of a font file.
pub struct FontModel {
    pub unknown0: Seq<u8>,
    pub glyph_count: u32,
    pub glyphs: Seq<GlyphModel>,
}

/// The decoder of a raw byte consumes exactly one byte.
proof fn lemma_u8_sized(b: Seq<u8>, count: int)
    requires
        count >= 0,
    ensures
        dec_many::<u8>(b, count) matches Ok((ms, n)) ==> n == count,
        b.len() < count ==> dec_many::<u8>(b, count) == Err::<(Seq<u8>, int), DecodeError>(
            DecodeError::Truncated,
        ),
{
    assert(forall|b2: Seq<u8>| #[trigger] <u8 as Binary>::m_dec(b2) matches Ok((m, n)) ==> n == 1);
    assert(forall|b2: Seq<u8>| b2.len() < 1 ==> #[trigger] <u8 as Binary>::m_dec(b2) == Err::<
        (u8, int),
        DecodeError,
    >(DecodeError::Truncated));
    assert(forall|b2: Seq<u8>| b2.len() >= 1 ==> #[trigger] <u8 as Binary>::m_dec(b2) is Ok);
    lemma_dec_many_sized::<u8>(b, count, 1);
}

impl DeepView for GlyphData {
    type V = GlyphModel;

    open spec fn deep_view(&self) -> GlyphModel {
        GlyphModel {
            unknown0: self.unknown0.deep_view(),
            character: self.character,
            buffer_length: self.buffer_length,
            buffer: self.buffer.deep_view(),
        }
    }
}

/// The tail of a glyph once its header is read: the buffer length field must
/// cover its own four bytes, and the buffer and its terminator are skipped.
pub open spec fn dec_glyph_tail(b: Seq<u8>, unknown0: Seq<u8>, character: char, blen: u32) -> Result<
    (GlyphModel, int),
    DecodeError,
> {
    if blen < 4 {
        Err(DecodeError::Malformed)
    } else if b.len() < 23 + blen {
        Err(DecodeError::Truncated)
    } else {
        Ok(
            (
                GlyphModel { unknown0, character, buffer_length: blen, buffer: Seq::<u8>::empty() },
                23 + blen,
            ),
        )
    }
}

impl Binary for GlyphData {
    open spec fn m_wf(m: GlyphModel) -> bool {
        &&& m.unknown0.len() == 20
        &&& (m.character as u32) < 256
        &&& m.buffer_length >= 4
        &&& m.buffer.len() == 0
    }

    open spec fn m_enc(m: GlyphModel) -> Seq<u8> {
        m.unknown0 + seq![((m.character as u32) as u8)] + seq![0u8] + le32_bytes(m.buffer_length)
            + Seq::<u8>::new((m.buffer_length - 4) as nat, |i: int| 0u8) + seq![0u8]
    }

    open spec fn m_dec(b: Seq<u8>) -> Result<(GlyphModel, int), DecodeError> {
        match dec_many::<u8>(b, 20) {
            Err(e) => Err(e),
            Ok((unknown0, _)) => if b.len() < 22 {
                Err(DecodeError::Truncated)
            } else {
                match <u32 as Binary>::m_dec(b.skip(22)) {
                    Err(e) => Err(e),
                    Ok((blen, _)) => dec_glyph_tail(b, unknown0, b[20] as char, blen),
                }
            },
        }
    }

    proof fn lemma_dec_ok(b: Seq<u8>) {
        lemma_u8_sized(b, 20);
        lemma_dec_many_ok::<u8>(b, 20);
    }

    proof fn lemma_dec_enc(m: GlyphModel, rest: Seq<u8>) {
        let e1 = m.unknown0;
        let mid = seq![((m.character as u32) as u8)] + seq![0u8] + le32_bytes(m.buffer_length)
            + Seq::<u8>::new((m.buffer_length - 4) as nat, |i: int| 0u8) + seq![0u8];
        let b = Self::m_enc(m) + rest;
        assert(b =~= e1 + (mid + rest));
        assert(enc_many::<u8>(e1) =~= e1) by {
            lemma_bytes_enc_self(e1);
        }
        lemma_dec_many_enc::<u8>(e1, mid + rest);
        assert(dec_many::<u8>(b, 20) == Ok::<(Seq<u8>, int), DecodeError>((e1, 20)));
        assert(b.len() == 20 + 2 + 4 + (m.buffer_length - 4) + 1 + rest.len());
        assert(b[20] == ((m.character as u32) as u8));
        assert((((m.character as u32) as u8) as char) == m.character);
        let e4 = le32_bytes(m.buffer_length);
        assert(b.skip(22) =~= e4 + (Seq::<u8>::new((m.buffer_length - 4) as nat, |i: int| 0u8) + (
        seq![0u8] + rest)));
        <u32 as Binary>::lemma_dec_enc(
            m.buffer_length,
            Seq::<u8>::new((m.buffer_length - 4) as nat, |i: int| 0u8) + (seq![0u8] + rest),
        );
        assert(m.buffer =~= Seq::<u8>::empty());
        assert(Self::m_enc(m).len() == 23 + m.buffer_length);
    }

    fn from_bytes(r: &mut BufferReader) -> (res: Result<Self, DecodeError>) {
        r.bounds_check();
        let ghost orig = *r;
        let header = decode_many::<u8>(r, 20)?;
        proof {
            lemma_u8_sized(orig.rest(), 20);
            assert(r.rest() =~= orig.rest().skip(20));
        }
        if r.remaining() < 2 {
            return Err(DecodeError::Truncated);
        }
        let ch = r.read_u8()?;
        let character = ch as char;
        r.skip(1);
        proof {
            assert(orig.rest()[20] == ch);
            assert(r.rest() =~= orig.rest().skip(22));
        }
        let buffer_length = u32::from_bytes(r)?;
        if buffer_length < 4 {
            return Err(DecodeError::Malformed);
        }
        let skip_amt = (buffer_length - 4) as usize;
        if r.remaining() < 1 || r.remaining() - 1 < skip_amt {
            return Err(DecodeError::Truncated);
        }
        r.skip(skip_amt);
        // The recorded buffer ends with a terminator byte.
        r.skip(1);
        let unknown0 = FixedArray { elements: header };
        let result = GlyphData { unknown0, character, buffer_length, buffer: Vec::new() };
        proof {
            assert(result.buffer.deep_view() =~= Seq::<u8>::empty());
        }
        Ok(result)
    }

    fn to_bytes(&self, w: &mut BufferWriter) {
        w.write_bytes(self.unknown0.elements.as_slice());
        w.write_u8((self.character as u32) as u8);
        w.write_u8(0);
        w.write_u32(self.buffer_length);
        w.pad(((self.buffer_length - 4) as usize));
        w.write_u8(0);
        proof {
            assert(self.unknown0.elements.deep_view() =~= self.unknown0.elements@);
            assert(final(w).data() =~= old(w).data() + Self::m_enc(self.deep_view()));
        }
    }
}

/// Raw bytes encode to themselves.
proof fn lemma_bytes_enc_self(bs: Seq<u8>)
    ensures
        enc_many::<u8>(bs) =~= bs,
    decreases bs.len(),
{
    if bs.len() > 0 {
        lemma_bytes_enc_self(bs.drop_first());
    }
}

impl DeepView for Font {
    type V = FontModel;

    open spec fn deep_view(&self) -> FontModel {
        FontModel {
            unknown0: self.unknown0.deep_view(),
            glyph_count: self.glyph_count,
            glyphs: self.glyphs.deep_view(),
        }
    }
}

impl Binary for Font {
    open spec fn m_wf(m: FontModel) -> bool {
        &&& m.unknown0.len() == 18
        &&& m.glyph_count == m.glyphs.len()
        &&& wf_many::<GlyphData>(m.glyphs)
    }

    open spec fn m_enc(m: FontModel) -> Seq<u8> {
        m.unknown0 + le32_bytes(m.glyph_count) + Seq::<u8>::new(1024, |i: int| 0u8)
            + enc_many::<GlyphData>(m.glyphs)
    }

    open spec fn m_dec(b: Seq<u8>) -> Result<(FontModel, int), DecodeError> {
        match dec_many::<u8>(b, 18) {
            Err(e) => Err(e),
            Ok((unknown0, _)) => match <u32 as Binary>::m_dec(b.skip(18)) {
                Err(e) => Err(e),
                Ok((glyph_count, _)) => if b.len() < 1046 {
                    Err(DecodeError::Truncated)
                } else {
                    match dec_many::<GlyphData>(b.skip(1046), glyph_count as int) {
                        Err(e) => Err(e),
                        Ok((glyphs, n)) => Ok(
                            (FontModel { unknown0, glyph_count, glyphs }, 1046 + n),
                        ),
                    }
                },
            },
        }
    }

    proof fn lemma_dec_ok(b: Seq<u8>) {
        lemma_u8_sized(b, 18);
        lemma_dec_many_ok::<u8>(b, 18);
        if let Ok((glyph_count, _)) = <u32 as Binary>::m_dec(b.skip(18)) {
            if b.len() >= 1046 {
                lemma_dec_many_ok::<GlyphData>(b.skip(1046), glyph_count as int);
            }
        }
    }

    #[verifier::rlimit(100)]
    #[verifier::spinoff_prover]
    proof fn lemma_dec_enc(m: FontModel, rest: Seq<u8>) {
        let e1 = m.unknown0;
        let e2 = le32_bytes(m.glyph_count);
        let e3 = Seq::<u8>::new(1024, |i: int| 0u8);
        let e4 = enc_many::<GlyphData>(m.glyphs);
        let b = Self::m_enc(m) + rest;
        assert(b =~= e1 + (e2 + (e3 + (e4 + rest))));
        lemma_bytes_enc_self(e1);
        lemma_dec_many_enc::<u8>(e1, e2 + (e3 + (e4 + rest)));
        assert(dec_many::<u8>(b, 18) == Ok::<(Seq<u8>, int), DecodeError>((e1, 18)));
        assert(b.skip(18) =~= e2 + (e3 + (e4 + rest)));
        <u32 as Binary>::lemma_dec_enc(m.glyph_count, e3 + (e4 + rest));
        assert(b.len() >= 1046);
        assert(b.skip(1046) =~= e4 + rest);
        lemma_dec_many_enc::<GlyphData>(m.glyphs, rest);
    }

    fn from_bytes(r: &mut BufferReader) -> (res: Result<Self, DecodeError>) {
        r.bounds_check();
        let ghost orig = *r;
        let header = decode_many::<u8>(r, 18)?;
        proof {
            lemma_u8_sized(orig.rest(), 18);
            assert(r.rest() =~= orig.rest().skip(18));
        }
        let glyph_count = u32::from_bytes(r)?;
        if r.remaining() < 1024 {
            return Err(DecodeError::Truncated);
        }
        r.skip(1024);
        proof {
            assert(r.rest() =~= orig.rest().skip(1046));
        }
        let glyphs = decode_many::<GlyphData>(r, glyph_count as usize)?;
        proof {
            lemma_dec_many_ok::<GlyphData>(orig.rest().skip(1046), glyph_count as int);
        }
        let unknown0 = FixedArray { elements: header };
        Ok(Font { unknown0, glyph_count, glyphs })
    }

    fn to_bytes(&self, w: &mut BufferWriter) {
        w.write_bytes(self.unknown0.elements.as_slice());
        w.write_u32(self.glyph_count);
        w.pad(1024);
        encode_many::<GlyphData>(&self.glyphs, w);
        proof {
            assert(self.unknown0.elements.deep_view() =~= self.unknown0.elements@);
            assert(final(w).data() =~= old(w).data() + Self::m_enc(self.deep_view()));
        }
    }
}

} // verus!
