//! quickinfo.000
//!
//! The thumbnail is stored as 16-bit pixels, one per cell of a grid whose
//! width and height precede it.

use vstd::prelude::*;

use crate::buffer::{le32_bytes, BufferReader, BufferWriter};
use crate::types::{
    dec_many, decode_many, enc_many, encode_many, lemma_dec_many_enc, lemma_dec_many_ok,
    lemma_dec_many_sized, Binary, FixedCString,
};
use crate::DecodeError;

verus! {

/// The save-game summary block.
pub struct QuickInfo {
    pub unknown0: u32,
    pub player_name: FixedCString<64>,
    pub thumbnail_width: u32,
    pub thumbnail_height: u32,
    pub game_version: FixedCString<64>,
    pub save_version: FixedCString<64>,
    pub thumbnail_image_data: Vec<u16>,
}

/// The model of the summary block.
pub struct QuickInfoModel {
    pub unknown0: u32,
    pub player_name: Seq<u8>,
    pub thumbnail_width: u32,
    pub thumbnail_height: u32,
    pub game_version: Seq<u8>,
    pub save_version: Seq<u8>,
    pub thumbnail_image_data: Seq<u16>,
}

impl DeepView for QuickInfo {
    type V = QuickInfoModel;

    open spec fn deep_view(&self) -> QuickInfoModel {
        QuickInfoModel {
            unknown0: self.unknown0,
            player_name: self.player_name.deep_view(),
            thumbnail_width: self.thumbnail_width,
            thumbnail_height: self.thumbnail_height,
            game_version: self.game_version.deep_view(),
            save_version: self.save_version.deep_view(),
            thumbnail_image_data: self.thumbnail_image_data.deep_view(),
        }
    }
}

/// The decoder of a 16-bit pixel consumes exactly two bytes.
proof fn lemma_u16_sized(b: Seq<u8>, count: int)
    requires
        count >= 0,
    ensures
        dec_many::<u16>(b, count) matches Ok((ms, n)) ==> n == 2 * count,
        b.len() < 2 * count ==> dec_many::<u16>(b, count) == Err::<(Seq<u16>, int), DecodeError>(
            DecodeError::Truncated,
        ),
{
    assert(forall|b2: Seq<u8>| #[trigger] <u16 as Binary>::m_dec(b2) matches Ok((m, n)) ==> n
        == 2);
    assert(forall|b2: Seq<u8>| b2.len() < 2 ==> #[trigger] <u16 as Binary>::m_dec(b2) == Err::<
        (u16, int),
        DecodeError,
    >(DecodeError::Truncated));
    assert(forall|b2: Seq<u8>| b2.len() >= 2 ==> #[trigger] <u16 as Binary>::m_dec(b2) is Ok);
    lemma_dec_many_sized::<u16>(b, count, 2);
}

/// The decoder of a 32-bit field consumes exactly four bytes.
proof fn lemma_u32_sized(b: Seq<u8>, count: int)
    requires
        count >= 0,
    ensures
        dec_many::<u32>(b, count) matches Ok((ms, n)) ==> n == 4 * count,
        b.len() < 4 * count ==> dec_many::<u32>(b, count) == Err::<(Seq<u32>, int), DecodeError>(
            DecodeError::Truncated,
        ),
{
    assert(forall|b2: Seq<u8>| #[trigger] <u32 as Binary>::m_dec(b2) matches Ok((m, n)) ==> n
        == 4);
    assert(forall|b2: Seq<u8>| b2.len() < 4 ==> #[trigger] <u32 as Binary>::m_dec(b2) == Err::<
        (u32, int),
        DecodeError,
    >(DecodeError::Truncated));
    assert(forall|b2: Seq<u8>| b2.len() >= 4 ==> #[trigger] <u32 as Binary>::m_dec(b2) is Ok);
    lemma_dec_many_sized::<u32>(b, count, 4);
}

impl Binary for QuickInfo {
    open spec fn m_wf(m: QuickInfoModel) -> bool {
        &&& <FixedCString<64> as Binary>::m_wf(m.player_name)
        &&& <FixedCString<64> as Binary>::m_wf(m.game_version)
        &&& <FixedCString<64> as Binary>::m_wf(m.save_version)
        &&& m.thumbnail_image_data.len() == m.thumbnail_width * m.thumbnail_height
    }

    open spec fn m_enc(m: QuickInfoModel) -> Seq<u8> {
        le32_bytes(m.unknown0) + <FixedCString<64> as Binary>::m_enc(m.player_name) + le32_bytes(
            m.thumbnail_width,
        ) + le32_bytes(m.thumbnail_height) + <FixedCString<64> as Binary>::m_enc(m.game_version)
            + <FixedCString<64> as Binary>::m_enc(m.save_version) + enc_many::<u16>(
            m.thumbnail_image_data,
        )
    }

    open spec fn m_dec(b: Seq<u8>) -> Result<(QuickInfoModel, int), DecodeError> {
        match <u32 as Binary>::m_dec(b) {
            Err(e) => Err(e),
            Ok((unknown0, _)) => match <FixedCString<64> as Binary>::m_dec(b.skip(4)) {
                Err(e) => Err(e),
                Ok((player_name, _)) => match dec_many::<u32>(b.skip(68), 2) {
                    Err(e) => Err(e),
                    Ok((wh, _)) => dec_quickinfo_tail(b, unknown0, player_name, wh[0], wh[1]),
                },
            },
        }
    }

    proof fn lemma_dec_ok(b: Seq<u8>) {
        <u32 as Binary>::lemma_dec_ok(b);
        if <u32 as Binary>::m_dec(b) is Ok {
            assert(b.len() >= 4);
            <FixedCString<64> as Binary>::lemma_dec_ok(b.skip(4));
            if <FixedCString<64> as Binary>::m_dec(b.skip(4)) is Ok {
                assert(b.skip(4).len() >= 64);
                assert(b.len() >= 68);
                lemma_dec_many_ok::<u32>(b.skip(68), 2);
                lemma_u32_sized(b.skip(68), 2);
                if let Ok((wh, n)) = dec_many::<u32>(b.skip(68), 2) {
                    assert(b.skip(68).len() >= 8);
                    assert(b.len() >= 76);
                    <FixedCString<64> as Binary>::lemma_dec_ok(b.skip(76));
                    if <FixedCString<64> as Binary>::m_dec(b.skip(76)) is Ok {
                        assert(b.len() >= 140);
                        <FixedCString<64> as Binary>::lemma_dec_ok(b.skip(140));
                        if <FixedCString<64> as Binary>::m_dec(b.skip(140)) is Ok {
                            assert(b.len() >= 204);
                            assert(wh[0] * wh[1] >= 0) by (nonlinear_arith);
                            lemma_u16_sized(b.skip(204), wh[0] * wh[1]);
                            lemma_dec_many_ok::<u16>(b.skip(204), wh[0] * wh[1]);
                            assert(b.skip(204).len() == b.len() - 204);
                        }
                    }
                }
            }
        }
    }

    #[verifier::rlimit(100)]
    #[verifier::spinoff_prover]
    proof fn lemma_dec_enc(m: QuickInfoModel, rest: Seq<u8>) {
        let e1 = le32_bytes(m.unknown0);
        let e2 = <FixedCString<64> as Binary>::m_enc(m.player_name);
        let e3 = le32_bytes(m.thumbnail_width);
        let e4 = le32_bytes(m.thumbnail_height);
        let e5 = <FixedCString<64> as Binary>::m_enc(m.game_version);
        let e6 = <FixedCString<64> as Binary>::m_enc(m.save_version);
        let e7 = enc_many::<u16>(m.thumbnail_image_data);
        let b = e1 + (e2 + (e3 + (e4 + (e5 + (e6 + (e7 + rest))))));
        assert(Self::m_enc(m) + rest =~= b);
        assert(e2.len() == 64 && e5.len() == 64 && e6.len() == 64);
        <u32 as Binary>::lemma_dec_enc(m.unknown0, e2 + (e3 + (e4 + (e5 + (e6 + (e7 + rest))))));
        assert(b.skip(4) =~= e2 + (e3 + (e4 + (e5 + (e6 + (e7 + rest))))));
        <FixedCString<64> as Binary>::lemma_dec_enc(m.player_name, e3 + (e4 + (e5 + (e6 + (e7
            + rest)))));
        assert(b.skip(68) =~= e3 + (e4 + (e5 + (e6 + (e7 + rest)))));
        lemma_dec_many_enc::<u32>(
            seq![m.thumbnail_width, m.thumbnail_height],
            e5 + (e6 + (e7 + rest)),
        );
        assert(seq![m.thumbnail_width, m.thumbnail_height].len() == 2);
        let whs = seq![m.thumbnail_width, m.thumbnail_height];
        assert(enc_many::<u32>(whs) =~= e3 + e4) by {
            assert(whs[0] == m.thumbnail_width);
            assert(whs.drop_first() =~= seq![m.thumbnail_height]);
            assert(seq![m.thumbnail_height][0] == m.thumbnail_height);
            assert(seq![m.thumbnail_height].drop_first() =~= Seq::<u32>::empty());
            assert(enc_many::<u32>(Seq::<u32>::empty()) =~= Seq::<u8>::empty());
            assert(enc_many::<u32>(seq![m.thumbnail_height]) =~= le32_bytes(m.thumbnail_height));
        }
        assert(b.skip(68) =~= (e3 + e4) + (e5 + (e6 + (e7 + rest))));
        assert(b.skip(76) =~= e5 + (e6 + (e7 + rest)));
        <FixedCString<64> as Binary>::lemma_dec_enc(m.game_version, e6 + (e7 + rest));
        assert(b.skip(140) =~= e6 + (e7 + rest));
        <FixedCString<64> as Binary>::lemma_dec_enc(m.save_version, e7 + rest);
        assert(b.skip(204) =~= e7 + rest);
        lemma_dec_many_enc::<u16>(m.thumbnail_image_data, rest);
    }

    fn from_bytes(r: &mut BufferReader) -> (res: Result<Self, DecodeError>) {
        r.bounds_check();
        let ghost orig = *r;
        let unknown0 = u32::from_bytes(r)?;
        proof {
            assert(r.rest() =~= orig.rest().skip(r.pos() - orig.pos()));
        }
        let player_name = <FixedCString<64> as Binary>::from_bytes(r)?;
        let ghost mid = *r;
        proof {
            assert(r.rest() =~= orig.rest().skip(r.pos() - orig.pos()));
        }
        let wh = decode_many::<u32>(r, 2)?;
        proof {
            lemma_dec_many_ok::<u32>(mid.rest(), 2);
            lemma_u32_sized(mid.rest(), 2);
            assert(wh.deep_view() =~= wh@);
            assert(r.rest() =~= orig.rest().skip(r.pos() - orig.pos()));
        }
        let thumbnail_width = wh[0];
        let thumbnail_height = wh[1];
        let game_version = <FixedCString<64> as Binary>::from_bytes(r)?;
        proof {
            assert(r.rest() =~= orig.rest().skip(r.pos() - orig.pos()));
        }
        let save_version = <FixedCString<64> as Binary>::from_bytes(r)?;
        proof {
            assert(r.rest() =~= orig.rest().skip(r.pos() - orig.pos()));
        }
        let rem = r.remaining();
        proof {
            assert((thumbnail_width as u64) * (thumbnail_height as u64) < 0x10000000000000000)
                by (nonlinear_arith)
                requires
                    thumbnail_width <= 0xffffffffu64 && thumbnail_height <= 0xffffffffu64,
            ;
        }
        let count = (thumbnail_width as u64) * (thumbnail_height as u64);
        proof {
            assert(count == thumbnail_width * thumbnail_height);
            lemma_u16_sized(r.rest(), count as int);
        }
        if count > (usize::MAX as u64) {
            proof {
                assert(r.rest().len() == rem);
                assert(r.rest().len() < 2 * (count as int));
            }
            return Err(DecodeError::Truncated);
        }
        let thumbnail_image_data = decode_many::<u16>(r, count as usize)?;
        Ok(
            QuickInfo {
                unknown0,
                player_name,
                thumbnail_width,
                thumbnail_height,
                game_version,
                save_version,
                thumbnail_image_data,
            },
        )
    }

    fn to_bytes(&self, w: &mut BufferWriter) {
        self.unknown0.to_bytes(w);
        self.player_name.to_bytes(w);
        self.thumbnail_width.to_bytes(w);
        self.thumbnail_height.to_bytes(w);
        self.game_version.to_bytes(w);
        self.save_version.to_bytes(w);
        encode_many::<u16>(&self.thumbnail_image_data, w);
        proof {
            assert(final(w).data() =~= old(w).data() + Self::m_enc(self.deep_view()));
        }
    }
}

/// The tail of the summary block, once the grid size is known: the two
/// version strings and one pixel per grid cell.
pub open spec fn dec_quickinfo_tail(
    b: Seq<u8>,
    unknown0: u32,
    player_name: Seq<u8>,
    width: u32,
    height: u32,
) -> Result<(QuickInfoModel, int), DecodeError> {
    match <FixedCString<64> as Binary>::m_dec(b.skip(76)) {
        Err(e) => Err(e),
        Ok((game_version, _)) => match <FixedCString<64> as Binary>::m_dec(b.skip(140)) {
            Err(e) => Err(e),
            Ok((save_version, _)) => match dec_many::<u16>(b.skip(204), width * height) {
                Err(e) => Err(e),
                Ok((thumbnail_image_data, n)) => Ok(
                    (
                        QuickInfoModel {
                            unknown0,
                            player_name,
                            thumbnail_width: width,
                            thumbnail_height: height,
                            game_version,
                            save_version,
                            thumbnail_image_data,
                        },
                        204 + n,
                    ),
                ),
            },
        },
    }
}

} // verus!
