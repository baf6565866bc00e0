//! sound.cfg
//!
//! The volume fields are 32-bit floating-point numbers in the file; they are
//! carried here as their little-endian bit patterns, which round-trip
//! byte-exactly.

use vstd::prelude::*;

use crate::buffer::{BufferReader, BufferWriter};
use crate::types::{
    dec_many, decode_many, enc_many, encode_many, lemma_dec_many_enc, lemma_dec_many_ok, Binary,
};
use crate::DecodeError;

verus! {

/// The sound configuration block.
pub struct SoundConfig {
    pub unknown0: u32,
    /// Maximum number of sounds that can play at the same time.
    pub max_sounds: u32,
    pub unknown2: u32,
    pub sound_effects_volume: u32,
    pub voice_volume: u32,
    pub music_volume: u32,
    pub unknown6: u32,
    pub ambient_volume: u32,
}

impl SoundConfig {
    /// The fields in stream order.
    pub open spec fn fields(self) -> Seq<u32> {
        seq![
            self.unknown0,
            self.max_sounds,
            self.unknown2,
            self.sound_effects_volume,
            self.voice_volume,
            self.music_volume,
            self.unknown6,
            self.ambient_volume,
        ]
    }
}

impl DeepView for SoundConfig {
    type V = SoundConfig;

    open spec fn deep_view(&self) -> SoundConfig {
        *self
    }
}

impl Binary for SoundConfig {
    open spec fn m_wf(m: SoundConfig) -> bool {
        true
    }

    open spec fn m_enc(m: SoundConfig) -> Seq<u8> {
        enc_many::<u32>(m.fields())
    }

    open spec fn m_dec(b: Seq<u8>) -> Result<(SoundConfig, int), DecodeError> {
        match dec_many::<u32>(b, 8) {
            Ok((ms, n)) => Ok(
                (
                    SoundConfig {
                        unknown0: ms[0],
                        max_sounds: ms[1],
                        unknown2: ms[2],
                        sound_effects_volume: ms[3],
                        voice_volume: ms[4],
                        music_volume: ms[5],
                        unknown6: ms[6],
                        ambient_volume: ms[7],
                    },
                    n,
                ),
            ),
            Err(e) => Err(e),
        }
    }

    proof fn lemma_dec_ok(b: Seq<u8>) {
        lemma_dec_many_ok::<u32>(b, 8);
    }

    proof fn lemma_dec_enc(m: SoundConfig, rest: Seq<u8>) {
        lemma_dec_many_enc::<u32>(m.fields(), rest);
    }

    fn from_bytes(r: &mut BufferReader) -> (res: Result<Self, DecodeError>) {
        let ghost orig = *r;
        let ms = decode_many::<u32>(r, 8)?;
        proof {
            lemma_dec_many_ok::<u32>(orig.rest(), 8);
            assert(ms.deep_view() =~= ms@);
        }
        Ok(
            SoundConfig {
                unknown0: ms[0],
                max_sounds: ms[1],
                unknown2: ms[2],
                sound_effects_volume: ms[3],
                voice_volume: ms[4],
                music_volume: ms[5],
                unknown6: ms[6],
                ambient_volume: ms[7],
            },
        )
    }

    fn to_bytes(&self, w: &mut BufferWriter) {
        let v: Vec<u32> = vec![
            self.unknown0,
            self.max_sounds,
            self.unknown2,
            self.sound_effects_volume,
            self.voice_volume,
            self.music_volume,
            self.unknown6,
            self.ambient_volume,
        ];
        proof {
            assert(v.deep_view() =~= self.deep_view().fields());
        }
        encode_many::<u32>(&v, w);
    }
}

} // verus!
