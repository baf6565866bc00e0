//! music.dat
//!
//! A region track's volume is a 32-bit floating-point number in the file; it
//! is carried here as its little-endian bit pattern, which round-trips
//! byte-exactly.

use vstd::prelude::*;

use crate::buffer::{le32_bytes, BufferReader, BufferWriter};
use crate::types::{Binary, FixedArray};
use crate::DecodeError;

verus! {

/// The music tables: tracks, ambient tracks and regions.
pub struct Music {
    pub music_tracks: Vec<MusicTrack>,
    pub ambient_tracks: Vec<AmbientTrack>,
    pub regions: Vec<Region>,
}

pub struct MusicTrack {
    pub title: String,
    pub file_name: String,
    pub unknown: u32,
}

pub struct AmbientTrack {
    pub title: String,
    pub file_name: String,
}

pub struct Region {
    pub region_name: String,
    pub unknown0: FixedArray<Vec<RegionTrack>, 5>,
    pub unknown1: u32,
}

pub struct RegionTrack {
    pub title: String,
    pub volume: u32,
}

/// The model of a music track.
pub struct MusicTrackModel {
    pub title: Seq<char>,
    pub file_name: Seq<char>,
    pub unknown: u32,
}

/// The model of an ambient track.
pub struct AmbientTrackModel {
    pub title: Seq<char>,
    pub file_name: Seq<char>,
}

/// The model of a region.
pub struct RegionModel {
    pub region_name: Seq<char>,
    pub unknown0: Seq<Seq<RegionTrackModel>>,
    pub unknown1: u32,
}

/// The model of a region track.
pub struct RegionTrackModel {
    pub title: Seq<char>,
    pub volume: u32,
}

/// The model of the music tables.
pub struct MusicModel {
    pub music_tracks: Seq<MusicTrackModel>,
    pub ambient_tracks: Seq<AmbientTrackModel>,
    pub regions: Seq<RegionModel>,
}

impl DeepView for MusicTrack {
    type V = MusicTrackModel;

    open spec fn deep_view(&self) -> MusicTrackModel {
        MusicTrackModel {
            title: self.title.deep_view(),
            file_name: self.file_name.deep_view(),
            unknown: self.unknown,
        }
    }
}

impl Binary for MusicTrack {
    open spec fn m_wf(m: MusicTrackModel) -> bool {
        &&& <String as Binary>::m_wf(m.title)
        &&& <String as Binary>::m_wf(m.file_name)
    }

    open spec fn m_enc(m: MusicTrackModel) -> Seq<u8> {
        <String as Binary>::m_enc(m.title) + <String as Binary>::m_enc(m.file_name) + le32_bytes(
            m.unknown,
        )
    }

    open spec fn m_dec(b: Seq<u8>) -> Result<(MusicTrackModel, int), DecodeError> {
        match <String as Binary>::m_dec(b) {
            Err(e) => Err(e),
            Ok((title, n1)) => match <String as Binary>::m_dec(b.skip(n1)) {
                Err(e) => Err(e),
                Ok((file_name, n2)) => match <u32 as Binary>::m_dec(b.skip(n1 + n2)) {
                    Err(e) => Err(e),
                    Ok((unknown, n3)) => Ok(
                        (MusicTrackModel { title, file_name, unknown }, n1 + n2 + n3),
                    ),
                },
            },
        }
    }

    proof fn lemma_dec_ok(b: Seq<u8>) {
        <String as Binary>::lemma_dec_ok(b);
        if let Ok((_, n1)) = <String as Binary>::m_dec(b) {
            <String as Binary>::lemma_dec_ok(b.skip(n1));
            if let Ok((_, n2)) = <String as Binary>::m_dec(b.skip(n1)) {
                <u32 as Binary>::lemma_dec_ok(b.skip(n1 + n2));
            }
        }
    }

    proof fn lemma_dec_enc(m: MusicTrackModel, rest: Seq<u8>) {
        let e1 = <String as Binary>::m_enc(m.title);
        let e2 = <String as Binary>::m_enc(m.file_name);
        let e3 = <u32 as Binary>::m_enc(m.unknown);
        assert(Self::m_enc(m) + rest =~= e1 + (e2 + (e3 + rest)));
        <String as Binary>::lemma_dec_enc(m.title, e2 + (e3 + rest));
        assert((e1 + (e2 + (e3 + rest))).skip(e1.len() as int) =~= e2 + (e3 + rest));
        <String as Binary>::lemma_dec_enc(m.file_name, e3 + rest);
        assert((e1 + (e2 + (e3 + rest))).skip(e1.len() as int + e2.len() as int) =~= e3 + rest);
        <u32 as Binary>::lemma_dec_enc(m.unknown, rest);
    }

    fn from_bytes(r: &mut BufferReader) -> (res: Result<Self, DecodeError>) {
        r.bounds_check();
        let ghost orig = *r;
        let title = String::from_bytes(r)?;
        proof {
            assert(r.rest() =~= orig.rest().skip(r.pos() - orig.pos()));
        }
        let file_name = String::from_bytes(r)?;
        proof {
            assert(r.rest() =~= orig.rest().skip(r.pos() - orig.pos()));
        }
        let unknown = u32::from_bytes(r)?;
        Ok(MusicTrack { title, file_name, unknown })
    }

    fn to_bytes(&self, w: &mut BufferWriter) {
        self.title.to_bytes(w);
        self.file_name.to_bytes(w);
        self.unknown.to_bytes(w);
    }
}

impl DeepView for AmbientTrack {
    type V = AmbientTrackModel;

    open spec fn deep_view(&self) -> AmbientTrackModel {
        AmbientTrackModel {
            title: self.title.deep_view(),
            file_name: self.file_name.deep_view(),
        }
    }
}

impl Binary for AmbientTrack {
    open spec fn m_wf(m: AmbientTrackModel) -> bool {
        &&& <String as Binary>::m_wf(m.title)
        &&& <String as Binary>::m_wf(m.file_name)
    }

    open spec fn m_enc(m: AmbientTrackModel) -> Seq<u8> {
        <String as Binary>::m_enc(m.title) + <String as Binary>::m_enc(m.file_name)
    }

    open spec fn m_dec(b: Seq<u8>) -> Result<(AmbientTrackModel, int), DecodeError> {
        match <String as Binary>::m_dec(b) {
            Err(e) => Err(e),
            Ok((title, n1)) => match <String as Binary>::m_dec(b.skip(n1)) {
                Err(e) => Err(e),
                Ok((file_name, n2)) => Ok((AmbientTrackModel { title, file_name }, n1 + n2)),
            },
        }
    }

    proof fn lemma_dec_ok(b: Seq<u8>) {
        <String as Binary>::lemma_dec_ok(b);
        if let Ok((_, n1)) = <String as Binary>::m_dec(b) {
            <String as Binary>::lemma_dec_ok(b.skip(n1));
        }
    }

    proof fn lemma_dec_enc(m: AmbientTrackModel, rest: Seq<u8>) {
        let e1 = <String as Binary>::m_enc(m.title);
        let e2 = <String as Binary>::m_enc(m.file_name);
        assert(Self::m_enc(m) + rest =~= e1 + (e2 + rest));
        <String as Binary>::lemma_dec_enc(m.title, e2 + rest);
        assert((e1 + (e2 + rest)).skip(e1.len() as int) =~= e2 + rest);
        <String as Binary>::lemma_dec_enc(m.file_name, rest);
    }

    fn from_bytes(r: &mut BufferReader) -> (res: Result<Self, DecodeError>) {
        r.bounds_check();
        let ghost orig = *r;
        let title = String::from_bytes(r)?;
        proof {
            assert(r.rest() =~= orig.rest().skip(r.pos() - orig.pos()));
        }
        let file_name = String::from_bytes(r)?;
        Ok(AmbientTrack { title, file_name })
    }

    fn to_bytes(&self, w: &mut BufferWriter) {
        self.title.to_bytes(w);
        self.file_name.to_bytes(w);
    }
}

impl DeepView for RegionTrack {
    type V = RegionTrackModel;

    open spec fn deep_view(&self) -> RegionTrackModel {
        RegionTrackModel { title: self.title.deep_view(), volume: self.volume }
    }
}

impl Binary for RegionTrack {
    open spec fn m_wf(m: RegionTrackModel) -> bool {
        <String as Binary>::m_wf(m.title)
    }

    open spec fn m_enc(m: RegionTrackModel) -> Seq<u8> {
        <String as Binary>::m_enc(m.title) + le32_bytes(m.volume)
    }

    open spec fn m_dec(b: Seq<u8>) -> Result<(RegionTrackModel, int), DecodeError> {
        match <String as Binary>::m_dec(b) {
            Err(e) => Err(e),
            Ok((title, n1)) => match <u32 as Binary>::m_dec(b.skip(n1)) {
                Err(e) => Err(e),
                Ok((volume, n2)) => Ok((RegionTrackModel { title, volume }, n1 + n2)),
            },
        }
    }

    proof fn lemma_dec_ok(b: Seq<u8>) {
        <String as Binary>::lemma_dec_ok(b);
        if let Ok((_, n1)) = <String as Binary>::m_dec(b) {
            <u32 as Binary>::lemma_dec_ok(b.skip(n1));
        }
    }

    proof fn lemma_dec_enc(m: RegionTrackModel, rest: Seq<u8>) {
        let e1 = <String as Binary>::m_enc(m.title);
        let e2 = <u32 as Binary>::m_enc(m.volume);
        assert(Self::m_enc(m) + rest =~= e1 + (e2 + rest));
        <String as Binary>::lemma_dec_enc(m.title, e2 + rest);
        assert((e1 + (e2 + rest)).skip(e1.len() as int) =~= e2 + rest);
        <u32 as Binary>::lemma_dec_enc(m.volume, rest);
    }

    fn from_bytes(r: &mut BufferReader) -> (res: Result<Self, DecodeError>) {
        r.bounds_check();
        let ghost orig = *r;
        let title = String::from_bytes(r)?;
        proof {
            assert(r.rest() =~= orig.rest().skip(r.pos() - orig.pos()));
        }
        let volume = u32::from_bytes(r)?;
        Ok(RegionTrack { title, volume })
    }

    fn to_bytes(&self, w: &mut BufferWriter) {
        self.title.to_bytes(w);
        self.volume.to_bytes(w);
    }
}

impl DeepView for Region {
    type V = RegionModel;

    open spec fn deep_view(&self) -> RegionModel {
        RegionModel {
            region_name: self.region_name.deep_view(),
            unknown0: self.unknown0.deep_view(),
            unknown1: self.unknown1,
        }
    }
}

impl Binary for Region {
    open spec fn m_wf(m: RegionModel) -> bool {
        &&& <String as Binary>::m_wf(m.region_name)
        &&& <FixedArray<Vec<RegionTrack>, 5> as Binary>::m_wf(m.unknown0)
    }

    open spec fn m_enc(m: RegionModel) -> Seq<u8> {
        <String as Binary>::m_enc(m.region_name) + <FixedArray<Vec<RegionTrack>, 5> as Binary>::m_enc(
            m.unknown0,
        ) + le32_bytes(m.unknown1)
    }

    open spec fn m_dec(b: Seq<u8>) -> Result<(RegionModel, int), DecodeError> {
        match <String as Binary>::m_dec(b) {
            Err(e) => Err(e),
            Ok((region_name, n1)) => match <FixedArray<Vec<RegionTrack>, 5> as Binary>::m_dec(
                b.skip(n1),
            ) {
                Err(e) => Err(e),
                Ok((unknown0, n2)) => match <u32 as Binary>::m_dec(b.skip(n1 + n2)) {
                    Err(e) => Err(e),
                    Ok((unknown1, n3)) => Ok(
                        (RegionModel { region_name, unknown0, unknown1 }, n1 + n2 + n3),
                    ),
                },
            },
        }
    }

    proof fn lemma_dec_ok(b: Seq<u8>) {
        <String as Binary>::lemma_dec_ok(b);
        if let Ok((_, n1)) = <String as Binary>::m_dec(b) {
            <FixedArray<Vec<RegionTrack>, 5> as Binary>::lemma_dec_ok(b.skip(n1));
            if let Ok((_, n2)) = <FixedArray<Vec<RegionTrack>, 5> as Binary>::m_dec(b.skip(n1)) {
                <u32 as Binary>::lemma_dec_ok(b.skip(n1 + n2));
            }
        }
    }

    proof fn lemma_dec_enc(m: RegionModel, rest: Seq<u8>) {
        let e1 = <String as Binary>::m_enc(m.region_name);
        let e2 = <FixedArray<Vec<RegionTrack>, 5> as Binary>::m_enc(m.unknown0);
        let e3 = <u32 as Binary>::m_enc(m.unknown1);
        assert(Self::m_enc(m) + rest =~= e1 + (e2 + (e3 + rest)));
        <String as Binary>::lemma_dec_enc(m.region_name, e2 + (e3 + rest));
        assert((e1 + (e2 + (e3 + rest))).skip(e1.len() as int) =~= e2 + (e3 + rest));
        <FixedArray<Vec<RegionTrack>, 5> as Binary>::lemma_dec_enc(m.unknown0, e3 + rest);
        assert((e1 + (e2 + (e3 + rest))).skip(e1.len() as int + e2.len() as int) =~= e3 + rest);
        <u32 as Binary>::lemma_dec_enc(m.unknown1, rest);
    }

    fn from_bytes(r: &mut BufferReader) -> (res: Result<Self, DecodeError>) {
        r.bounds_check();
        let ghost orig = *r;
        let region_name = String::from_bytes(r)?;
        proof {
            assert(r.rest() =~= orig.rest().skip(r.pos() - orig.pos()));
        }
        let unknown0 = <FixedArray<Vec<RegionTrack>, 5> as Binary>::from_bytes(r)?;
        proof {
            assert(r.rest() =~= orig.rest().skip(r.pos() - orig.pos()));
        }
        let unknown1 = u32::from_bytes(r)?;
        Ok(Region { region_name, unknown0, unknown1 })
    }

    fn to_bytes(&self, w: &mut BufferWriter) {
        self.region_name.to_bytes(w);
        self.unknown0.to_bytes(w);
        self.unknown1.to_bytes(w);
    }
}

impl DeepView for Music {
    type V = MusicModel;

    open spec fn deep_view(&self) -> MusicModel {
        MusicModel {
            music_tracks: self.music_tracks.deep_view(),
            ambient_tracks: self.ambient_tracks.deep_view(),
            regions: self.regions.deep_view(),
        }
    }
}

impl Binary for Music {
    open spec fn m_wf(m: MusicModel) -> bool {
        &&& <Vec<MusicTrack> as Binary>::m_wf(m.music_tracks)
        &&& <Vec<AmbientTrack> as Binary>::m_wf(m.ambient_tracks)
        &&& <Vec<Region> as Binary>::m_wf(m.regions)
    }

    open spec fn m_enc(m: MusicModel) -> Seq<u8> {
        <Vec<MusicTrack> as Binary>::m_enc(m.music_tracks) + <Vec<AmbientTrack> as Binary>::m_enc(
            m.ambient_tracks,
        ) + <Vec<Region> as Binary>::m_enc(m.regions)
    }

    open spec fn m_dec(b: Seq<u8>) -> Result<(MusicModel, int), DecodeError> {
        match <Vec<MusicTrack> as Binary>::m_dec(b) {
            Err(e) => Err(e),
            Ok((music_tracks, n1)) => match <Vec<AmbientTrack> as Binary>::m_dec(b.skip(n1)) {
                Err(e) => Err(e),
                Ok((ambient_tracks, n2)) => match <Vec<Region> as Binary>::m_dec(b.skip(n1 + n2)) {
                    Err(e) => Err(e),
                    Ok((regions, n3)) => Ok(
                        (MusicModel { music_tracks, ambient_tracks, regions }, n1 + n2 + n3),
                    ),
                },
            },
        }
    }

    proof fn lemma_dec_ok(b: Seq<u8>) {
        <Vec<MusicTrack> as Binary>::lemma_dec_ok(b);
        if let Ok((_, n1)) = <Vec<MusicTrack> as Binary>::m_dec(b) {
            <Vec<AmbientTrack> as Binary>::lemma_dec_ok(b.skip(n1));
            if let Ok((_, n2)) = <Vec<AmbientTrack> as Binary>::m_dec(b.skip(n1)) {
                <Vec<Region> as Binary>::lemma_dec_ok(b.skip(n1 + n2));
            }
        }
    }

    #[verifier::rlimit(60)]
    proof fn lemma_dec_enc(m: MusicModel, rest: Seq<u8>) {
        let e1 = <Vec<MusicTrack> as Binary>::m_enc(m.music_tracks);
        let e2 = <Vec<AmbientTrack> as Binary>::m_enc(m.ambient_tracks);
        let e3 = <Vec<Region> as Binary>::m_enc(m.regions);
        assert(Self::m_enc(m) + rest =~= e1 + (e2 + (e3 + rest)));
        <Vec<MusicTrack> as Binary>::lemma_dec_enc(m.music_tracks, e2 + (e3 + rest));
        assert((e1 + (e2 + (e3 + rest))).skip(e1.len() as int) =~= e2 + (e3 + rest));
        <Vec<AmbientTrack> as Binary>::lemma_dec_enc(m.ambient_tracks, e3 + rest);
        assert((e1 + (e2 + (e3 + rest))).skip(e1.len() as int + e2.len() as int) =~= e3 + rest);
        <Vec<Region> as Binary>::lemma_dec_enc(m.regions, rest);
    }

    fn from_bytes(r: &mut BufferReader) -> (res: Result<Self, DecodeError>) {
        r.bounds_check();
        let ghost orig = *r;
        let music_tracks = <Vec<MusicTrack> as Binary>::from_bytes(r)?;
        proof {
            assert(r.rest() =~= orig.rest().skip(r.pos() - orig.pos()));
        }
        let ambient_tracks = <Vec<AmbientTrack> as Binary>::from_bytes(r)?;
        proof {
            assert(r.rest() =~= orig.rest().skip(r.pos() - orig.pos()));
        }
        let regions = <Vec<Region> as Binary>::from_bytes(r)?;
        Ok(Music { music_tracks, ambient_tracks, regions })
    }

    fn to_bytes(&self, w: &mut BufferWriter) {
        self.music_tracks.to_bytes(w);
        self.ambient_tracks.to_bytes(w);
        self.regions.to_bytes(w);
    }
}

} // verus!
