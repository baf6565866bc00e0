//! quest_log.000
//!
//! A whole-file format: a six-byte header, then quest entries until the file
//! ends.

use vstd::prelude::*;

use crate::buffer::{le32_bytes, BufferReader, BufferWriter};
use crate::types::{
    dec_many, dec_to_end, decode_many, decode_to_end, enc_many, encode_many, lemma_dec_many_ok,
    lemma_dec_to_end_enc, wf_many, Binary,
};
use crate::DecodeError;

verus! {

/// The quest log.
pub struct QuestLog {
    pub entries: Vec<QuestLogEntry>,
}

#[derive(Clone, Copy, PartialEq, Eq, Structural)]
pub enum QuestStatus {
    NotStarted,
    InProgress,
    Failed,
    Completed,
}

pub struct QuestLogEntry {
    pub id: u32,
    pub unknown0: bool,
    pub status: QuestStatus,
    pub unknown1: u32,
    pub day: i32,
    pub hour: i32,
    pub minute: i32,
    pub day2: i32,
    pub hour2: i32,
    pub minute2: i32,
}

/// The byte that encodes a quest status.
pub open spec fn status_byte(s: QuestStatus) -> u8 {
    match s {
        QuestStatus::NotStarted => 0,
        QuestStatus::InProgress => 1,
        QuestStatus::Failed => 2,
        QuestStatus::Completed => 3,
    }
}

impl DeepView for QuestStatus {
    type V = QuestStatus;

    open spec fn deep_view(&self) -> QuestStatus {
        *self
    }
}

impl Binary for QuestStatus {
    open spec fn m_wf(m: QuestStatus) -> bool {
        true
    }

    open spec fn m_enc(m: QuestStatus) -> Seq<u8> {
        seq![status_byte(m)]
    }

    open spec fn m_dec(b: Seq<u8>) -> Result<(QuestStatus, int), DecodeError> {
        if b.len() < 1 {
            Err(DecodeError::Truncated)
        } else if b[0] == 0 {
            Ok((QuestStatus::NotStarted, 1))
        } else if b[0] == 1 {
            Ok((QuestStatus::InProgress, 1))
        } else if b[0] == 2 {
            Ok((QuestStatus::Failed, 1))
        } else if b[0] == 3 {
            Ok((QuestStatus::Completed, 1))
        } else {
            Err(DecodeError::Malformed)
        }
    }

    proof fn lemma_dec_ok(b: Seq<u8>) {
    }

    proof fn lemma_dec_enc(m: QuestStatus, rest: Seq<u8>) {
        assert((seq![status_byte(m)] + rest)[0] == status_byte(m));
    }

    fn from_bytes(r: &mut BufferReader) -> (res: Result<Self, DecodeError>) {
        r.bounds_check();
        match r.read_u8()? {
            0 => Ok(QuestStatus::NotStarted),
            1 => Ok(QuestStatus::InProgress),
            2 => Ok(QuestStatus::Failed),
            3 => Ok(QuestStatus::Completed),
            _ => Err(DecodeError::Malformed),
        }
    }

    fn to_bytes(&self, w: &mut BufferWriter) {
        w.write_u8(match self {
            QuestStatus::NotStarted => 0,
            QuestStatus::InProgress => 1,
            QuestStatus::Failed => 2,
            QuestStatus::Completed => 3,
        });
    }
}

impl QuestLogEntry {
    /// The timestamp fields in stream order.
    pub open spec fn times(self) -> Seq<i32> {
        seq![self.day, self.hour, self.minute, self.day2, self.hour2, self.minute2]
    }
}

impl DeepView for QuestLogEntry {
    type V = QuestLogEntry;

    open spec fn deep_view(&self) -> QuestLogEntry {
        *self
    }
}

impl Binary for QuestLogEntry {
    open spec fn m_wf(m: QuestLogEntry) -> bool {
        true
    }

    open spec fn m_enc(m: QuestLogEntry) -> Seq<u8> {
        le32_bytes(m.id) + <bool as Binary>::m_enc(m.unknown0) + <QuestStatus as Binary>::m_enc(
            m.status,
        ) + le32_bytes(m.unknown1) + enc_many::<i32>(m.times())
    }

    open spec fn m_dec(b: Seq<u8>) -> Result<(QuestLogEntry, int), DecodeError> {
        match <u32 as Binary>::m_dec(b) {
            Err(e) => Err(e),
            Ok((id, n1)) => match <bool as Binary>::m_dec(b.skip(n1)) {
                Err(e) => Err(e),
                Ok((unknown0, n2)) => match <QuestStatus as Binary>::m_dec(b.skip(n1 + n2)) {
                    Err(e) => Err(e),
                    Ok((status, n3)) => match <u32 as Binary>::m_dec(b.skip(n1 + n2 + n3)) {
                        Err(e) => Err(e),
                        Ok((unknown1, n4)) => match dec_many::<i32>(b.skip(n1 + n2 + n3 + n4), 6) {
                            Err(e) => Err(e),
                            Ok((ts, n5)) => Ok(
                                (
                                    QuestLogEntry {
                                        id,
                                        unknown0,
                                        status,
                                        unknown1,
                                        day: ts[0],
                                        hour: ts[1],
                                        minute: ts[2],
                                        day2: ts[3],
                                        hour2: ts[4],
                                        minute2: ts[5],
                                    },
                                    n1 + n2 + n3 + n4 + n5,
                                ),
                            ),
                        },
                    },
                },
            },
        }
    }

    proof fn lemma_dec_ok(b: Seq<u8>) {
        <u32 as Binary>::lemma_dec_ok(b);
        if let Ok((_, n1)) = <u32 as Binary>::m_dec(b) {
            <bool as Binary>::lemma_dec_ok(b.skip(n1));
            if let Ok((_, n2)) = <bool as Binary>::m_dec(b.skip(n1)) {
                <QuestStatus as Binary>::lemma_dec_ok(b.skip(n1 + n2));
                if let Ok((_, n3)) = <QuestStatus as Binary>::m_dec(b.skip(n1 + n2)) {
                    <u32 as Binary>::lemma_dec_ok(b.skip(n1 + n2 + n3));
                    if let Ok((_, n4)) = <u32 as Binary>::m_dec(b.skip(n1 + n2 + n3)) {
                        lemma_dec_many_ok::<i32>(b.skip(n1 + n2 + n3 + n4), 6);
                    }
                }
            }
        }
    }

    #[verifier::rlimit(100)]
    #[verifier::spinoff_prover]
    proof fn lemma_dec_enc(m: QuestLogEntry, rest: Seq<u8>) {
        let e1 = le32_bytes(m.id);
        let e2 = <bool as Binary>::m_enc(m.unknown0);
        let e3 = <QuestStatus as Binary>::m_enc(m.status);
        let e4 = le32_bytes(m.unknown1);
        let e5 = enc_many::<i32>(m.times());
        assert(Self::m_enc(m) + rest =~= e1 + (e2 + (e3 + (e4 + (e5 + rest)))));
        <u32 as Binary>::lemma_dec_enc(m.id, e2 + (e3 + (e4 + (e5 + rest))));
        let b = e1 + (e2 + (e3 + (e4 + (e5 + rest))));
        assert(b.skip(e1.len() as int) =~= e2 + (e3 + (e4 + (e5 + rest))));
        <bool as Binary>::lemma_dec_enc(m.unknown0, e3 + (e4 + (e5 + rest)));
        assert(b.skip(e1.len() as int + e2.len() as int) =~= e3 + (e4 + (e5 + rest)));
        <QuestStatus as Binary>::lemma_dec_enc(m.status, e4 + (e5 + rest));
        assert(b.skip(e1.len() as int + e2.len() as int + e3.len() as int) =~= e4 + (e5 + rest));
        <u32 as Binary>::lemma_dec_enc(m.unknown1, e5 + rest);
        assert(b.skip(e1.len() as int + e2.len() as int + e3.len() as int + e4.len() as int) =~= e5
            + rest);
        crate::types::lemma_dec_many_enc::<i32>(m.times(), rest);
    }

    fn from_bytes(r: &mut BufferReader) -> (res: Result<Self, DecodeError>) {
        r.bounds_check();
        let ghost orig = *r;
        let id = u32::from_bytes(r)?;
        proof {
            assert(r.rest() =~= orig.rest().skip(r.pos() - orig.pos()));
        }
        let unknown0 = bool::from_bytes(r)?;
        proof {
            assert(r.rest() =~= orig.rest().skip(r.pos() - orig.pos()));
        }
        let status = QuestStatus::from_bytes(r)?;
        proof {
            assert(r.rest() =~= orig.rest().skip(r.pos() - orig.pos()));
        }
        let unknown1 = u32::from_bytes(r)?;
        let ghost mid = *r;
        proof {
            assert(r.rest() =~= orig.rest().skip(r.pos() - orig.pos()));
        }
        let ts = decode_many::<i32>(r, 6)?;
        proof {
            lemma_dec_many_ok::<i32>(mid.rest(), 6);
            assert(ts.deep_view() =~= ts@);
        }
        let result = QuestLogEntry {
            id,
            unknown0,
            status,
            unknown1,
            day: ts[0],
            hour: ts[1],
            minute: ts[2],
            day2: ts[3],
            hour2: ts[4],
            minute2: ts[5],
        };
        proof {
            assert(result.times() =~= ts@);
        }
        Ok(result)
    }

    fn to_bytes(&self, w: &mut BufferWriter) {
        self.id.to_bytes(w);
        self.unknown0.to_bytes(w);
        self.status.to_bytes(w);
        self.unknown1.to_bytes(w);
        let v: Vec<i32> = vec![self.day, self.hour, self.minute, self.day2, self.hour2,
            self.minute2];
        proof {
            assert(v.deep_view() =~= self.deep_view().times());
        }
        encode_many::<i32>(&v, w);
    }
}

/// The six header bytes that every quest log starts with.
pub open spec fn questlog_header() -> Seq<u8> {
    seq![0x4Du8, 0x4C, 0x33, 0x49, 0x44, 0x00]
}

impl DeepView for QuestLog {
    type V = Seq<QuestLogEntry>;

    open spec fn deep_view(&self) -> Seq<QuestLogEntry> {
        self.entries.deep_view()
    }
}

impl QuestLog {
    pub open spec fn m_wf(m: Seq<QuestLogEntry>) -> bool {
        wf_many::<QuestLogEntry>(m)
    }

    /// The exact byte encoding: the header, then every entry.
    pub open spec fn m_enc(m: Seq<QuestLogEntry>) -> Seq<u8> {
        questlog_header() + enc_many::<QuestLogEntry>(m)
    }

    /// What a whole quest log file decodes to: the header is skipped without
    /// being interpreted, then entries run to the end of the file.
    pub open spec fn m_dec_file(data: Seq<u8>) -> Result<Seq<QuestLogEntry>, DecodeError> {
        if data.len() < 6 {
            Err(DecodeError::Truncated)
        } else {
            dec_to_end::<QuestLogEntry>(data.skip(6))
        }
    }

    /// Round trip: decoding an encoding yields the entries back.
    pub proof fn lemma_dec_enc(m: Seq<QuestLogEntry>)
        requires
            Self::m_wf(m),
        ensures
            Self::m_dec_file(Self::m_enc(m)) == Ok::<Seq<QuestLogEntry>, DecodeError>(m),
    {
        assert forall|i: int| 0 <= i < m.len() implies <QuestLogEntry as Binary>::m_enc(
            #[trigger] m[i],
        ).len() >= 1 by {
            let e = <QuestLogEntry as Binary>::m_enc(m[i]);
            assert(e.len() >= le32_bytes(m[i].id).len());
        }
        lemma_dec_to_end_enc::<QuestLogEntry>(m);
        assert(Self::m_enc(m).skip(6) =~= enc_many::<QuestLogEntry>(m));
    }

    /// Decodes a whole quest log file; the cursor must sit at its start.
    pub fn from_bytes(r: &mut BufferReader) -> (res: Result<QuestLog, DecodeError>)
        requires
            old(r).pos() == 0,
        ensures
            final(r).data() == old(r).data(),
            0 <= final(r).pos() <= final(r).data().len(),
            match Self::m_dec_file(old(r).data()) {
                Ok(ms) => res matches Ok(v) && v.deep_view() == ms && final(r).pos() == final(r).data().len(),
                Err(e) => res == Err::<QuestLog, DecodeError>(e),
            },
    {
        r.bounds_check();
        if r.remaining() < 6 {
            return Err(DecodeError::Truncated);
        }
        r.skip(6);
        proof {
            assert(r.rest() =~= old(r).data().skip(6));
        }
        let entries = decode_to_end::<QuestLogEntry>(r)?;
        Ok(QuestLog { entries })
    }

    /// Appends the exact encoding to the writer.
    pub fn to_bytes(&self, w: &mut BufferWriter)
        requires
            Self::m_wf(self.deep_view()),
        ensures
            final(w).data() == old(w).data() + Self::m_enc(self.deep_view()),
    {
        let header: Vec<u8> = vec![0x4D, 0x4C, 0x33, 0x49, 0x44, 0x00];
        proof {
            assert(header@ =~= questlog_header());
        }
        w.write_bytes(header.as_slice());
        encode_many::<QuestLogEntry>(&self.entries, w);
        proof {
            assert(final(w).data() =~= old(w).data() + Self::m_enc(self.deep_view()));
        }
    }
}

} // verus!
