//! usernotes.bin, mapflags.000
//!
//! Each note list is preceded by its count and by the byte length of its
//! encoded notes; the length is ignored on decode and recomputed on encode.

use vstd::prelude::*;

use crate::buffer::{le32_bytes, BufferReader, BufferWriter};
use crate::types::{
    dec_many, decode_many, enc_many, encode_many, lemma_dec_many_enc, lemma_dec_many_ok,
    wf_many, Binary, CStringWithLength,
};
use crate::DecodeError;

verus! {

/// The map note lists.
pub struct Notes {
    pub user_notes: Vec<Note>,
    pub notes: Vec<Note>,
    pub unknown0: u32,
    pub unknown1: u32,
}

pub struct Note {
    pub position_x: i16,
    pub position_y: i16,
    pub unknown0: u32,
    pub is_visible: u32,
    pub id: u32,
    pub unknown1: u32,
    pub text: CStringWithLength,
    pub unknown2: u32,
}

/// The model of a note.
pub struct NoteModel {
    pub position_x: i16,
    pub position_y: i16,
    pub unknown0: u32,
    pub is_visible: u32,
    pub id: u32,
    pub unknown1: u32,
    pub text: Seq<u8>,
    pub unknown2: u32,
}

/// The model of the note lists.
pub struct NotesModel {
    pub user_notes: Seq<NoteModel>,
    pub notes: Seq<NoteModel>,
    pub unknown0: u32,
    pub unknown1: u32,
}

impl NoteModel {
    /// The four flag fields in stream order.
    pub open spec fn flags(self) -> Seq<u32> {
        seq![self.unknown0, self.is_visible, self.id, self.unknown1]
    }
}

impl DeepView for Note {
    type V = NoteModel;

    open spec fn deep_view(&self) -> NoteModel {
        NoteModel {
            position_x: self.position_x,
            position_y: self.position_y,
            unknown0: self.unknown0,
            is_visible: self.is_visible,
            id: self.id,
            unknown1: self.unknown1,
            text: self.text.deep_view(),
            unknown2: self.unknown2,
        }
    }
}

impl Binary for Note {
    open spec fn m_wf(m: NoteModel) -> bool {
        <CStringWithLength as Binary>::m_wf(m.text)
    }

    open spec fn m_enc(m: NoteModel) -> Seq<u8> {
        le16_pair(m.position_x, m.position_y) + enc_many::<u32>(m.flags())
            + <CStringWithLength as Binary>::m_enc(m.text) + le32_bytes(m.unknown2)
    }

    open spec fn m_dec(b: Seq<u8>) -> Result<(NoteModel, int), DecodeError> {
        match <i16 as Binary>::m_dec(b) {
            Err(e) => Err(e),
            Ok((position_x, n1)) => match <i16 as Binary>::m_dec(b.skip(n1)) {
                Err(e) => Err(e),
                Ok((position_y, n2)) => match dec_many::<u32>(b.skip(n1 + n2), 4) {
                    Err(e) => Err(e),
                    Ok((fs, n3)) => match <CStringWithLength as Binary>::m_dec(
                        b.skip(n1 + n2 + n3),
                    ) {
                        Err(e) => Err(e),
                        Ok((text, n4)) => match <u32 as Binary>::m_dec(b.skip(n1 + n2 + n3 + n4)) {
                            Err(e) => Err(e),
                            Ok((unknown2, n5)) => Ok(
                                (
                                    NoteModel {
                                        position_x,
                                        position_y,
                                        unknown0: fs[0],
                                        is_visible: fs[1],
                                        id: fs[2],
                                        unknown1: fs[3],
                                        text,
                                        unknown2,
                                    },
                                    n1 + n2 + n3 + n4 + n5,
                                ),
                            ),
                        },
                    },
                },
            },
        }
    }

    proof fn lemma_dec_ok(b: Seq<u8>) {
        <i16 as Binary>::lemma_dec_ok(b);
        if let Ok((_, n1)) = <i16 as Binary>::m_dec(b) {
            <i16 as Binary>::lemma_dec_ok(b.skip(n1));
            if let Ok((_, n2)) = <i16 as Binary>::m_dec(b.skip(n1)) {
                lemma_dec_many_ok::<u32>(b.skip(n1 + n2), 4);
                if let Ok((_, n3)) = dec_many::<u32>(b.skip(n1 + n2), 4) {
                    <CStringWithLength as Binary>::lemma_dec_ok(b.skip(n1 + n2 + n3));
                    if let Ok((_, n4)) = <CStringWithLength as Binary>::m_dec(b.skip(n1 + n2 + n3)) {
                        <u32 as Binary>::lemma_dec_ok(b.skip(n1 + n2 + n3 + n4));
                    }
                }
            }
        }
    }

    #[verifier::rlimit(100)]
    #[verifier::spinoff_prover]
    proof fn lemma_dec_enc(m: NoteModel, rest: Seq<u8>) {
        let e1 = <i16 as Binary>::m_enc(m.position_x);
        let e2 = <i16 as Binary>::m_enc(m.position_y);
        let e3 = enc_many::<u32>(m.flags());
        let e4 = <CStringWithLength as Binary>::m_enc(m.text);
        let e5 = le32_bytes(m.unknown2);
        let b = e1 + (e2 + (e3 + (e4 + (e5 + rest))));
        assert(Self::m_enc(m) + rest =~= b);
        <i16 as Binary>::lemma_dec_enc(m.position_x, e2 + (e3 + (e4 + (e5 + rest))));
        assert(b.skip(e1.len() as int) =~= e2 + (e3 + (e4 + (e5 + rest))));
        <i16 as Binary>::lemma_dec_enc(m.position_y, e3 + (e4 + (e5 + rest)));
        assert(b.skip(e1.len() as int + e2.len() as int) =~= e3 + (e4 + (e5 + rest)));
        lemma_dec_many_enc::<u32>(m.flags(), e4 + (e5 + rest));
        assert(b.skip(e1.len() as int + e2.len() as int + e3.len() as int) =~= e4 + (e5 + rest));
        <CStringWithLength as Binary>::lemma_dec_enc(m.text, e5 + rest);
        assert(b.skip(e1.len() as int + e2.len() as int + e3.len() as int + e4.len() as int) =~= e5
            + rest);
        <u32 as Binary>::lemma_dec_enc(m.unknown2, rest);
    }

    fn from_bytes(r: &mut BufferReader) -> (res: Result<Self, DecodeError>) {
        r.bounds_check();
        let ghost orig = *r;
        let position_x = i16::from_bytes(r)?;
        proof {
            assert(r.rest() =~= orig.rest().skip(r.pos() - orig.pos()));
        }
        let position_y = i16::from_bytes(r)?;
        let ghost mid = *r;
        proof {
            assert(r.rest() =~= orig.rest().skip(r.pos() - orig.pos()));
        }
        let fs = decode_many::<u32>(r, 4)?;
        proof {
            lemma_dec_many_ok::<u32>(mid.rest(), 4);
            assert(fs.deep_view() =~= fs@);
            assert(r.rest() =~= orig.rest().skip(r.pos() - orig.pos()));
        }
        let text = <CStringWithLength as Binary>::from_bytes(r)?;
        proof {
            assert(r.rest() =~= orig.rest().skip(r.pos() - orig.pos()));
        }
        let unknown2 = u32::from_bytes(r)?;
        let result = Note {
            position_x,
            position_y,
            unknown0: fs[0],
            is_visible: fs[1],
            id: fs[2],
            unknown1: fs[3],
            text,
            unknown2,
        };
        proof {
            assert(result.deep_view().flags() =~= fs@);
        }
        Ok(result)
    }

    fn to_bytes(&self, w: &mut BufferWriter) {
        self.position_x.to_bytes(w);
        self.position_y.to_bytes(w);
        let v: Vec<u32> = vec![self.unknown0, self.is_visible, self.id, self.unknown1];
        proof {
            assert(v.deep_view() =~= self.deep_view().flags());
        }
        encode_many::<u32>(&v, w);
        self.text.to_bytes(w);
        self.unknown2.to_bytes(w);
        proof {
            assert(final(w).data() =~= old(w).data() + Self::m_enc(self.deep_view()));
        }
    }
}

/// The two leading position fields of a note.
pub open spec fn le16_pair(x: i16, y: i16) -> Seq<u8> {
    <i16 as Binary>::m_enc(x) + <i16 as Binary>::m_enc(y)
}

/// The byte length that a list of notes occupies when encoded: the game
/// stores it before the notes and recomputes it on save.
pub open spec fn notes_buffer_len(ms: Seq<NoteModel>) -> int
    decreases ms.len(),
{
    if ms.len() == 0 {
        0
    } else {
        (ms[0].text.len() + 1 + 28) + notes_buffer_len(ms.drop_first())
    }
}

/// The buffer length grows by one note's span at a time, and never shrinks.
pub proof fn lemma_notes_buffer_len_snoc(ms: Seq<NoteModel>, m: NoteModel)
    ensures
        notes_buffer_len(ms.push(m)) == notes_buffer_len(ms) + m.text.len() + 29,
    decreases ms.len(),
{
    let p = ms.push(m);
    if ms.len() == 0 {
        assert(p.drop_first() =~= Seq::<NoteModel>::empty());
        assert(p[0] == m);
        assert(notes_buffer_len(Seq::<NoteModel>::empty()) == 0);
    } else {
        assert(p.drop_first() =~= ms.drop_first().push(m));
        assert(p[0] == ms[0]);
        lemma_notes_buffer_len_snoc(ms.drop_first(), m);
    }
}

/// The buffer length of a prefix never exceeds the whole.
pub proof fn lemma_notes_buffer_len_split(ms: Seq<NoteModel>, i: int)
    requires
        0 <= i <= ms.len(),
    ensures
        notes_buffer_len(ms) == notes_buffer_len(ms.take(i)) + notes_buffer_len(ms.skip(i)),
        notes_buffer_len(ms.take(i)) >= 0,
        notes_buffer_len(ms.skip(i)) >= 0,
    decreases i,
{
    lemma_notes_buffer_len_nonneg(ms.take(i));
    lemma_notes_buffer_len_nonneg(ms.skip(i));
    if i == 0 {
        assert(ms.take(0) =~= Seq::<NoteModel>::empty());
        assert(ms.skip(0) =~= ms);
    } else {
        lemma_notes_buffer_len_split(ms, i - 1);
        assert(ms.take(i - 1).push(ms[i - 1]) =~= ms.take(i));
        lemma_notes_buffer_len_snoc(ms.take(i - 1), ms[i - 1]);
        assert(ms.skip(i - 1).drop_first() =~= ms.skip(i));
        assert(ms.skip(i - 1)[0] == ms[i - 1]);
    }
}

/// The buffer length is never negative.
pub proof fn lemma_notes_buffer_len_nonneg(ms: Seq<NoteModel>)
    ensures
        notes_buffer_len(ms) >= 0,
    decreases ms.len(),
{
    if ms.len() > 0 {
        lemma_notes_buffer_len_nonneg(ms.drop_first());
    }
}

/// One stored note list: a count, the byte length of the encoded notes
/// (ignored on decode, recomputed on encode), and the notes.  A list whose
/// encoded span would overflow the length field has no valid encoding and is
/// rejected as malformed.
pub open spec fn enc_note_list(ms: Seq<NoteModel>) -> Seq<u8> {
    le32_bytes(ms.len() as u32) + le32_bytes(notes_buffer_len(ms) as u32) + enc_many::<Note>(ms)
}

/// What one note list decodes to from the head of `b`.
pub open spec fn dec_note_list(b: Seq<u8>) -> Result<(Seq<NoteModel>, int), DecodeError> {
    match <u32 as Binary>::m_dec(b) {
        Err(e) => Err(e),
        Ok((c, _)) => if b.len() < 8 {
            Err(DecodeError::Truncated)
        } else {
            match dec_many::<Note>(b.skip(8), c as int) {
                Err(e) => Err(e),
                Ok((ns, n)) => if notes_buffer_len(ns) > u32::MAX {
                    Err(DecodeError::Malformed)
                } else {
                    Ok((ns, 8 + n))
                },
            }
        },
    }
}

/// A decoded note list is well formed and bounded.
pub proof fn lemma_dec_note_list_ok(b: Seq<u8>)
    ensures
        dec_note_list(b) matches Ok((ms, n)) ==> wf_many::<Note>(ms) && ms.len() <= u32::MAX
            && notes_buffer_len(ms) <= u32::MAX && 0 <= n <= b.len(),
{
    if let Ok((c, _)) = <u32 as Binary>::m_dec(b) {
        if b.len() >= 8 {
            lemma_dec_many_ok::<Note>(b.skip(8), c as int);
        }
    }
}

/// Round trip for one note list.
pub proof fn lemma_dec_note_list_enc(ms: Seq<NoteModel>, rest: Seq<u8>)
    requires
        wf_many::<Note>(ms),
        ms.len() <= u32::MAX,
        notes_buffer_len(ms) <= u32::MAX,
    ensures
        dec_note_list(enc_note_list(ms) + rest) == Ok::<(Seq<NoteModel>, int), DecodeError>(
            (ms, enc_note_list(ms).len() as int),
        ),
{
    let e1 = le32_bytes(ms.len() as u32);
    let e2 = le32_bytes(notes_buffer_len(ms) as u32);
    let e3 = enc_many::<Note>(ms);
    let b = e1 + (e2 + (e3 + rest));
    assert(enc_note_list(ms) + rest =~= b);
    <u32 as Binary>::lemma_dec_enc(ms.len() as u32, e2 + (e3 + rest));
    assert(b.skip(8) =~= e3 + rest);
    lemma_dec_many_enc::<Note>(ms, rest);
    lemma_notes_buffer_len_nonneg(ms);
}

/// Decodes one note list.
fn decode_note_list(r: &mut BufferReader) -> (res: Result<Vec<Note>, DecodeError>)
    ensures
        final(r).data() == old(r).data(),
        old(r).pos() <= final(r).pos() <= final(r).data().len(),
        match dec_note_list(old(r).rest()) {
            Ok((ms, n)) => res matches Ok(v) && v.deep_view() == ms && final(r).pos() == old(
                r,
            ).pos() + n,
            Err(e) => res == Err::<Vec<Note>, DecodeError>(e),
        },
{
    r.bounds_check();
    let ghost orig = *r;
    let count = r.read_u32()?;
    if r.remaining() < 4 {
        return Err(DecodeError::Truncated);
    }
    r.skip(4);
    proof {
        assert(r.rest() =~= orig.rest().skip(8));
    }
    let notes = decode_many::<Note>(r, count as usize)?;
    proof {
        lemma_dec_many_ok::<Note>(orig.rest().skip(8), count as int);
    }
    if checked_buffer_len(&notes).is_none() {
        return Err(DecodeError::Malformed);
    }
    Ok(notes)
}

impl DeepView for Notes {
    type V = NotesModel;

    open spec fn deep_view(&self) -> NotesModel {
        NotesModel {
            user_notes: self.user_notes.deep_view(),
            notes: self.notes.deep_view(),
            unknown0: self.unknown0,
            unknown1: self.unknown1,
        }
    }
}

impl Binary for Notes {
    open spec fn m_wf(m: NotesModel) -> bool {
        &&& m.user_notes.len() <= u32::MAX
        &&& m.notes.len() <= u32::MAX
        &&& wf_many::<Note>(m.user_notes)
        &&& wf_many::<Note>(m.notes)
        &&& notes_buffer_len(m.user_notes) <= u32::MAX
        &&& notes_buffer_len(m.notes) <= u32::MAX
    }

    open spec fn m_enc(m: NotesModel) -> Seq<u8> {
        enc_note_list(m.user_notes) + enc_note_list(m.notes) + le32_bytes(m.unknown0)
            + le32_bytes(m.unknown1)
    }

    open spec fn m_dec(b: Seq<u8>) -> Result<(NotesModel, int), DecodeError> {
        match dec_note_list(b) {
            Err(e) => Err(e),
            Ok((user_notes, n1)) => match dec_note_list(b.skip(n1)) {
                Err(e) => Err(e),
                Ok((notes, n2)) => match <u32 as Binary>::m_dec(b.skip(n1 + n2)) {
                    Err(e) => Err(e),
                    Ok((unknown0, _)) => match <u32 as Binary>::m_dec(b.skip(n1 + n2 + 4)) {
                        Err(e) => Err(e),
                        Ok((unknown1, _)) => Ok(
                            (
                                NotesModel { user_notes, notes, unknown0, unknown1 },
                                n1 + n2 + 8,
                            ),
                        ),
                    },
                },
            },
        }
    }

    proof fn lemma_dec_ok(b: Seq<u8>) {
        lemma_dec_note_list_ok(b);
        if let Ok((_, n1)) = dec_note_list(b) {
            lemma_dec_note_list_ok(b.skip(n1));
            if let Ok((_, n2)) = dec_note_list(b.skip(n1)) {
                <u32 as Binary>::lemma_dec_ok(b.skip(n1 + n2));
                <u32 as Binary>::lemma_dec_ok(b.skip(n1 + n2 + 4));
            }
        }
    }

    #[verifier::rlimit(100)]
    #[verifier::spinoff_prover]
    proof fn lemma_dec_enc(m: NotesModel, rest: Seq<u8>) {
        let e1 = enc_note_list(m.user_notes);
        let e2 = enc_note_list(m.notes);
        let e3 = le32_bytes(m.unknown0);
        let e4 = le32_bytes(m.unknown1);
        let b = e1 + (e2 + (e3 + (e4 + rest)));
        assert(Self::m_enc(m) + rest =~= b);
        lemma_dec_note_list_enc(m.user_notes, e2 + (e3 + (e4 + rest)));
        assert(b.skip(e1.len() as int) =~= e2 + (e3 + (e4 + rest)));
        lemma_dec_note_list_enc(m.notes, e3 + (e4 + rest));
        assert(b.skip(e1.len() as int + e2.len() as int) =~= e3 + (e4 + rest));
        <u32 as Binary>::lemma_dec_enc(m.unknown0, e4 + rest);
        assert(b.skip(e1.len() as int + e2.len() as int + 4) =~= e4 + rest);
        <u32 as Binary>::lemma_dec_enc(m.unknown1, rest);
    }

    fn from_bytes(r: &mut BufferReader) -> (res: Result<Self, DecodeError>) {
        r.bounds_check();
        let ghost orig = *r;
        let user_notes = decode_note_list(r)?;
        proof {
            assert(r.rest() =~= orig.rest().skip(r.pos() - orig.pos()));
        }
        let notes = decode_note_list(r)?;
        proof {
            assert(r.rest() =~= orig.rest().skip(r.pos() - orig.pos()));
        }
        let unknown0 = r.read_u32()?;
        proof {
            assert(r.rest() =~= orig.rest().skip(r.pos() - orig.pos()));
        }
        let unknown1 = r.read_u32()?;
        Ok(Notes { user_notes, notes, unknown0, unknown1 })
    }

    fn to_bytes(&self, w: &mut BufferWriter) {
        let ghost dv = self.deep_view();
        w.write_u32(self.user_notes.len() as u32);
        let user_len = buffer_len_of(&self.user_notes);
        w.write_u32(user_len);
        encode_many::<Note>(&self.user_notes, w);
        w.write_u32(self.notes.len() as u32);
        let notes_len = buffer_len_of(&self.notes);
        w.write_u32(notes_len);
        encode_many::<Note>(&self.notes, w);
        w.write_u32(self.unknown0);
        w.write_u32(self.unknown1);
        proof {
            assert(final(w).data() =~= old(w).data() + Self::m_enc(dv));
        }
    }
}

/// Computes the stored byte length of a note list if it fits its 32-bit
/// field.
fn checked_buffer_len(notes: &Vec<Note>) -> (res: Option<u32>)
    requires
        wf_many::<Note>(notes.deep_view()),
    ensures
        match res {
            Some(n) => notes_buffer_len(notes.deep_view()) <= u32::MAX && n == notes_buffer_len(
                notes.deep_view(),
            ),
            None => notes_buffer_len(notes.deep_view()) > u32::MAX,
        },
{
    let ghost dv = notes.deep_view();
    let mut total: u64 = 0;
    let mut i: usize = 0;
    proof {
        assert(dv.take(0) =~= Seq::<NoteModel>::empty());
    }
    while i < notes.len()
        invariant
            i <= notes.len(),
            dv == notes.deep_view(),
            dv.len() == notes.len(),
            wf_many::<Note>(dv),
            total == notes_buffer_len(dv.take(i as int)),
            total <= u32::MAX,
        decreases notes.len() - i,
    {
        proof {
            lemma_notes_buffer_len_snoc(dv.take(i as int), dv[i as int]);
            assert(dv.take(i as int).push(dv[i as int]) =~= dv.take(i + 1));
            assert(dv[i as int].text.len() + 1 <= u32::MAX);
        }
        let t = notes[i].text.bytes_len();
        total = total + t as u64 + 29;
        if total > u32::MAX as u64 {
            proof {
                lemma_notes_buffer_len_split(dv, i + 1);
                assert(notes_buffer_len(dv) >= notes_buffer_len(dv.take(i + 1)));
            }
            return None;
        }
        i = i + 1;
    }
    proof {
        assert(dv.take(dv.len() as int) =~= dv);
    }
    Some(total as u32)
}

/// Computes the stored byte length of a note list whose bound is known.
fn buffer_len_of(notes: &Vec<Note>) -> (n: u32)
    requires
        notes_buffer_len(notes.deep_view()) <= u32::MAX,
        wf_many::<Note>(notes.deep_view()),
    ensures
        n == notes_buffer_len(notes.deep_view()),
{
    let ghost dv = notes.deep_view();
    let mut total: u32 = 0;
    let mut i: usize = 0;
    proof {
        assert(dv.take(0) =~= Seq::<NoteModel>::empty());
    }
    while i < notes.len()
        invariant
            i <= notes.len(),
            dv == notes.deep_view(),
            dv.len() == notes.len(),
            wf_many::<Note>(dv),
            notes_buffer_len(dv) <= u32::MAX,
            total == notes_buffer_len(dv.take(i as int)),
        decreases notes.len() - i,
    {
        proof {
            lemma_notes_buffer_len_split(dv, i as int);
            lemma_notes_buffer_len_split(dv.skip(i as int), 1);
            assert(dv.skip(i as int).take(1)[0] == dv[i as int]);
            assert(dv.skip(i as int).take(1).drop_first() =~= Seq::<NoteModel>::empty());
            assert(notes_buffer_len(dv.skip(i as int).take(1)) == dv[i as int].text.len() + 29);
            lemma_notes_buffer_len_snoc(dv.take(i as int), dv[i as int]);
            assert(dv.take(i as int).push(dv[i as int]) =~= dv.take(i + 1));
            assert(dv[i as int].text.len() + 1 <= u32::MAX);
        }
        let t = notes[i].text.bytes_len();
        total = total + t + 29;
        i = i + 1;
    }
    proof {
        assert(dv.take(dv.len() as int) =~= dv);
    }
    total
}

} // verus!
