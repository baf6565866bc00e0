//! text.cmp
//!
//! Each text is stored length-prefixed without the terminator counted, but a
//! terminator byte follows a non-empty text in the stream and is skipped on
//! decode.

use vstd::prelude::*;
use vstd::utf8::{encode_scalar, encode_utf8};

use crate::buffer::{le32_bytes, BufferReader, BufferWriter};
use crate::types::Binary;
use crate::DecodeError;

verus! {

/// The text tables.
pub struct Text {
    pub entries: Vec<TextEntry>,
}

pub struct TextEntry {
    pub unknown0: u32,
    pub entries: Vec<TextEntry2>,
}

pub struct TextEntry2 {
    pub id: u32,
    pub text1: String,
    pub text2: String,
}

/// The model of an inner text entry.
pub struct TextEntry2Model {
    pub id: u32,
    pub text1: Seq<char>,
    pub text2: Seq<char>,
}

/// The model of an outer text entry.
pub struct TextEntryModel {
    pub unknown0: u32,
    pub entries: Seq<TextEntry2Model>,
}

/// A character sequence encodes to no bytes exactly when it is empty.
pub proof fn lemma_encode_utf8_empty(m: Seq<char>)
    ensures
        encode_utf8(m).len() == 0 <==> m.len() == 0,
{
    if m.len() > 0 {
        assert(encode_scalar(m[0] as u32).len() >= 1);
        assert(encode_utf8(m) == encode_scalar(m[0] as u32) + encode_utf8(m.drop_first()));
    }
}

/// The optional terminator that follows a non-empty text.
pub open spec fn opt_nul(text: Seq<char>) -> Seq<u8> {
    if text.len() > 0 {
        seq![0u8]
    } else {
        Seq::<u8>::empty()
    }
}

impl DeepView for TextEntry2 {
    type V = TextEntry2Model;

    open spec fn deep_view(&self) -> TextEntry2Model {
        TextEntry2Model {
            id: self.id,
            text1: self.text1.deep_view(),
            text2: self.text2.deep_view(),
        }
    }
}

impl Binary for TextEntry2 {
    open spec fn m_wf(m: TextEntry2Model) -> bool {
        &&& <String as Binary>::m_wf(m.text1)
        &&& <String as Binary>::m_wf(m.text2)
    }

    open spec fn m_enc(m: TextEntry2Model) -> Seq<u8> {
        le32_bytes(m.id) + <String as Binary>::m_enc(m.text1) + opt_nul(m.text1)
            + <String as Binary>::m_enc(m.text2) + opt_nul(m.text2)
    }

    open spec fn m_dec(b: Seq<u8>) -> Result<(TextEntry2Model, int), DecodeError> {
        match <u32 as Binary>::m_dec(b) {
            Err(e) => Err(e),
            Ok((id, n1)) => match <String as Binary>::m_dec(b.skip(n1)) {
                Err(e) => Err(e),
                Ok((text1, n2)) => {
                    let p2 = n1 + n2 + opt_nul(text1).len();
                    if b.len() < p2 {
                        Err(DecodeError::Truncated)
                    } else {
                        match <String as Binary>::m_dec(b.skip(p2)) {
                            Err(e) => Err(e),
                            Ok((text2, n3)) => {
                                let p3 = p2 + n3 + opt_nul(text2).len();
                                if b.len() < p3 {
                                    Err(DecodeError::Truncated)
                                } else {
                                    Ok((TextEntry2Model { id, text1, text2 }, p3))
                                }
                            },
                        }
                    }
                },
            },
        }
    }

    proof fn lemma_dec_ok(b: Seq<u8>) {
        <u32 as Binary>::lemma_dec_ok(b);
        if let Ok((_, n1)) = <u32 as Binary>::m_dec(b) {
            <String as Binary>::lemma_dec_ok(b.skip(n1));
            if let Ok((text1, n2)) = <String as Binary>::m_dec(b.skip(n1)) {
                let p2 = n1 + n2 + opt_nul(text1).len();
                if b.len() >= p2 {
                    <String as Binary>::lemma_dec_ok(b.skip(p2));
                }
            }
        }
    }

    proof fn lemma_dec_enc(m: TextEntry2Model, rest: Seq<u8>) {
        let e1 = le32_bytes(m.id);
        let e2 = <String as Binary>::m_enc(m.text1);
        let o1 = opt_nul(m.text1);
        let e3 = <String as Binary>::m_enc(m.text2);
        let o2 = opt_nul(m.text2);
        let b = e1 + (e2 + (o1 + (e3 + (o2 + rest))));
        assert(Self::m_enc(m) + rest =~= b);
        <u32 as Binary>::lemma_dec_enc(m.id, e2 + (o1 + (e3 + (o2 + rest))));
        assert(b.skip(e1.len() as int) =~= e2 + (o1 + (e3 + (o2 + rest))));
        <String as Binary>::lemma_dec_enc(m.text1, o1 + (e3 + (o2 + rest)));
        assert(b.skip(e1.len() as int + e2.len() as int + o1.len() as int) =~= e3 + (o2 + rest));
        <String as Binary>::lemma_dec_enc(m.text2, o2 + rest);
        assert(b.len() >= e1.len() + e2.len() + o1.len() + e3.len() + o2.len());
    }

    fn from_bytes(r: &mut BufferReader) -> (res: Result<Self, DecodeError>) {
        r.bounds_check();
        let ghost orig = *r;
        let ghost b = orig.rest();
        let id = u32::from_bytes(r)?;
        proof {
            assert(r.rest() =~= orig.rest().skip(r.pos() - orig.pos()));
        }
        let ghost n1 = r.pos() - orig.pos();
        let text1 = String::from_bytes(r)?;
        proof {
            lemma_encode_utf8_empty(text1@);
            <String as Binary>::lemma_dec_ok(b.skip(n1));
            assert(encode_utf8(text1@).len() <= u32::MAX);
        }
        let ghost n2 = r.pos() - orig.pos() - n1;
        if text1.as_str().len() > 0 {
            if r.remaining() < 1 {
                proof {
                    assert(b.len() < n1 + n2 + opt_nul(text1@).len());
                }
                return Err(DecodeError::Truncated);
            }
            r.skip(1);
        }
        proof {
            assert(r.pos() - orig.pos() == n1 + n2 + opt_nul(text1@).len());
            assert(b.len() >= n1 + n2 + opt_nul(text1@).len());
            assert(r.rest() =~= orig.rest().skip(r.pos() - orig.pos()));
        }
        let ghost p2 = r.pos() - orig.pos();
        let text2 = String::from_bytes(r)?;
        proof {
            lemma_encode_utf8_empty(text2@);
            <String as Binary>::lemma_dec_ok(b.skip(p2));
            assert(encode_utf8(text2@).len() <= u32::MAX);
        }
        if text2.as_str().len() > 0 {
            if r.remaining() < 1 {
                return Err(DecodeError::Truncated);
            }
            r.skip(1);
        }
        Ok(TextEntry2 { id, text1, text2 })
    }

    fn to_bytes(&self, w: &mut BufferWriter) {
        proof {
            lemma_encode_utf8_empty(self.text1@);
            lemma_encode_utf8_empty(self.text2@);
            assert(encode_utf8(self.text1@).len() <= u32::MAX);
            assert(encode_utf8(self.text2@).len() <= u32::MAX);
        }
        self.id.to_bytes(w);
        self.text1.to_bytes(w);
        if self.text1.as_str().len() > 0 {
            w.pad(1);
        }
        self.text2.to_bytes(w);
        if self.text2.as_str().len() > 0 {
            w.pad(1);
        }
        proof {
            assert(Seq::<u8>::new(1nat, |i: int| 0u8) =~= seq![0u8]);
            assert(final(w).data() =~= old(w).data() + Self::m_enc(self.deep_view()));
        }
    }
}

impl DeepView for TextEntry {
    type V = TextEntryModel;

    open spec fn deep_view(&self) -> TextEntryModel {
        TextEntryModel { unknown0: self.unknown0, entries: self.entries.deep_view() }
    }
}

impl Binary for TextEntry {
    open spec fn m_wf(m: TextEntryModel) -> bool {
        <Vec<TextEntry2> as Binary>::m_wf(m.entries)
    }

    open spec fn m_enc(m: TextEntryModel) -> Seq<u8> {
        le32_bytes(m.unknown0) + <Vec<TextEntry2> as Binary>::m_enc(m.entries)
    }

    open spec fn m_dec(b: Seq<u8>) -> Result<(TextEntryModel, int), DecodeError> {
        match <u32 as Binary>::m_dec(b) {
            Err(e) => Err(e),
            Ok((unknown0, n1)) => match <Vec<TextEntry2> as Binary>::m_dec(b.skip(n1)) {
                Err(e) => Err(e),
                Ok((entries, n2)) => Ok((TextEntryModel { unknown0, entries }, n1 + n2)),
            },
        }
    }

    proof fn lemma_dec_ok(b: Seq<u8>) {
        <u32 as Binary>::lemma_dec_ok(b);
        if let Ok((_, n1)) = <u32 as Binary>::m_dec(b) {
            <Vec<TextEntry2> as Binary>::lemma_dec_ok(b.skip(n1));
        }
    }

    proof fn lemma_dec_enc(m: TextEntryModel, rest: Seq<u8>) {
        let e1 = le32_bytes(m.unknown0);
        let e2 = <Vec<TextEntry2> as Binary>::m_enc(m.entries);
        assert(Self::m_enc(m) + rest =~= e1 + (e2 + rest));
        <u32 as Binary>::lemma_dec_enc(m.unknown0, e2 + rest);
        assert((e1 + (e2 + rest)).skip(e1.len() as int) =~= e2 + rest);
        <Vec<TextEntry2> as Binary>::lemma_dec_enc(m.entries, rest);
    }

    fn from_bytes(r: &mut BufferReader) -> (res: Result<Self, DecodeError>) {
        r.bounds_check();
        let ghost orig = *r;
        let unknown0 = u32::from_bytes(r)?;
        proof {
            assert(r.rest() =~= orig.rest().skip(r.pos() - orig.pos()));
        }
        let entries = <Vec<TextEntry2> as Binary>::from_bytes(r)?;
        Ok(TextEntry { unknown0, entries })
    }

    fn to_bytes(&self, w: &mut BufferWriter) {
        self.unknown0.to_bytes(w);
        self.entries.to_bytes(w);
    }
}

impl DeepView for Text {
    type V = Seq<TextEntryModel>;

    open spec fn deep_view(&self) -> Seq<TextEntryModel> {
        self.entries.deep_view()
    }
}

impl Binary for Text {
    open spec fn m_wf(m: Seq<TextEntryModel>) -> bool {
        <Vec<TextEntry> as Binary>::m_wf(m)
    }

    open spec fn m_enc(m: Seq<TextEntryModel>) -> Seq<u8> {
        <Vec<TextEntry> as Binary>::m_enc(m)
    }

    open spec fn m_dec(b: Seq<u8>) -> Result<(Seq<TextEntryModel>, int), DecodeError> {
        <Vec<TextEntry> as Binary>::m_dec(b)
    }

    proof fn lemma_dec_ok(b: Seq<u8>) {
        <Vec<TextEntry> as Binary>::lemma_dec_ok(b);
    }

    proof fn lemma_dec_enc(m: Seq<TextEntryModel>, rest: Seq<u8>) {
        <Vec<TextEntry> as Binary>::lemma_dec_enc(m, rest);
    }

    fn from_bytes(r: &mut BufferReader) -> (res: Result<Self, DecodeError>) {
        let entries = <Vec<TextEntry> as Binary>::from_bytes(r)?;
        Ok(Text { entries })
    }

    fn to_bytes(&self, w: &mut BufferWriter) {
        self.entries.to_bytes(w);
    }
}

} // verus!
