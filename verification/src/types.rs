//! The codec capability: a type is codable when it can produce itself from a
//! byte cursor and serialize itself back.  The contract of every codable is
//! stated against a pair of specification functions, one that says what the
//! head of a byte sequence decodes to and one that says what a value encodes
//! to, and every implementation proves the round-trip law that decoding an
//! encoding yields the value back.

use vstd::prelude::*;

pub mod eggs;
pub mod font;
pub mod info;
pub mod magic;
pub mod music;
pub mod osiris_names;
pub mod objects_000;
pub mod osiris_objects;
pub mod packed;
pub mod persist;
pub mod props;
pub mod quest_log;
pub mod quickinfo;
pub mod shroud;
pub mod reverbs;
pub mod sound;
pub mod status_plate;
pub mod telpstates;
pub mod usernotes;
pub mod world;
pub mod text;

use crate::buffer::{
    bool_byte, dec_string, le16_bytes, le32_bytes, lemma_i16_roundtrip, lemma_i32_roundtrip,
    lemma_le16_roundtrip, lemma_le32_roundtrip, u16_from_le, u32_from_le, BufferReader,
    BufferWriter,
};
use crate::DecodeError;
use vstd::string::{StrSliceExecFns, StringExecFns, StringSliceAdditionalSpecFns};
use vstd::utf8::{decode_utf8, decode_utf8_encode_utf8, encode_utf8, encode_utf8_decode_utf8,
    encode_utf8_valid_utf8, valid_utf8};

verus! {

/// A type that can be decoded from a byte cursor and encoded into one.
///
/// The deep view of the type is its mathematical model; `m_dec` and `m_enc`
/// say, over that model, what the bytes mean.  `lemma_dec_enc` is the
/// round-trip law: decoding an encoding yields the encoded value and consumes
/// exactly its bytes, whatever follows it in the stream.
pub trait Binary: Sized + DeepView {
    /// Which models have an encoding at all (lengths fit their prefixes,
    /// terminated strings hold no terminator, and the like).
    spec fn m_wf(m: <Self as DeepView>::V) -> bool;

    /// The exact byte encoding of a model.
    spec fn m_enc(m: <Self as DeepView>::V) -> Seq<u8>;

    /// What the head of `b` decodes to: a model and the count of consumed
    /// bytes, or the error the decoder reports.
    spec fn m_dec(b: Seq<u8>) -> Result<(<Self as DeepView>::V, int), DecodeError>;

    /// A successful decode yields a well-formed model and consumes no more
    /// than the stream holds.
    proof fn lemma_dec_ok(b: Seq<u8>)
        ensures
            Self::m_dec(b) matches Ok((m, n)) ==> Self::m_wf(m) && 0 <= n <= b.len(),
    ;

    /// Round trip: decoding an encoding yields the value back.
    proof fn lemma_dec_enc(m: <Self as DeepView>::V, rest: Seq<u8>)
        requires
            Self::m_wf(m),
        ensures
            Self::m_dec(Self::m_enc(m) + rest) == Ok::<(<Self as DeepView>::V, int), DecodeError>(
                (m, Self::m_enc(m).len() as int),
            ),
    ;

    /// Decodes one value from the cursor, advancing past exactly the bytes
    /// the value occupies, or fails as `m_dec` says.
    fn from_bytes(r: &mut BufferReader) -> (res: Result<Self, DecodeError>)
        ensures
            final(r).data() == old(r).data(),
            old(r).pos() <= final(r).pos() <= final(r).data().len(),
            match Self::m_dec(old(r).rest()) {
                Ok((m, n)) => res matches Ok(v) && v.deep_view() == m && final(r).pos() == old(
                    r,
                ).pos() + n,
                Err(e) => res == Err::<Self, DecodeError>(e),
            },
    ;

    /// Appends the value's exact encoding to the writer.
    fn to_bytes(&self, w: &mut BufferWriter)
        requires
            Self::m_wf(self.deep_view()),
        ensures
            final(w).data() == old(w).data() + Self::m_enc(self.deep_view()),
    ;
}

/// Every element of a model sequence is well formed.
pub open spec fn wf_many<T: Binary>(ms: Seq<<T as DeepView>::V>) -> bool {
    forall|i: int| 0 <= i < ms.len() ==> T::m_wf(#[trigger] ms[i])
}

/// The concatenated encodings of a model sequence, in order.
pub open spec fn enc_many<T: Binary>(ms: Seq<<T as DeepView>::V>) -> Seq<u8>
    decreases ms.len(),
{
    if ms.len() == 0 {
        Seq::<u8>::empty()
    } else {
        T::m_enc(ms[0]) + enc_many::<T>(ms.drop_first())
    }
}

/// What `count` consecutive values decode to from the head of `b`.
pub open spec fn dec_many<T: Binary>(b: Seq<u8>, count: int) -> Result<
    (Seq<<T as DeepView>::V>, int),
    DecodeError,
>
    decreases count,
{
    if count <= 0 {
        Ok((Seq::<<T as DeepView>::V>::empty(), 0))
    } else {
        match T::m_dec(b) {
            Err(e) => Err(e),
            Ok((m, n)) => match dec_many::<T>(b.skip(n), count - 1) {
                Err(e) => Err(e),
                Ok((ms, n2)) => Ok((seq![m] + ms, n + n2)),
            },
        }
    }
}

/// A successful `dec_many` yields `count` well-formed models within bounds.
pub proof fn lemma_dec_many_ok<T: Binary>(b: Seq<u8>, count: int)
    ensures
        dec_many::<T>(b, count) matches Ok((ms, n)) ==> wf_many::<T>(ms) && ms.len() == (if count
            <= 0 {
            0
        } else {
            count
        }) && 0 <= n <= b.len(),
    decreases count,
{
    if count > 0 {
        T::lemma_dec_ok(b);
        if let Ok((m, n)) = T::m_dec(b) {
            lemma_dec_many_ok::<T>(b.skip(n), count - 1);
        }
    }
}

/// Appending one encoding extends the concatenated encodings.
pub proof fn lemma_enc_many_snoc<T: Binary>(ms: Seq<<T as DeepView>::V>, x: <T as DeepView>::V)
    ensures
        enc_many::<T>(ms.push(x)) == enc_many::<T>(ms) + T::m_enc(x),
    decreases ms.len(),
{
    if ms.len() == 0 {
        assert(ms.push(x).drop_first() =~= Seq::<<T as DeepView>::V>::empty());
        assert(enc_many::<T>(Seq::<<T as DeepView>::V>::empty()) =~= Seq::<u8>::empty());
        assert(ms.push(x)[0] == x);
        assert(enc_many::<T>(ms.push(x)) =~= enc_many::<T>(ms) + T::m_enc(x));
    } else {
        assert(ms.push(x).drop_first() =~= ms.drop_first().push(x));
        lemma_enc_many_snoc::<T>(ms.drop_first(), x);
        assert(enc_many::<T>(ms.push(x)) =~= enc_many::<T>(ms) + T::m_enc(x));
    }
}

/// Round trip for sequences: decoding the concatenation of `ms.len()`
/// encodings yields `ms` back.
pub proof fn lemma_dec_many_enc<T: Binary>(ms: Seq<<T as DeepView>::V>, rest: Seq<u8>)
    requires
        wf_many::<T>(ms),
    ensures
        dec_many::<T>(enc_many::<T>(ms) + rest, ms.len() as int) == Ok::<
            (Seq<<T as DeepView>::V>, int),
            DecodeError,
        >((ms, enc_many::<T>(ms).len() as int)),
    decreases ms.len(),
{
    if ms.len() == 0 {
        assert(ms =~= Seq::<<T as DeepView>::V>::empty());
    } else {
        let e0 = T::m_enc(ms[0]);
        let tail = ms.drop_first();
        assert(enc_many::<T>(ms) + rest =~= e0 + (enc_many::<T>(tail) + rest));
        T::lemma_dec_enc(ms[0], enc_many::<T>(tail) + rest);
        assert((e0 + (enc_many::<T>(tail) + rest)).skip(e0.len() as int) =~= enc_many::<T>(tail)
            + rest);
        lemma_dec_many_enc::<T>(tail, rest);
        assert(seq![ms[0]] + tail =~= ms);
    }
}

/// Decodes `count` consecutive values of `T` from the cursor.
pub fn decode_many<T: Binary>(r: &mut BufferReader, count: usize) -> (res: Result<
    Vec<T>,
    DecodeError,
>)
    ensures
        final(r).data() == old(r).data(),
        old(r).pos() <= final(r).pos() <= final(r).data().len(),
        match dec_many::<T>(old(r).rest(), count as int) {
            Ok((ms, n)) => res matches Ok(v) && v.deep_view() == ms && final(r).pos() == old(
                r,
            ).pos() + n,
            Err(e) => res == Err::<Vec<T>, DecodeError>(e),
        },
{
    r.bounds_check();
    let ghost orig = *r;
    let mut out: Vec<T> = Vec::new();
    assert(out.deep_view() =~= Seq::<<T as DeepView>::V>::empty());
    let mut i: usize = 0;
    while i < count
        invariant
            i <= count,
            orig == *old(r),
            0 <= orig.pos() <= orig.data().len(),
            r.data() == orig.data(),
            orig.pos() <= r.pos() <= r.data().len(),
            out.deep_view().len() == i,
            match dec_many::<T>(r.rest(), (count - i) as int) {
                Ok((ms, n)) => dec_many::<T>(orig.rest(), count as int) == Ok::<
                    (Seq<<T as DeepView>::V>, int),
                    DecodeError,
                >((out.deep_view() + ms, (r.pos() - orig.pos()) + n)),
                Err(e) => dec_many::<T>(orig.rest(), count as int) == Err::<
                    (Seq<<T as DeepView>::V>, int),
                    DecodeError,
                >(e),
            },
        decreases count - i,
    {
        let ghost r0 = *r;
        let ghost out0 = out.deep_view();
        match T::from_bytes(r) {
            Ok(v) => {
                proof {
                    T::lemma_dec_ok(r0.rest());
                }
                let ghost m = v.deep_view();
                out.push(v);
                proof {
                    assert(out.deep_view() =~= out0 + seq![m]);
                    if let Ok((mh, n)) = T::m_dec(r0.rest()) {
                        assert(r.rest() =~= r0.rest().skip(n));
                        match dec_many::<T>(r.rest(), (count - i - 1) as int) {
                            Ok((ms2, n2)) => {
                                assert(dec_many::<T>(r0.rest(), (count - i) as int) == Ok::<
                                    (Seq<<T as DeepView>::V>, int),
                                    DecodeError,
                                >((seq![mh] + ms2, n + n2)));
                                assert(out0 + (seq![mh] + ms2) =~= out.deep_view() + ms2);
                            },
                            Err(_) => {},
                        }
                    }
                }
                i = i + 1;
            },
            Err(e) => {
                return Err(e);
            },
        }
    }
    proof {
        assert(dec_many::<T>(r.rest(), 0) == Ok::<(Seq<<T as DeepView>::V>, int), DecodeError>(
            (Seq::<<T as DeepView>::V>::empty(), 0),
        ));
        assert(out.deep_view() + Seq::<<T as DeepView>::V>::empty() =~= out.deep_view());
    }
    Ok(out)
}

/// Encodes every element of `elems`, in order.
pub fn encode_many<T: Binary>(elems: &Vec<T>, w: &mut BufferWriter)
    requires
        wf_many::<T>(elems.deep_view()),
    ensures
        final(w).data() == old(w).data() + enc_many::<T>(elems.deep_view()),
{
    let ghost dv = elems.deep_view();
    let mut i: usize = 0;
    assert(w.data() =~= old(w).data() + enc_many::<T>(dv.take(0)));
    while i < elems.len()
        invariant
            i <= elems.len(),
            dv == elems.deep_view(),
            wf_many::<T>(dv),
            dv.len() == elems.len(),
            w.data() == old(w).data() + enc_many::<T>(dv.take(i as int)),
        decreases elems.len() - i,
    {
        assert(T::m_wf(dv[i as int]));
        elems[i].to_bytes(w);
        proof {
            lemma_enc_many_snoc::<T>(dv.take(i as int), dv[i as int]);
            assert(dv.take(i as int).push(dv[i as int]) =~= dv.take(i + 1));
        }
        i = i + 1;
    }
    assert(dv.take(dv.len() as int) =~= dv);
}

/// The index of the first zero byte, characterized for callers that found it
/// by a scan.
proof fn lemma_first_zero(s: Seq<u8>, i: int)
    requires
        0 <= i < s.len(),
        s[i] == 0,
        forall|j: int| 0 <= j < i ==> s[j] != 0,
    ensures
        s.index_of_first(0u8) == Some(i),
{
    s.index_of_first_ensures(0u8);
    assert(s.contains(0u8)) by {
        assert(s[i] == 0u8);
    }
    if let Some(k) = s.index_of_first(0u8) {
        if k < i {
            assert(s[k] != 0);
        }
        if k > i {
            assert(s[i] != 0);
        }
    }
}

/// Finds the first zero byte of a slice, if any.
fn find_nul(b: &[u8]) -> (res: Option<usize>)
    ensures
        match res {
            Some(i) => i < b@.len() && b@.index_of_first(0u8) == Some(i as int),
            None => b@.index_of_first(0u8) is None,
        },
{
    let n = b.len();
    let mut i: usize = 0;
    while i < n
        invariant
            i <= n,
            n == b@.len(),
            forall|j: int| 0 <= j < i ==> b@[j] != 0,
        decreases n - i,
    {
        if b[i] == 0 {
            proof {
                lemma_first_zero(b@, i as int);
            }
            return Some(i);
        }
        i = i + 1;
    }
    proof {
        b@.index_of_first_ensures(0u8);
        if let Some(k) = b@.index_of_first(0u8) {
            assert(b@[k] != 0);
        }
    }
    None
}

impl Binary for u8 {
    open spec fn m_wf(m: u8) -> bool {
        true
    }

    open spec fn m_enc(m: u8) -> Seq<u8> {
        seq![m]
    }

    open spec fn m_dec(b: Seq<u8>) -> Result<(u8, int), DecodeError> {
        if b.len() >= 1 {
            Ok((b[0], 1))
        } else {
            Err(DecodeError::Truncated)
        }
    }

    proof fn lemma_dec_ok(b: Seq<u8>) {
    }

    proof fn lemma_dec_enc(m: u8, rest: Seq<u8>) {
        assert((seq![m] + rest)[0] == m);
    }

    fn from_bytes(r: &mut BufferReader) -> (res: Result<Self, DecodeError>) {
        r.bounds_check();
        r.read_u8()
    }

    fn to_bytes(&self, w: &mut BufferWriter) {
        w.write_u8(*self);
    }
}

impl Binary for bool {
    open spec fn m_wf(m: bool) -> bool {
        true
    }

    open spec fn m_enc(m: bool) -> Seq<u8> {
        seq![bool_byte(m)]
    }

    open spec fn m_dec(b: Seq<u8>) -> Result<(bool, int), DecodeError> {
        if b.len() >= 1 {
            Ok((b[0] != 0, 1))
        } else {
            Err(DecodeError::Truncated)
        }
    }

    proof fn lemma_dec_ok(b: Seq<u8>) {
    }

    proof fn lemma_dec_enc(m: bool, rest: Seq<u8>) {
        assert((seq![bool_byte(m)] + rest)[0] == bool_byte(m));
    }

    fn from_bytes(r: &mut BufferReader) -> (res: Result<Self, DecodeError>) {
        r.bounds_check();
        r.read_bool()
    }

    fn to_bytes(&self, w: &mut BufferWriter) {
        w.write_bool(*self);
    }
}

impl Binary for u16 {
    open spec fn m_wf(m: u16) -> bool {
        true
    }

    open spec fn m_enc(m: u16) -> Seq<u8> {
        le16_bytes(m)
    }

    open spec fn m_dec(b: Seq<u8>) -> Result<(u16, int), DecodeError> {
        if b.len() >= 2 {
            Ok((u16_from_le(b[0], b[1]), 2))
        } else {
            Err(DecodeError::Truncated)
        }
    }

    proof fn lemma_dec_ok(b: Seq<u8>) {
    }

    proof fn lemma_dec_enc(m: u16, rest: Seq<u8>) {
        let b = le16_bytes(m) + rest;
        assert(b[0] == (m & 0xff) as u8);
        assert(b[1] == ((m >> 8) & 0xff) as u8);
        lemma_le16_roundtrip(m);
    }

    fn from_bytes(r: &mut BufferReader) -> (res: Result<Self, DecodeError>) {
        r.bounds_check();
        r.read_u16()
    }

    fn to_bytes(&self, w: &mut BufferWriter) {
        w.write_u16(*self);
    }
}

impl Binary for i16 {
    open spec fn m_wf(m: i16) -> bool {
        true
    }

    open spec fn m_enc(m: i16) -> Seq<u8> {
        le16_bytes(m as u16)
    }

    open spec fn m_dec(b: Seq<u8>) -> Result<(i16, int), DecodeError> {
        if b.len() >= 2 {
            Ok((u16_from_le(b[0], b[1]) as i16, 2))
        } else {
            Err(DecodeError::Truncated)
        }
    }

    proof fn lemma_dec_ok(b: Seq<u8>) {
    }

    proof fn lemma_dec_enc(m: i16, rest: Seq<u8>) {
        let b = le16_bytes(m as u16) + rest;
        assert(b[0] == ((m as u16) & 0xff) as u8);
        assert(b[1] == (((m as u16) >> 8) & 0xff) as u8);
        lemma_le16_roundtrip(m as u16);
        lemma_i16_roundtrip(m);
    }

    fn from_bytes(r: &mut BufferReader) -> (res: Result<Self, DecodeError>) {
        r.bounds_check();
        r.read_i16()
    }

    fn to_bytes(&self, w: &mut BufferWriter) {
        w.write_i16(*self);
    }
}

impl Binary for u32 {
    open spec fn m_wf(m: u32) -> bool {
        true
    }

    open spec fn m_enc(m: u32) -> Seq<u8> {
        le32_bytes(m)
    }

    open spec fn m_dec(b: Seq<u8>) -> Result<(u32, int), DecodeError> {
        if b.len() >= 4 {
            Ok((u32_from_le(b[0], b[1], b[2], b[3]), 4))
        } else {
            Err(DecodeError::Truncated)
        }
    }

    proof fn lemma_dec_ok(b: Seq<u8>) {
    }

    proof fn lemma_dec_enc(m: u32, rest: Seq<u8>) {
        let b = le32_bytes(m) + rest;
        assert(b[0] == (m & 0xff) as u8);
        assert(b[1] == ((m >> 8) & 0xff) as u8);
        assert(b[2] == ((m >> 16) & 0xff) as u8);
        assert(b[3] == ((m >> 24) & 0xff) as u8);
        lemma_le32_roundtrip(m);
    }

    fn from_bytes(r: &mut BufferReader) -> (res: Result<Self, DecodeError>) {
        r.bounds_check();
        r.read_u32()
    }

    fn to_bytes(&self, w: &mut BufferWriter) {
        w.write_u32(*self);
    }
}

impl Binary for i32 {
    open spec fn m_wf(m: i32) -> bool {
        true
    }

    open spec fn m_enc(m: i32) -> Seq<u8> {
        le32_bytes(m as u32)
    }

    open spec fn m_dec(b: Seq<u8>) -> Result<(i32, int), DecodeError> {
        if b.len() >= 4 {
            Ok((u32_from_le(b[0], b[1], b[2], b[3]) as i32, 4))
        } else {
            Err(DecodeError::Truncated)
        }
    }

    proof fn lemma_dec_ok(b: Seq<u8>) {
    }

    proof fn lemma_dec_enc(m: i32, rest: Seq<u8>) {
        let b = le32_bytes(m as u32) + rest;
        assert(b[0] == ((m as u32) & 0xff) as u8);
        assert(b[1] == (((m as u32) >> 8) & 0xff) as u8);
        assert(b[2] == (((m as u32) >> 16) & 0xff) as u8);
        assert(b[3] == (((m as u32) >> 24) & 0xff) as u8);
        lemma_le32_roundtrip(m as u32);
        lemma_i32_roundtrip(m);
    }

    fn from_bytes(r: &mut BufferReader) -> (res: Result<Self, DecodeError>) {
        r.bounds_check();
        r.read_i32()
    }

    fn to_bytes(&self, w: &mut BufferWriter) {
        w.write_i32(*self);
    }
}

impl Binary for String {
    open spec fn m_wf(m: Seq<char>) -> bool {
        encode_utf8(m).len() <= u32::MAX
    }

    open spec fn m_enc(m: Seq<char>) -> Seq<u8> {
        le32_bytes(encode_utf8(m).len() as u32) + encode_utf8(m)
    }

    open spec fn m_dec(b: Seq<u8>) -> Result<(Seq<char>, int), DecodeError> {
        dec_string(b)
    }

    proof fn lemma_dec_ok(b: Seq<u8>) {
        if b.len() >= 4 {
            let n = u32_from_le(b[0], b[1], b[2], b[3]) as int;
            if b.len() >= 4 + n {
                let span = b.subrange(4, 4 + n);
                if valid_utf8(span) {
                    decode_utf8_encode_utf8(span);
                }
            }
        }
    }

    proof fn lemma_dec_enc(m: Seq<char>, rest: Seq<u8>) {
        let eb = encode_utf8(m);
        let len = eb.len() as int;
        let b = Self::m_enc(m) + rest;
        assert(b[0] == (((len as u32) & 0xff) as u8));
        assert(b[1] == ((((len as u32) >> 8) & 0xff) as u8));
        assert(b[2] == ((((len as u32) >> 16) & 0xff) as u8));
        assert(b[3] == ((((len as u32) >> 24) & 0xff) as u8));
        lemma_le32_roundtrip(len as u32);
        assert(b.subrange(4, 4 + len) =~= eb);
        encode_utf8_valid_utf8(m);
        encode_utf8_decode_utf8(m);
    }

    fn from_bytes(r: &mut BufferReader) -> (res: Result<Self, DecodeError>) {
        r.bounds_check();
        r.read_string()
    }

    fn to_bytes(&self, w: &mut BufferWriter) {
        w.write_string(self.as_str());
    }
}

impl<T: Binary> Binary for Vec<T> {
    /// A dynamic array: a 4-byte element count, then the elements in order.
    open spec fn m_wf(ms: Seq<<T as DeepView>::V>) -> bool {
        ms.len() <= u32::MAX && wf_many::<T>(ms)
    }

    open spec fn m_enc(ms: Seq<<T as DeepView>::V>) -> Seq<u8> {
        le32_bytes(ms.len() as u32) + enc_many::<T>(ms)
    }

    open spec fn m_dec(b: Seq<u8>) -> Result<(Seq<<T as DeepView>::V>, int), DecodeError> {
        if b.len() < 4 {
            Err(DecodeError::Truncated)
        } else {
            match dec_many::<T>(b.skip(4), u32_from_le(b[0], b[1], b[2], b[3]) as int) {
                Err(e) => Err(e),
                Ok((ms, n)) => Ok((ms, 4 + n)),
            }
        }
    }

    proof fn lemma_dec_ok(b: Seq<u8>) {
        if b.len() >= 4 {
            lemma_dec_many_ok::<T>(b.skip(4), u32_from_le(b[0], b[1], b[2], b[3]) as int);
        }
    }

    proof fn lemma_dec_enc(ms: Seq<<T as DeepView>::V>, rest: Seq<u8>) {
        let eb = enc_many::<T>(ms);
        let b = Self::m_enc(ms) + rest;
        let c = ms.len() as u32;
        assert(b[0] == ((c & 0xff) as u8));
        assert(b[1] == (((c >> 8) & 0xff) as u8));
        assert(b[2] == (((c >> 16) & 0xff) as u8));
        assert(b[3] == (((c >> 24) & 0xff) as u8));
        lemma_le32_roundtrip(c);
        assert(b.skip(4) =~= eb + rest);
        lemma_dec_many_enc::<T>(ms, rest);
    }

    fn from_bytes(r: &mut BufferReader) -> (res: Result<Self, DecodeError>) {
        r.bounds_check();
        let ghost orig = *r;
        let len = r.read_u32()?;
        proof {
            assert(r.rest() =~= orig.rest().skip(4));
        }
        let v = decode_many::<T>(r, len as usize)?;
        Ok(v)
    }

    fn to_bytes(&self, w: &mut BufferWriter) {
        w.write_u32(self.len() as u32);
        encode_many::<T>(self, w);
    }
}

/// Exactly `N` elements of `T`, with no count stored in the byte stream.
pub struct FixedArray<T, const N: usize> {
    pub elements: Vec<T>,
}

impl<T: DeepView, const N: usize> DeepView for FixedArray<T, N> {
    type V = Seq<<T as DeepView>::V>;

    open spec fn deep_view(&self) -> Self::V {
        self.elements.deep_view()
    }
}

impl<T: Binary, const N: usize> Binary for FixedArray<T, N> {
    open spec fn m_wf(ms: Seq<<T as DeepView>::V>) -> bool {
        ms.len() == N && wf_many::<T>(ms)
    }

    open spec fn m_enc(ms: Seq<<T as DeepView>::V>) -> Seq<u8> {
        enc_many::<T>(ms)
    }

    open spec fn m_dec(b: Seq<u8>) -> Result<(Seq<<T as DeepView>::V>, int), DecodeError> {
        dec_many::<T>(b, N as int)
    }

    proof fn lemma_dec_ok(b: Seq<u8>) {
        lemma_dec_many_ok::<T>(b, N as int);
    }

    proof fn lemma_dec_enc(ms: Seq<<T as DeepView>::V>, rest: Seq<u8>) {
        lemma_dec_many_enc::<T>(ms, rest);
    }

    fn from_bytes(r: &mut BufferReader) -> (res: Result<Self, DecodeError>) {
        let elements = decode_many::<T>(r, N)?;
        Ok(Self { elements })
    }

    fn to_bytes(&self, w: &mut BufferWriter) {
        encode_many::<T>(&self.elements, w);
    }
}

/// Null-terminated string with a fixed width: always `N` bytes in the stream,
/// the logical bytes, one terminator, and zero padding.
pub struct FixedCString<const N: usize> {
    pub bytes: Vec<u8>,
}

impl<const N: usize> DeepView for FixedCString<N> {
    type V = Seq<u8>;

    open spec fn deep_view(&self) -> Seq<u8> {
        self.bytes.deep_view()
    }
}

impl<const N: usize> Binary for FixedCString<N> {
    open spec fn m_wf(m: Seq<u8>) -> bool {
        m.len() + 1 <= N && forall|i: int| 0 <= i < m.len() ==> m[i] != 0
    }

    open spec fn m_enc(m: Seq<u8>) -> Seq<u8> {
        m + seq![0u8] + Seq::<u8>::new((N - m.len() - 1) as nat, |i| 0u8)
    }

    open spec fn m_dec(b: Seq<u8>) -> Result<(Seq<u8>, int), DecodeError> {
        if b.len() < N {
            Err(DecodeError::Truncated)
        } else {
            match b.take(N as int).index_of_first(0u8) {
                Some(i) => Ok((b.take(N as int).take(i), N as int)),
                None => Err(DecodeError::Malformed),
            }
        }
    }

    proof fn lemma_dec_ok(b: Seq<u8>) {
        if b.len() >= N {
            let blk = b.take(N as int);
            blk.index_of_first_ensures(0u8);
            if let Some(i) = blk.index_of_first(0u8) {
                assert(forall|j: int| 0 <= j < i ==> blk.take(i)[j] == blk[j]);
            }
        }
    }

    proof fn lemma_dec_enc(m: Seq<u8>, rest: Seq<u8>) {
        let b = Self::m_enc(m) + rest;
        assert(Self::m_enc(m).len() == N);
        let blk = b.take(N as int);
        assert(blk =~= m + seq![0u8] + Seq::<u8>::new((N - m.len() - 1) as nat, |i| 0u8));
        assert(blk[m.len() as int] == 0);
        lemma_first_zero(blk, m.len() as int);
        assert(blk.take(m.len() as int) =~= m);
    }

    fn from_bytes(r: &mut BufferReader) -> (res: Result<Self, DecodeError>) {
        r.bounds_check();
        let ghost orig = *r;
        let block = r.read_bytes(N)?;
        proof {
            assert(block@ =~= orig.rest().take(N as int));
        }
        match find_nul(block) {
            Some(i) => {
                let v: Vec<u8> = vstd::slice::slice_to_vec(
                    vstd::slice::slice_subrange(block, 0, i),
                );
                proof {
                    assert(v.deep_view() =~= block@.take(i as int));
                }
                Ok(Self { bytes: v })
            },
            None => Err(DecodeError::Malformed),
        }
    }

    fn to_bytes(&self, w: &mut BufferWriter) {
        proof {
            assert(self.bytes.deep_view() =~= self.bytes@);
        }
        w.write_bytes(self.bytes.as_slice());
        w.write_u8(0);
        w.pad(N - self.bytes.len() - 1);
        proof {
            assert(final(w).data() =~= old(w).data() + Self::m_enc(self.deep_view()));
        }
    }
}

/// Null-terminated string with a length: a 4-byte count of the whole
/// terminated span, then the logical bytes and one terminator.
pub struct CStringWithLength {
    pub bytes: Vec<u8>,
}

impl DeepView for CStringWithLength {
    type V = Seq<u8>;

    open spec fn deep_view(&self) -> Seq<u8> {
        self.bytes.deep_view()
    }
}

impl CStringWithLength {
    /// The number of logical bytes, excluding the terminator.
    pub fn bytes_len(&self) -> (n: u32)
        requires
            self.deep_view().len() + 1 <= u32::MAX,
        ensures
            n == self.deep_view().len(),
    {
        proof {
            assert(self.bytes.deep_view() =~= self.bytes@);
        }
        self.bytes.len() as u32
    }
}

impl Binary for CStringWithLength {
    open spec fn m_wf(m: Seq<u8>) -> bool {
        m.len() + 1 <= u32::MAX && forall|i: int| 0 <= i < m.len() ==> m[i] != 0
    }

    open spec fn m_enc(m: Seq<u8>) -> Seq<u8> {
        le32_bytes((m.len() + 1) as u32) + m + seq![0u8]
    }

    open spec fn m_dec(b: Seq<u8>) -> Result<(Seq<u8>, int), DecodeError> {
        if b.len() < 4 {
            Err(DecodeError::Truncated)
        } else {
            let len = u32_from_le(b[0], b[1], b[2], b[3]) as int;
            if b.len() < 4 + len {
                Err(DecodeError::Truncated)
            } else {
                let span = b.subrange(4, 4 + len);
                match span.index_of_first(0u8) {
                    Some(i) => if i == len - 1 {
                        Ok((span.take(i), 4 + len))
                    } else {
                        Err(DecodeError::Malformed)
                    },
                    None => Err(DecodeError::Malformed),
                }
            }
        }
    }

    proof fn lemma_dec_ok(b: Seq<u8>) {
        if b.len() >= 4 {
            let len = u32_from_le(b[0], b[1], b[2], b[3]) as int;
            if b.len() >= 4 + len {
                let span = b.subrange(4, 4 + len);
                span.index_of_first_ensures(0u8);
                if let Some(i) = span.index_of_first(0u8) {
                    assert(forall|j: int| 0 <= j < i ==> span.take(i)[j] == span[j]);
                }
            }
        }
    }

    proof fn lemma_dec_enc(m: Seq<u8>, rest: Seq<u8>) {
        let len = (m.len() + 1) as u32;
        let b = Self::m_enc(m) + rest;
        assert(b[0] == ((len & 0xff) as u8));
        assert(b[1] == (((len >> 8) & 0xff) as u8));
        assert(b[2] == (((len >> 16) & 0xff) as u8));
        assert(b[3] == (((len >> 24) & 0xff) as u8));
        lemma_le32_roundtrip(len);
        let span = b.subrange(4, 4 + len as int);
        assert(span =~= m + seq![0u8]);
        assert(span[m.len() as int] == 0);
        lemma_first_zero(span, m.len() as int);
        assert(span.take(m.len() as int) =~= m);
    }

    fn from_bytes(r: &mut BufferReader) -> (res: Result<Self, DecodeError>) {
        r.bounds_check();
        let ghost orig = *r;
        let len = r.read_u32()? as usize;
        let span = r.read_bytes(len)?;
        proof {
            assert(span@ =~= orig.rest().subrange(4, 4 + len as int));
        }
        match find_nul(span) {
            Some(i) => {
                if i == len - 1 {
                    let v: Vec<u8> = vstd::slice::slice_to_vec(
                        vstd::slice::slice_subrange(span, 0, i),
                    );
                    proof {
                        assert(v.deep_view() =~= span@.take(i as int));
                    }
                    Ok(Self { bytes: v })
                } else {
                    Err(DecodeError::Malformed)
                }
            },
            None => Err(DecodeError::Malformed),
        }
    }

    fn to_bytes(&self, w: &mut BufferWriter) {
        proof {
            assert(self.bytes.deep_view() =~= self.bytes@);
        }
        w.write_u32((self.bytes.len() + 1) as u32);
        w.write_bytes(self.bytes.as_slice());
        w.write_u8(0);
        proof {
            assert(final(w).data() =~= old(w).data() + Self::m_enc(self.deep_view()));
        }
    }
}


/// What values of `T` decode to from `b` when decoding runs until the stream
/// is exhausted.  A decoder that consumes nothing would never finish, so such
/// a step is rejected.
pub open spec fn dec_to_end<T: Binary>(b: Seq<u8>) -> Result<Seq<<T as DeepView>::V>, DecodeError>
    decreases b.len(),
{
    if b.len() == 0 {
        Ok(Seq::<<T as DeepView>::V>::empty())
    } else {
        match T::m_dec(b) {
            Err(e) => Err(e),
            Ok((m, n)) => if n < 1 || n > b.len() {
                Err(DecodeError::Malformed)
            } else {
                match dec_to_end::<T>(b.skip(n)) {
                    Err(e) => Err(e),
                    Ok(ms) => Ok(seq![m] + ms),
                }
            },
        }
    }
}

/// A successful `dec_to_end` yields well-formed models.
pub proof fn lemma_dec_to_end_ok<T: Binary>(b: Seq<u8>)
    ensures
        dec_to_end::<T>(b) matches Ok(ms) ==> wf_many::<T>(ms),
    decreases b.len(),
{
    if b.len() > 0 {
        T::lemma_dec_ok(b);
        if let Ok((m, n)) = T::m_dec(b) {
            if 1 <= n <= b.len() {
                lemma_dec_to_end_ok::<T>(b.skip(n));
            }
        }
    }
}

/// Round trip for decoding to the end: the concatenated encodings of `ms`
/// decode back to `ms`, provided no encoding is empty.
pub proof fn lemma_dec_to_end_enc<T: Binary>(ms: Seq<<T as DeepView>::V>)
    requires
        wf_many::<T>(ms),
        forall|i: int| 0 <= i < ms.len() ==> T::m_enc(#[trigger] ms[i]).len() >= 1,
    ensures
        dec_to_end::<T>(enc_many::<T>(ms)) == Ok::<Seq<<T as DeepView>::V>, DecodeError>(ms),
    decreases ms.len(),
{
    if ms.len() == 0 {
        assert(enc_many::<T>(ms).len() == 0);
        assert(ms =~= Seq::<<T as DeepView>::V>::empty());
    } else {
        let e0 = T::m_enc(ms[0]);
        let tail = ms.drop_first();
        let b = enc_many::<T>(ms);
        assert(b =~= e0 + enc_many::<T>(tail));
        T::lemma_dec_enc(ms[0], enc_many::<T>(tail));
        assert(b == e0 + enc_many::<T>(tail));
        assert(b.len() > 0);
        assert(b.skip(e0.len() as int) =~= enc_many::<T>(tail));
        assert(forall|i: int| 0 <= i < tail.len() ==> tail[i] == ms[i + 1]);
        lemma_dec_to_end_enc::<T>(tail);
        assert(seq![ms[0]] + tail =~= ms);
    }
}

/// Decodes values of `T` until the cursor is exhausted.
pub fn decode_to_end<T: Binary>(r: &mut BufferReader) -> (res: Result<Vec<T>, DecodeError>)
    ensures
        final(r).data() == old(r).data(),
        old(r).pos() <= final(r).pos() <= final(r).data().len(),
        match dec_to_end::<T>(old(r).rest()) {
            Ok(ms) => res matches Ok(v) && v.deep_view() == ms && final(r).pos() == final(r).data().len(),
            Err(e) => res == Err::<Vec<T>, DecodeError>(e),
        },
{
    r.bounds_check();
    let ghost orig = *r;
    let mut out: Vec<T> = Vec::new();
    assert(out.deep_view() =~= Seq::<<T as DeepView>::V>::empty());
    while !r.is_empty()
        invariant
            orig == *old(r),
            0 <= orig.pos() <= orig.data().len(),
            r.data() == orig.data(),
            orig.pos() <= r.pos() <= r.data().len(),
            match dec_to_end::<T>(r.rest()) {
                Ok(ms) => dec_to_end::<T>(orig.rest()) == Ok::<
                    Seq<<T as DeepView>::V>,
                    DecodeError,
                >(out.deep_view() + ms),
                Err(e) => dec_to_end::<T>(orig.rest()) == Err::<
                    Seq<<T as DeepView>::V>,
                    DecodeError,
                >(e),
            },
        decreases r.data().len() - r.pos(),
    {
        let ghost r0 = *r;
        let ghost out0 = out.deep_view();
        let p_before = r.position();
        match T::from_bytes(r) {
            Ok(v) => {
                proof {
                    T::lemma_dec_ok(r0.rest());
                }
                let ghost m = v.deep_view();
                if r.position() == p_before {
                    return Err(DecodeError::Malformed);
                }
                out.push(v);
                proof {
                    assert(out.deep_view() =~= out0 + seq![m]);
                    if let Ok((mh, n)) = T::m_dec(r0.rest()) {
                        assert(r.rest() =~= r0.rest().skip(n));
                        match dec_to_end::<T>(r.rest()) {
                            Ok(ms2) => {
                                assert(dec_to_end::<T>(r0.rest()) == Ok::<
                                    Seq<<T as DeepView>::V>,
                                    DecodeError,
                                >(seq![mh] + ms2));
                                assert(out0 + (seq![mh] + ms2) =~= out.deep_view() + ms2);
                            },
                            Err(_) => {},
                        }
                    }
                }
            },
            Err(e) => {
                return Err(e);
            },
        }
    }
    proof {
        assert(out.deep_view() + Seq::<<T as DeepView>::V>::empty() =~= out.deep_view());
    }
    Ok(out)
}

/// For an element type whose decoder consumes exactly `k` bytes on success
/// and reports truncation on fewer, `count` elements consume exactly
/// `k * count` bytes, and a stream shorter than that is truncated.
pub proof fn lemma_dec_many_sized<T: Binary>(b: Seq<u8>, count: int, k: int)
    requires
        count >= 0,
        k >= 1,
        forall|b2: Seq<u8>| #[trigger] T::m_dec(b2) matches Ok((m, n)) ==> n == k,
        forall|b2: Seq<u8>| b2.len() < k ==> #[trigger] T::m_dec(b2) == Err::<
            (<T as DeepView>::V, int),
            DecodeError,
        >(DecodeError::Truncated),
        forall|b2: Seq<u8>| b2.len() >= k ==> #[trigger] T::m_dec(b2) is Ok,
    ensures
        dec_many::<T>(b, count) matches Ok((ms, n)) ==> n == k * count,
        b.len() < k * count ==> dec_many::<T>(b, count) == Err::<
            (Seq<<T as DeepView>::V>, int),
            DecodeError,
        >(DecodeError::Truncated),
    decreases count,
{
    if count > 0 {
        T::lemma_dec_ok(b);
        if b.len() < k {
            assert(T::m_dec(b) == Err::<(<T as DeepView>::V, int), DecodeError>(
                DecodeError::Truncated,
            ));
            assert(k * count >= k) by (nonlinear_arith)
                requires
                    k >= 1,
                    count >= 1,
            ;
            assert(dec_many::<T>(b, count) == Err::<(Seq<<T as DeepView>::V>, int), DecodeError>(
                DecodeError::Truncated,
            ));
        } else {
            assert(T::m_dec(b) is Ok);
            if let Ok((m, n)) = T::m_dec(b) {
                assert(n == k);
                lemma_dec_many_sized::<T>(b.skip(n), count - 1, k);
                assert(b.skip(n).len() == b.len() - n);
                assert(k * count == k + k * (count - 1)) by (nonlinear_arith);
                match dec_many::<T>(b.skip(n), count - 1) {
                    Ok((ms2, n2)) => {
                        assert(n2 == k * (count - 1));
                        assert(dec_many::<T>(b, count) == Ok::<
                            (Seq<<T as DeepView>::V>, int),
                            DecodeError,
                        >((seq![m] + ms2, n + n2)));
                    },
                    Err(e2) => {
                        assert(dec_many::<T>(b, count) == Err::<
                            (Seq<<T as DeepView>::V>, int),
                            DecodeError,
                        >(e2));
                        if b.len() < k * count {
                            assert(b.skip(n).len() < k * (count - 1));
                            assert(e2 == DecodeError::Truncated);
                        }
                    },
                }
            }
        }
    } else {
        assert(count == 0);
        assert(dec_many::<T>(b, count) == Ok::<(Seq<<T as DeepView>::V>, int), DecodeError>(
            (Seq::<<T as DeepView>::V>::empty(), 0),
        ));
        assert(k * count == 0) by (nonlinear_arith)
            requires
                count == 0,
        ;
    }
}


/// When every element's encoding has the same length, the concatenation's
/// length is their sum.
pub proof fn lemma_enc_many_len<T: Binary>(ms: Seq<<T as DeepView>::V>, k: int)
    requires
        forall|i: int| 0 <= i < ms.len() ==> T::m_enc(#[trigger] ms[i]).len() == k,
    ensures
        enc_many::<T>(ms).len() == k * ms.len(),
    decreases ms.len(),
{
    if ms.len() == 0 {
        assert(k * 0 == 0) by (nonlinear_arith);
    } else {
        let tail = ms.drop_first();
        assert(forall|i: int| 0 <= i < tail.len() ==> tail[i] == ms[i + 1]);
        lemma_enc_many_len::<T>(tail, k);
        assert(k * ms.len() == k + k * (ms.len() - 1)) by (nonlinear_arith);
    }
}



/// The closed set of known schemas: adding a format means adding a tag here,
/// a codec entry point, and a file-name rule.
#[derive(Clone, Copy, Debug, PartialEq, Eq, Structural)]
pub enum FormatType {
    Music,
    SoundConfig,
    Props,
    Magic,
    StatusPlate,
    Notes,
    Eggs,
    Reverbs,
    OsirisObjects,
    OsirisNames,
    Persist,
    Objects000,
    TelpStates,
    Font,
    QuestLog,
    QuickInfo,
    Text,
    Info,
    Shroud,
    World,
}

/// A decoded value that remembers which schema it is: the closed tagged
/// union behind every opened document.
pub enum Payload {
    Music(music::Music),
    SoundConfig(sound::SoundConfig),
    Props(props::Props),
    Magic(magic::Magic),
    StatusPlate(status_plate::StatusPlate),
    Notes(usernotes::Notes),
    Eggs(eggs::Eggs),
    Reverbs(reverbs::Reverbs),
    OsirisObjects(osiris_objects::OsirisObjects),
    OsirisNames(osiris_names::OsirisNames),
    Persist(persist::Persist),
    Objects000(objects_000::Objects000),
    TelpStates(telpstates::TelpStates),
    Font(font::Font),
    QuestLog(quest_log::QuestLog),
    QuickInfo(quickinfo::QuickInfo),
    Text(text::Text),
    Info(info::Info),
    Shroud(shroud::Shroud),
    World(world::World),
}

/// The model of a payload.
pub enum PayloadModel {
    Music(music::MusicModel),
    SoundConfig(sound::SoundConfig),
    Props(Seq<props::PropModel>),
    Magic(Seq<magic::SpellData>),
    StatusPlate(Seq<Seq<u32>>),
    Notes(usernotes::NotesModel),
    Eggs(Seq<Seq<u32>>),
    Reverbs(Seq<reverbs::ReverbModel>),
    OsirisObjects(osiris_objects::OsirisObjectsModel),
    OsirisNames(Seq<osiris_names::NameModel>),
    Persist(Seq<Seq<u32>>),
    Objects000(Seq<objects_000::ObjectModel>),
    TelpStates(Seq<telpstates::State>),
    Font(font::FontModel),
    QuestLog(Seq<quest_log::QuestLogEntry>),
    QuickInfo(quickinfo::QuickInfoModel),
    Text(Seq<text::TextEntryModel>),
    Info(info::Info),
    Shroud(shroud::ShroudModel),
    World(world::WorldModel),
}

impl DeepView for Payload {
    type V = PayloadModel;

    open spec fn deep_view(&self) -> PayloadModel {
        match self {
            Payload::Music(v) => PayloadModel::Music(v.deep_view()),
            Payload::SoundConfig(v) => PayloadModel::SoundConfig(v.deep_view()),
            Payload::Props(v) => PayloadModel::Props(v.deep_view()),
            Payload::Magic(v) => PayloadModel::Magic(v.deep_view()),
            Payload::StatusPlate(v) => PayloadModel::StatusPlate(v.deep_view()),
            Payload::Notes(v) => PayloadModel::Notes(v.deep_view()),
            Payload::Eggs(v) => PayloadModel::Eggs(v.deep_view()),
            Payload::Reverbs(v) => PayloadModel::Reverbs(v.deep_view()),
            Payload::OsirisObjects(v) => PayloadModel::OsirisObjects(v.deep_view()),
            Payload::OsirisNames(v) => PayloadModel::OsirisNames(v.deep_view()),
            Payload::Persist(v) => PayloadModel::Persist(v.deep_view()),
            Payload::Objects000(v) => PayloadModel::Objects000(v.deep_view()),
            Payload::TelpStates(v) => PayloadModel::TelpStates(v.deep_view()),
            Payload::Font(v) => PayloadModel::Font(v.deep_view()),
            Payload::QuestLog(v) => PayloadModel::QuestLog(v.deep_view()),
            Payload::QuickInfo(v) => PayloadModel::QuickInfo(v.deep_view()),
            Payload::Text(v) => PayloadModel::Text(v.deep_view()),
            Payload::Info(v) => PayloadModel::Info(v.deep_view()),
            Payload::Shroud(v) => PayloadModel::Shroud(v.deep_view()),
            Payload::World(v) => PayloadModel::World(v.deep_view()),
        }
    }
}

/// The schema a payload belongs to.
pub open spec fn payload_kind(m: PayloadModel) -> FormatType {
    match m {
        PayloadModel::Music(_) => FormatType::Music,
        PayloadModel::SoundConfig(_) => FormatType::SoundConfig,
        PayloadModel::Props(_) => FormatType::Props,
        PayloadModel::Magic(_) => FormatType::Magic,
        PayloadModel::StatusPlate(_) => FormatType::StatusPlate,
        PayloadModel::Notes(_) => FormatType::Notes,
        PayloadModel::Eggs(_) => FormatType::Eggs,
        PayloadModel::Reverbs(_) => FormatType::Reverbs,
        PayloadModel::OsirisObjects(_) => FormatType::OsirisObjects,
        PayloadModel::OsirisNames(_) => FormatType::OsirisNames,
        PayloadModel::Persist(_) => FormatType::Persist,
        PayloadModel::Objects000(_) => FormatType::Objects000,
        PayloadModel::TelpStates(_) => FormatType::TelpStates,
        PayloadModel::Font(_) => FormatType::Font,
        PayloadModel::QuestLog(_) => FormatType::QuestLog,
        PayloadModel::QuickInfo(_) => FormatType::QuickInfo,
        PayloadModel::Text(_) => FormatType::Text,
        PayloadModel::Info(_) => FormatType::Info,
        PayloadModel::Shroud(_) => FormatType::Shroud,
        PayloadModel::World(_) => FormatType::World,
    }
}


#[verifier::opaque]
pub open spec fn wf_music(m: music::MusicModel) -> bool {
    <music::Music as Binary>::m_wf(m)
}

#[verifier::opaque]
pub open spec fn enc_music(m: music::MusicModel) -> Seq<u8> {
    <music::Music as Binary>::m_enc(m)
}

#[verifier::opaque]
pub open spec fn dec_file_music(data: Seq<u8>) -> Result<music::MusicModel, DecodeError> {
    match <music::Music as Binary>::m_dec(data) {
        Err(e) => Err(e),
        Ok((m, n)) => if n == data.len() {
            Ok(m)
        } else {
            Err(DecodeError::TrailingData)
        },
    }
}

#[verifier::opaque]
pub open spec fn wf_soundconfig(m: sound::SoundConfig) -> bool {
    <sound::SoundConfig as Binary>::m_wf(m)
}

#[verifier::opaque]
pub open spec fn enc_soundconfig(m: sound::SoundConfig) -> Seq<u8> {
    <sound::SoundConfig as Binary>::m_enc(m)
}

#[verifier::opaque]
pub open spec fn dec_file_soundconfig(data: Seq<u8>) -> Result<sound::SoundConfig, DecodeError> {
    match <sound::SoundConfig as Binary>::m_dec(data) {
        Err(e) => Err(e),
        Ok((m, n)) => if n == data.len() {
            Ok(m)
        } else {
            Err(DecodeError::TrailingData)
        },
    }
}

#[verifier::opaque]
pub open spec fn wf_props(m: Seq<props::PropModel>) -> bool {
    <props::Props as Binary>::m_wf(m)
}

#[verifier::opaque]
pub open spec fn enc_props(m: Seq<props::PropModel>) -> Seq<u8> {
    <props::Props as Binary>::m_enc(m)
}

#[verifier::opaque]
pub open spec fn dec_file_props(data: Seq<u8>) -> Result<Seq<props::PropModel>, DecodeError> {
    match <props::Props as Binary>::m_dec(data) {
        Err(e) => Err(e),
        Ok((m, n)) => if n == data.len() {
            Ok(m)
        } else {
            Err(DecodeError::TrailingData)
        },
    }
}

#[verifier::opaque]
pub open spec fn wf_magic(m: Seq<magic::SpellData>) -> bool {
    <magic::Magic as Binary>::m_wf(m)
}

#[verifier::opaque]
pub open spec fn enc_magic(m: Seq<magic::SpellData>) -> Seq<u8> {
    <magic::Magic as Binary>::m_enc(m)
}

#[verifier::opaque]
pub open spec fn dec_file_magic(data: Seq<u8>) -> Result<Seq<magic::SpellData>, DecodeError> {
    match <magic::Magic as Binary>::m_dec(data) {
        Err(e) => Err(e),
        Ok((m, n)) => if n == data.len() {
            Ok(m)
        } else {
            Err(DecodeError::TrailingData)
        },
    }
}

#[verifier::opaque]
pub open spec fn wf_statusplate(m: Seq<Seq<u32>>) -> bool {
    <status_plate::StatusPlate as Binary>::m_wf(m)
}

#[verifier::opaque]
pub open spec fn enc_statusplate(m: Seq<Seq<u32>>) -> Seq<u8> {
    <status_plate::StatusPlate as Binary>::m_enc(m)
}

#[verifier::opaque]
pub open spec fn dec_file_statusplate(data: Seq<u8>) -> Result<Seq<Seq<u32>>, DecodeError> {
    match <status_plate::StatusPlate as Binary>::m_dec(data) {
        Err(e) => Err(e),
        Ok((m, n)) => if n == data.len() {
            Ok(m)
        } else {
            Err(DecodeError::TrailingData)
        },
    }
}

#[verifier::opaque]
pub open spec fn wf_notes(m: usernotes::NotesModel) -> bool {
    <usernotes::Notes as Binary>::m_wf(m)
}

#[verifier::opaque]
pub open spec fn enc_notes(m: usernotes::NotesModel) -> Seq<u8> {
    <usernotes::Notes as Binary>::m_enc(m)
}

#[verifier::opaque]
pub open spec fn dec_file_notes(data: Seq<u8>) -> Result<usernotes::NotesModel, DecodeError> {
    match <usernotes::Notes as Binary>::m_dec(data) {
        Err(e) => Err(e),
        Ok((m, n)) => if n == data.len() {
            Ok(m)
        } else {
            Err(DecodeError::TrailingData)
        },
    }
}

#[verifier::opaque]
pub open spec fn wf_eggs(m: Seq<Seq<u32>>) -> bool {
    <eggs::Eggs as Binary>::m_wf(m)
}

#[verifier::opaque]
pub open spec fn enc_eggs(m: Seq<Seq<u32>>) -> Seq<u8> {
    <eggs::Eggs as Binary>::m_enc(m)
}

#[verifier::opaque]
pub open spec fn dec_file_eggs(data: Seq<u8>) -> Result<Seq<Seq<u32>>, DecodeError> {
    match <eggs::Eggs as Binary>::m_dec(data) {
        Err(e) => Err(e),
        Ok((m, n)) => if n == data.len() {
            Ok(m)
        } else {
            Err(DecodeError::TrailingData)
        },
    }
}

#[verifier::opaque]
pub open spec fn wf_reverbs(m: Seq<reverbs::ReverbModel>) -> bool {
    <reverbs::Reverbs as Binary>::m_wf(m)
}

#[verifier::opaque]
pub open spec fn enc_reverbs(m: Seq<reverbs::ReverbModel>) -> Seq<u8> {
    <reverbs::Reverbs as Binary>::m_enc(m)
}

#[verifier::opaque]
pub open spec fn dec_file_reverbs(data: Seq<u8>) -> Result<Seq<reverbs::ReverbModel>, DecodeError> {
    match <reverbs::Reverbs as Binary>::m_dec(data) {
        Err(e) => Err(e),
        Ok((m, n)) => if n == data.len() {
            Ok(m)
        } else {
            Err(DecodeError::TrailingData)
        },
    }
}

#[verifier::opaque]
pub open spec fn wf_osirisobjects(m: osiris_objects::OsirisObjectsModel) -> bool {
    <osiris_objects::OsirisObjects as Binary>::m_wf(m)
}

#[verifier::opaque]
pub open spec fn enc_osirisobjects(m: osiris_objects::OsirisObjectsModel) -> Seq<u8> {
    <osiris_objects::OsirisObjects as Binary>::m_enc(m)
}

#[verifier::opaque]
pub open spec fn dec_file_osirisobjects(data: Seq<u8>) -> Result<osiris_objects::OsirisObjectsModel, DecodeError> {
    match <osiris_objects::OsirisObjects as Binary>::m_dec(data) {
        Err(e) => Err(e),
        Ok((m, n)) => if n == data.len() {
            Ok(m)
        } else {
            Err(DecodeError::TrailingData)
        },
    }
}

#[verifier::opaque]
pub open spec fn wf_osirisnames(m: Seq<osiris_names::NameModel>) -> bool {
    <osiris_names::OsirisNames as Binary>::m_wf(m)
}

#[verifier::opaque]
pub open spec fn enc_osirisnames(m: Seq<osiris_names::NameModel>) -> Seq<u8> {
    <osiris_names::OsirisNames as Binary>::m_enc(m)
}

#[verifier::opaque]
pub open spec fn dec_file_osirisnames(data: Seq<u8>) -> Result<Seq<osiris_names::NameModel>, DecodeError> {
    match <osiris_names::OsirisNames as Binary>::m_dec(data) {
        Err(e) => Err(e),
        Ok((m, n)) => if n == data.len() {
            Ok(m)
        } else {
            Err(DecodeError::TrailingData)
        },
    }
}

#[verifier::opaque]
pub open spec fn wf_persist(m: Seq<Seq<u32>>) -> bool {
    <persist::Persist as Binary>::m_wf(m)
}

#[verifier::opaque]
pub open spec fn enc_persist(m: Seq<Seq<u32>>) -> Seq<u8> {
    <persist::Persist as Binary>::m_enc(m)
}

#[verifier::opaque]
pub open spec fn dec_file_persist(data: Seq<u8>) -> Result<Seq<Seq<u32>>, DecodeError> {
    match <persist::Persist as Binary>::m_dec(data) {
        Err(e) => Err(e),
        Ok((m, n)) => if n == data.len() {
            Ok(m)
        } else {
            Err(DecodeError::TrailingData)
        },
    }
}

#[verifier::opaque]
pub open spec fn wf_objects000(m: Seq<objects_000::ObjectModel>) -> bool {
    objects_000::Objects000::m_wf(m)
}

#[verifier::opaque]
pub open spec fn enc_objects000(m: Seq<objects_000::ObjectModel>) -> Seq<u8> {
    objects_000::Objects000::m_enc(m)
}

#[verifier::opaque]
pub open spec fn dec_file_objects000(data: Seq<u8>) -> Result<Seq<objects_000::ObjectModel>, DecodeError> {
    objects_000::Objects000::m_dec_file(data)
}

#[verifier::opaque]
pub open spec fn wf_telpstates(m: Seq<telpstates::State>) -> bool {
    <telpstates::TelpStates as Binary>::m_wf(m)
}

#[verifier::opaque]
pub open spec fn enc_telpstates(m: Seq<telpstates::State>) -> Seq<u8> {
    <telpstates::TelpStates as Binary>::m_enc(m)
}

#[verifier::opaque]
pub open spec fn dec_file_telpstates(data: Seq<u8>) -> Result<Seq<telpstates::State>, DecodeError> {
    match <telpstates::TelpStates as Binary>::m_dec(data) {
        Err(e) => Err(e),
        Ok((m, n)) => if n == data.len() {
            Ok(m)
        } else {
            Err(DecodeError::TrailingData)
        },
    }
}

#[verifier::opaque]
pub open spec fn wf_font(m: font::FontModel) -> bool {
    <font::Font as Binary>::m_wf(m)
}

#[verifier::opaque]
pub open spec fn enc_font(m: font::FontModel) -> Seq<u8> {
    <font::Font as Binary>::m_enc(m)
}

#[verifier::opaque]
pub open spec fn dec_file_font(data: Seq<u8>) -> Result<font::FontModel, DecodeError> {
    match <font::Font as Binary>::m_dec(data) {
        Err(e) => Err(e),
        Ok((m, n)) => if n == data.len() {
            Ok(m)
        } else {
            Err(DecodeError::TrailingData)
        },
    }
}

#[verifier::opaque]
pub open spec fn wf_questlog(m: Seq<quest_log::QuestLogEntry>) -> bool {
    quest_log::QuestLog::m_wf(m)
}

#[verifier::opaque]
pub open spec fn enc_questlog(m: Seq<quest_log::QuestLogEntry>) -> Seq<u8> {
    quest_log::QuestLog::m_enc(m)
}

#[verifier::opaque]
pub open spec fn dec_file_questlog(data: Seq<u8>) -> Result<Seq<quest_log::QuestLogEntry>, DecodeError> {
    quest_log::QuestLog::m_dec_file(data)
}

#[verifier::opaque]
pub open spec fn wf_quickinfo(m: quickinfo::QuickInfoModel) -> bool {
    <quickinfo::QuickInfo as Binary>::m_wf(m)
}

#[verifier::opaque]
pub open spec fn enc_quickinfo(m: quickinfo::QuickInfoModel) -> Seq<u8> {
    <quickinfo::QuickInfo as Binary>::m_enc(m)
}

#[verifier::opaque]
pub open spec fn dec_file_quickinfo(data: Seq<u8>) -> Result<quickinfo::QuickInfoModel, DecodeError> {
    match <quickinfo::QuickInfo as Binary>::m_dec(data) {
        Err(e) => Err(e),
        Ok((m, n)) => if n == data.len() {
            Ok(m)
        } else {
            Err(DecodeError::TrailingData)
        },
    }
}

#[verifier::opaque]
pub open spec fn wf_text(m: Seq<text::TextEntryModel>) -> bool {
    <text::Text as Binary>::m_wf(m)
}

#[verifier::opaque]
pub open spec fn enc_text(m: Seq<text::TextEntryModel>) -> Seq<u8> {
    <text::Text as Binary>::m_enc(m)
}

#[verifier::opaque]
pub open spec fn dec_file_text(data: Seq<u8>) -> Result<Seq<text::TextEntryModel>, DecodeError> {
    match <text::Text as Binary>::m_dec(data) {
        Err(e) => Err(e),
        Ok((m, n)) => if n == data.len() {
            Ok(m)
        } else {
            Err(DecodeError::TrailingData)
        },
    }
}

#[verifier::opaque]
pub open spec fn wf_info(m: info::Info) -> bool {
    <info::Info as Binary>::m_wf(m)
}

#[verifier::opaque]
pub open spec fn enc_info(m: info::Info) -> Seq<u8> {
    <info::Info as Binary>::m_enc(m)
}

#[verifier::opaque]
pub open spec fn dec_file_info(data: Seq<u8>) -> Result<info::Info, DecodeError> {
    match <info::Info as Binary>::m_dec(data) {
        Err(e) => Err(e),
        Ok((m, n)) => if n == data.len() {
            Ok(m)
        } else {
            Err(DecodeError::TrailingData)
        },
    }
}

#[verifier::opaque]
pub open spec fn wf_shroud(m: shroud::ShroudModel) -> bool {
    shroud::Shroud::m_wf(m)
}

#[verifier::opaque]
pub open spec fn enc_shroud(m: shroud::ShroudModel) -> Seq<u8> {
    shroud::Shroud::m_enc(m)
}

#[verifier::opaque]
pub open spec fn dec_file_shroud(data: Seq<u8>) -> Result<shroud::ShroudModel, DecodeError> {
    shroud::Shroud::m_dec_file(data)
}


#[verifier::opaque]
pub open spec fn wf_world(m: world::WorldModel) -> bool {
    <world::World as Binary>::m_wf(m)
}

#[verifier::opaque]
pub open spec fn enc_world(m: world::WorldModel) -> Seq<u8> {
    <world::World as Binary>::m_enc(m)
}

#[verifier::opaque]
pub open spec fn dec_file_world(data: Seq<u8>) -> Result<world::WorldModel, DecodeError> {
    match <world::World as Binary>::m_dec(data) {
        Err(e) => Err(e),
        Ok((m, n)) => if n == data.len() {
            Ok(m)
        } else {
            Err(DecodeError::TrailingData)
        },
    }
}

/// Whether a payload has an encoding.
pub open spec fn payload_wf(m: PayloadModel) -> bool {
    match m {
        PayloadModel::Music(v) => wf_music(v),
        PayloadModel::SoundConfig(v) => wf_soundconfig(v),
        PayloadModel::Props(v) => wf_props(v),
        PayloadModel::Magic(v) => wf_magic(v),
        PayloadModel::StatusPlate(v) => wf_statusplate(v),
        PayloadModel::Notes(v) => wf_notes(v),
        PayloadModel::Eggs(v) => wf_eggs(v),
        PayloadModel::Reverbs(v) => wf_reverbs(v),
        PayloadModel::OsirisObjects(v) => wf_osirisobjects(v),
        PayloadModel::OsirisNames(v) => wf_osirisnames(v),
        PayloadModel::Persist(v) => wf_persist(v),
        PayloadModel::Objects000(v) => wf_objects000(v),
        PayloadModel::TelpStates(v) => wf_telpstates(v),
        PayloadModel::Font(v) => wf_font(v),
        PayloadModel::QuestLog(v) => wf_questlog(v),
        PayloadModel::QuickInfo(v) => wf_quickinfo(v),
        PayloadModel::Text(v) => wf_text(v),
        PayloadModel::Info(v) => wf_info(v),
        PayloadModel::Shroud(v) => wf_shroud(v),
        PayloadModel::World(v) => wf_world(v),
    }
}

/// The exact byte encoding of a payload under its schema.
pub open spec fn payload_enc(m: PayloadModel) -> Seq<u8> {
    match m {
        PayloadModel::Music(v) => enc_music(v),
        PayloadModel::SoundConfig(v) => enc_soundconfig(v),
        PayloadModel::Props(v) => enc_props(v),
        PayloadModel::Magic(v) => enc_magic(v),
        PayloadModel::StatusPlate(v) => enc_statusplate(v),
        PayloadModel::Notes(v) => enc_notes(v),
        PayloadModel::Eggs(v) => enc_eggs(v),
        PayloadModel::Reverbs(v) => enc_reverbs(v),
        PayloadModel::OsirisObjects(v) => enc_osirisobjects(v),
        PayloadModel::OsirisNames(v) => enc_osirisnames(v),
        PayloadModel::Persist(v) => enc_persist(v),
        PayloadModel::Objects000(v) => enc_objects000(v),
        PayloadModel::TelpStates(v) => enc_telpstates(v),
        PayloadModel::Font(v) => enc_font(v),
        PayloadModel::QuestLog(v) => enc_questlog(v),
        PayloadModel::QuickInfo(v) => enc_quickinfo(v),
        PayloadModel::Text(v) => enc_text(v),
        PayloadModel::Info(v) => enc_info(v),
        PayloadModel::Shroud(v) => enc_shroud(v),
        PayloadModel::World(v) => enc_world(v),
    }
}

/// What a whole file decodes to under a schema.  After the payload is
/// decoded, the cursor must be fully consumed: remaining bytes are a
/// structural mismatch, never silently accepted.
pub open spec fn payload_dec_file(kind: FormatType, data: Seq<u8>) -> Result<
    PayloadModel,
    DecodeError,
> {
    match kind {
        FormatType::Music => match dec_file_music(data) {
            Err(e) => Err(e),
            Ok(m) => Ok(PayloadModel::Music(m)),
        },
        FormatType::SoundConfig => match dec_file_soundconfig(data) {
            Err(e) => Err(e),
            Ok(m) => Ok(PayloadModel::SoundConfig(m)),
        },
        FormatType::Props => match dec_file_props(data) {
            Err(e) => Err(e),
            Ok(m) => Ok(PayloadModel::Props(m)),
        },
        FormatType::Magic => match dec_file_magic(data) {
            Err(e) => Err(e),
            Ok(m) => Ok(PayloadModel::Magic(m)),
        },
        FormatType::StatusPlate => match dec_file_statusplate(data) {
            Err(e) => Err(e),
            Ok(m) => Ok(PayloadModel::StatusPlate(m)),
        },
        FormatType::Notes => match dec_file_notes(data) {
            Err(e) => Err(e),
            Ok(m) => Ok(PayloadModel::Notes(m)),
        },
        FormatType::Eggs => match dec_file_eggs(data) {
            Err(e) => Err(e),
            Ok(m) => Ok(PayloadModel::Eggs(m)),
        },
        FormatType::Reverbs => match dec_file_reverbs(data) {
            Err(e) => Err(e),
            Ok(m) => Ok(PayloadModel::Reverbs(m)),
        },
        FormatType::OsirisObjects => match dec_file_osirisobjects(data) {
            Err(e) => Err(e),
            Ok(m) => Ok(PayloadModel::OsirisObjects(m)),
        },
        FormatType::OsirisNames => match dec_file_osirisnames(data) {
            Err(e) => Err(e),
            Ok(m) => Ok(PayloadModel::OsirisNames(m)),
        },
        FormatType::Persist => match dec_file_persist(data) {
            Err(e) => Err(e),
            Ok(m) => Ok(PayloadModel::Persist(m)),
        },
        FormatType::Objects000 => match dec_file_objects000(data) {
            Err(e) => Err(e),
            Ok(m) => Ok(PayloadModel::Objects000(m)),
        },
        FormatType::TelpStates => match dec_file_telpstates(data) {
            Err(e) => Err(e),
            Ok(m) => Ok(PayloadModel::TelpStates(m)),
        },
        FormatType::Font => match dec_file_font(data) {
            Err(e) => Err(e),
            Ok(m) => Ok(PayloadModel::Font(m)),
        },
        FormatType::QuestLog => match dec_file_questlog(data) {
            Err(e) => Err(e),
            Ok(m) => Ok(PayloadModel::QuestLog(m)),
        },
        FormatType::QuickInfo => match dec_file_quickinfo(data) {
            Err(e) => Err(e),
            Ok(m) => Ok(PayloadModel::QuickInfo(m)),
        },
        FormatType::Text => match dec_file_text(data) {
            Err(e) => Err(e),
            Ok(m) => Ok(PayloadModel::Text(m)),
        },
        FormatType::Info => match dec_file_info(data) {
            Err(e) => Err(e),
            Ok(m) => Ok(PayloadModel::Info(m)),
        },
        FormatType::Shroud => match dec_file_shroud(data) {
            Err(e) => Err(e),
            Ok(m) => Ok(PayloadModel::Shroud(m)),
        },
        FormatType::World => match dec_file_world(data) {
            Err(e) => Err(e),
            Ok(m) => Ok(PayloadModel::World(m)),
        },
    }
}

/// Whole-file round trip: re-encoding any well-formed payload and decoding
/// it under its own schema yields the payload back.
pub proof fn lemma_payload_round_trip(m: PayloadModel)
    requires
        payload_wf(m),
    ensures
        payload_dec_file(payload_kind(m), payload_enc(m)) == Ok::<PayloadModel, DecodeError>(m),
{
    match m {
        PayloadModel::Music(v) => lemma_rt_music(v),
        PayloadModel::SoundConfig(v) => lemma_rt_soundconfig(v),
        PayloadModel::Props(v) => lemma_rt_props(v),
        PayloadModel::Magic(v) => lemma_rt_magic(v),
        PayloadModel::StatusPlate(v) => lemma_rt_statusplate(v),
        PayloadModel::Notes(v) => lemma_rt_notes(v),
        PayloadModel::Eggs(v) => lemma_rt_eggs(v),
        PayloadModel::Reverbs(v) => lemma_rt_reverbs(v),
        PayloadModel::OsirisObjects(v) => lemma_rt_osirisobjects(v),
        PayloadModel::OsirisNames(v) => lemma_rt_osirisnames(v),
        PayloadModel::Persist(v) => lemma_rt_persist(v),
        PayloadModel::Objects000(v) => lemma_rt_objects000(v),
        PayloadModel::TelpStates(v) => lemma_rt_telpstates(v),
        PayloadModel::Font(v) => lemma_rt_font(v),
        PayloadModel::QuestLog(v) => lemma_rt_questlog(v),
        PayloadModel::QuickInfo(v) => lemma_rt_quickinfo(v),
        PayloadModel::Text(v) => lemma_rt_text(v),
        PayloadModel::Info(v) => lemma_rt_info(v),
        PayloadModel::Shroud(v) => lemma_rt_shroud(v),
        PayloadModel::World(v) => lemma_rt_world(v),
    }
}

/// Trailing bytes are rejected: for every schema that does not itself read
/// to the end of the file, a buffer holding a valid encoding followed by
/// extra bytes fails with a structural mismatch.  The formats that are
/// delimited only by the end of the file are excluded: extra bytes there are
/// read as further records.
pub proof fn lemma_trailing_data_rejected(m: PayloadModel, extra: Seq<u8>)
    requires
        payload_wf(m),
        extra.len() > 0,
        payload_kind(m) != FormatType::QuestLog,
        payload_kind(m) != FormatType::Objects000,
    ensures
        payload_dec_file(payload_kind(m), payload_enc(m) + extra) matches Err(e) && (e
            == DecodeError::TrailingData || e == DecodeError::Malformed),
{
    match m {
        PayloadModel::Music(v) => lemma_trailing_music(v, extra),
        PayloadModel::SoundConfig(v) => lemma_trailing_soundconfig(v, extra),
        PayloadModel::Props(v) => lemma_trailing_props(v, extra),
        PayloadModel::Magic(v) => lemma_trailing_magic(v, extra),
        PayloadModel::StatusPlate(v) => lemma_trailing_statusplate(v, extra),
        PayloadModel::Notes(v) => lemma_trailing_notes(v, extra),
        PayloadModel::Eggs(v) => lemma_trailing_eggs(v, extra),
        PayloadModel::Reverbs(v) => lemma_trailing_reverbs(v, extra),
        PayloadModel::OsirisObjects(v) => lemma_trailing_osirisobjects(v, extra),
        PayloadModel::OsirisNames(v) => lemma_trailing_osirisnames(v, extra),
        PayloadModel::Persist(v) => lemma_trailing_persist(v, extra),
        PayloadModel::Objects000(v) => {},
        PayloadModel::TelpStates(v) => lemma_trailing_telpstates(v, extra),
        PayloadModel::Font(v) => lemma_trailing_font(v, extra),
        PayloadModel::QuestLog(v) => {},
        PayloadModel::QuickInfo(v) => lemma_trailing_quickinfo(v, extra),
        PayloadModel::Text(v) => lemma_trailing_text(v, extra),
        PayloadModel::Info(v) => lemma_trailing_info(v, extra),
        PayloadModel::Shroud(v) => lemma_trailing_shroud(v, extra),
        PayloadModel::World(v) => lemma_trailing_world(v, extra),
    }
}


proof fn lemma_rt_music(v: music::MusicModel)
    requires
        wf_music(v),
    ensures
        dec_file_music(enc_music(v)) == Ok::<music::MusicModel, DecodeError>(v),
{
    reveal(wf_music);
    reveal(enc_music);
    reveal(dec_file_music);
    <music::Music as Binary>::lemma_dec_enc(v, Seq::<u8>::empty());
    assert(<music::Music as Binary>::m_enc(v) + Seq::<u8>::empty() =~= <music::Music as Binary>::m_enc(v));
}

proof fn lemma_trailing_music(v: music::MusicModel, extra: Seq<u8>)
    requires
        wf_music(v),
        extra.len() > 0,
    ensures
        dec_file_music(enc_music(v) + extra) == Err::<music::MusicModel, DecodeError>(DecodeError::TrailingData),
{
    reveal(wf_music);
    reveal(enc_music);
    reveal(dec_file_music);
    <music::Music as Binary>::lemma_dec_enc(v, extra);
}

proof fn lemma_wf_dec_music(data: Seq<u8>)
    ensures
        dec_file_music(data) matches Ok(m) ==> wf_music(m),
{
    reveal(wf_music);
    reveal(dec_file_music);
    <music::Music as Binary>::lemma_dec_ok(data);
}

proof fn lemma_rt_soundconfig(v: sound::SoundConfig)
    requires
        wf_soundconfig(v),
    ensures
        dec_file_soundconfig(enc_soundconfig(v)) == Ok::<sound::SoundConfig, DecodeError>(v),
{
    reveal(wf_soundconfig);
    reveal(enc_soundconfig);
    reveal(dec_file_soundconfig);
    <sound::SoundConfig as Binary>::lemma_dec_enc(v, Seq::<u8>::empty());
    assert(<sound::SoundConfig as Binary>::m_enc(v) + Seq::<u8>::empty() =~= <sound::SoundConfig as Binary>::m_enc(v));
}

proof fn lemma_trailing_soundconfig(v: sound::SoundConfig, extra: Seq<u8>)
    requires
        wf_soundconfig(v),
        extra.len() > 0,
    ensures
        dec_file_soundconfig(enc_soundconfig(v) + extra) == Err::<sound::SoundConfig, DecodeError>(DecodeError::TrailingData),
{
    reveal(wf_soundconfig);
    reveal(enc_soundconfig);
    reveal(dec_file_soundconfig);
    <sound::SoundConfig as Binary>::lemma_dec_enc(v, extra);
}

proof fn lemma_wf_dec_soundconfig(data: Seq<u8>)
    ensures
        dec_file_soundconfig(data) matches Ok(m) ==> wf_soundconfig(m),
{
    reveal(wf_soundconfig);
    reveal(dec_file_soundconfig);
    <sound::SoundConfig as Binary>::lemma_dec_ok(data);
}

proof fn lemma_rt_props(v: Seq<props::PropModel>)
    requires
        wf_props(v),
    ensures
        dec_file_props(enc_props(v)) == Ok::<Seq<props::PropModel>, DecodeError>(v),
{
    reveal(wf_props);
    reveal(enc_props);
    reveal(dec_file_props);
    <props::Props as Binary>::lemma_dec_enc(v, Seq::<u8>::empty());
    assert(<props::Props as Binary>::m_enc(v) + Seq::<u8>::empty() =~= <props::Props as Binary>::m_enc(v));
}

proof fn lemma_trailing_props(v: Seq<props::PropModel>, extra: Seq<u8>)
    requires
        wf_props(v),
        extra.len() > 0,
    ensures
        dec_file_props(enc_props(v) + extra) == Err::<Seq<props::PropModel>, DecodeError>(DecodeError::TrailingData),
{
    reveal(wf_props);
    reveal(enc_props);
    reveal(dec_file_props);
    <props::Props as Binary>::lemma_dec_enc(v, extra);
}

proof fn lemma_wf_dec_props(data: Seq<u8>)
    ensures
        dec_file_props(data) matches Ok(m) ==> wf_props(m),
{
    reveal(wf_props);
    reveal(dec_file_props);
    <props::Props as Binary>::lemma_dec_ok(data);
}

proof fn lemma_rt_magic(v: Seq<magic::SpellData>)
    requires
        wf_magic(v),
    ensures
        dec_file_magic(enc_magic(v)) == Ok::<Seq<magic::SpellData>, DecodeError>(v),
{
    reveal(wf_magic);
    reveal(enc_magic);
    reveal(dec_file_magic);
    <magic::Magic as Binary>::lemma_dec_enc(v, Seq::<u8>::empty());
    assert(<magic::Magic as Binary>::m_enc(v) + Seq::<u8>::empty() =~= <magic::Magic as Binary>::m_enc(v));
}

proof fn lemma_trailing_magic(v: Seq<magic::SpellData>, extra: Seq<u8>)
    requires
        wf_magic(v),
        extra.len() > 0,
    ensures
        dec_file_magic(enc_magic(v) + extra) == Err::<Seq<magic::SpellData>, DecodeError>(DecodeError::TrailingData),
{
    reveal(wf_magic);
    reveal(enc_magic);
    reveal(dec_file_magic);
    <magic::Magic as Binary>::lemma_dec_enc(v, extra);
}

proof fn lemma_wf_dec_magic(data: Seq<u8>)
    ensures
        dec_file_magic(data) matches Ok(m) ==> wf_magic(m),
{
    reveal(wf_magic);
    reveal(dec_file_magic);
    <magic::Magic as Binary>::lemma_dec_ok(data);
}

proof fn lemma_rt_statusplate(v: Seq<Seq<u32>>)
    requires
        wf_statusplate(v),
    ensures
        dec_file_statusplate(enc_statusplate(v)) == Ok::<Seq<Seq<u32>>, DecodeError>(v),
{
    reveal(wf_statusplate);
    reveal(enc_statusplate);
    reveal(dec_file_statusplate);
    <status_plate::StatusPlate as Binary>::lemma_dec_enc(v, Seq::<u8>::empty());
    assert(<status_plate::StatusPlate as Binary>::m_enc(v) + Seq::<u8>::empty() =~= <status_plate::StatusPlate as Binary>::m_enc(v));
}

proof fn lemma_trailing_statusplate(v: Seq<Seq<u32>>, extra: Seq<u8>)
    requires
        wf_statusplate(v),
        extra.len() > 0,
    ensures
        dec_file_statusplate(enc_statusplate(v) + extra) == Err::<Seq<Seq<u32>>, DecodeError>(DecodeError::TrailingData),
{
    reveal(wf_statusplate);
    reveal(enc_statusplate);
    reveal(dec_file_statusplate);
    <status_plate::StatusPlate as Binary>::lemma_dec_enc(v, extra);
}

proof fn lemma_wf_dec_statusplate(data: Seq<u8>)
    ensures
        dec_file_statusplate(data) matches Ok(m) ==> wf_statusplate(m),
{
    reveal(wf_statusplate);
    reveal(dec_file_statusplate);
    <status_plate::StatusPlate as Binary>::lemma_dec_ok(data);
}

proof fn lemma_rt_notes(v: usernotes::NotesModel)
    requires
        wf_notes(v),
    ensures
        dec_file_notes(enc_notes(v)) == Ok::<usernotes::NotesModel, DecodeError>(v),
{
    reveal(wf_notes);
    reveal(enc_notes);
    reveal(dec_file_notes);
    <usernotes::Notes as Binary>::lemma_dec_enc(v, Seq::<u8>::empty());
    assert(<usernotes::Notes as Binary>::m_enc(v) + Seq::<u8>::empty() =~= <usernotes::Notes as Binary>::m_enc(v));
}

proof fn lemma_trailing_notes(v: usernotes::NotesModel, extra: Seq<u8>)
    requires
        wf_notes(v),
        extra.len() > 0,
    ensures
        dec_file_notes(enc_notes(v) + extra) == Err::<usernotes::NotesModel, DecodeError>(DecodeError::TrailingData),
{
    reveal(wf_notes);
    reveal(enc_notes);
    reveal(dec_file_notes);
    <usernotes::Notes as Binary>::lemma_dec_enc(v, extra);
}

proof fn lemma_wf_dec_notes(data: Seq<u8>)
    ensures
        dec_file_notes(data) matches Ok(m) ==> wf_notes(m),
{
    reveal(wf_notes);
    reveal(dec_file_notes);
    <usernotes::Notes as Binary>::lemma_dec_ok(data);
}

proof fn lemma_rt_eggs(v: Seq<Seq<u32>>)
    requires
        wf_eggs(v),
    ensures
        dec_file_eggs(enc_eggs(v)) == Ok::<Seq<Seq<u32>>, DecodeError>(v),
{
    reveal(wf_eggs);
    reveal(enc_eggs);
    reveal(dec_file_eggs);
    <eggs::Eggs as Binary>::lemma_dec_enc(v, Seq::<u8>::empty());
    assert(<eggs::Eggs as Binary>::m_enc(v) + Seq::<u8>::empty() =~= <eggs::Eggs as Binary>::m_enc(v));
}

proof fn lemma_trailing_eggs(v: Seq<Seq<u32>>, extra: Seq<u8>)
    requires
        wf_eggs(v),
        extra.len() > 0,
    ensures
        dec_file_eggs(enc_eggs(v) + extra) == Err::<Seq<Seq<u32>>, DecodeError>(DecodeError::TrailingData),
{
    reveal(wf_eggs);
    reveal(enc_eggs);
    reveal(dec_file_eggs);
    <eggs::Eggs as Binary>::lemma_dec_enc(v, extra);
}

proof fn lemma_wf_dec_eggs(data: Seq<u8>)
    ensures
        dec_file_eggs(data) matches Ok(m) ==> wf_eggs(m),
{
    reveal(wf_eggs);
    reveal(dec_file_eggs);
    <eggs::Eggs as Binary>::lemma_dec_ok(data);
}

proof fn lemma_rt_reverbs(v: Seq<reverbs::ReverbModel>)
    requires
        wf_reverbs(v),
    ensures
        dec_file_reverbs(enc_reverbs(v)) == Ok::<Seq<reverbs::ReverbModel>, DecodeError>(v),
{
    reveal(wf_reverbs);
    reveal(enc_reverbs);
    reveal(dec_file_reverbs);
    <reverbs::Reverbs as Binary>::lemma_dec_enc(v, Seq::<u8>::empty());
    assert(<reverbs::Reverbs as Binary>::m_enc(v) + Seq::<u8>::empty() =~= <reverbs::Reverbs as Binary>::m_enc(v));
}

proof fn lemma_trailing_reverbs(v: Seq<reverbs::ReverbModel>, extra: Seq<u8>)
    requires
        wf_reverbs(v),
        extra.len() > 0,
    ensures
        dec_file_reverbs(enc_reverbs(v) + extra) == Err::<Seq<reverbs::ReverbModel>, DecodeError>(DecodeError::TrailingData),
{
    reveal(wf_reverbs);
    reveal(enc_reverbs);
    reveal(dec_file_reverbs);
    <reverbs::Reverbs as Binary>::lemma_dec_enc(v, extra);
}

proof fn lemma_wf_dec_reverbs(data: Seq<u8>)
    ensures
        dec_file_reverbs(data) matches Ok(m) ==> wf_reverbs(m),
{
    reveal(wf_reverbs);
    reveal(dec_file_reverbs);
    <reverbs::Reverbs as Binary>::lemma_dec_ok(data);
}

proof fn lemma_rt_osirisobjects(v: osiris_objects::OsirisObjectsModel)
    requires
        wf_osirisobjects(v),
    ensures
        dec_file_osirisobjects(enc_osirisobjects(v)) == Ok::<osiris_objects::OsirisObjectsModel, DecodeError>(v),
{
    reveal(wf_osirisobjects);
    reveal(enc_osirisobjects);
    reveal(dec_file_osirisobjects);
    <osiris_objects::OsirisObjects as Binary>::lemma_dec_enc(v, Seq::<u8>::empty());
    assert(<osiris_objects::OsirisObjects as Binary>::m_enc(v) + Seq::<u8>::empty() =~= <osiris_objects::OsirisObjects as Binary>::m_enc(v));
}

proof fn lemma_trailing_osirisobjects(v: osiris_objects::OsirisObjectsModel, extra: Seq<u8>)
    requires
        wf_osirisobjects(v),
        extra.len() > 0,
    ensures
        dec_file_osirisobjects(enc_osirisobjects(v) + extra) == Err::<osiris_objects::OsirisObjectsModel, DecodeError>(DecodeError::TrailingData),
{
    reveal(wf_osirisobjects);
    reveal(enc_osirisobjects);
    reveal(dec_file_osirisobjects);
    <osiris_objects::OsirisObjects as Binary>::lemma_dec_enc(v, extra);
}

proof fn lemma_wf_dec_osirisobjects(data: Seq<u8>)
    ensures
        dec_file_osirisobjects(data) matches Ok(m) ==> wf_osirisobjects(m),
{
    reveal(wf_osirisobjects);
    reveal(dec_file_osirisobjects);
    <osiris_objects::OsirisObjects as Binary>::lemma_dec_ok(data);
}

proof fn lemma_rt_osirisnames(v: Seq<osiris_names::NameModel>)
    requires
        wf_osirisnames(v),
    ensures
        dec_file_osirisnames(enc_osirisnames(v)) == Ok::<Seq<osiris_names::NameModel>, DecodeError>(v),
{
    reveal(wf_osirisnames);
    reveal(enc_osirisnames);
    reveal(dec_file_osirisnames);
    <osiris_names::OsirisNames as Binary>::lemma_dec_enc(v, Seq::<u8>::empty());
    assert(<osiris_names::OsirisNames as Binary>::m_enc(v) + Seq::<u8>::empty() =~= <osiris_names::OsirisNames as Binary>::m_enc(v));
}

proof fn lemma_trailing_osirisnames(v: Seq<osiris_names::NameModel>, extra: Seq<u8>)
    requires
        wf_osirisnames(v),
        extra.len() > 0,
    ensures
        dec_file_osirisnames(enc_osirisnames(v) + extra) == Err::<Seq<osiris_names::NameModel>, DecodeError>(DecodeError::TrailingData),
{
    reveal(wf_osirisnames);
    reveal(enc_osirisnames);
    reveal(dec_file_osirisnames);
    <osiris_names::OsirisNames as Binary>::lemma_dec_enc(v, extra);
}

proof fn lemma_wf_dec_osirisnames(data: Seq<u8>)
    ensures
        dec_file_osirisnames(data) matches Ok(m) ==> wf_osirisnames(m),
{
    reveal(wf_osirisnames);
    reveal(dec_file_osirisnames);
    <osiris_names::OsirisNames as Binary>::lemma_dec_ok(data);
}

proof fn lemma_rt_persist(v: Seq<Seq<u32>>)
    requires
        wf_persist(v),
    ensures
        dec_file_persist(enc_persist(v)) == Ok::<Seq<Seq<u32>>, DecodeError>(v),
{
    reveal(wf_persist);
    reveal(enc_persist);
    reveal(dec_file_persist);
    <persist::Persist as Binary>::lemma_dec_enc(v, Seq::<u8>::empty());
    assert(<persist::Persist as Binary>::m_enc(v) + Seq::<u8>::empty() =~= <persist::Persist as Binary>::m_enc(v));
}

proof fn lemma_trailing_persist(v: Seq<Seq<u32>>, extra: Seq<u8>)
    requires
        wf_persist(v),
        extra.len() > 0,
    ensures
        dec_file_persist(enc_persist(v) + extra) == Err::<Seq<Seq<u32>>, DecodeError>(DecodeError::TrailingData),
{
    reveal(wf_persist);
    reveal(enc_persist);
    reveal(dec_file_persist);
    <persist::Persist as Binary>::lemma_dec_enc(v, extra);
}

proof fn lemma_wf_dec_persist(data: Seq<u8>)
    ensures
        dec_file_persist(data) matches Ok(m) ==> wf_persist(m),
{
    reveal(wf_persist);
    reveal(dec_file_persist);
    <persist::Persist as Binary>::lemma_dec_ok(data);
}

proof fn lemma_rt_objects000(v: Seq<objects_000::ObjectModel>)
    requires
        wf_objects000(v),
    ensures
        dec_file_objects000(enc_objects000(v)) == Ok::<Seq<objects_000::ObjectModel>, DecodeError>(v),
{
    reveal(wf_objects000);
    reveal(enc_objects000);
    reveal(dec_file_objects000);
    objects_000::Objects000::lemma_dec_enc(v);
}

proof fn lemma_wf_dec_objects000(data: Seq<u8>)
    ensures
        dec_file_objects000(data) matches Ok(m) ==> wf_objects000(m),
{
    reveal(wf_objects000);
    reveal(dec_file_objects000);
    crate::types::lemma_dec_to_end_ok::<objects_000::Object>(data);
}

proof fn lemma_rt_telpstates(v: Seq<telpstates::State>)
    requires
        wf_telpstates(v),
    ensures
        dec_file_telpstates(enc_telpstates(v)) == Ok::<Seq<telpstates::State>, DecodeError>(v),
{
    reveal(wf_telpstates);
    reveal(enc_telpstates);
    reveal(dec_file_telpstates);
    <telpstates::TelpStates as Binary>::lemma_dec_enc(v, Seq::<u8>::empty());
    assert(<telpstates::TelpStates as Binary>::m_enc(v) + Seq::<u8>::empty() =~= <telpstates::TelpStates as Binary>::m_enc(v));
}

proof fn lemma_trailing_telpstates(v: Seq<telpstates::State>, extra: Seq<u8>)
    requires
        wf_telpstates(v),
        extra.len() > 0,
    ensures
        dec_file_telpstates(enc_telpstates(v) + extra) == Err::<Seq<telpstates::State>, DecodeError>(DecodeError::TrailingData),
{
    reveal(wf_telpstates);
    reveal(enc_telpstates);
    reveal(dec_file_telpstates);
    <telpstates::TelpStates as Binary>::lemma_dec_enc(v, extra);
}

proof fn lemma_wf_dec_telpstates(data: Seq<u8>)
    ensures
        dec_file_telpstates(data) matches Ok(m) ==> wf_telpstates(m),
{
    reveal(wf_telpstates);
    reveal(dec_file_telpstates);
    <telpstates::TelpStates as Binary>::lemma_dec_ok(data);
}

proof fn lemma_rt_font(v: font::FontModel)
    requires
        wf_font(v),
    ensures
        dec_file_font(enc_font(v)) == Ok::<font::FontModel, DecodeError>(v),
{
    reveal(wf_font);
    reveal(enc_font);
    reveal(dec_file_font);
    <font::Font as Binary>::lemma_dec_enc(v, Seq::<u8>::empty());
    assert(<font::Font as Binary>::m_enc(v) + Seq::<u8>::empty() =~= <font::Font as Binary>::m_enc(v));
}

proof fn lemma_trailing_font(v: font::FontModel, extra: Seq<u8>)
    requires
        wf_font(v),
        extra.len() > 0,
    ensures
        dec_file_font(enc_font(v) + extra) == Err::<font::FontModel, DecodeError>(DecodeError::TrailingData),
{
    reveal(wf_font);
    reveal(enc_font);
    reveal(dec_file_font);
    <font::Font as Binary>::lemma_dec_enc(v, extra);
}

proof fn lemma_wf_dec_font(data: Seq<u8>)
    ensures
        dec_file_font(data) matches Ok(m) ==> wf_font(m),
{
    reveal(wf_font);
    reveal(dec_file_font);
    <font::Font as Binary>::lemma_dec_ok(data);
}

proof fn lemma_rt_questlog(v: Seq<quest_log::QuestLogEntry>)
    requires
        wf_questlog(v),
    ensures
        dec_file_questlog(enc_questlog(v)) == Ok::<Seq<quest_log::QuestLogEntry>, DecodeError>(v),
{
    reveal(wf_questlog);
    reveal(enc_questlog);
    reveal(dec_file_questlog);
    quest_log::QuestLog::lemma_dec_enc(v);
}

proof fn lemma_wf_dec_questlog(data: Seq<u8>)
    ensures
        dec_file_questlog(data) matches Ok(m) ==> wf_questlog(m),
{
    reveal(wf_questlog);
    reveal(dec_file_questlog);
    if data.len() >= 6 {
        crate::types::lemma_dec_to_end_ok::<quest_log::QuestLogEntry>(data.skip(6));
    }
}

proof fn lemma_rt_quickinfo(v: quickinfo::QuickInfoModel)
    requires
        wf_quickinfo(v),
    ensures
        dec_file_quickinfo(enc_quickinfo(v)) == Ok::<quickinfo::QuickInfoModel, DecodeError>(v),
{
    reveal(wf_quickinfo);
    reveal(enc_quickinfo);
    reveal(dec_file_quickinfo);
    <quickinfo::QuickInfo as Binary>::lemma_dec_enc(v, Seq::<u8>::empty());
    assert(<quickinfo::QuickInfo as Binary>::m_enc(v) + Seq::<u8>::empty() =~= <quickinfo::QuickInfo as Binary>::m_enc(v));
}

proof fn lemma_trailing_quickinfo(v: quickinfo::QuickInfoModel, extra: Seq<u8>)
    requires
        wf_quickinfo(v),
        extra.len() > 0,
    ensures
        dec_file_quickinfo(enc_quickinfo(v) + extra) == Err::<quickinfo::QuickInfoModel, DecodeError>(DecodeError::TrailingData),
{
    reveal(wf_quickinfo);
    reveal(enc_quickinfo);
    reveal(dec_file_quickinfo);
    <quickinfo::QuickInfo as Binary>::lemma_dec_enc(v, extra);
}

proof fn lemma_wf_dec_quickinfo(data: Seq<u8>)
    ensures
        dec_file_quickinfo(data) matches Ok(m) ==> wf_quickinfo(m),
{
    reveal(wf_quickinfo);
    reveal(dec_file_quickinfo);
    <quickinfo::QuickInfo as Binary>::lemma_dec_ok(data);
}

proof fn lemma_rt_text(v: Seq<text::TextEntryModel>)
    requires
        wf_text(v),
    ensures
        dec_file_text(enc_text(v)) == Ok::<Seq<text::TextEntryModel>, DecodeError>(v),
{
    reveal(wf_text);
    reveal(enc_text);
    reveal(dec_file_text);
    <text::Text as Binary>::lemma_dec_enc(v, Seq::<u8>::empty());
    assert(<text::Text as Binary>::m_enc(v) + Seq::<u8>::empty() =~= <text::Text as Binary>::m_enc(v));
}

proof fn lemma_trailing_text(v: Seq<text::TextEntryModel>, extra: Seq<u8>)
    requires
        wf_text(v),
        extra.len() > 0,
    ensures
        dec_file_text(enc_text(v) + extra) == Err::<Seq<text::TextEntryModel>, DecodeError>(DecodeError::TrailingData),
{
    reveal(wf_text);
    reveal(enc_text);
    reveal(dec_file_text);
    <text::Text as Binary>::lemma_dec_enc(v, extra);
}

proof fn lemma_wf_dec_text(data: Seq<u8>)
    ensures
        dec_file_text(data) matches Ok(m) ==> wf_text(m),
{
    reveal(wf_text);
    reveal(dec_file_text);
    <text::Text as Binary>::lemma_dec_ok(data);
}

proof fn lemma_rt_info(v: info::Info)
    requires
        wf_info(v),
    ensures
        dec_file_info(enc_info(v)) == Ok::<info::Info, DecodeError>(v),
{
    reveal(wf_info);
    reveal(enc_info);
    reveal(dec_file_info);
    <info::Info as Binary>::lemma_dec_enc(v, Seq::<u8>::empty());
    assert(<info::Info as Binary>::m_enc(v) + Seq::<u8>::empty() =~= <info::Info as Binary>::m_enc(v));
}

proof fn lemma_trailing_info(v: info::Info, extra: Seq<u8>)
    requires
        wf_info(v),
        extra.len() > 0,
    ensures
        dec_file_info(enc_info(v) + extra) == Err::<info::Info, DecodeError>(DecodeError::TrailingData),
{
    reveal(wf_info);
    reveal(enc_info);
    reveal(dec_file_info);
    <info::Info as Binary>::lemma_dec_enc(v, extra);
}

proof fn lemma_wf_dec_info(data: Seq<u8>)
    ensures
        dec_file_info(data) matches Ok(m) ==> wf_info(m),
{
    reveal(wf_info);
    reveal(dec_file_info);
    <info::Info as Binary>::lemma_dec_ok(data);
}

proof fn lemma_rt_shroud(v: shroud::ShroudModel)
    requires
        wf_shroud(v),
    ensures
        dec_file_shroud(enc_shroud(v)) == Ok::<shroud::ShroudModel, DecodeError>(v),
{
    reveal(wf_shroud);
    reveal(enc_shroud);
    reveal(dec_file_shroud);
    shroud::Shroud::lemma_dec_enc(v);
}

proof fn lemma_wf_dec_shroud(data: Seq<u8>)
    ensures
        dec_file_shroud(data) matches Ok(m) ==> wf_shroud(m),
{
    reveal(wf_shroud);
    reveal(dec_file_shroud);

}


proof fn lemma_rt_world(v: world::WorldModel)
    requires
        wf_world(v),
    ensures
        dec_file_world(enc_world(v)) == Ok::<world::WorldModel, DecodeError>(v),
{
    reveal(wf_world);
    reveal(enc_world);
    reveal(dec_file_world);
    <world::World as Binary>::lemma_dec_enc(v, Seq::<u8>::empty());
    assert(<world::World as Binary>::m_enc(v) + Seq::<u8>::empty() =~= <world::World as Binary>::m_enc(v));
}

proof fn lemma_trailing_world(v: world::WorldModel, extra: Seq<u8>)
    requires
        wf_world(v),
        extra.len() > 0,
    ensures
        dec_file_world(enc_world(v) + extra) == Err::<world::WorldModel, DecodeError>(
            DecodeError::TrailingData,
        ),
{
    reveal(wf_world);
    reveal(enc_world);
    reveal(dec_file_world);
    <world::World as Binary>::lemma_dec_enc(v, extra);
}

proof fn lemma_wf_dec_world(data: Seq<u8>)
    ensures
        dec_file_world(data) matches Ok(m) ==> wf_world(m),
{
    reveal(wf_world);
    reveal(dec_file_world);
    <world::World as Binary>::lemma_dec_ok(data);
}

proof fn lemma_trailing_shroud(v: shroud::ShroudModel, extra: Seq<u8>)
    requires
        wf_shroud(v),
        extra.len() > 0,
    ensures
        dec_file_shroud(enc_shroud(v) + extra) == Err::<shroud::ShroudModel, DecodeError>(
            DecodeError::Malformed,
        ),
{
    reveal(wf_shroud);
    reveal(enc_shroud);
    reveal(dec_file_shroud);
    assert((shroud::Shroud::m_enc(v) + extra).len() != 1 + shroud::WIDTH * shroud::HEIGHT);
}

/// Compares two strings.
pub fn str_eq(a: &str, b: &str) -> (r: bool)
    ensures
        r == (a@ == b@),
{
    let ab = a.as_bytes();
    let bb = b.as_bytes();
    proof {
        encode_utf8_decode_utf8(a@);
        encode_utf8_decode_utf8(b@);
    }
    let n = ab.len();
    if n != bb.len() {
        proof {
            assert(a@ != b@) by {
                if a@ == b@ {
                    assert(encode_utf8(a@) == encode_utf8(b@));
                }
            }
        }
        return false;
    }
    let mut i: usize = 0;
    while i < n
        invariant
            i <= n,
            n == ab@.len() == bb@.len(),
            ab@ == a.spec_bytes(),
            bb@ == b.spec_bytes(),
            decode_utf8(a.spec_bytes()) == a@,
            decode_utf8(b.spec_bytes()) == b@,
            forall|j: int| 0 <= j < i ==> ab@[j] == bb@[j],
        decreases n - i,
    {
        if ab[i] != bb[i] {
            proof {
                assert(a@ != b@) by {
                    if a@ == b@ {
                        assert(encode_utf8(a@) == encode_utf8(b@));
                    }
                }
            }
            return false;
        }
        i = i + 1;
    }
    proof {
        assert(ab@ =~= bb@);
        assert(decode_utf8(ab@) == decode_utf8(bb@));
    }
    true
}

/// The index of the last dot of a file name, if any.
pub open spec fn last_dot(s: Seq<char>) -> Option<int>
    decreases s.len(),
{
    if s.len() == 0 {
        None
    } else if s[s.len() - 1] == '.' {
        Some(s.len() - 1)
    } else {
        last_dot(s.drop_last())
    }
}

/// A wholly dot-free suffix does not change where the last dot is.
proof fn lemma_last_dot_prefix(s: Seq<char>, i: int)
    requires
        0 <= i <= s.len(),
        forall|j: int| i <= j < s.len() ==> s[j] != '.',
    ensures
        last_dot(s) == last_dot(s.take(i)),
    decreases s.len() - i,
{
    if i == s.len() {
        assert(s.take(i) =~= s);
    } else {
        assert(s[s.len() - 1] != '.');
        assert(s.drop_last() =~= s.take(s.len() - 1));
        lemma_last_dot_prefix(s.take(s.len() - 1), i);
        assert(s.take(s.len() - 1).take(i) =~= s.take(i));
    }
}

/// The extension of a file name: the portion after the last dot, unless
/// there is none or the name starts with its only dot.
pub open spec fn extension_of(s: Seq<char>) -> Option<Seq<char>> {
    match last_dot(s) {
        None => None,
        Some(d) => if d == 0 {
            None
        } else {
            Some(s.skip(d + 1))
        },
    }
}

/// The stem of a file name: the portion before the last dot, or the whole
/// name when the extension is absent.
pub open spec fn stem_of(s: Seq<char>) -> Seq<char> {
    match last_dot(s) {
        None => s,
        Some(d) => if d == 0 {
            s
        } else {
            s.take(d)
        },
    }
}

/// Finds the last dot of a file name.
fn find_last_dot(name: &str) -> (res: Option<usize>)
    ensures
        match res {
            Some(i) => last_dot(name@) == Some(i as int) && i < name@.len(),
            None => last_dot(name@) is None,
        },
{
    let n = name.unicode_len();
    let mut i = n;
    while i > 0
        invariant
            i <= n,
            n == name@.len(),
            forall|j: int| i <= j < n ==> name@[j] != '.',
        decreases i,
    {
        if name.get_char(i - 1) == '.' {
            proof {
                lemma_last_dot_prefix(name@, i as int);
                assert(name@.take(i as int)[i - 1] == '.');
                assert(name@.take(i as int).len() == i);
            }
            return Some(i - 1);
        }
        i = i - 1;
    }
    proof {
        lemma_last_dot_prefix(name@, 0);
        assert(name@.take(0) =~= Seq::<char>::empty());
    }
    None
}

/// Which schema a file name names: the exact table first, then the
/// extension rule, then the stem rule.
pub open spec fn resolve_spec(name: Seq<char>) -> Option<FormatType> {
    if name == "music.dat"@ {
        Some(FormatType::Music)
    } else
    if name == "sound.cfg"@ {
        Some(FormatType::SoundConfig)
    } else
    if name == "props.000"@ {
        Some(FormatType::Props)
    } else
    if name == "magic.cmp"@ {
        Some(FormatType::Magic)
    } else
    if name == "statuspl.cmp"@ {
        Some(FormatType::StatusPlate)
    } else
    if name == "usernotes.bin"@ {
        Some(FormatType::Notes)
    } else
    if name == "mapflags.000"@ {
        Some(FormatType::Notes)
    } else
    if name == "eggs.000"@ {
        Some(FormatType::Eggs)
    } else
    if name == "reverbs.dat"@ {
        Some(FormatType::Reverbs)
    } else
    if name == "osiobjects.000"@ {
        Some(FormatType::OsirisObjects)
    } else
    if name == "osinames.000"@ {
        Some(FormatType::OsirisNames)
    } else
    if name == "persist.dat"@ {
        Some(FormatType::Persist)
    } else
    if name == "objects.000"@ {
        Some(FormatType::Objects000)
    } else
    if name == "telpstates.000"@ {
        Some(FormatType::TelpStates)
    } else
    if name == "quest_log.000"@ {
        Some(FormatType::QuestLog)
    } else
    if name == "quickinfo.000"@ {
        Some(FormatType::QuickInfo)
    } else
    if name == "text.cmp"@ {
        Some(FormatType::Text)
    } else
    if name == "info.000"@ {
        Some(FormatType::Info)
    } else {
        match extension_of(name) {
            None => None,
            Some(ext) => if ext == "fnt"@ {
                Some(FormatType::Font)
            } else if stem_of(name) == "shroud"@ {
                Some(FormatType::Shroud)
            } else if stem_of(name) == "world"@ {
                Some(FormatType::World)
            } else {
                None
            },
        }
    }
}

impl FormatType {
    /// Resolves a schema from a file name, as the exact-name table, then
    /// the extension rule, then the stem rule say.
    pub fn from_file_name(name: &str) -> (res: Result<FormatType, DecodeError>)
        ensures
            match resolve_spec(name@) {
                Some(k) => res == Ok::<FormatType, DecodeError>(k),
                None => res == Err::<FormatType, DecodeError>(DecodeError::UnknownFormat),
            },
    {
        if str_eq(name, "music.dat") {
            return Ok(FormatType::Music);
        }
        if str_eq(name, "sound.cfg") {
            return Ok(FormatType::SoundConfig);
        }
        if str_eq(name, "props.000") {
            return Ok(FormatType::Props);
        }
        if str_eq(name, "magic.cmp") {
            return Ok(FormatType::Magic);
        }
        if str_eq(name, "statuspl.cmp") {
            return Ok(FormatType::StatusPlate);
        }
        if str_eq(name, "usernotes.bin") {
            return Ok(FormatType::Notes);
        }
        if str_eq(name, "mapflags.000") {
            return Ok(FormatType::Notes);
        }
        if str_eq(name, "eggs.000") {
            return Ok(FormatType::Eggs);
        }
        if str_eq(name, "reverbs.dat") {
            return Ok(FormatType::Reverbs);
        }
        if str_eq(name, "osiobjects.000") {
            return Ok(FormatType::OsirisObjects);
        }
        if str_eq(name, "osinames.000") {
            return Ok(FormatType::OsirisNames);
        }
        if str_eq(name, "persist.dat") {
            return Ok(FormatType::Persist);
        }
        if str_eq(name, "objects.000") {
            return Ok(FormatType::Objects000);
        }
        if str_eq(name, "telpstates.000") {
            return Ok(FormatType::TelpStates);
        }
        if str_eq(name, "quest_log.000") {
            return Ok(FormatType::QuestLog);
        }
        if str_eq(name, "quickinfo.000") {
            return Ok(FormatType::QuickInfo);
        }
        if str_eq(name, "text.cmp") {
            return Ok(FormatType::Text);
        }
        if str_eq(name, "info.000") {
            return Ok(FormatType::Info);
        }
        let n = name.unicode_len();
        match find_last_dot(name) {
            None => Err(DecodeError::UnknownFormat),
            Some(d) => {
                if d == 0 {
                    return Err(DecodeError::UnknownFormat);
                }
                let ext = name.substring_char(d + 1, n);
                if str_eq(ext, "fnt") {
                    return Ok(FormatType::Font);
                }
                let stem = name.substring_char(0, d);
                if str_eq(stem, "shroud") {
                    return Ok(FormatType::Shroud);
                }
                if str_eq(stem, "world") {
                    return Ok(FormatType::World);
                }
                Err(DecodeError::UnknownFormat)
            },
        }
    }
}

impl Payload {
    /// The schema this payload belongs to.
    pub fn kind(&self) -> (k: FormatType)
        ensures
            k == payload_kind(self.deep_view()),
    {
        match self {
            Payload::Music(_) => FormatType::Music,
            Payload::SoundConfig(_) => FormatType::SoundConfig,
            Payload::Props(_) => FormatType::Props,
            Payload::Magic(_) => FormatType::Magic,
            Payload::StatusPlate(_) => FormatType::StatusPlate,
            Payload::Notes(_) => FormatType::Notes,
            Payload::Eggs(_) => FormatType::Eggs,
            Payload::Reverbs(_) => FormatType::Reverbs,
            Payload::OsirisObjects(_) => FormatType::OsirisObjects,
            Payload::OsirisNames(_) => FormatType::OsirisNames,
            Payload::Persist(_) => FormatType::Persist,
            Payload::Objects000(_) => FormatType::Objects000,
            Payload::TelpStates(_) => FormatType::TelpStates,
            Payload::Font(_) => FormatType::Font,
            Payload::QuestLog(_) => FormatType::QuestLog,
            Payload::QuickInfo(_) => FormatType::QuickInfo,
            Payload::Text(_) => FormatType::Text,
            Payload::Info(_) => FormatType::Info,
            Payload::Shroud(_) => FormatType::Shroud,
            Payload::World(_) => FormatType::World,
        }
    }

    /// Appends the payload's exact encoding to the writer.
    pub fn to_bytes(&self, w: &mut BufferWriter)
        requires
            payload_wf(self.deep_view()),
        ensures
            final(w).data() == old(w).data() + payload_enc(self.deep_view()),
    {
        match self {
            Payload::Music(v) => {
                proof {
                    reveal(wf_music);
                }
                v.to_bytes(w);
                proof {
                    reveal(enc_music);
                }
            },
            Payload::SoundConfig(v) => {
                proof {
                    reveal(wf_soundconfig);
                }
                v.to_bytes(w);
                proof {
                    reveal(enc_soundconfig);
                }
            },
            Payload::Props(v) => {
                proof {
                    reveal(wf_props);
                }
                v.to_bytes(w);
                proof {
                    reveal(enc_props);
                }
            },
            Payload::Magic(v) => {
                proof {
                    reveal(wf_magic);
                }
                v.to_bytes(w);
                proof {
                    reveal(enc_magic);
                }
            },
            Payload::StatusPlate(v) => {
                proof {
                    reveal(wf_statusplate);
                }
                v.to_bytes(w);
                proof {
                    reveal(enc_statusplate);
                }
            },
            Payload::Notes(v) => {
                proof {
                    reveal(wf_notes);
                }
                v.to_bytes(w);
                proof {
                    reveal(enc_notes);
                }
            },
            Payload::Eggs(v) => {
                proof {
                    reveal(wf_eggs);
                }
                v.to_bytes(w);
                proof {
                    reveal(enc_eggs);
                }
            },
            Payload::Reverbs(v) => {
                proof {
                    reveal(wf_reverbs);
                }
                v.to_bytes(w);
                proof {
                    reveal(enc_reverbs);
                }
            },
            Payload::OsirisObjects(v) => {
                proof {
                    reveal(wf_osirisobjects);
                }
                v.to_bytes(w);
                proof {
                    reveal(enc_osirisobjects);
                }
            },
            Payload::OsirisNames(v) => {
                proof {
                    reveal(wf_osirisnames);
                }
                v.to_bytes(w);
                proof {
                    reveal(enc_osirisnames);
                }
            },
            Payload::Persist(v) => {
                proof {
                    reveal(wf_persist);
                }
                v.to_bytes(w);
                proof {
                    reveal(enc_persist);
                }
            },
            Payload::Objects000(v) => {
                proof {
                    reveal(wf_objects000);
                }
                v.to_bytes(w);
                proof {
                    reveal(enc_objects000);
                }
            },
            Payload::TelpStates(v) => {
                proof {
                    reveal(wf_telpstates);
                }
                v.to_bytes(w);
                proof {
                    reveal(enc_telpstates);
                }
            },
            Payload::Font(v) => {
                proof {
                    reveal(wf_font);
                }
                v.to_bytes(w);
                proof {
                    reveal(enc_font);
                }
            },
            Payload::QuestLog(v) => {
                proof {
                    reveal(wf_questlog);
                }
                v.to_bytes(w);
                proof {
                    reveal(enc_questlog);
                }
            },
            Payload::QuickInfo(v) => {
                proof {
                    reveal(wf_quickinfo);
                }
                v.to_bytes(w);
                proof {
                    reveal(enc_quickinfo);
                }
            },
            Payload::Text(v) => {
                proof {
                    reveal(wf_text);
                }
                v.to_bytes(w);
                proof {
                    reveal(enc_text);
                }
            },
            Payload::Info(v) => {
                proof {
                    reveal(wf_info);
                }
                v.to_bytes(w);
                proof {
                    reveal(enc_info);
                }
            },
            Payload::Shroud(v) => {
                proof {
                    reveal(wf_shroud);
                }
                v.to_bytes(w);
                proof {
                    reveal(enc_shroud);
                }
            },
            Payload::World(v) => {
                proof {
                    reveal(wf_world);
                }
                v.to_bytes(w);
                proof {
                    reveal(enc_world);
                }
            },
        }
    }
}

/// Decodes one value of a codable type from the cursor.
pub fn from_bytes_dyn<T: Binary>(r: &mut BufferReader) -> (res: Result<T, DecodeError>)
    ensures
        final(r).data() == old(r).data(),
        old(r).pos() <= final(r).pos() <= final(r).data().len(),
        match T::m_dec(old(r).rest()) {
            Ok((m, n)) => res matches Ok(v) && v.deep_view() == m && final(r).pos() == old(
                r,
            ).pos() + n,
            Err(e) => res == Err::<T, DecodeError>(e),
        },
{
    T::from_bytes(r)
}

/// Decodes a whole buffer as one value and enforces full consumption.
pub fn decode_whole<T: Binary>(bytes: &[u8]) -> (res: Result<T, DecodeError>)
    ensures
        match T::m_dec(bytes@) {
            Ok((m, n)) => if n == bytes@.len() {
                res matches Ok(v) && v.deep_view() == m
            } else {
                res == Err::<T, DecodeError>(DecodeError::TrailingData)
            },
            Err(e) => res == Err::<T, DecodeError>(e),
        },
{
    let mut reader = BufferReader::new(bytes);
    proof {
        assert(reader.rest() =~= bytes@);
    }
    let v = T::from_bytes(&mut reader)?;
    if !reader.is_empty() {
        return Err(DecodeError::TrailingData);
    }
    Ok(v)
}

/// Decodes a whole file under a schema and enforces full consumption.
#[verifier::rlimit(100)]
#[verifier::spinoff_prover]
pub fn decode_payload(kind: FormatType, bytes: &[u8]) -> (res: Result<Payload, DecodeError>)
    ensures
        match payload_dec_file(kind, bytes@) {
            Ok(m) => res matches Ok(p) && p.deep_view() == m,
            Err(e) => res == Err::<Payload, DecodeError>(e),
        },
        res matches Ok(p) ==> payload_kind(p.deep_view()) == kind && payload_wf(p.deep_view()),
{
    proof {
        lemma_payload_dec_wf(kind, bytes@);
    }
    match kind {
        FormatType::Music => {
            proof {
                reveal(dec_file_music);
            }
            match decode_whole::<music::Music>(bytes) {
                Ok(v) => Ok(Payload::Music(v)),
                Err(e) => Err(e),
            }
        },
        FormatType::SoundConfig => {
            proof {
                reveal(dec_file_soundconfig);
            }
            match decode_whole::<sound::SoundConfig>(bytes) {
                Ok(v) => Ok(Payload::SoundConfig(v)),
                Err(e) => Err(e),
            }
        },
        FormatType::Props => {
            proof {
                reveal(dec_file_props);
            }
            match decode_whole::<props::Props>(bytes) {
                Ok(v) => Ok(Payload::Props(v)),
                Err(e) => Err(e),
            }
        },
        FormatType::Magic => {
            proof {
                reveal(dec_file_magic);
            }
            match decode_whole::<magic::Magic>(bytes) {
                Ok(v) => Ok(Payload::Magic(v)),
                Err(e) => Err(e),
            }
        },
        FormatType::StatusPlate => {
            proof {
                reveal(dec_file_statusplate);
            }
            match decode_whole::<status_plate::StatusPlate>(bytes) {
                Ok(v) => Ok(Payload::StatusPlate(v)),
                Err(e) => Err(e),
            }
        },
        FormatType::Notes => {
            proof {
                reveal(dec_file_notes);
            }
            match decode_whole::<usernotes::Notes>(bytes) {
                Ok(v) => Ok(Payload::Notes(v)),
                Err(e) => Err(e),
            }
        },
        FormatType::Eggs => {
            proof {
                reveal(dec_file_eggs);
            }
            match decode_whole::<eggs::Eggs>(bytes) {
                Ok(v) => Ok(Payload::Eggs(v)),
                Err(e) => Err(e),
            }
        },
        FormatType::Reverbs => {
            proof {
                reveal(dec_file_reverbs);
            }
            match decode_whole::<reverbs::Reverbs>(bytes) {
                Ok(v) => Ok(Payload::Reverbs(v)),
                Err(e) => Err(e),
            }
        },
        FormatType::OsirisObjects => {
            proof {
                reveal(dec_file_osirisobjects);
            }
            match decode_whole::<osiris_objects::OsirisObjects>(bytes) {
                Ok(v) => Ok(Payload::OsirisObjects(v)),
                Err(e) => Err(e),
            }
        },
        FormatType::OsirisNames => {
            proof {
                reveal(dec_file_osirisnames);
            }
            match decode_whole::<osiris_names::OsirisNames>(bytes) {
                Ok(v) => Ok(Payload::OsirisNames(v)),
                Err(e) => Err(e),
            }
        },
        FormatType::Persist => {
            proof {
                reveal(dec_file_persist);
            }
            match decode_whole::<persist::Persist>(bytes) {
                Ok(v) => Ok(Payload::Persist(v)),
                Err(e) => Err(e),
            }
        },
        FormatType::Objects000 => {
            proof {
                reveal(dec_file_objects000);
            }
            let mut reader = BufferReader::new(bytes);
            match objects_000::Objects000::from_bytes(&mut reader) {
                Ok(v) => Ok(Payload::Objects000(v)),
                Err(e) => Err(e),
            }
        },
        FormatType::TelpStates => {
            proof {
                reveal(dec_file_telpstates);
            }
            match decode_whole::<telpstates::TelpStates>(bytes) {
                Ok(v) => Ok(Payload::TelpStates(v)),
                Err(e) => Err(e),
            }
        },
        FormatType::Font => {
            proof {
                reveal(dec_file_font);
            }
            match decode_whole::<font::Font>(bytes) {
                Ok(v) => Ok(Payload::Font(v)),
                Err(e) => Err(e),
            }
        },
        FormatType::QuestLog => {
            proof {
                reveal(dec_file_questlog);
            }
            let mut reader = BufferReader::new(bytes);
            match quest_log::QuestLog::from_bytes(&mut reader) {
                Ok(v) => Ok(Payload::QuestLog(v)),
                Err(e) => Err(e),
            }
        },
        FormatType::QuickInfo => {
            proof {
                reveal(dec_file_quickinfo);
            }
            match decode_whole::<quickinfo::QuickInfo>(bytes) {
                Ok(v) => Ok(Payload::QuickInfo(v)),
                Err(e) => Err(e),
            }
        },
        FormatType::Text => {
            proof {
                reveal(dec_file_text);
            }
            match decode_whole::<text::Text>(bytes) {
                Ok(v) => Ok(Payload::Text(v)),
                Err(e) => Err(e),
            }
        },
        FormatType::Info => {
            proof {
                reveal(dec_file_info);
            }
            match decode_whole::<info::Info>(bytes) {
                Ok(v) => Ok(Payload::Info(v)),
                Err(e) => Err(e),
            }
        },
        FormatType::Shroud => {
            proof {
                reveal(dec_file_shroud);
            }
            let mut reader = BufferReader::new(bytes);
            match shroud::Shroud::from_bytes(&mut reader) {
                Ok(v) => Ok(Payload::Shroud(v)),
                Err(e) => Err(e),
            }
        },
        FormatType::World => {
            proof {
                reveal(dec_file_world);
            }
            match decode_whole::<world::World>(bytes) {
                Ok(v) => Ok(Payload::World(v)),
                Err(e) => Err(e),
            }
        },
    }
}

/// A successfully decoded payload is well formed and of its schema.
pub proof fn lemma_payload_dec_wf(kind: FormatType, data: Seq<u8>)
    ensures
        payload_dec_file(kind, data) matches Ok(m) ==> payload_wf(m) && payload_kind(m) == kind,
{
    match kind {
        FormatType::Music => lemma_wf_dec_music(data),
        FormatType::SoundConfig => lemma_wf_dec_soundconfig(data),
        FormatType::Props => lemma_wf_dec_props(data),
        FormatType::Magic => lemma_wf_dec_magic(data),
        FormatType::StatusPlate => lemma_wf_dec_statusplate(data),
        FormatType::Notes => lemma_wf_dec_notes(data),
        FormatType::Eggs => lemma_wf_dec_eggs(data),
        FormatType::Reverbs => lemma_wf_dec_reverbs(data),
        FormatType::OsirisObjects => lemma_wf_dec_osirisobjects(data),
        FormatType::OsirisNames => lemma_wf_dec_osirisnames(data),
        FormatType::Persist => lemma_wf_dec_persist(data),
        FormatType::Objects000 => lemma_wf_dec_objects000(data),
        FormatType::TelpStates => lemma_wf_dec_telpstates(data),
        FormatType::Font => lemma_wf_dec_font(data),
        FormatType::QuestLog => lemma_wf_dec_questlog(data),
        FormatType::QuickInfo => lemma_wf_dec_quickinfo(data),
        FormatType::Text => lemma_wf_dec_text(data),
        FormatType::Info => lemma_wf_dec_info(data),
        FormatType::Shroud => lemma_wf_dec_shroud(data),
        FormatType::World => lemma_wf_dec_world(data),
    }
}

/// An opened or imported document: its origin, its schema identity, and the
/// typed payload bound to that schema.
pub struct Format {
    pub path: Option<String>,
    pub file_name: Option<String>,
    pub format_type: FormatType,
    pub binary: Payload,
}

impl Format {
    /// A document is coherent when its tag matches its payload's schema and
    /// the payload can be re-encoded.
    pub open spec fn wf(&self) -> bool {
        &&& self.format_type == payload_kind(self.binary.deep_view())
        &&& payload_wf(self.binary.deep_view())
    }

    /// Opens a document from a file's name and contents: resolves the
    /// schema, decodes the payload, and rejects trailing bytes.
    pub fn from_named_bytes(file_name: &str, bytes: &[u8]) -> (res: Result<Format, DecodeError>)
        ensures
            match resolve_spec(file_name@) {
                None => res == Err::<Format, DecodeError>(DecodeError::UnknownFormat),
                Some(kind) => match payload_dec_file(kind, bytes@) {
                    Ok(m) => res matches Ok(f) && f.binary.deep_view() == m && f.format_type
                        == kind && f.wf() && f.path is None && (f.file_name matches Some(n) && n@
                        == file_name@),
                    Err(e) => res == Err::<Format, DecodeError>(e),
                },
            },
    {
        let format_type = FormatType::from_file_name(file_name)?;
        let binary = decode_payload(format_type, bytes)?;
        Ok(
            Format {
                path: None,
                file_name: Some(String::from_str(file_name)),
                format_type,
                binary,
            },
        )
    }

    /// Re-encodes the payload into the exact byte sequence its schema
    /// prescribes, whether the document came from binary or from the
    /// external representation.
    pub fn save(&self) -> (out: Vec<u8>)
        requires
            self.wf(),
        ensures
            out@ == payload_enc(self.binary.deep_view()),
    {
        let mut w = BufferWriter::new();
        self.binary.to_bytes(&mut w);
        w.finish()
    }

    /// Produces the discriminated external representation: the schema tag
    /// first, then the payload, so a single-pass reader can dispatch.
    pub fn export(self) -> (e: Exported)
        ensures
            e.format_type@ == tag_of(payload_kind(self.binary.deep_view())),
            e.binary == self.binary,
    {
        let tag = tag_string(self.binary.kind());
        Exported { format_type: tag, binary: self.binary }
    }

    /// Consumes the discriminated external representation: the tag must
    /// name a known schema and the payload must belong to it.
    pub fn import(e: Exported) -> (res: Result<Format, DecodeError>)
        ensures
            match tag_to_kind(e.format_type@) {
                None => res == Err::<Format, DecodeError>(DecodeError::UnknownTag),
                Some(k) => if k == payload_kind(e.binary.deep_view()) {
                    res matches Ok(f) && f.binary == e.binary && f.format_type == k && f.path
                        is None && f.file_name is None
                } else {
                    res == Err::<Format, DecodeError>(DecodeError::Malformed)
                },
            },
    {
        let kind = match tag_kind(e.format_type.as_str()) {
            Some(k) => k,
            None => {
                return Err(DecodeError::UnknownTag);
            },
        };
        if !format_type_eq(kind, e.binary.kind()) {
            return Err(DecodeError::Malformed);
        }
        Ok(Format { path: None, file_name: None, format_type: kind, binary: e.binary })
    }
}

/// The discriminated external representation of a document: an explicit
/// schema tag, then the payload.  The tag comes first so that a single-pass
/// reader knows the schema before it reads the payload.
pub struct Exported {
    pub format_type: String,
    pub binary: Payload,
}

/// Compares two schema tags.
fn format_type_eq(a: FormatType, b: FormatType) -> (r: bool)
    ensures
        r == (a == b),
{
    a == b
}

/// The tag that names a schema in the external representation.
pub open spec fn tag_of(k: FormatType) -> Seq<char> {
    match k {
        FormatType::Music => "Music"@,
        FormatType::SoundConfig => "SoundConfig"@,
        FormatType::Props => "Props"@,
        FormatType::Magic => "Magic"@,
        FormatType::StatusPlate => "StatusPlate"@,
        FormatType::Notes => "Notes"@,
        FormatType::Eggs => "Eggs"@,
        FormatType::Reverbs => "Reverbs"@,
        FormatType::OsirisObjects => "OsirisObjects"@,
        FormatType::OsirisNames => "OsirisNames"@,
        FormatType::Persist => "Persist"@,
        FormatType::Objects000 => "Objects000"@,
        FormatType::TelpStates => "TelpStates"@,
        FormatType::Font => "Font"@,
        FormatType::QuestLog => "QuestLog"@,
        FormatType::QuickInfo => "QuickInfo"@,
        FormatType::Text => "Text"@,
        FormatType::Info => "Info"@,
        FormatType::Shroud => "Shroud"@,
        FormatType::World => "World"@,
    }
}

/// The schema a tag names, if any.
pub open spec fn tag_to_kind(tag: Seq<char>) -> Option<FormatType> {
    if tag == "Music"@ {
        Some(FormatType::Music)
    } else
    if tag == "SoundConfig"@ {
        Some(FormatType::SoundConfig)
    } else
    if tag == "Props"@ {
        Some(FormatType::Props)
    } else
    if tag == "Magic"@ {
        Some(FormatType::Magic)
    } else
    if tag == "StatusPlate"@ {
        Some(FormatType::StatusPlate)
    } else
    if tag == "Notes"@ {
        Some(FormatType::Notes)
    } else
    if tag == "Eggs"@ {
        Some(FormatType::Eggs)
    } else
    if tag == "Reverbs"@ {
        Some(FormatType::Reverbs)
    } else
    if tag == "OsirisObjects"@ {
        Some(FormatType::OsirisObjects)
    } else
    if tag == "OsirisNames"@ {
        Some(FormatType::OsirisNames)
    } else
    if tag == "Persist"@ {
        Some(FormatType::Persist)
    } else
    if tag == "Objects000"@ {
        Some(FormatType::Objects000)
    } else
    if tag == "TelpStates"@ {
        Some(FormatType::TelpStates)
    } else
    if tag == "Font"@ {
        Some(FormatType::Font)
    } else
    if tag == "QuestLog"@ {
        Some(FormatType::QuestLog)
    } else
    if tag == "QuickInfo"@ {
        Some(FormatType::QuickInfo)
    } else
    if tag == "Text"@ {
        Some(FormatType::Text)
    } else
    if tag == "Info"@ {
        Some(FormatType::Info)
    } else
    if tag == "Shroud"@ {
        Some(FormatType::Shroud)
    } else if tag == "World"@ {
        Some(FormatType::World)
    } else {
        None
    }
}

/// The tag of a schema, as a string.
fn tag_string(k: FormatType) -> (s: String)
    ensures
        s@ == tag_of(k),
{
    match k {
        FormatType::Music => String::from_str("Music"),
        FormatType::SoundConfig => String::from_str("SoundConfig"),
        FormatType::Props => String::from_str("Props"),
        FormatType::Magic => String::from_str("Magic"),
        FormatType::StatusPlate => String::from_str("StatusPlate"),
        FormatType::Notes => String::from_str("Notes"),
        FormatType::Eggs => String::from_str("Eggs"),
        FormatType::Reverbs => String::from_str("Reverbs"),
        FormatType::OsirisObjects => String::from_str("OsirisObjects"),
        FormatType::OsirisNames => String::from_str("OsirisNames"),
        FormatType::Persist => String::from_str("Persist"),
        FormatType::Objects000 => String::from_str("Objects000"),
        FormatType::TelpStates => String::from_str("TelpStates"),
        FormatType::Font => String::from_str("Font"),
        FormatType::QuestLog => String::from_str("QuestLog"),
        FormatType::QuickInfo => String::from_str("QuickInfo"),
        FormatType::Text => String::from_str("Text"),
        FormatType::Info => String::from_str("Info"),
        FormatType::Shroud => String::from_str("Shroud"),
        FormatType::World => String::from_str("World"),
    }
}

/// Parses a tag back into the schema it names.
fn tag_kind(tag: &str) -> (res: Option<FormatType>)
    ensures
        res == tag_to_kind(tag@),
{
    if str_eq(tag, "Music") {
        return Some(FormatType::Music);
    }
    if str_eq(tag, "SoundConfig") {
        return Some(FormatType::SoundConfig);
    }
    if str_eq(tag, "Props") {
        return Some(FormatType::Props);
    }
    if str_eq(tag, "Magic") {
        return Some(FormatType::Magic);
    }
    if str_eq(tag, "StatusPlate") {
        return Some(FormatType::StatusPlate);
    }
    if str_eq(tag, "Notes") {
        return Some(FormatType::Notes);
    }
    if str_eq(tag, "Eggs") {
        return Some(FormatType::Eggs);
    }
    if str_eq(tag, "Reverbs") {
        return Some(FormatType::Reverbs);
    }
    if str_eq(tag, "OsirisObjects") {
        return Some(FormatType::OsirisObjects);
    }
    if str_eq(tag, "OsirisNames") {
        return Some(FormatType::OsirisNames);
    }
    if str_eq(tag, "Persist") {
        return Some(FormatType::Persist);
    }
    if str_eq(tag, "Objects000") {
        return Some(FormatType::Objects000);
    }
    if str_eq(tag, "TelpStates") {
        return Some(FormatType::TelpStates);
    }
    if str_eq(tag, "Font") {
        return Some(FormatType::Font);
    }
    if str_eq(tag, "QuestLog") {
        return Some(FormatType::QuestLog);
    }
    if str_eq(tag, "QuickInfo") {
        return Some(FormatType::QuickInfo);
    }
    if str_eq(tag, "Text") {
        return Some(FormatType::Text);
    }
    if str_eq(tag, "Info") {
        return Some(FormatType::Info);
    }
    if str_eq(tag, "Shroud") {
        return Some(FormatType::Shroud);
    }
    if str_eq(tag, "World") {
        return Some(FormatType::World);
    }
    None
}

/// Export then import yields the document's payload back: the tag written
/// for a schema names that schema and no other.
pub proof fn lemma_tag_round_trip(k: FormatType)
    ensures
        tag_to_kind(tag_of(k)) == Some(k),
{
    broadcast use vstd::string::group_string_axioms;

    reveal_strlit("Music");
    reveal_strlit("SoundConfig");
    reveal_strlit("Props");
    reveal_strlit("Magic");
    reveal_strlit("StatusPlate");
    reveal_strlit("Notes");
    reveal_strlit("Eggs");
    reveal_strlit("Reverbs");
    reveal_strlit("OsirisObjects");
    reveal_strlit("OsirisNames");
    reveal_strlit("Persist");
    reveal_strlit("Objects000");
    reveal_strlit("TelpStates");
    reveal_strlit("Font");
    reveal_strlit("QuestLog");
    reveal_strlit("QuickInfo");
    reveal_strlit("Text");
    reveal_strlit("Info");
    reveal_strlit("Shroud");
    reveal_strlit("World");
    assert("Music"@.len() == 5);
    assert("SoundConfig"@.len() == 11);
    assert("Props"@.len() == 5);
    assert("Magic"@.len() == 5);
    assert("StatusPlate"@.len() == 11);
    assert("Notes"@.len() == 5);
    assert("Eggs"@.len() == 4);
    assert("Reverbs"@.len() == 7);
    assert("OsirisObjects"@.len() == 13);
    assert("OsirisNames"@.len() == 11);
    assert("Persist"@.len() == 7);
    assert("Objects000"@.len() == 10);
    assert("TelpStates"@.len() == 10);
    assert("Font"@.len() == 4);
    assert("QuestLog"@.len() == 8);
    assert("QuickInfo"@.len() == 9);
    assert("Text"@.len() == 4);
    assert("Info"@.len() == 4);
    assert("Shroud"@.len() == 6);
    assert("World"@.len() == 5);
    assert("Music"@[0] != "World"@[0]);
    assert("Music"@ != "World"@);
    assert("Props"@[0] != "World"@[0]);
    assert("Props"@ != "World"@);
    assert("Magic"@[0] != "World"@[0]);
    assert("Magic"@ != "World"@);
    assert("Notes"@[0] != "World"@[0]);
    assert("Notes"@ != "World"@);
    assert("Music"@[0] != "Props"@[0]);
    assert("Music"@ != "Props"@);
    assert("Music"@[1] != "Magic"@[1]);
    assert("Music"@ != "Magic"@);
    assert("Music"@[0] != "Notes"@[0]);
    assert("Music"@ != "Notes"@);
    assert("SoundConfig"@[1] != "StatusPlate"@[1]);
    assert("SoundConfig"@ != "StatusPlate"@);
    assert("SoundConfig"@[0] != "OsirisNames"@[0]);
    assert("SoundConfig"@ != "OsirisNames"@);
    assert("Props"@[0] != "Magic"@[0]);
    assert("Props"@ != "Magic"@);
    assert("Props"@[0] != "Notes"@[0]);
    assert("Props"@ != "Notes"@);
    assert("Magic"@[0] != "Notes"@[0]);
    assert("Magic"@ != "Notes"@);
    assert("StatusPlate"@[0] != "OsirisNames"@[0]);
    assert("StatusPlate"@ != "OsirisNames"@);
    assert("Eggs"@[0] != "Font"@[0]);
    assert("Eggs"@ != "Font"@);
    assert("Eggs"@[0] != "Text"@[0]);
    assert("Eggs"@ != "Text"@);
    assert("Eggs"@[0] != "Info"@[0]);
    assert("Eggs"@ != "Info"@);
    assert("Reverbs"@[0] != "Persist"@[0]);
    assert("Reverbs"@ != "Persist"@);
    assert("Objects000"@[0] != "TelpStates"@[0]);
    assert("Objects000"@ != "TelpStates"@);
    assert("Font"@[0] != "Text"@[0]);
    assert("Font"@ != "Text"@);
    assert("Font"@[0] != "Info"@[0]);
    assert("Font"@ != "Info"@);
    assert("Text"@[0] != "Info"@[0]);
    assert("Text"@ != "Info"@);
}

/// When every element's encoding is at most `k` long, the concatenation is
/// at most `k` per element.
pub proof fn lemma_enc_many_len_bound<T: Binary>(ms: Seq<<T as DeepView>::V>, k: int)
    requires
        k >= 0,
        forall|i: int| 0 <= i < ms.len() ==> T::m_enc(#[trigger] ms[i]).len() <= k,
    ensures
        enc_many::<T>(ms).len() <= k * ms.len(),
    decreases ms.len(),
{
    if ms.len() == 0 {
        assert(k * 0 == 0) by (nonlinear_arith);
    } else {
        let tail = ms.drop_first();
        assert(forall|i: int| 0 <= i < tail.len() ==> tail[i] == ms[i + 1]);
        lemma_enc_many_len_bound::<T>(tail, k);
        assert(k * ms.len() == k + k * (ms.len() - 1)) by (nonlinear_arith);
    }
}


} // verus!
