//! Positional, bounds-checked, little-endian access to in-memory byte
//! sequences: a reader over a borrowed buffer and an append-only writer.

use vstd::prelude::*;
use vstd::slice::{slice_subrange, SliceAdditionalSpecFns};
use vstd::string::StringSliceAdditionalSpecFns;
use vstd::utf8::{decode_utf8, valid_utf8};

use crate::DecodeError;

verus! {

/// The two little-endian bytes of a 16-bit value, least significant first.
pub open spec fn le16_bytes(v: u16) -> Seq<u8> {
    seq![(v & 0xff) as u8, ((v >> 8) & 0xff) as u8]
}

/// The four little-endian bytes of a 32-bit value, least significant first.
pub open spec fn le32_bytes(v: u32) -> Seq<u8> {
    seq![
        (v & 0xff) as u8,
        ((v >> 8) & 0xff) as u8,
        ((v >> 16) & 0xff) as u8,
        ((v >> 24) & 0xff) as u8,
    ]
}

/// The 16-bit value read from two little-endian bytes.
pub open spec fn u16_from_le(b0: u8, b1: u8) -> u16 {
    (b0 as u16) | ((b1 as u16) << 8)
}

/// The 32-bit value read from four little-endian bytes.
pub open spec fn u32_from_le(b0: u8, b1: u8, b2: u8, b3: u8) -> u32 {
    (b0 as u32) | ((b1 as u32) << 8) | ((b2 as u32) << 16) | ((b3 as u32) << 24)
}

/// The single byte that encodes a boolean.
pub open spec fn bool_byte(v: bool) -> u8 {
    if v {
        1
    } else {
        0
    }
}

/// Reading back the little-endian bytes of a 16-bit value yields the value.
pub proof fn lemma_le16_roundtrip(v: u16)
    ensures
        u16_from_le((v & 0xff) as u8, ((v >> 8) & 0xff) as u8) == v,
{
    assert(((((v & 0xff) as u8) as u16) | ((((v >> 8) & 0xff) as u8) as u16) << 8) == v)
        by (bit_vector);
}

/// Reading back the little-endian bytes of a 32-bit value yields the value.
pub proof fn lemma_le32_roundtrip(v: u32)
    ensures
        u32_from_le(
            (v & 0xff) as u8,
            ((v >> 8) & 0xff) as u8,
            ((v >> 16) & 0xff) as u8,
            ((v >> 24) & 0xff) as u8,
        ) == v,
{
    assert(((((v & 0xff) as u8) as u32) | ((((v >> 8) & 0xff) as u8) as u32) << 8 | ((((v >> 16)
        & 0xff) as u8) as u32) << 16 | ((((v >> 24) & 0xff) as u8) as u32) << 24) == v)
        by (bit_vector);
}

/// Casting a 16-bit value through its unsigned bit pattern yields the value.
pub proof fn lemma_i16_roundtrip(v: i16)
    ensures
        ((v as u16) as i16) == v,
{
    assert(((v as u16) as i16) == v) by (bit_vector);
}

/// Casting a 32-bit value through its unsigned bit pattern yields the value.
pub proof fn lemma_i32_roundtrip(v: i32)
    ensures
        ((v as u32) as i32) == v,
{
    assert(((v as u32) as i32) == v) by (bit_vector);
}

/// What a length-prefixed UTF-8 string decodes to from the head of `b`: a
/// 4-byte little-endian byte count, then that many bytes of UTF-8 text.
/// Returns the characters and the total number of bytes consumed.
pub open spec fn dec_string(b: Seq<u8>) -> Result<(Seq<char>, int), DecodeError> {
    if b.len() < 4 {
        Err(DecodeError::Truncated)
    } else {
        let n = u32_from_le(b[0], b[1], b[2], b[3]) as int;
        if b.len() < 4 + n {
            Err(DecodeError::Truncated)
        } else if !valid_utf8(b.subrange(4, 4 + n)) {
            Err(DecodeError::InvalidUtf8)
        } else {
            Ok((decode_utf8(b.subrange(4, 4 + n)), 4 + n))
        }
    }
}

/// Relies on String::from_utf8: it succeeds exactly on valid UTF-8 input and
/// yields the string whose characters the bytes encode.
#[verifier::external_body]
fn utf8_to_string(bytes: Vec<u8>) -> (r: Option<String>)
    ensures
        r is Some <==> valid_utf8(bytes@),
        r matches Some(s) ==> s@ == decode_utf8(bytes@),
{
    String::from_utf8(bytes).ok()
}

/// Helper struct for reading from a buffer of bytes.
pub struct BufferReader<'a> {
    buffer: &'a [u8],
    position: usize,
}

impl<'a> BufferReader<'a> {
    /// The whole backing byte sequence.
    pub closed spec fn data(&self) -> Seq<u8> {
        self.buffer@
    }

    /// The current read position.
    pub closed spec fn pos(&self) -> int {
        self.position as int
    }

    /// The bytes that remain to be read.
    pub open spec fn rest(&self) -> Seq<u8> {
        self.data().skip(self.pos())
    }

    #[verifier::type_invariant]
    spec fn inv(&self) -> bool {
        0 <= self.pos() <= self.data().len()
    }

    /// Lets a caller note that the position is within the buffer's bounds.
    pub fn bounds_check(&self)
        ensures
            0 <= self.pos() <= self.data().len(),
            self.rest().len() == self.data().len() - self.pos(),
    {
        proof {
            use_type_invariant(self);
        }
    }

    pub fn new(buffer: &'a [u8]) -> (r: Self)
        ensures
            r.data() == buffer@,
            r.pos() == 0,
    {
        Self { buffer, position: 0 }
    }

    /// The length of the whole backing buffer, not of what remains.
    pub fn len(&self) -> (n: usize)
        ensures
            n == self.data().len(),
    {
        self.buffer.len()
    }

    pub fn position(&self) -> (n: usize)
        ensures
            n == self.pos(),
    {
        self.position
    }

    /// Whether every byte has been consumed.
    pub fn is_empty(&self) -> (b: bool)
        ensures
            b == (self.rest().len() == 0),
    {
        proof {
            use_type_invariant(self);
        }
        self.position == self.buffer.len()
    }

    /// How many bytes remain to be read.
    pub fn remaining(&self) -> (n: usize)
        ensures
            n == self.rest().len(),
    {
        proof {
            use_type_invariant(self);
        }
        self.buffer.len() - self.position
    }

    /// Advances past `count` bytes without interpreting them.
    pub fn skip(&mut self, count: usize)
        requires
            old(self).pos() + count <= old(self).data().len(),
        ensures
            final(self).data() == old(self).data(),
            final(self).pos() == old(self).pos() + count,
    {
        let _l = self.buffer.len();
        self.position = self.position + count;
    }

    /// Returns a view of exactly `count` bytes, or fails without advancing.
    pub fn read_bytes(&mut self, count: usize) -> (res: Result<&'a [u8], DecodeError>)
        ensures
            final(self).data() == old(self).data(),
            old(self).pos() + count <= old(self).data().len() ==> {
                &&& final(self).pos() == old(self).pos() + count
                &&& res matches Ok(b) && b@ == old(self).data().subrange(
                    old(self).pos(),
                    old(self).pos() + count,
                )
            },
            old(self).pos() + count > old(self).data().len() ==> {
                &&& final(self).pos() == old(self).pos()
                &&& res == Err::<&'a [u8], DecodeError>(DecodeError::Truncated)
            },
    {
        proof {
            use_type_invariant(&*self);
        }
        let l = self.buffer.len();
        if count > l - self.position {
            return Err(DecodeError::Truncated);
        }
        let s = slice_subrange(self.buffer, self.position, self.position + count);
        self.position = self.position + count;
        Ok(s)
    }

    pub fn read_u8(&mut self) -> (res: Result<u8, DecodeError>)
        ensures
            final(self).data() == old(self).data(),
            old(self).rest().len() >= 1 ==> final(self).pos() == old(self).pos() + 1 && res == Ok::<
                u8,
                DecodeError,
            >(old(self).rest()[0]),
            old(self).rest().len() < 1 ==> final(self).pos() == old(self).pos() && res == Err::<
                u8,
                DecodeError,
            >(DecodeError::Truncated),
    {
        proof {
            use_type_invariant(&*self);
        }
        let b = self.read_bytes(1)?;
        Ok(b[0])
    }

    pub fn read_bool(&mut self) -> (res: Result<bool, DecodeError>)
        ensures
            final(self).data() == old(self).data(),
            old(self).rest().len() >= 1 ==> final(self).pos() == old(self).pos() + 1 && res == Ok::<
                bool,
                DecodeError,
            >(old(self).rest()[0] != 0),
            old(self).rest().len() < 1 ==> final(self).pos() == old(self).pos() && res == Err::<
                bool,
                DecodeError,
            >(DecodeError::Truncated),
    {
        proof {
            use_type_invariant(&*self);
        }
        Ok(self.read_u8()? != 0)
    }

    pub fn read_u16(&mut self) -> (res: Result<u16, DecodeError>)
        ensures
            final(self).data() == old(self).data(),
            old(self).rest().len() >= 2 ==> final(self).pos() == old(self).pos() + 2 && res == Ok::<
                u16,
                DecodeError,
            >(u16_from_le(old(self).rest()[0], old(self).rest()[1])),
            old(self).rest().len() < 2 ==> final(self).pos() == old(self).pos() && res == Err::<
                u16,
                DecodeError,
            >(DecodeError::Truncated),
    {
        proof {
            use_type_invariant(&*self);
        }
        let b = self.read_bytes(2)?;
        Ok((b[0] as u16) | ((b[1] as u16) << 8))
    }

    pub fn read_i16(&mut self) -> (res: Result<i16, DecodeError>)
        ensures
            final(self).data() == old(self).data(),
            old(self).rest().len() >= 2 ==> final(self).pos() == old(self).pos() + 2 && res == Ok::<
                i16,
                DecodeError,
            >(u16_from_le(old(self).rest()[0], old(self).rest()[1]) as i16),
            old(self).rest().len() < 2 ==> final(self).pos() == old(self).pos() && res == Err::<
                i16,
                DecodeError,
            >(DecodeError::Truncated),
    {
        proof {
            use_type_invariant(&*self);
        }
        let v = self.read_u16()?;
        Ok(v as i16)
    }

    pub fn read_u32(&mut self) -> (res: Result<u32, DecodeError>)
        ensures
            final(self).data() == old(self).data(),
            old(self).rest().len() >= 4 ==> final(self).pos() == old(self).pos() + 4 && res == Ok::<
                u32,
                DecodeError,
            >(
                u32_from_le(
                    old(self).rest()[0],
                    old(self).rest()[1],
                    old(self).rest()[2],
                    old(self).rest()[3],
                ),
            ),
            old(self).rest().len() < 4 ==> final(self).pos() == old(self).pos() && res == Err::<
                u32,
                DecodeError,
            >(DecodeError::Truncated),
    {
        proof {
            use_type_invariant(&*self);
        }
        let b = self.read_bytes(4)?;
        Ok((b[0] as u32) | ((b[1] as u32) << 8) | ((b[2] as u32) << 16) | ((b[3] as u32) << 24))
    }

    pub fn read_i32(&mut self) -> (res: Result<i32, DecodeError>)
        ensures
            final(self).data() == old(self).data(),
            old(self).rest().len() >= 4 ==> final(self).pos() == old(self).pos() + 4 && res == Ok::<
                i32,
                DecodeError,
            >(
                u32_from_le(
                    old(self).rest()[0],
                    old(self).rest()[1],
                    old(self).rest()[2],
                    old(self).rest()[3],
                ) as i32,
            ),
            old(self).rest().len() < 4 ==> final(self).pos() == old(self).pos() && res == Err::<
                i32,
                DecodeError,
            >(DecodeError::Truncated),
    {
        proof {
            use_type_invariant(&*self);
        }
        let v = self.read_u32()?;
        Ok(v as i32)
    }

    /// Reads a 4-byte length, then that many bytes of UTF-8 text.
    pub fn read_string(&mut self) -> (res: Result<String, DecodeError>)
        ensures
            final(self).data() == old(self).data(),
            old(self).pos() <= final(self).pos() <= final(self).data().len(),
            match dec_string(old(self).rest()) {
                Ok((cs, n)) => res matches Ok(s) && s@ == cs && final(self).pos() == old(self).pos() + n,
                Err(e) => res == Err::<String, DecodeError>(e),
            },
    {
        proof {
            use_type_invariant(&*self);
        }
        let ghost orig = *self;
        let length = self.read_u32()? as usize;
        let bytes = self.read_bytes(length)?;
        proof {
            assert(bytes@ =~= orig.rest().subrange(4, 4 + length as int));
        }
        let v: Vec<u8> = vstd::slice::slice_to_vec(bytes);
        match utf8_to_string(v) {
            Some(s) => Ok(s),
            None => Err(DecodeError::InvalidUtf8),
        }
    }
}

/// Helper struct for writing data to a buffer.
pub struct BufferWriter {
    buffer: Vec<u8>,
}

impl BufferWriter {
    /// Everything written so far.
    pub closed spec fn data(&self) -> Seq<u8> {
        self.buffer@
    }

    pub fn new() -> (w: Self)
        ensures
            w.data() == Seq::<u8>::empty(),
    {
        Self { buffer: Vec::new() }
    }

    /// The number of bytes written so far.
    pub fn len(&self) -> (n: usize)
        ensures
            n == self.data().len(),
    {
        self.buffer.len()
    }

    pub fn write_u8(&mut self, value: u8)
        ensures
            final(self).data() == old(self).data() + seq![value],
    {
        self.buffer.push(value);
    }

    pub fn write_bool(&mut self, value: bool)
        ensures
            final(self).data() == old(self).data() + seq![bool_byte(value)],
    {
        self.write_u8(if value {
            1
        } else {
            0
        });
    }

    pub fn write_u16(&mut self, value: u16)
        ensures
            final(self).data() == old(self).data() + le16_bytes(value),
    {
        self.buffer.push((value & 0xff) as u8);
        self.buffer.push(((value >> 8) & 0xff) as u8);
        assert(self.data() =~= old(self).data() + le16_bytes(value));
    }

    pub fn write_i16(&mut self, value: i16)
        ensures
            final(self).data() == old(self).data() + le16_bytes(value as u16),
    {
        self.write_u16(value as u16);
    }

    pub fn write_u32(&mut self, value: u32)
        ensures
            final(self).data() == old(self).data() + le32_bytes(value),
    {
        self.buffer.push((value & 0xff) as u8);
        self.buffer.push(((value >> 8) & 0xff) as u8);
        self.buffer.push(((value >> 16) & 0xff) as u8);
        self.buffer.push(((value >> 24) & 0xff) as u8);
        assert(self.data() =~= old(self).data() + le32_bytes(value));
    }

    pub fn write_i32(&mut self, value: i32)
        ensures
            final(self).data() == old(self).data() + le32_bytes(value as u32),
    {
        self.write_u32(value as u32);
    }

    /// Writes a 4-byte byte count followed by the UTF-8 bytes, no terminator.
    pub fn write_string(&mut self, value: &str)
        requires
            value.spec_bytes().len() <= u32::MAX,
        ensures
            final(self).data() == old(self).data() + le32_bytes(value.spec_bytes().len() as u32)
                + value.spec_bytes(),
    {
        self.write_u32(value.len() as u32);
        self.write_bytes(value.as_bytes());
    }

    pub fn write_bytes(&mut self, bytes: &[u8])
        ensures
            final(self).data() == old(self).data() + bytes@,
    {
        self.buffer.extend_from_slice(bytes);
    }

    /// Appends `count` zero bytes.
    pub fn pad(&mut self, count: usize)
        ensures
            final(self).data() == old(self).data() + Seq::<u8>::new(count as nat, |i| 0u8),
    {
        let mut i: usize = 0;
        while i < count
            invariant
                i <= count,
                self.data() == old(self).data() + Seq::<u8>::new(i as nat, |j| 0u8),
            decreases count - i,
        {
            self.buffer.push(0);
            i = i + 1;
            assert(self.data() =~= old(self).data() + Seq::<u8>::new(i as nat, |j| 0u8));
        }
    }

    /// Consumes the writer and yields the final byte sequence.
    pub fn finish(self) -> (r: Vec<u8>)
        ensures
            r@ == self.data(),
    {
        self.buffer
    }
}

} // verus!
