//! shroud.xN
//!
//! A whole-file format: every shroud file is exactly 525826 bytes, one
//! leading byte and a 513 by 1025 cell grid in row-major order.

use vstd::prelude::*;

use crate::buffer::{BufferReader, BufferWriter};
use crate::DecodeError;

verus! {

pub const WIDTH: usize = 513;

pub const HEIGHT: usize = 1025;

/// The fog-of-war grid.
pub struct Shroud {
    pub unknown0: u8,
    pub cells: Vec<u8>,
}

/// The model of a shroud file.
pub struct ShroudModel {
    pub unknown0: u8,
    pub cells: Seq<u8>,
}

impl DeepView for Shroud {
    type V = ShroudModel;

    open spec fn deep_view(&self) -> ShroudModel {
        ShroudModel { unknown0: self.unknown0, cells: self.cells.deep_view() }
    }
}

impl Shroud {
    /// The grid holds exactly one byte per cell.
    pub open spec fn m_wf(m: ShroudModel) -> bool {
        m.cells.len() == WIDTH * HEIGHT
    }

    /// The exact byte encoding: the leading byte, then the cells.
    pub open spec fn m_enc(m: ShroudModel) -> Seq<u8> {
        seq![m.unknown0] + m.cells
    }

    /// What a whole shroud file decodes to.  A buffer of any other length is
    /// not a shroud file.
    pub open spec fn m_dec_file(data: Seq<u8>) -> Result<ShroudModel, DecodeError> {
        if data.len() != 1 + WIDTH * HEIGHT {
            Err(DecodeError::Malformed)
        } else {
            Ok(ShroudModel { unknown0: data[0], cells: data.skip(1) })
        }
    }

    /// Round trip: decoding an encoding yields the value back.
    pub proof fn lemma_dec_enc(m: ShroudModel)
        requires
            Self::m_wf(m),
        ensures
            Self::m_dec_file(Self::m_enc(m)) == Ok::<ShroudModel, DecodeError>(m),
    {
        assert(Self::m_enc(m).skip(1) =~= m.cells);
    }

    /// Decodes a whole shroud file; the cursor must sit at its start.
    pub fn from_bytes(r: &mut BufferReader) -> (res: Result<Shroud, DecodeError>)
        requires
            old(r).pos() == 0,
        ensures
            final(r).data() == old(r).data(),
            0 <= final(r).pos() <= final(r).data().len(),
            match Self::m_dec_file(old(r).data()) {
                Ok(m) => res matches Ok(v) && v.deep_view() == m,
                Err(e) => res == Err::<Shroud, DecodeError>(e),
            },
    {
        if r.len() != 1 + WIDTH * HEIGHT {
            return Err(DecodeError::Malformed);
        }
        let unknown0 = r.read_u8()?;
        let cells_slice = r.read_bytes(WIDTH * HEIGHT)?;
        let cells: Vec<u8> = vstd::slice::slice_to_vec(cells_slice);
        proof {
            assert(cells.deep_view() =~= old(r).data().skip(1));
        }
        Ok(Shroud { unknown0, cells })
    }

    /// Appends the exact encoding to the writer.
    pub fn to_bytes(&self, w: &mut BufferWriter)
        requires
            Self::m_wf(self.deep_view()),
        ensures
            final(w).data() == old(w).data() + Self::m_enc(self.deep_view()),
    {
        w.write_u8(self.unknown0);
        w.write_bytes(self.cells.as_slice());
        proof {
            assert(final(w).data() =~= old(w).data() + Self::m_enc(self.deep_view()));
        }
    }
}

} // verus!
