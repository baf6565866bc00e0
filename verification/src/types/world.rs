//! world.xN
//!
//! A 512 by 1024 grid of cells.  The file starts with a table of row
//! offsets, and each row starts with a table of cell offsets; both tables
//! are skipped on decode and recomputed on encode.

use vstd::prelude::*;

use crate::buffer::{le16_bytes, le32_bytes, BufferReader, BufferWriter};
use crate::types::{
    dec_many, decode_many, enc_many, encode_many, lemma_dec_many_enc, lemma_dec_many_ok,
    lemma_enc_many_len, lemma_enc_many_len_bound, lemma_enc_many_snoc, wf_many, Binary,
};
use crate::DecodeError;

verus! {

pub const WIDTH: usize = 512;

pub const HEIGHT: usize = 1024;

/// The world grid.
pub struct World {
    pub cells: Vec<Cell>,
    pub unknown1: u32,
}

pub struct Cell {
    pub image_index1: i16,
    pub image_index2: i16,
    pub unknown0: u16,
    pub unknown1: u8,
    pub unknown2: u32,
    pub unknown3: u32,
    pub unknown_vec: Vec<Unknown0>,
}

pub struct Unknown0 {
    pub unknown0: u16,
    pub unknown1: u16,
    pub unknown2: u16,
    pub unknown3: u16,
}

/// The model of a cell.
pub struct CellModel {
    pub image_index1: i16,
    pub image_index2: i16,
    pub unknown0: u16,
    pub unknown1: u8,
    pub unknown2: u32,
    pub unknown3: u32,
    pub unknown_vec: Seq<Unknown0>,
}

/// The model of the world grid.
pub struct WorldModel {
    pub cells: Seq<CellModel>,
    pub unknown1: u32,
}

impl Unknown0 {
    /// The fields in stream order.
    pub open spec fn fields(self) -> Seq<u16> {
        seq![self.unknown0, self.unknown1, self.unknown2, self.unknown3]
    }
}

impl DeepView for Unknown0 {
    type V = Unknown0;

    open spec fn deep_view(&self) -> Unknown0 {
        *self
    }
}

impl Binary for Unknown0 {
    open spec fn m_wf(m: Unknown0) -> bool {
        true
    }

    open spec fn m_enc(m: Unknown0) -> Seq<u8> {
        enc_many::<u16>(m.fields())
    }

    open spec fn m_dec(b: Seq<u8>) -> Result<(Unknown0, int), DecodeError> {
        match dec_many::<u16>(b, 4) {
            Ok((ms, n)) => Ok(
                (
                    Unknown0 { unknown0: ms[0], unknown1: ms[1], unknown2: ms[2], unknown3: ms[3] },
                    n,
                ),
            ),
            Err(e) => Err(e),
        }
    }

    proof fn lemma_dec_ok(b: Seq<u8>) {
        lemma_dec_many_ok::<u16>(b, 4);
    }

    proof fn lemma_dec_enc(m: Unknown0, rest: Seq<u8>) {
        lemma_dec_many_enc::<u16>(m.fields(), rest);
    }

    fn from_bytes(r: &mut BufferReader) -> (res: Result<Self, DecodeError>) {
        let ghost orig = *r;
        let ms = decode_many::<u16>(r, 4)?;
        proof {
            lemma_dec_many_ok::<u16>(orig.rest(), 4);
            assert(ms.deep_view() =~= ms@);
        }
        Ok(Unknown0 { unknown0: ms[0], unknown1: ms[1], unknown2: ms[2], unknown3: ms[3] })
    }

    fn to_bytes(&self, w: &mut BufferWriter) {
        let v: Vec<u16> = vec![self.unknown0, self.unknown1, self.unknown2, self.unknown3];
        proof {
            assert(v.deep_view() =~= self.deep_view().fields());
        }
        encode_many::<u16>(&v, w);
    }
}

/// One extra record occupies exactly eight bytes.
pub proof fn lemma_unknown0_enc_len(m: Unknown0)
    ensures
        <Unknown0 as Binary>::m_enc(m).len() == 8,
{
    lemma_enc_many_len::<u16>(m.fields(), 2);
}

impl DeepView for Cell {
    type V = CellModel;

    open spec fn deep_view(&self) -> CellModel {
        CellModel {
            image_index1: self.image_index1,
            image_index2: self.image_index2,
            unknown0: self.unknown0,
            unknown1: self.unknown1,
            unknown2: self.unknown2,
            unknown3: self.unknown3,
            unknown_vec: self.unknown_vec.deep_view(),
        }
    }
}

/// The tail of a cell once its three leading fields are read: the count of
/// extra records, one more byte, two words, and the extra records.
pub open spec fn dec_cell_tail(b: Seq<u8>, i1: i16, i2: i16, u0: u16) -> Result<
    (CellModel, int),
    DecodeError,
> {
    if b.len() < 8 {
        Err(DecodeError::Truncated)
    } else {
        match <u32 as Binary>::m_dec(b.skip(8)) {
            Err(e) => Err(e),
            Ok((u2, _)) => match <u32 as Binary>::m_dec(b.skip(12)) {
                Err(e) => Err(e),
                Ok((u3, _)) => match dec_many::<Unknown0>(b.skip(16), b[6] as int) {
                    Err(e) => Err(e),
                    Ok((uv, n)) => Ok(
                        (
                            CellModel {
                                image_index1: i1,
                                image_index2: i2,
                                unknown0: u0,
                                unknown1: b[7],
                                unknown2: u2,
                                unknown3: u3,
                                unknown_vec: uv,
                            },
                            16 + n,
                        ),
                    ),
                },
            },
        }
    }
}

impl Binary for Cell {
    open spec fn m_wf(m: CellModel) -> bool {
        m.unknown_vec.len() <= 255
    }

    open spec fn m_enc(m: CellModel) -> Seq<u8> {
        le16_bytes(m.image_index1 as u16) + le16_bytes(m.image_index2 as u16) + le16_bytes(
            m.unknown0,
        ) + seq![m.unknown_vec.len() as u8] + seq![m.unknown1] + le32_bytes(m.unknown2)
            + le32_bytes(m.unknown3) + enc_many::<Unknown0>(m.unknown_vec)
    }

    open spec fn m_dec(b: Seq<u8>) -> Result<(CellModel, int), DecodeError> {
        match <i16 as Binary>::m_dec(b) {
            Err(e) => Err(e),
            Ok((i1, _)) => match <i16 as Binary>::m_dec(b.skip(2)) {
                Err(e) => Err(e),
                Ok((i2, _)) => match <u16 as Binary>::m_dec(b.skip(4)) {
                    Err(e) => Err(e),
                    Ok((u0, _)) => dec_cell_tail(b, i1, i2, u0),
                },
            },
        }
    }

    proof fn lemma_dec_ok(b: Seq<u8>) {
        if b.len() >= 8 {
            lemma_dec_many_ok::<Unknown0>(b.skip(16), b[6] as int);
        }
    }

    #[verifier::rlimit(100)]
    #[verifier::spinoff_prover]
    proof fn lemma_dec_enc(m: CellModel, rest: Seq<u8>) {
        let e1 = le16_bytes(m.image_index1 as u16);
        let e2 = le16_bytes(m.image_index2 as u16);
        let e3 = le16_bytes(m.unknown0);
        let e6 = le32_bytes(m.unknown2);
        let e7 = le32_bytes(m.unknown3);
        let e8 = enc_many::<Unknown0>(m.unknown_vec);
        let b = Self::m_enc(m) + rest;
        assert(b =~= e1 + (e2 + (e3 + (seq![m.unknown_vec.len() as u8] + (seq![m.unknown1] + (e6 + (
        e7 + (e8 + rest))))))));
        <i16 as Binary>::lemma_dec_enc(
            m.image_index1,
            e2 + (e3 + (seq![m.unknown_vec.len() as u8] + (seq![m.unknown1] + (e6 + (e7 + (e8
                + rest)))))),
        );
        assert(b.skip(2) =~= e2 + (e3 + (seq![m.unknown_vec.len() as u8] + (seq![m.unknown1] + (e6
            + (e7 + (e8 + rest)))))));
        <i16 as Binary>::lemma_dec_enc(
            m.image_index2,
            e3 + (seq![m.unknown_vec.len() as u8] + (seq![m.unknown1] + (e6 + (e7 + (e8 + rest))))),
        );
        assert(b.skip(4) =~= e3 + (seq![m.unknown_vec.len() as u8] + (seq![m.unknown1] + (e6 + (e7
            + (e8 + rest))))));
        <u16 as Binary>::lemma_dec_enc(
            m.unknown0,
            seq![m.unknown_vec.len() as u8] + (seq![m.unknown1] + (e6 + (e7 + (e8 + rest)))),
        );
        assert(b[6] == m.unknown_vec.len() as u8);
        assert(b[7] == m.unknown1);
        assert(b.skip(8) =~= e6 + (e7 + (e8 + rest)));
        <u32 as Binary>::lemma_dec_enc(m.unknown2, e7 + (e8 + rest));
        assert(b.skip(12) =~= e7 + (e8 + rest));
        <u32 as Binary>::lemma_dec_enc(m.unknown3, e8 + rest);
        assert(b.skip(16) =~= e8 + rest);
        lemma_dec_many_enc::<Unknown0>(m.unknown_vec, rest);
        assert((m.unknown_vec.len() as u8) as int == m.unknown_vec.len());
    }

    fn from_bytes(r: &mut BufferReader) -> (res: Result<Self, DecodeError>) {
        r.bounds_check();
        let ghost orig = *r;
        let image_index1 = i16::from_bytes(r)?;
        proof {
            assert(r.rest() =~= orig.rest().skip(2));
        }
        let image_index2 = i16::from_bytes(r)?;
        proof {
            assert(r.rest() =~= orig.rest().skip(4));
        }
        let unknown0 = u16::from_bytes(r)?;
        if r.remaining() < 2 {
            return Err(DecodeError::Truncated);
        }
        let count = r.read_u8()?;
        proof {
            assert(orig.rest()[6] == count);
        }
        let unknown1 = r.read_u8()?;
        proof {
            assert(orig.rest()[7] == unknown1);
            assert(r.rest() =~= orig.rest().skip(8));
        }
        let unknown2 = u32::from_bytes(r)?;
        proof {
            assert(r.rest() =~= orig.rest().skip(12));
        }
        let unknown3 = u32::from_bytes(r)?;
        proof {
            assert(r.rest() =~= orig.rest().skip(16));
        }
        let unknown_vec = decode_many::<Unknown0>(r, count as usize)?;
        Ok(
            Cell {
                image_index1,
                image_index2,
                unknown0,
                unknown1,
                unknown2,
                unknown3,
                unknown_vec,
            },
        )
    }

    fn to_bytes(&self, w: &mut BufferWriter) {
        w.write_i16(self.image_index1);
        w.write_i16(self.image_index2);
        w.write_u16(self.unknown0);
        w.write_u8(self.unknown_vec.len() as u8);
        w.write_u8(self.unknown1);
        w.write_u32(self.unknown2);
        w.write_u32(self.unknown3);
        encode_many::<Unknown0>(&self.unknown_vec, w);
        proof {
            assert(final(w).data() =~= old(w).data() + Self::m_enc(self.deep_view()));
        }
    }
}

/// A cell's encoding never exceeds 2056 bytes.
pub proof fn lemma_cell_enc_bound(m: CellModel)
    requires
        <Cell as Binary>::m_wf(m),
    ensures
        <Cell as Binary>::m_enc(m).len() <= 2056,
        <Cell as Binary>::m_enc(m).len() >= 16,
{
    assert forall|i: int| 0 <= i < m.unknown_vec.len() implies <Unknown0 as Binary>::m_enc(
        #[trigger] m.unknown_vec[i],
    ).len() <= 8 by {
        lemma_unknown0_enc_len(m.unknown_vec[i]);
    }
    lemma_enc_many_len_bound::<Unknown0>(m.unknown_vec, 8);
}

/// One row of the grid: 512 consecutive cells.
pub open spec fn row_of(cells: Seq<CellModel>, y: int) -> Seq<CellModel> {
    cells.subrange(y * 512, (y + 1) * 512)
}

/// The per-row table of cell offsets: for each cell, the byte position of
/// its encoding within the row's cell data, as a 16-bit field.
pub open spec fn cell_offs_enc(row: Seq<CellModel>, acc: int) -> Seq<u8>
    decreases row.len(),
{
    if row.len() == 0 {
        Seq::<u8>::empty()
    } else {
        le16_bytes(acc as u16) + cell_offs_enc(
            row.drop_first(),
            acc + <Cell as Binary>::m_enc(row[0]).len(),
        )
    }
}

/// The offset table is two bytes per cell.
pub proof fn lemma_cell_offs_len(row: Seq<CellModel>, acc: int)
    ensures
        cell_offs_enc(row, acc).len() == 2 * row.len(),
    decreases row.len(),
{
    if row.len() > 0 {
        lemma_cell_offs_len(row.drop_first(), acc + <Cell as Binary>::m_enc(row[0]).len());
    }
}

/// One encoded row: its cell offset table, then its cells.
pub open spec fn row_enc(row: Seq<CellModel>) -> Seq<u8> {
    cell_offs_enc(row, 0) + enc_many::<Cell>(row)
}

/// The encoded rows from `y` to the bottom of the grid.
pub open spec fn rows_enc(cells: Seq<CellModel>, y: int) -> Seq<u8>
    decreases 1024 - y when y <= 1024
{
    if y >= 1024 {
        Seq::<u8>::empty()
    } else {
        row_enc(row_of(cells, y)) + rows_enc(cells, y + 1)
    }
}

/// The table of row offsets from `y` down, when row `y`'s data begins at
/// absolute offset `acc`.
pub open spec fn row_offs_enc(cells: Seq<CellModel>, y: int, acc: int) -> Seq<u8>
    decreases 1024 - y when y <= 1024
{
    if y >= 1024 {
        Seq::<u8>::empty()
    } else {
        le32_bytes(acc as u32) + row_offs_enc(
            cells,
            y + 1,
            acc + 1024 + enc_many::<Cell>(row_of(cells, y)).len(),
        )
    }
}

/// What the rows from `y` down decode to: each row's offset table is
/// skipped, then its 512 cells are decoded.
pub open spec fn rows_dec(b: Seq<u8>, rows: int) -> Result<(Seq<CellModel>, int), DecodeError>
    decreases rows,
{
    if rows <= 0 {
        Ok((Seq::<CellModel>::empty(), 0))
    } else if b.len() < 1024 {
        Err(DecodeError::Truncated)
    } else {
        match dec_many::<Cell>(b.skip(1024), 512) {
            Err(e) => Err(e),
            Ok((cs, n)) => match rows_dec(b.skip(1024 + n), rows - 1) {
                Err(e) => Err(e),
                Ok((cs2, n2)) => Ok((cs + cs2, 1024 + n + n2)),
            },
        }
    }
}

/// Decoded rows are well formed, sized, and within bounds.
pub proof fn lemma_rows_dec_ok(b: Seq<u8>, rows: int)
    ensures
        rows_dec(b, rows) matches Ok((cs, n)) ==> wf_many::<Cell>(cs) && cs.len() == 512 * (
        if rows <= 0 {
            0
        } else {
            rows
        }) && 0 <= n <= b.len(),
    decreases rows,
{
    if rows > 0 && b.len() >= 1024 {
        lemma_dec_many_ok::<Cell>(b.skip(1024), 512);
        if let Ok((cs, n)) = dec_many::<Cell>(b.skip(1024), 512) {
            lemma_rows_dec_ok(b.skip(1024 + n), rows - 1);
            assert(512 * rows == 512 + 512 * (rows - 1)) by (nonlinear_arith);
        }
    }
}

/// Round trip for the rows: the encoded rows from `y` down decode back to
/// the matching cells.
#[verifier::rlimit(100)]
#[verifier::spinoff_prover]
pub proof fn lemma_rows_dec_enc(cells: Seq<CellModel>, y: int, rest: Seq<u8>)
    requires
        cells.len() == 512 * 1024,
        wf_many::<Cell>(cells),
        0 <= y <= 1024,
    ensures
        rows_dec(rows_enc(cells, y) + rest, 1024 - y) == Ok::<(Seq<CellModel>, int), DecodeError>(
            (cells.skip(512 * y), rows_enc(cells, y).len() as int),
        ),
    decreases 1024 - y,
{
    if y >= 1024 {
        assert(cells.skip((512 * 1024) as int) =~= Seq::<CellModel>::empty());
    } else {
        let row = row_of(cells, y);
        assert(row.len() == 512);
        assert(forall|i: int| 0 <= i < 512 ==> row[i] == cells[y * 512 + i]);
        assert(wf_many::<Cell>(row));
        let offs = cell_offs_enc(row, 0);
        lemma_cell_offs_len(row, 0);
        let b = rows_enc(cells, y) + rest;
        assert(b =~= offs + (enc_many::<Cell>(row) + (rows_enc(cells, y + 1) + rest)));
        assert(b.len() >= 1024);
        assert(b.skip(1024) =~= enc_many::<Cell>(row) + (rows_enc(cells, y + 1) + rest));
        lemma_dec_many_enc::<Cell>(row, rows_enc(cells, y + 1) + rest);
        let n = enc_many::<Cell>(row).len() as int;
        assert(b.skip(1024 + n) =~= rows_enc(cells, y + 1) + rest);
        lemma_rows_dec_enc(cells, y + 1, rest);
        assert(row + cells.skip(512 * (y + 1)) =~= cells.skip(512 * y));
    }
}

impl DeepView for World {
    type V = WorldModel;

    open spec fn deep_view(&self) -> WorldModel {
        WorldModel { cells: self.cells.deep_view(), unknown1: self.unknown1 }
    }
}

impl Binary for World {
    open spec fn m_wf(m: WorldModel) -> bool {
        &&& m.cells.len() == 512 * 1024
        &&& wf_many::<Cell>(m.cells)
    }

    open spec fn m_enc(m: WorldModel) -> Seq<u8> {
        row_offs_enc(m.cells, 0, 4096) + rows_enc(m.cells, 0) + le32_bytes(m.unknown1)
    }

    open spec fn m_dec(b: Seq<u8>) -> Result<(WorldModel, int), DecodeError> {
        if b.len() < 4096 {
            Err(DecodeError::Truncated)
        } else {
            match rows_dec(b.skip(4096), 1024) {
                Err(e) => Err(e),
                Ok((cells, n)) => match <u32 as Binary>::m_dec(b.skip(4096 + n)) {
                    Err(e) => Err(e),
                    Ok((unknown1, _)) => Ok((WorldModel { cells, unknown1 }, 4100 + n)),
                },
            }
        }
    }

    proof fn lemma_dec_ok(b: Seq<u8>) {
        if b.len() >= 4096 {
            lemma_rows_dec_ok(b.skip(4096), 1024);
        }
    }

    #[verifier::rlimit(100)]
    #[verifier::spinoff_prover]
    proof fn lemma_dec_enc(m: WorldModel, rest: Seq<u8>) {
        let e1 = row_offs_enc(m.cells, 0, 4096);
        let e2 = rows_enc(m.cells, 0);
        let e3 = le32_bytes(m.unknown1);
        lemma_row_offs_len(m.cells, 0, 4096);
        let b = Self::m_enc(m) + rest;
        assert(b =~= e1 + (e2 + (e3 + rest)));
        assert(b.len() >= 4096);
        assert(b.skip(4096) =~= e2 + (e3 + rest));
        lemma_rows_dec_enc(m.cells, 0, e3 + rest);
        assert(m.cells.skip(0) =~= m.cells);
        let n = e2.len() as int;
        assert(b.skip(4096 + n) =~= e3 + rest);
        <u32 as Binary>::lemma_dec_enc(m.unknown1, rest);
    }

    fn from_bytes(r: &mut BufferReader) -> (res: Result<Self, DecodeError>) {
        r.bounds_check();
        let ghost orig = *r;
        if r.remaining() < 4096 {
            return Err(DecodeError::Truncated);
        }
        r.skip(4096);
        proof {
            assert(r.rest() =~= orig.rest().skip(4096));
        }
        let ghost base = *r;
        let mut cells: Vec<Cell> = Vec::new();
        assert(cells.deep_view() =~= Seq::<CellModel>::empty());
        let mut y: usize = 0;
        while y < HEIGHT
            invariant
            y <= 1024,
            orig == *old(r),
            0 <= orig.pos() <= orig.data().len(),
            base.pos() == orig.pos() + 4096,
            base.data() == orig.data(),
            0 <= base.pos() <= base.data().len(),
            base.rest() == orig.rest().skip(4096),
            r.data() == base.data(),
            base.pos() <= r.pos() <= r.data().len(),
            match rows_dec(r.rest(), 1024 - y) {
                Ok((ms, n)) => rows_dec(base.rest(), 1024) == Ok::<
                    (Seq<CellModel>, int),
                    DecodeError,
                >((cells.deep_view() + ms, (r.pos() - base.pos()) + n)),
                Err(e) => rows_dec(base.rest(), 1024) == Err::<(Seq<CellModel>, int), DecodeError>(
                    e,
                ),
            },
            decreases 1024 - y,
        {
            let ghost r0 = *r;
            let ghost cells0 = cells.deep_view();
            if r.remaining() < 1024 {
                return Err(DecodeError::Truncated);
            }
            r.skip(1024);
            proof {
                assert(r.rest() =~= r0.rest().skip(1024));
            }
            let ghost r1 = *r;
            let mut row = decode_many::<Cell>(r, WIDTH)?;
            proof {
                lemma_dec_many_ok::<Cell>(r1.rest(), 512);
            }
            let ghost rowdv = row.deep_view();
            cells.append(&mut row);
            proof {
                assert(cells.deep_view() =~= cells0 + rowdv);
                if let Ok((cs, n)) = dec_many::<Cell>(r0.rest().skip(1024), 512) {
                    assert(r.rest() =~= r0.rest().skip(1024 + n));
                    match rows_dec(r.rest(), 1024 - y - 1) {
                        Ok((ms2, n2)) => {
                            assert(rows_dec(r0.rest(), 1024 - y) == Ok::<
                                (Seq<CellModel>, int),
                                DecodeError,
                            >((cs + ms2, 1024 + n + n2)));
                            assert(cells0 + (cs + ms2) =~= cells.deep_view() + ms2);
                        },
                        Err(_) => {},
                    }
                }
            }
            y = y + 1;
        }
        proof {
            assert(rows_dec(r.rest(), 0) == Ok::<(Seq<CellModel>, int), DecodeError>(
                (Seq::<CellModel>::empty(), 0),
            ));
            assert(cells.deep_view() + Seq::<CellModel>::empty() =~= cells.deep_view());
        }
        let unknown1 = u32::from_bytes(r)?;
        Ok(World { cells, unknown1 })
    }

    #[verifier::rlimit(100)]
    #[verifier::spinoff_prover]
    fn to_bytes(&self, w: &mut BufferWriter) {
        let ghost dv = self.deep_view();
        let ghost cellsm = dv.cells;
        let mut row_offsets: Vec<u32> = Vec::new();
        let mut row_writer = BufferWriter::new();
        proof {
            assert(row_offsets.deep_view() =~= Seq::<u32>::empty());
            assert(enc_many::<u32>(Seq::<u32>::empty()) =~= Seq::<u8>::empty());
        }
        let mut y: usize = 0;
        while y < HEIGHT
            invariant
                y <= 1024,
                dv == self.deep_view(),
                cellsm == dv.cells,
                cellsm.len() == 512 * 1024,
                wf_many::<Cell>(cellsm),
                self.cells.deep_view() == cellsm,
                self.cells@.len() == cellsm.len(),
                row_offsets.deep_view().len() == y,
                rows_enc(cellsm, 0) == row_writer.data() + rows_enc(cellsm, y as int),
                row_offs_enc(cellsm, 0, 4096) == enc_many::<u32>(row_offsets.deep_view())
                    + row_offs_enc(cellsm, y as int, 4096 + row_writer.data().len() as int),
                row_writer.data().len() <= y * 1053696,
            decreases 1024 - y,
        {
            let ghost rw0 = row_writer.data();
            let ghost offs0 = row_offsets.deep_view();
            let ghost rowm = row_of(cellsm, y as int);
            proof {
                assert(y * 1053696 <= 1023 * 1053696) by (nonlinear_arith)
                    requires
                        0 <= y <= 1023,
                ;
                assert(rowm.len() == 512);
                assert(forall|i: int| 0 <= i < 512 ==> rowm[i] == cellsm[y * 512 + i]);
                assert(forall|i: int| 0 <= i < 512 ==> <Cell as Binary>::m_wf(#[trigger] rowm[i]));
            }
            let off = (HEIGHT * 4 + row_writer.len()) as u32;
            row_offsets.push(off);
            let mut cell_writer = BufferWriter::new();
            proof {
                assert(rowm.skip(0) =~= rowm);
                assert(rowm.take(0) =~= Seq::<CellModel>::empty());
                assert(enc_many::<Cell>(Seq::<CellModel>::empty()) =~= Seq::<u8>::empty());
                assert(row_writer.data() + cell_offs_enc(rowm.skip(0), 0) =~= rw0 + cell_offs_enc(
                    rowm,
                    0,
                ));
            }
            let mut x: usize = 0;
            while x < WIDTH
                invariant
                    y < 1024,
                    x <= 512,
                    dv == self.deep_view(),
                    cellsm == dv.cells,
                    cellsm.len() == 512 * 1024,
                    wf_many::<Cell>(cellsm),
                    self.cells.deep_view() == cellsm,
                    self.cells@.len() == cellsm.len(),
                    rowm == row_of(cellsm, y as int),
                    rowm.len() == 512,
                    forall|i: int| 0 <= i < 512 ==> rowm[i] == cellsm[y * 512 + i],
                    cell_writer.data() == enc_many::<Cell>(rowm.take(x as int)),
                    row_writer.data() + cell_offs_enc(
                        rowm.skip(x as int),
                        cell_writer.data().len() as int,
                    ) == rw0 + cell_offs_enc(rowm, 0),
                    row_writer.data().len() == rw0.len() + 2 * x,
                decreases 512 - x,
            {
                let ghost cw0 = cell_writer.data();
                proof {
                    assert(rowm.skip(x as int)[0] == rowm[x as int]);
                    assert(rowm.skip(x as int).drop_first() =~= rowm.skip(x + 1));
                    assert(<Cell as Binary>::m_wf(rowm[x as int]));
                }
                row_writer.write_u16(cell_writer.len() as u16);
                let cell = &self.cells[y * WIDTH + x];
                proof {
                    assert(cell.deep_view() == cellsm[y * 512 + x]);
                    assert(cellsm[y * 512 + x] == rowm[x as int]);
                }
                cell.to_bytes(&mut cell_writer);
                proof {
                    lemma_enc_many_snoc::<Cell>(rowm.take(x as int), rowm[x as int]);
                    assert(rowm.take(x as int).push(rowm[x as int]) =~= rowm.take(x + 1));
                    assert(row_writer.data() + cell_offs_enc(
                        rowm.skip(x + 1),
                        cell_writer.data().len() as int,
                    ) =~= rw0 + cell_offs_enc(rowm, 0));
                }
                x = x + 1;
            }
            proof {
                assert(rowm.skip(512) =~= Seq::<CellModel>::empty());
                assert(cell_offs_enc(Seq::<CellModel>::empty(), cell_writer.data().len() as int)
                    =~= Seq::<u8>::empty());
                assert(row_writer.data() =~= rw0 + cell_offs_enc(rowm, 0));
                assert(rowm.take(512) =~= rowm);
            }
            let cell_bytes = cell_writer.finish();
            row_writer.write_bytes(cell_bytes.as_slice());
            proof {
                lemma_cell_offs_len(rowm, 0);
                assert(row_writer.data() =~= rw0 + row_enc(rowm));
                assert(rows_enc(cellsm, y as int) == row_enc(rowm) + rows_enc(cellsm, y + 1));
                assert(rw0 + (row_enc(rowm) + rows_enc(cellsm, y + 1)) =~= row_writer.data()
                    + rows_enc(cellsm, y + 1));
                lemma_enc_many_snoc::<u32>(offs0, off);
                assert(offs0.push(off) =~= row_offsets.deep_view());
                assert(row_offs_enc(cellsm, y as int, 4096 + rw0.len() as int) == le32_bytes(
                    (4096 + rw0.len()) as u32,
                ) + row_offs_enc(
                    cellsm,
                    y + 1,
                    4096 + rw0.len() as int + 1024 + enc_many::<Cell>(rowm).len() as int,
                ));
                assert(off == (4096 + rw0.len()) as u32);
                assert(row_writer.data().len() == rw0.len() + 1024 + enc_many::<Cell>(rowm).len());
                assert forall|i: int| 0 <= i < rowm.len() implies <Cell as Binary>::m_enc(
                    #[trigger] rowm[i],
                ).len() <= 2056 by {
                    lemma_cell_enc_bound(rowm[i]);
                }
                lemma_enc_many_len_bound::<Cell>(rowm, 2056);
                assert((y + 1) * 1053696 == y * 1053696 + 1053696) by (nonlinear_arith);
            }
            y = y + 1;
        }
        proof {
            assert(rows_enc(cellsm, 1024) =~= Seq::<u8>::empty());
            assert(row_writer.data() =~= rows_enc(cellsm, 0));
            assert(row_offs_enc(cellsm, 1024, 4096 + row_writer.data().len() as int)
                =~= Seq::<u8>::empty());
            assert(enc_many::<u32>(row_offsets.deep_view()) =~= row_offs_enc(cellsm, 0, 4096));
            assert(wf_many::<u32>(row_offsets.deep_view()));
        }
        encode_many::<u32>(&row_offsets, w);
        let row_bytes = row_writer.finish();
        w.write_bytes(row_bytes.as_slice());
        w.write_u32(self.unknown1);
        proof {
            assert(final(w).data() =~= old(w).data() + Self::m_enc(dv));
        }
    }
}

/// The row offset table is four bytes per row.
pub proof fn lemma_row_offs_len(cells: Seq<CellModel>, y: int, acc: int)
    requires
        0 <= y <= 1024,
    ensures
        row_offs_enc(cells, y, acc).len() == 4 * (1024 - y),
    decreases 1024 - y,
{
    if y < 1024 {
        lemma_row_offs_len(cells, y + 1, acc + 1024 + enc_many::<Cell>(row_of(cells, y)).len());
    }
}

} // verus!
