//! The archive container: many files bundled behind a table of obfuscated
//! relative paths, absolute offsets and sizes, followed by the concatenated
//! file contents.

use vstd::prelude::*;
use vstd::utf8::valid_utf8;

use crate::buffer::{le32_bytes, u32_from_le, BufferReader, BufferWriter};
use crate::DecodeError;

verus! {

/// The fixed 32-byte key of the path-obfuscation cipher.
pub open spec fn key_bytes() -> Seq<u8> {
    seq![
        0x0Cu8, 0x40, 0x55, 0x0C, 0x2D, 0x41, 0x62, 0x2D, 0x03, 0x06, 0x48, 0x1E, 0x05, 0x48,
        0x14, 0x05, 0x30, 0x32, 0x33, 0x34, 0x63, 0x63, 0x46, 0x33, 0x18, 0x09, 0x28, 0x0F,
        0x06, 0x22, 0x39, 0x17,
    ]
}

/// The key as bytes in memory.
fn cipher_key() -> (k: Vec<u8>)
    ensures
        k@ == key_bytes(),
{
    let k: Vec<u8> = vec![
        0x0Cu8, 0x40, 0x55, 0x0C, 0x2D, 0x41, 0x62, 0x2D, 0x03, 0x06, 0x48, 0x1E, 0x05, 0x48,
        0x14, 0x05, 0x30, 0x32, 0x33, 0x34, 0x63, 0x63, 0x46, 0x33, 0x18, 0x09, 0x28, 0x0F,
        0x06, 0x22, 0x39, 0x17,
    ];
    proof {
        assert(k@ =~= key_bytes());
    }
    k
}

/// One step of the obfuscation cipher: the byte is mixed with the key byte
/// for its position and complemented.  The same step also deciphers.
pub open spec fn crypt_byte(b: u8, k: u8) -> u8 {
    !(b ^ k)
}

/// The cipher over a whole byte sequence, with the key repeating every
/// 32 bytes.
pub open spec fn crypt_bytes(s: Seq<u8>) -> Seq<u8> {
    Seq::new(s.len(), |i: int| crypt_byte(s[i], key_bytes()[i % 32]))
}

/// The cipher is an involution: applying it twice yields the input back.
pub proof fn lemma_cipher_involution(s: Seq<u8>)
    ensures
        crypt_bytes(crypt_bytes(s)) == s,
{
    assert forall|i: int| 0 <= i < s.len() implies crypt_bytes(crypt_bytes(s))[i] == s[i] by {
        let b = s[i];
        let k = key_bytes()[i % 32];
        assert(crypt_byte(crypt_byte(b, k), k) == b) by {
            assert(!((!(b ^ k)) ^ k) == b) by (bit_vector);
        }
    }
    assert(crypt_bytes(crypt_bytes(s)) =~= s);
}

/// Applies the cipher to a byte sequence.  One call obfuscates a path; a
/// second call on the result deciphers it.
pub fn crypt_path(p: &[u8]) -> (r: Vec<u8>)
    ensures
        r@ == crypt_bytes(p@),
{
    let key = cipher_key();
    let n = p.len();
    let mut out: Vec<u8> = Vec::new();
    let mut i: usize = 0;
    while i < n
        invariant
            i <= n,
            n == p@.len(),
            key@ == key_bytes(),
            out@ == crypt_bytes(p@).take(i as int),
        decreases n - i,
    {
        out.push(!(p[i] ^ key[i % 32]));
        assert(out@ =~= crypt_bytes(p@).take(i + 1));
        i = i + 1;
    }
    assert(crypt_bytes(p@).take(n as int) =~= crypt_bytes(p@));
    out
}

/// Obfuscates a relative path for storage and appends the plain terminator.
pub fn encrypt_file_path(path: &[u8]) -> (r: Vec<u8>)
    ensures
        r@ == crypt_bytes(path@) + seq![0u8],
{
    let mut out = crypt_path(path);
    out.push(0);
    out
}

/// Deciphers the stored bytes of a relative path.
pub fn decrypt_file_path(encrypted: &[u8]) -> (r: Vec<u8>)
    ensures
        r@ == crypt_bytes(encrypted@),
{
    crypt_path(encrypted)
}

/// One file to be packed, or one file recovered from an archive: a relative
/// path with backslash separators, and the file's bytes.
pub struct ArchiveEntry {
    pub path: Vec<u8>,
    pub data: Vec<u8>,
}

/// The model of an archive entry.
pub struct ArchiveEntryModel {
    pub path: Seq<u8>,
    pub data: Seq<u8>,
}

impl DeepView for ArchiveEntry {
    type V = ArchiveEntryModel;

    open spec fn deep_view(&self) -> ArchiveEntryModel {
        ArchiveEntryModel { path: self.path.deep_view(), data: self.data.deep_view() }
    }
}

/// An entry the archive format can hold: the path is UTF-8 text whose length
/// fits the table's length field, and the data's size fits its field.
pub open spec fn entry_wf(e: ArchiveEntryModel) -> bool {
    &&& e.path.len() + 1 <= u32::MAX
    &&& valid_utf8(e.path)
    &&& e.data.len() <= u32::MAX
}

/// The bytes one table record occupies: length field, obfuscated path with
/// terminator, offset, size, and the reserved field.
pub open spec fn entry_table_len(e: ArchiveEntryModel) -> int {
    e.path.len() as int + 17
}

/// The total size of the header and table.
pub open spec fn table_size(es: Seq<ArchiveEntryModel>) -> int
    decreases es.len(),
{
    if es.len() == 0 {
        0
    } else {
        entry_table_len(es[0]) + table_size(es.drop_first())
    }
}

/// The total size of all file contents.
pub open spec fn total_data(es: Seq<ArchiveEntryModel>) -> int
    decreases es.len(),
{
    if es.len() == 0 {
        0
    } else {
        es[0].data.len() + total_data(es.drop_first())
    }
}

/// A set of entries the archive format can hold: every entry well formed,
/// the count fits its field, and every offset fits its field.
pub open spec fn entries_wf(es: Seq<ArchiveEntryModel>) -> bool {
    &&& es.len() <= u32::MAX
    &&& (forall|i: int| 0 <= i < es.len() ==> entry_wf(#[trigger] es[i]))
    &&& 4 + table_size(es) + total_data(es) <= u32::MAX
}

/// One table record: the count of path bytes before the terminator, the
/// obfuscated path, the terminator, the entry's absolute offset, its size,
/// and the reserved field, written as zero.
pub open spec fn entry_table_enc(e: ArchiveEntryModel, offset: int) -> Seq<u8> {
    le32_bytes(e.path.len() as u32) + crypt_bytes(e.path) + seq![0u8] + le32_bytes(offset as u32)
        + le32_bytes(e.data.len() as u32) + le32_bytes(0u32)
}

/// The table records of `es`, when the first entry's contents lie at
/// `offset` and each later entry's contents follow the previous one.
pub open spec fn table_enc(es: Seq<ArchiveEntryModel>, offset: int) -> Seq<u8>
    decreases es.len(),
{
    if es.len() == 0 {
        Seq::<u8>::empty()
    } else {
        entry_table_enc(es[0], offset) + table_enc(es.drop_first(), offset + es[0].data.len())
    }
}

/// The concatenated file contents, in table order.
pub open spec fn bodies_enc(es: Seq<ArchiveEntryModel>) -> Seq<u8>
    decreases es.len(),
{
    if es.len() == 0 {
        Seq::<u8>::empty()
    } else {
        es[0].data + bodies_enc(es.drop_first())
    }
}

/// The whole archive: the file count, the table, and the contents, which
/// start right after the table.
pub open spec fn archive_enc(es: Seq<ArchiveEntryModel>) -> Seq<u8> {
    le32_bytes(es.len() as u32) + table_enc(es, 4 + table_size(es)) + bodies_enc(es)
}

/// The sums split over a prefix and the matching suffix.
pub proof fn lemma_sums_split(es: Seq<ArchiveEntryModel>, i: int)
    requires
        0 <= i <= es.len(),
    ensures
        table_size(es) == table_size(es.take(i)) + table_size(es.skip(i)),
        total_data(es) == total_data(es.take(i)) + total_data(es.skip(i)),
    decreases i,
{
    if i == 0 {
        assert(es.take(0) =~= Seq::<ArchiveEntryModel>::empty());
        assert(es.skip(0) =~= es);
    } else {
        lemma_sums_split(es, i - 1);
        let a = es.take(i - 1);
        let b = es.take(i);
        assert(b.drop_last() =~= a);
        lemma_sums_snoc(a, es[i - 1]);
        assert(a.push(es[i - 1]) =~= b);
        assert(es.skip(i - 1).drop_first() =~= es.skip(i));
        assert(es.skip(i - 1)[0] == es[i - 1]);
    }
}

/// Appending one entry adds its sizes to the sums.
pub proof fn lemma_sums_snoc(es: Seq<ArchiveEntryModel>, e: ArchiveEntryModel)
    ensures
        table_size(es.push(e)) == table_size(es) + entry_table_len(e),
        total_data(es.push(e)) == total_data(es) + e.data.len(),
    decreases es.len(),
{
    let p = es.push(e);
    if es.len() == 0 {
        assert(p.drop_first() =~= Seq::<ArchiveEntryModel>::empty());
        assert(p[0] == e);
        assert(table_size(Seq::<ArchiveEntryModel>::empty()) == 0);
        assert(total_data(Seq::<ArchiveEntryModel>::empty()) == 0);
        assert(table_size(p) == entry_table_len(e) + table_size(p.drop_first()));
        assert(total_data(p) == e.data.len() + total_data(p.drop_first()));
    } else {
        assert(p.drop_first() =~= es.drop_first().push(e));
        assert(p[0] == es[0]);
        lemma_sums_snoc(es.drop_first(), e);
        assert(table_size(p) == entry_table_len(es[0]) + table_size(p.drop_first()));
        assert(total_data(p) == es[0].data.len() + total_data(p.drop_first()));
    }
}

/// Both sums are nonnegative.
pub proof fn lemma_sums_nonneg(es: Seq<ArchiveEntryModel>)
    ensures
        table_size(es) >= 0,
        total_data(es) >= 0,
    decreases es.len(),
{
    if es.len() > 0 {
        lemma_sums_nonneg(es.drop_first());
    }
}

/// Appending one entry extends the table records and the contents.
pub proof fn lemma_enc_snoc(es: Seq<ArchiveEntryModel>, e: ArchiveEntryModel, offset: int)
    ensures
        table_enc(es.push(e), offset) == table_enc(es, offset) + entry_table_enc(
            e,
            offset + total_data(es),
        ),
        bodies_enc(es.push(e)) == bodies_enc(es) + e.data,
    decreases es.len(),
{
    let p = es.push(e);
    if es.len() == 0 {
        assert(p.drop_first() =~= Seq::<ArchiveEntryModel>::empty());
        assert(p[0] == e);
        assert(table_enc(Seq::<ArchiveEntryModel>::empty(), offset + e.data.len() as int)
            =~= Seq::<u8>::empty());
        assert(bodies_enc(Seq::<ArchiveEntryModel>::empty()) =~= Seq::<u8>::empty());
        assert(table_enc(p, offset) == entry_table_enc(p[0], offset) + table_enc(
            p.drop_first(),
            offset + p[0].data.len(),
        ));
        assert(total_data(es) == 0);
        assert(table_enc(p, offset) =~= table_enc(es, offset) + entry_table_enc(
            e,
            offset + total_data(es),
        ));
        assert(bodies_enc(p) == p[0].data + bodies_enc(p.drop_first()));
        assert(bodies_enc(p) =~= bodies_enc(es) + e.data);
    } else {
        assert(p.drop_first() =~= es.drop_first().push(e));
        assert(p[0] == es[0]);
        lemma_enc_snoc(es.drop_first(), e, offset + es[0].data.len());
        assert(table_enc(p, offset) == entry_table_enc(p[0], offset) + table_enc(
            p.drop_first(),
            offset + p[0].data.len(),
        ));
        assert(total_data(es) == es[0].data.len() + total_data(es.drop_first()));
        assert(table_enc(p, offset) =~= table_enc(es, offset) + entry_table_enc(
            e,
            offset + total_data(es),
        ));
        assert(bodies_enc(p) == p[0].data + bodies_enc(p.drop_first()));
        assert(bodies_enc(p) =~= bodies_enc(es) + e.data);
    }
}

/// The table records occupy exactly `table_size`, and the contents exactly
/// `total_data`.
pub proof fn lemma_enc_lens(es: Seq<ArchiveEntryModel>, offset: int)
    ensures
        table_enc(es, offset).len() == table_size(es),
        bodies_enc(es).len() == total_data(es),
    decreases es.len(),
{
    if es.len() > 0 {
        lemma_enc_lens(es.drop_first(), offset + es[0].data.len());
    }
}

/// Packs the entries, already in their final order, into archive bytes.
pub fn pack_archive(entries: &Vec<ArchiveEntry>) -> (out: Vec<u8>)
    requires
        entries_wf(entries.deep_view()),
    ensures
        out@ == archive_enc(entries.deep_view()),
{
    let ghost dv = entries.deep_view();
    let n = entries.len();
    proof {
        assert(dv.len() == n);
    }

    let mut w = BufferWriter::new();
    w.write_u32(n as u32);

    // The first entry's contents start right after the header and table.
    let mut current_offset: u32 = 4;
    let mut i: usize = 0;
    while i < n
        invariant
            i <= n,
            n == dv.len(),
            dv == entries.deep_view(),
            entries_wf(dv),
            current_offset == 4 + table_size(dv.take(i as int)),
        decreases n - i,
    {
        proof {
            lemma_sums_split(dv, i as int);
            lemma_sums_split(dv.skip(i as int), 1);
            assert(dv.skip(i as int).take(1)[0] == dv[i as int]);
            lemma_sums_nonneg(dv.take(i as int));
            lemma_sums_nonneg(dv.skip(i as int).skip(1));
            lemma_sums_nonneg(dv.skip(i as int).take(1));
            assert(table_size(dv.skip(i as int).take(1)) == entry_table_len(dv[i as int]));
            lemma_sums_snoc(dv.take(i as int), dv[i as int]);
            assert(dv.take(i as int).push(dv[i as int]) =~= dv.take(i + 1));
            assert(total_data(dv) >= 0) by {
                lemma_sums_nonneg(dv);
            }
        }
        let path_len = entries[i].path.len();
        proof {
            assert(dv[i as int].path.len() == path_len);
        }
        current_offset = current_offset + (path_len as u32) + 17;
        i = i + 1;
    }
    proof {
        assert(dv.take(n as int) =~= dv);
    }

    // The table, with each entry's absolute offset.
    let mut i: usize = 0;
    while i < n
        invariant
            i <= n,
            n == dv.len(),
            dv == entries.deep_view(),
            entries_wf(dv),
            current_offset == 4 + table_size(dv) + total_data(dv.take(i as int)),
            w.data() == le32_bytes(n as u32) + table_enc(dv.take(i as int), 4 + table_size(dv)),
        decreases n - i,
    {
        proof {
            lemma_sums_split(dv, i as int);
            lemma_sums_split(dv.skip(i as int), 1);
            assert(dv.skip(i as int).take(1)[0] == dv[i as int]);
            lemma_sums_nonneg(dv.take(i as int));
            lemma_sums_nonneg(dv.skip(i as int).skip(1));
            assert(total_data(dv.skip(i as int).take(1)) == dv[i as int].data.len());
            lemma_sums_snoc(dv.take(i as int), dv[i as int]);
            assert(dv.take(i as int).push(dv[i as int]) =~= dv.take(i + 1));
            lemma_sums_nonneg(dv);
        }
        let entry = &entries[i];
        proof {
            assert(entry.deep_view() == dv[i as int]);
            assert(entry.path.deep_view() =~= entry.path@);
            assert(entry.data.deep_view() =~= entry.data@);
        }
        let encrypted = encrypt_file_path(entry.path.as_slice());
        w.write_u32(encrypted.len() as u32 - 1);
        w.write_bytes(encrypted.as_slice());
        w.write_u32(current_offset);
        let file_size = entry.data.len() as u32;
        w.write_u32(file_size);
        // Reserved field; its purpose is unconfirmed, and packing writes zero.
        w.write_u32(0);
        current_offset = current_offset + file_size;
        proof {
            lemma_enc_snoc(dv.take(i as int), dv[i as int], 4 + table_size(dv));
            assert(w.data() =~= le32_bytes(n as u32) + table_enc(
                dv.take(i + 1),
                4 + table_size(dv),
            ));
        }
        i = i + 1;
    }
    proof {
        assert(dv.take(n as int) =~= dv);
    }

    // The contents, in table order.
    let mut i: usize = 0;
    while i < n
        invariant
            i <= n,
            n == dv.len(),
            dv == entries.deep_view(),
            entries_wf(dv),
            w.data() == le32_bytes(n as u32) + table_enc(dv, 4 + table_size(dv)) + bodies_enc(
                dv.take(i as int),
            ),
        decreases n - i,
    {
        proof {
            lemma_enc_snoc(dv.take(i as int), dv[i as int], 0);
            assert(dv.take(i as int).push(dv[i as int]) =~= dv.take(i + 1));
        }
        w.write_bytes(entries[i].data.as_slice());
        proof {
            assert(entries[i as int].data.deep_view() =~= entries[i as int].data@);
            assert(w.data() =~= le32_bytes(n as u32) + table_enc(dv, 4 + table_size(dv))
                + bodies_enc(dv.take(i + 1)));
        }
        i = i + 1;
    }
    proof {
        assert(dv.take(n as int) =~= dv);
    }
    w.finish()
}

/// Relies on str::from_utf8: it succeeds exactly on valid UTF-8 input.
#[verifier::external_body]
fn utf8_valid(b: &[u8]) -> (r: bool)
    ensures
        r == valid_utf8(b@),
{
    core::str::from_utf8(b).is_ok()
}

/// What one table record decodes to at position `pos` of archive `a`: the
/// deciphered path and the contents at the recorded offset, plus the position
/// after the record.
pub open spec fn arch_entry_dec(a: Seq<u8>, pos: int) -> Result<
    (ArchiveEntryModel, int),
    DecodeError,
> {
    let b = a.skip(pos);
    if b.len() < 4 {
        Err(DecodeError::Truncated)
    } else {
        let plen = u32_from_le(b[0], b[1], b[2], b[3]) as int;
        if b.len() < 4 + plen {
            Err(DecodeError::Truncated)
        } else {
            let dpath = crypt_bytes(b.subrange(4, 4 + plen));
            if !valid_utf8(dpath) {
                Err(DecodeError::InvalidUtf8)
            } else if b.len() < 4 + plen + 13 {
                Err(DecodeError::Truncated)
            } else {
                let t = 4 + plen + 1;
                let offset = u32_from_le(b[t], b[t + 1], b[t + 2], b[t + 3]) as int;
                let size = u32_from_le(b[t + 4], b[t + 5], b[t + 6], b[t + 7]) as int;
                if offset + size > a.len() {
                    Err(DecodeError::OutOfBounds)
                } else {
                    Ok(
                        (
                            ArchiveEntryModel {
                                path: dpath,
                                data: a.subrange(offset, offset + size),
                            },
                            pos + 4 + plen + 13,
                        ),
                    )
                }
            }
        }
    }
}

/// What `count` consecutive table records decode to, with the position after
/// the last one.
pub open spec fn arch_dec_n(a: Seq<u8>, pos: int, count: int) -> Result<
    (Seq<ArchiveEntryModel>, int),
    DecodeError,
>
    decreases count,
{
    if count <= 0 {
        Ok((Seq::<ArchiveEntryModel>::empty(), pos))
    } else {
        match arch_entry_dec(a, pos) {
            Err(e) => Err(e),
            Ok((e0, pos2)) => match arch_dec_n(a, pos2, count - 1) {
                Err(e) => Err(e),
                Ok((es, pend)) => Ok((seq![e0] + es, pend)),
            },
        }
    }
}

/// What a whole archive decodes to: the file count, then that many entries.
pub open spec fn arch_dec(a: Seq<u8>) -> Result<Seq<ArchiveEntryModel>, DecodeError> {
    if a.len() < 4 {
        Err(DecodeError::Truncated)
    } else {
        match arch_dec_n(a, 4, u32_from_le(a[0], a[1], a[2], a[3]) as int) {
            Ok((es, _)) => Ok(es),
            Err(e) => Err(e),
        }
    }
}

/// Unpacks an archive: reads the table, deciphers each path, and extracts
/// each entry's contents from its recorded offset and size.  Fails for an
/// entry whose offset plus size exceeds the archive length.
pub fn unpack_archive(archive: &[u8]) -> (res: Result<Vec<ArchiveEntry>, DecodeError>)
    ensures
        match arch_dec(archive@) {
            Ok(ms) => res matches Ok(es) && es.deep_view() == ms,
            Err(e) => res == Err::<Vec<ArchiveEntry>, DecodeError>(e),
        },
{
    let ghost a = archive@;
    let mut reader = BufferReader::new(archive);
    let file_count = reader.read_u32()?;
    let count = file_count as usize;
    let mut out: Vec<ArchiveEntry> = Vec::new();
    assert(out.deep_view() =~= Seq::<ArchiveEntryModel>::empty());
    let mut i: usize = 0;
    while i < count
        invariant
            i <= count,
            a == archive@,
            a.len() >= 4,
            reader.data() == a,
            0 <= reader.pos() <= a.len(),
            out.deep_view().len() == i,
            match arch_dec_n(a, reader.pos(), (count - i) as int) {
                Ok((ms, pend)) => arch_dec_n(a, 4, count as int) == Ok::<
                    (Seq<ArchiveEntryModel>, int),
                    DecodeError,
                >((out.deep_view() + ms, pend)),
                Err(e) => arch_dec_n(a, 4, count as int) == Err::<
                    (Seq<ArchiveEntryModel>, int),
                    DecodeError,
                >(e),
            },
            arch_dec(a) == (match arch_dec_n(a, 4, count as int) {
                Ok((es, _)) => Ok::<Seq<ArchiveEntryModel>, DecodeError>(es),
                Err(e) => Err::<Seq<ArchiveEntryModel>, DecodeError>(e),
            }),
        decreases count - i,
    {
        let ghost p0 = reader.pos();
        let ghost b = a.skip(p0);
        let path_len = reader.read_u32()? as usize;
        let encrypted_path = reader.read_bytes(path_len)?;
        proof {
            assert(encrypted_path@ =~= b.subrange(4, 4 + path_len as int));
        }
        let decrypted_path = decrypt_file_path(encrypted_path);
        if !utf8_valid(decrypted_path.as_slice()) {
            return Err(DecodeError::InvalidUtf8);
        }
        if reader.remaining() < 13 {
            return Err(DecodeError::Truncated);
        }
        reader.skip(1);
        let offset = reader.read_u32()?;
        let size = reader.read_u32()?;
        let _unknown = reader.read_u32()?;
        proof {
            let t = 4 + path_len as int + 1;
            assert(b[t] == a[p0 + t]);
            assert(offset == u32_from_le(b[t], b[t + 1], b[t + 2], b[t + 3]));
            assert(size == u32_from_le(b[t + 4], b[t + 5], b[t + 6], b[t + 7]));
        }
        if (offset as u64) + (size as u64) > archive.len() as u64 {
            return Err(DecodeError::OutOfBounds);
        }
        let data: Vec<u8> = vstd::slice::slice_to_vec(
            vstd::slice::slice_subrange(archive, offset as usize, offset as usize + size as usize),
        );
        let ghost m = ArchiveEntryModel {
            path: crypt_bytes(b.subrange(4, 4 + path_len as int)),
            data: a.subrange(offset as int, offset as int + size as int),
        };
        proof {
            assert(arch_entry_dec(a, p0) == Ok::<(ArchiveEntryModel, int), DecodeError>(
                (m, p0 + 4 + path_len + 13),
            ));
        }
        let ghost out0 = out.deep_view();
        out.push(ArchiveEntry { path: decrypted_path, data });
        proof {
            assert(decrypted_path.deep_view() =~= decrypted_path@);
            assert(data.deep_view() =~= data@);
            assert(out.deep_view() =~= out0 + seq![m]);
            assert(reader.pos() == p0 + 4 + path_len + 13);
            match arch_dec_n(a, reader.pos(), (count - i - 1) as int) {
                Ok((ms2, pend)) => {
                    assert(arch_dec_n(a, p0, (count - i) as int) == Ok::<
                        (Seq<ArchiveEntryModel>, int),
                        DecodeError,
                    >((seq![m] + ms2, pend)));
                    assert(out0 + (seq![m] + ms2) =~= out.deep_view() + ms2);
                },
                Err(_) => {},
            }
        }
        i = i + 1;
    }
    proof {
        assert(out.deep_view() + Seq::<ArchiveEntryModel>::empty() =~= out.deep_view());
    }
    Ok(out)
}

/// Decoding the table and contents that packing laid out yields the entries
/// back: the generalized step of the archive round trip.
proof fn lemma_unpack_table(a: Seq<u8>, es: Seq<ArchiveEntryModel>, pos: int, off: int)
    requires
        forall|i: int| 0 <= i < es.len() ==> entry_wf(#[trigger] es[i]),
        0 <= pos,
        0 <= off <= u32::MAX,
        pos + table_size(es) <= a.len(),
        a.subrange(pos, pos + table_size(es)) == table_enc(es, off),
        off + total_data(es) <= a.len(),
        off + total_data(es) <= u32::MAX,
        a.subrange(off, off + total_data(es)) == bodies_enc(es),
    ensures
        arch_dec_n(a, pos, es.len() as int) == Ok::<(Seq<ArchiveEntryModel>, int), DecodeError>(
            (es, pos + table_size(es)),
        ),
    decreases es.len(),
{
    lemma_sums_nonneg(es);
    if es.len() == 0 {
        assert(es =~= Seq::<ArchiveEntryModel>::empty());
    } else {
        let e = es[0];
        let tail = es.drop_first();
        lemma_sums_nonneg(tail);
        let elen = entry_table_len(e);
        let plen = e.path.len() as int;
        let eenc = entry_table_enc(e, off);
        lemma_enc_lens(tail, off + e.data.len() as int);
        assert(eenc.len() == elen) by {
            assert(crypt_bytes(e.path).len() == plen);
        }
        let b = a.skip(pos);
        assert(b.len() >= table_size(es));
        assert forall|k: int| 0 <= k < elen implies b[k] == eenc[k] by {
            assert(b[k] == a[pos + k]);
            assert(a[pos + k] == a.subrange(pos, pos + table_size(es))[k]);
            assert(table_enc(es, off)[k] == eenc[k]);
        }
        // The length field.
        assert(b[0] == ((((plen as u32) & 0xff) as u8)));
        assert(b[1] == (((((plen as u32) >> 8) & 0xff) as u8)));
        assert(b[2] == (((((plen as u32) >> 16) & 0xff) as u8)));
        assert(b[3] == (((((plen as u32) >> 24) & 0xff) as u8)));
        crate::buffer::lemma_le32_roundtrip(plen as u32);
        assert(u32_from_le(b[0], b[1], b[2], b[3]) as int == plen);
        // The obfuscated path deciphers to the path.
        assert(b.subrange(4, 4 + plen) =~= crypt_bytes(e.path));
        lemma_cipher_involution(e.path);
        assert(crypt_bytes(b.subrange(4, 4 + plen)) == e.path);
        // The offset and size fields.
        let t = 4 + plen + 1;
        assert(b[t] == eenc[t] && b[t + 1] == eenc[t + 1] && b[t + 2] == eenc[t + 2] && b[t + 3]
            == eenc[t + 3]);
        assert(b[t] == (((off as u32) & 0xff) as u8));
        assert(b[t + 1] == ((((off as u32) >> 8) & 0xff) as u8));
        assert(b[t + 2] == ((((off as u32) >> 16) & 0xff) as u8));
        assert(b[t + 3] == ((((off as u32) >> 24) & 0xff) as u8));
        crate::buffer::lemma_le32_roundtrip(off as u32);
        assert(u32_from_le(b[t], b[t + 1], b[t + 2], b[t + 3]) as int == off);
        let dlen = e.data.len() as int;
        assert(b[t + 4] == eenc[t + 4] && b[t + 5] == eenc[t + 5] && b[t + 6] == eenc[t + 6] && b[
            t + 7
        ] == eenc[t + 7]);
        assert(b[t + 4] == (((dlen as u32) & 0xff) as u8));
        assert(b[t + 5] == ((((dlen as u32) >> 8) & 0xff) as u8));
        assert(b[t + 6] == ((((dlen as u32) >> 16) & 0xff) as u8));
        assert(b[t + 7] == ((((dlen as u32) >> 24) & 0xff) as u8));
        crate::buffer::lemma_le32_roundtrip(dlen as u32);
        assert(u32_from_le(b[t + 4], b[t + 5], b[t + 6], b[t + 7]) as int == dlen);
        // The contents at the recorded offset.
        assert(a.subrange(off, off + dlen) =~= e.data) by {
            assert forall|k: int| 0 <= k < dlen implies a[off + k] == e.data[k] by {
                assert(a[off + k] == a.subrange(off, off + total_data(es))[k]);
                assert(bodies_enc(es)[k] == e.data[k]);
            }
        }
        assert(arch_entry_dec(a, pos) == Ok::<(ArchiveEntryModel, int), DecodeError>(
            (e, pos + elen),
        ));
        // The rest of the table and contents.
        let pos2 = pos + elen;
        let off2 = off + dlen;
        assert(a.subrange(pos2, pos2 + table_size(tail)) =~= table_enc(tail, off2)) by {
            assert forall|k: int| 0 <= k < table_size(tail) implies a[pos2 + k] == table_enc(
                tail,
                off2,
            )[k] by {
                assert(a[pos2 + k] == a.subrange(pos, pos + table_size(es))[elen + k]);
                assert(table_enc(es, off)[elen + k] == table_enc(tail, off2)[k]);
            }
        }
        assert(a.subrange(off2, off2 + total_data(tail)) =~= bodies_enc(tail)) by {
            assert forall|k: int| 0 <= k < total_data(tail) implies a[off2 + k] == bodies_enc(
                tail,
            )[k] by {
                assert(a[off2 + k] == a.subrange(off, off + total_data(es))[dlen + k]);
                assert(bodies_enc(es)[dlen + k] == bodies_enc(tail)[k]);
            }
        }
        lemma_unpack_table(a, tail, pos2, off2);
        assert(seq![e] + tail =~= es);
    }
}

/// Archive round trip: unpacking a freshly packed archive yields every
/// entry back, with its path and contents intact.
pub proof fn lemma_archive_round_trip(es: Seq<ArchiveEntryModel>)
    requires
        entries_wf(es),
    ensures
        arch_dec(archive_enc(es)) == Ok::<Seq<ArchiveEntryModel>, DecodeError>(es),
{
    let a = archive_enc(es);
    let ts = table_size(es);
    lemma_sums_nonneg(es);
    lemma_enc_lens(es, 4 + ts);
    assert(a.len() == 4 + ts + total_data(es));
    let c = es.len() as u32;
    assert(a[0] == ((c & 0xff) as u8));
    assert(a[1] == (((c >> 8) & 0xff) as u8));
    assert(a[2] == (((c >> 16) & 0xff) as u8));
    assert(a[3] == (((c >> 24) & 0xff) as u8));
    crate::buffer::lemma_le32_roundtrip(c);
    assert(a.subrange(4, 4 + ts) =~= table_enc(es, 4 + ts));
    assert(a.subrange(4 + ts, 4 + ts + total_data(es)) =~= bodies_enc(es));
    lemma_unpack_table(a, es, 4, 4 + ts);
}


} // verus!
