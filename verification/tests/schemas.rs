use divine_tools::types::{Format, FormatType};
use divine_tools::DecodeError;

fn le32(v: u32) -> [u8; 4] {
    v.to_le_bytes()
}

fn lp_string(s: &str) -> Vec<u8> {
    let mut b = Vec::new();
    b.extend_from_slice(&le32(s.len() as u32));
    b.extend_from_slice(s.as_bytes());
    b
}

fn open_save(name: &str, bytes: &[u8]) -> Vec<u8> {
    Format::from_named_bytes(name, bytes).unwrap().save()
}

#[test]
fn magic_round_trip() {
    let mut b = Vec::new();
    b.extend_from_slice(&le32(2));
    for spell in 0..2u32 {
        for field in 0..7u32 {
            b.extend_from_slice(&le32(spell * 100 + field));
        }
    }
    assert_eq!(open_save("magic.cmp", &b), b);
}

#[test]
fn telpstates_round_trip() {
    let mut b = Vec::new();
    b.extend_from_slice(&le32(1));
    b.extend_from_slice(&le32(77));
    b.extend_from_slice(&le32(88));
    assert_eq!(open_save("telpstates.000", &b), b);
}

#[test]
fn music_round_trip() {
    let mut b = Vec::new();
    // One music track, no ambient tracks, one region.
    b.extend_from_slice(&le32(1));
    b.extend_from_slice(&lp_string("Overture"));
    b.extend_from_slice(&lp_string("over.mp3"));
    b.extend_from_slice(&le32(5));
    b.extend_from_slice(&le32(0));
    b.extend_from_slice(&le32(1));
    b.extend_from_slice(&lp_string("Forest"));
    // Five fixed slots of region tracks; each slot is a dynamic array.
    b.extend_from_slice(&le32(1));
    b.extend_from_slice(&lp_string("birds"));
    b.extend_from_slice(&le32(0x3F800000)); // volume bits
    for _ in 0..4 {
        b.extend_from_slice(&le32(0));
    }
    b.extend_from_slice(&le32(9));
    assert_eq!(open_save("music.dat", &b), b);
}

#[test]
fn text_round_trip_with_terminators() {
    let mut b = Vec::new();
    b.extend_from_slice(&le32(1)); // one group
    b.extend_from_slice(&le32(42)); // group id
    b.extend_from_slice(&le32(2)); // two entries
    // Entry with non-empty texts: each is followed by a terminator byte.
    b.extend_from_slice(&le32(7));
    b.extend_from_slice(&lp_string("yes"));
    b.push(0);
    b.extend_from_slice(&lp_string("no"));
    b.push(0);
    // Entry with empty texts: no terminator bytes at all.
    b.extend_from_slice(&le32(8));
    b.extend_from_slice(&lp_string(""));
    b.extend_from_slice(&lp_string(""));
    assert_eq!(open_save("text.cmp", &b), b);
}

#[test]
fn usernotes_round_trip_recomputes_buffer_lengths() {
    let note = |text: &str| -> Vec<u8> {
        let mut n = Vec::new();
        n.extend_from_slice(&1i16.to_le_bytes());
        n.extend_from_slice(&(-2i16).to_le_bytes());
        n.extend_from_slice(&le32(0));
        n.extend_from_slice(&le32(1));
        n.extend_from_slice(&le32(7));
        n.extend_from_slice(&le32(0));
        n.extend_from_slice(&le32(text.len() as u32 + 1));
        n.extend_from_slice(text.as_bytes());
        n.push(0);
        n.extend_from_slice(&le32(0));
        n
    };
    let mut b = Vec::new();
    let n1 = note("mark");
    b.extend_from_slice(&le32(1));
    // The stored buffer length is the note's encoded span.
    b.extend_from_slice(&le32(n1.len() as u32));
    b.extend_from_slice(&n1);
    b.extend_from_slice(&le32(0));
    b.extend_from_slice(&le32(0));
    b.extend_from_slice(&le32(11));
    b.extend_from_slice(&le32(22));
    assert_eq!(open_save("usernotes.bin", &b), b);
}

#[test]
fn usernotes_buffer_length_is_ignored_on_decode() {
    let mut b = Vec::new();
    b.extend_from_slice(&le32(0));
    b.extend_from_slice(&le32(0xDEAD)); // junk buffer length
    b.extend_from_slice(&le32(0));
    b.extend_from_slice(&le32(0xBEEF)); // junk buffer length
    b.extend_from_slice(&le32(1));
    b.extend_from_slice(&le32(2));
    let saved = open_save("mapflags.000", &b);
    // Saving recomputes both buffer lengths as zero.
    let mut expect = Vec::new();
    expect.extend_from_slice(&le32(0));
    expect.extend_from_slice(&le32(0));
    expect.extend_from_slice(&le32(0));
    expect.extend_from_slice(&le32(0));
    expect.extend_from_slice(&le32(1));
    expect.extend_from_slice(&le32(2));
    assert_eq!(saved, expect);
}

#[test]
fn quest_log_round_trip() {
    let mut b = Vec::new();
    b.extend_from_slice(b"ML3ID\0");
    b.extend_from_slice(&le32(4)); // id
    b.push(1); // unknown0
    b.push(2); // status: failed
    b.extend_from_slice(&le32(0));
    for v in [3i32, 12, 30, 4, 13, 31] {
        b.extend_from_slice(&v.to_le_bytes());
    }
    assert_eq!(open_save("quest_log.000", &b), b);
}

#[test]
fn quest_log_invalid_status_fails() {
    let mut b = Vec::new();
    b.extend_from_slice(b"ML3ID\0");
    b.extend_from_slice(&le32(4));
    b.push(1);
    b.push(9); // no such status
    b.extend_from_slice(&le32(0));
    for _ in 0..6 {
        b.extend_from_slice(&le32(0));
    }
    assert!(matches!(
        Format::from_named_bytes("quest_log.000", &b),
        Err(DecodeError::Malformed)
    ));
}

#[test]
fn shroud_requires_exact_size() {
    let b = vec![0u8; 100];
    assert!(matches!(
        Format::from_named_bytes("shroud.x1", &b),
        Err(DecodeError::Malformed)
    ));
    let good = vec![7u8; 525826];
    let saved = open_save("shroud.x1", &good);
    assert_eq!(saved, good);
}

#[test]
fn objects_require_multiple_of_record_size() {
    let b = vec![0u8; 100];
    assert!(matches!(
        Format::from_named_bytes("objects.000", &b),
        Err(DecodeError::Malformed)
    ));
    // One 148-byte record: 8 words, a 16-byte name, an id, 24 words.
    let mut rec = Vec::new();
    for _ in 0..8 {
        rec.extend_from_slice(&le32(5));
    }
    rec.extend_from_slice(b"sword\0\0\0\0\0\0\0\0\0\0\0");
    rec.extend_from_slice(&le32(77));
    for _ in 0..24 {
        rec.extend_from_slice(&le32(6));
    }
    assert_eq!(rec.len(), 148);
    assert_eq!(open_save("objects.000", &rec), rec);
}

#[test]
fn quickinfo_round_trip() {
    let mut b = Vec::new();
    b.extend_from_slice(&le32(0));
    let mut name = b"Hero".to_vec();
    name.resize(64, 0);
    b.extend_from_slice(&name);
    b.extend_from_slice(&le32(2)); // width
    b.extend_from_slice(&le32(2)); // height
    let mut gv = b"1.0".to_vec();
    gv.resize(64, 0);
    b.extend_from_slice(&gv);
    let mut sv = b"save2".to_vec();
    sv.resize(64, 0);
    b.extend_from_slice(&sv);
    for px in [1u16, 2, 3, 4] {
        b.extend_from_slice(&px.to_le_bytes());
    }
    assert_eq!(open_save("quickinfo.000", &b), b);
}

#[test]
fn font_decode_zeroes_skipped_regions() {
    let mut b = Vec::new();
    b.extend_from_slice(&[9u8; 18]);
    b.extend_from_slice(&le32(1)); // one glyph
    b.extend_from_slice(&[0xAAu8; 1024]); // skipped on decode
    b.extend_from_slice(&[3u8; 20]);
    b.push(b'A');
    b.push(0);
    b.extend_from_slice(&le32(6)); // buffer length includes its own field
    b.extend_from_slice(&[0x55, 0x66]); // skipped pixel data
    b.push(0);
    let saved = open_save("glyphs.fnt", &b);
    // The skipped regions come back zeroed; everything kept round-trips.
    let mut expect = Vec::new();
    expect.extend_from_slice(&[9u8; 18]);
    expect.extend_from_slice(&le32(1));
    expect.extend_from_slice(&[0u8; 1024]);
    expect.extend_from_slice(&[3u8; 20]);
    expect.push(b'A');
    expect.push(0);
    expect.extend_from_slice(&le32(6));
    expect.extend_from_slice(&[0, 0]);
    expect.push(0);
    assert_eq!(saved, expect);
}

#[test]
fn sound_config_round_trip() {
    let mut b = Vec::new();
    for v in [0u32, 16, 1, 0x3F000000, 0x3F800000, 0x3E800000, 2, 0x3F400000] {
        b.extend_from_slice(&le32(v));
    }
    assert_eq!(open_save("sound.cfg", &b), b);
}

#[test]
fn eggs_and_persist_round_trip() {
    let mut b = Vec::new();
    b.extend_from_slice(&le32(1));
    for i in 0..23u32 {
        b.extend_from_slice(&le32(i));
    }
    assert_eq!(open_save("eggs.000", &b), b);

    let mut p = Vec::new();
    p.extend_from_slice(&le32(2));
    for i in 0..16u32 {
        p.extend_from_slice(&le32(i * 3));
    }
    assert_eq!(open_save("persist.dat", &p), p);
}

#[test]
fn reverbs_round_trip() {
    let mut b = Vec::new();
    b.extend_from_slice(&le32(1));
    b.extend_from_slice(&lp_string("cave"));
    for i in 0..13u32 {
        b.extend_from_slice(&le32(i + 100));
    }
    b.extend_from_slice(&le32(2));
    b.extend_from_slice(&lp_string("drip"));
    b.extend_from_slice(&lp_string("echo"));
    assert_eq!(open_save("reverbs.dat", &b), b);
}

#[test]
fn props_and_osiris_round_trips() {
    let mut b = Vec::new();
    b.extend_from_slice(&le32(1));
    b.extend_from_slice(&lp_string("barrel"));
    b.extend_from_slice(&le32(2));
    b.extend_from_slice(&le32(5));
    b.extend_from_slice(&le32(6));
    assert_eq!(open_save("props.000", &b), b);

    let mut o = Vec::new();
    o.extend_from_slice(&le32(1));
    o.extend_from_slice(&le32(3));
    o.extend_from_slice(&le32(4));
    o.extend_from_slice(&le32(1));
    assert_eq!(open_save("osiobjects.000", &o), o);

    let mut n = Vec::new();
    n.extend_from_slice(&le32(1));
    n.extend_from_slice(&le32(9));
    let mut nm = b"osiris".to_vec();
    nm.resize(32, 0);
    n.extend_from_slice(&nm);
    assert_eq!(open_save("osinames.000", &n), n);
}

#[test]
fn status_plate_and_info_round_trips() {
    let mut b = Vec::new();
    for i in 0..90u32 {
        b.extend_from_slice(&le32(i));
    }
    assert_eq!(open_save("statuspl.cmp", &b), b);

    let mut i = Vec::new();
    for v in 0..8u32 {
        i.extend_from_slice(&le32(v + 1));
    }
    assert_eq!(open_save("info.000", &i), i);
}

#[test]
fn world_round_trip_recomputes_offsets() {
    // Every cell is empty: 16 bytes each, 512 cells and a 1024-byte cell
    // offset table per row, 1024 rows behind a 4096-byte row offset table.
    let mut junk = Vec::new();
    let mut canonical = Vec::new();
    for y in 0..1024u32 {
        junk.extend_from_slice(&[0xAB; 4]);
        canonical.extend_from_slice(&le32(4096 + y * (1024 + 512 * 16)));
    }
    for _ in 0..1024u32 {
        for x in 0..512u16 {
            junk.extend_from_slice(&[0xCD; 2]);
            canonical.extend_from_slice(&(x * 16).to_le_bytes());
        }
        for _ in 0..512 {
            let mut cell = Vec::new();
            cell.extend_from_slice(&3i16.to_le_bytes());
            cell.extend_from_slice(&(-1i16).to_le_bytes());
            cell.extend_from_slice(&7u16.to_le_bytes());
            cell.push(0); // no extra records
            cell.push(9);
            cell.extend_from_slice(&le32(1));
            cell.extend_from_slice(&le32(2));
            junk.extend_from_slice(&cell);
            canonical.extend_from_slice(&cell);
        }
    }
    junk.extend_from_slice(&le32(77));
    canonical.extend_from_slice(&le32(77));
    // The junk offset tables are skipped on decode; saving recomputes them.
    let saved = open_save("world.x1", &junk);
    assert_eq!(saved, canonical);
    // A canonical file round-trips byte for byte.
    assert_eq!(open_save("world.x1", &canonical), canonical);
}
