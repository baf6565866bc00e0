use divine_tools::types::packed::{
    decrypt_file_path, encrypt_file_path, pack_archive, unpack_archive, ArchiveEntry,
};

#[test]
fn cipher_is_an_involution() {
    let p = b"a\\x.txt".to_vec();
    let encrypted = encrypt_file_path(&p);
    // The stored form ends with a plain terminator.
    assert_eq!(*encrypted.last().unwrap(), 0);
    let decrypted = decrypt_file_path(&encrypted[..encrypted.len() - 1]);
    assert_eq!(decrypted, p);
}

#[test]
fn cipher_obfuscates() {
    let p = b"music.dat".to_vec();
    let encrypted = encrypt_file_path(&p);
    assert_ne!(&encrypted[..p.len()], &p[..]);
}

#[test]
fn archive_round_trip() {
    let entries = vec![
        ArchiveEntry {
            path: b"a\\x.txt".to_vec(),
            data: b"hello".to_vec(),
        },
        ArchiveEntry {
            path: b"b.txt".to_vec(),
            data: b"world".to_vec(),
        },
    ];
    let archive = pack_archive(&entries);
    // The file count field equals the number of files.
    assert_eq!(&archive[0..4], &[2, 0, 0, 0]);
    let back = unpack_archive(&archive).unwrap();
    assert_eq!(back.len(), 2);
    assert_eq!(back[0].path, b"a\\x.txt".to_vec());
    assert_eq!(back[0].data, b"hello".to_vec());
    assert_eq!(back[1].path, b"b.txt".to_vec());
    assert_eq!(back[1].data, b"world".to_vec());
}

#[test]
fn archive_layout() {
    let entries = vec![ArchiveEntry {
        path: b"f".to_vec(),
        data: b"xyz".to_vec(),
    }];
    let archive = pack_archive(&entries);
    // Header, then one record: length field (path bytes before the
    // terminator), the obfuscated path and terminator, offset, size, and the
    // reserved field, then the contents.
    let table_len = 4 + (4 + 2 + 4 + 4 + 4);
    assert_eq!(archive.len(), table_len + 3);
    assert_eq!(&archive[0..4], &[1, 0, 0, 0]);
    assert_eq!(&archive[4..8], &[1, 0, 0, 0]);
    let offset = u32::from_le_bytes(archive[10..14].try_into().unwrap()) as usize;
    let size = u32::from_le_bytes(archive[14..18].try_into().unwrap()) as usize;
    assert_eq!(offset, table_len);
    assert_eq!(size, 3);
    assert_eq!(&archive[offset..offset + size], b"xyz");
}

#[test]
fn unpack_rejects_out_of_bounds_entry() {
    let entries = vec![ArchiveEntry {
        path: b"f".to_vec(),
        data: b"xyz".to_vec(),
    }];
    let mut archive = pack_archive(&entries);
    // Corrupt the size field so that offset + size exceeds the archive.
    archive[14] = 0xFF;
    assert!(matches!(
        unpack_archive(&archive),
        Err(divine_tools::DecodeError::OutOfBounds)
    ));
}

#[test]
fn unpack_rejects_truncated_table() {
    let archive = vec![1, 0, 0, 0, 5, 0];
    assert!(matches!(
        unpack_archive(&archive),
        Err(divine_tools::DecodeError::Truncated)
    ));
}
