use divine_tools::types::{Format, FormatType, Payload};
use divine_tools::DecodeError;

fn le32(v: u32) -> [u8; 4] {
    v.to_le_bytes()
}

fn info_bytes() -> Vec<u8> {
    let mut b = Vec::new();
    for v in [1u32, 2, 3, 40, 50, 6, 7, 8] {
        b.extend_from_slice(&le32(v));
    }
    b
}

#[test]
fn resolution_by_exact_name() {
    // A file literally named sound.cfg always resolves to the SoundConfig
    // schema, whatever directory it sat in.
    assert_eq!(
        FormatType::from_file_name("sound.cfg"),
        Ok(FormatType::SoundConfig)
    );
    assert_eq!(
        FormatType::from_file_name("music.dat"),
        Ok(FormatType::Music)
    );
    assert_eq!(
        FormatType::from_file_name("usernotes.bin"),
        Ok(FormatType::Notes)
    );
    assert_eq!(
        FormatType::from_file_name("mapflags.000"),
        Ok(FormatType::Notes)
    );
    assert_eq!(
        FormatType::from_file_name("quest_log.000"),
        Ok(FormatType::QuestLog)
    );
}

#[test]
fn resolution_by_extension() {
    assert_eq!(
        FormatType::from_file_name("whatever.fnt"),
        Ok(FormatType::Font)
    );
}

#[test]
fn resolution_by_stem() {
    assert_eq!(
        FormatType::from_file_name("shroud.x3"),
        Ok(FormatType::Shroud)
    );
}

#[test]
fn resolution_by_world_stem() {
    assert_eq!(
        FormatType::from_file_name("world.x2"),
        Ok(FormatType::World)
    );
}

#[test]
fn resolution_unknown() {
    assert_eq!(
        FormatType::from_file_name("mystery.bin"),
        Err(DecodeError::UnknownFormat)
    );
    // A name without any extension matches no rule.
    assert_eq!(
        FormatType::from_file_name("shroud"),
        Err(DecodeError::UnknownFormat)
    );
    assert_eq!(
        FormatType::from_file_name(".fnt"),
        Err(DecodeError::UnknownFormat)
    );
}

#[test]
fn open_and_save_round_trip() {
    let bytes = info_bytes();
    let doc = Format::from_named_bytes("info.000", &bytes).unwrap();
    assert_eq!(doc.format_type, FormatType::Info);
    assert_eq!(doc.file_name.as_deref(), Some("info.000"));
    assert!(doc.path.is_none());
    assert_eq!(doc.save(), bytes);
}

#[test]
fn trailing_bytes_are_rejected() {
    let mut bytes = info_bytes();
    bytes.push(0);
    assert!(matches!(
        Format::from_named_bytes("info.000", &bytes),
        Err(DecodeError::TrailingData)
    ));
}

#[test]
fn truncated_file_is_rejected() {
    let bytes = vec![1, 2, 3];
    assert!(matches!(
        Format::from_named_bytes("info.000", &bytes),
        Err(DecodeError::Truncated)
    ));
}

#[test]
fn export_import_round_trip() {
    let bytes = info_bytes();
    let doc = Format::from_named_bytes("info.000", &bytes).unwrap();
    let exported = doc.export();
    assert_eq!(exported.format_type, "Info");
    let imported = Format::import(exported).unwrap();
    assert_eq!(imported.format_type, FormatType::Info);
    assert!(imported.path.is_none());
    assert!(imported.file_name.is_none());
    // Re-encoding the imported document yields the same bytes as saving the
    // original would have.
    assert_eq!(imported.save(), bytes);
}

#[test]
fn import_unknown_tag_fails() {
    let bytes = info_bytes();
    let doc = Format::from_named_bytes("info.000", &bytes).unwrap();
    let mut exported = doc.export();
    exported.format_type = String::from("Mystery");
    assert!(matches!(
        Format::import(exported),
        Err(DecodeError::UnknownTag)
    ));
}

#[test]
fn import_mismatched_tag_fails() {
    let bytes = info_bytes();
    let doc = Format::from_named_bytes("info.000", &bytes).unwrap();
    let mut exported = doc.export();
    exported.format_type = String::from("Magic");
    assert!(matches!(
        Format::import(exported),
        Err(DecodeError::Malformed)
    ));
}

#[test]
fn payload_kind_matches_tag() {
    let bytes = info_bytes();
    let doc = Format::from_named_bytes("info.000", &bytes).unwrap();
    assert_eq!(doc.binary.kind(), FormatType::Info);
    assert!(matches!(doc.binary, Payload::Info(_)));
}
