use haforu::fontfile::{collection_face_offset, count_collection_fonts};
use haforu::FontType;

#[test]
fn test_font_type_detection() {
    assert_eq!(FontType::from_data(b"\x00\x01\x00\x00"), Some(FontType::TrueType));
    assert_eq!(FontType::from_data(b"OTTO"), Some(FontType::OpenType));
    assert_eq!(FontType::from_data(b"ttcf"), Some(FontType::TrueTypeCollection));
    assert_eq!(FontType::from_data(b"wOFF"), Some(FontType::WOFF));
    assert_eq!(FontType::from_data(b"wOF2"), Some(FontType::WOFF2));
    assert_eq!(FontType::from_data(b"INVALID"), None);
    assert_eq!(FontType::from_data(b""), None);
}

#[test]
fn test_font_type_is_collection() {
    assert!(FontType::TrueTypeCollection.is_collection());
    assert!(FontType::OpenTypeCollection.is_collection());
    assert!(!FontType::TrueType.is_collection());
    assert!(!FontType::OpenType.is_collection());
    assert!(!FontType::WOFF.is_collection());
}

#[test]
fn collection_count_reads_big_endian_word() {
    let mut header = Vec::new();
    header.extend_from_slice(b"ttcf");
    header.extend_from_slice(&[0, 1, 0, 0]); // version
    header.extend_from_slice(&[0, 0, 0, 3]); // numFonts
    assert_eq!(count_collection_fonts(&header).unwrap(), 3);

    let short = b"ttcf";
    assert!(count_collection_fonts(short).is_err());

    let mut zero = header.clone();
    zero[8..12].copy_from_slice(&[0, 0, 0, 0]);
    assert!(count_collection_fonts(&zero).is_err());
}

#[test]
fn collection_face_offsets_point_into_the_file() {
    let mut blob = Vec::new();
    blob.extend_from_slice(b"ttcf");
    blob.extend_from_slice(&[0, 1, 0, 0]); // version
    blob.extend_from_slice(&[0, 0, 0, 2]); // numFonts
    blob.extend_from_slice(&20u32.to_be_bytes()); // face 0 offset
    blob.extend_from_slice(&24u32.to_be_bytes()); // face 1 offset
    blob.extend_from_slice(&[0u8; 10]);
    assert_eq!(collection_face_offset(&blob, 0).unwrap(), 20);
    assert_eq!(collection_face_offset(&blob, 1).unwrap(), 24);
    // An entry beyond the buffer is rejected, as is an offset pointing
    // outside the file.
    assert!(collection_face_offset(&blob, 5).is_err());
    let mut bad = blob.clone();
    bad[12..16].copy_from_slice(&999u32.to_be_bytes());
    assert!(collection_face_offset(&bad, 0).is_err());
}
