use haforu::storage::{
    get_image_data, parse_index_entry, parse_shard_footer, push_index_entry, FOOTER_SIZE,
    INDEX_ENTRY_SIZE,
};
use haforu::{IndexEntry, ShardWriter};

#[test]
fn test_index_entry_size() {
    let entry = IndexEntry { offset: 7, len: 5, width: 100, height: 200, checksum: 0xDEADBEEF };
    let mut bytes = Vec::new();
    push_index_entry(&entry, &mut bytes);
    assert_eq!(bytes.len(), INDEX_ENTRY_SIZE);
    assert_eq!(INDEX_ENTRY_SIZE, 20);
}

#[test]
fn index_entry_round_trips() {
    let entry = IndexEntry {
        offset: 0x0102030405060708,
        len: 0xA1B2C3D4,
        width: 0x1122,
        height: 0x3344,
        checksum: 0x55667788,
    };
    let mut bytes = Vec::new();
    push_index_entry(&entry, &mut bytes);
    let back = parse_index_entry(&bytes, 0);
    assert_eq!(back, entry);
}

#[test]
fn shard_round_trips_an_image() {
    let mut writer = ShardWriter::new(9);
    let image = vec![42u8; 1000];
    let idx = writer.add_image(&image, 100, 10).unwrap();
    assert_eq!(idx, 0);
    let blob = writer.finalize();

    let (n_entries, index_offset, shard_id) = parse_shard_footer(&blob).unwrap();
    assert_eq!(n_entries, 1);
    assert_eq!(shard_id, 9);
    assert!(blob.len() >= FOOTER_SIZE);

    let entry = parse_index_entry(&blob, index_offset as usize);
    assert_eq!(entry.width, 100);
    assert_eq!(entry.height, 10);

    let recovered = get_image_data(&blob, &entry).unwrap();
    assert_eq!(recovered, image);

    // The stored payload really is a compressed frame with its checksum:
    // decoding it with the codec recovers the image, and the recorded
    // checksum matches an independently computed CRC-32 of the frame.
    let frame = &blob[entry.offset as usize..entry.offset as usize + entry.len as usize];
    assert_eq!(zstd::decode_all(frame).unwrap(), image);
    assert_eq!(entry.checksum, crc32fast::hash(frame));
    assert_ne!(frame, &image[..], "a thousand equal bytes must compress");
}

#[test]
fn shard_rotation_is_the_callers_choice() {
    let mut writer = ShardWriter::new(0);
    assert_eq!(writer.count(), 0);
    writer.add_image(&vec![1u8; 100], 10, 10).unwrap();
    writer.add_image(&vec![2u8; 100], 10, 10).unwrap();
    assert_eq!(writer.count(), 2);
}
