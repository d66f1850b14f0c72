use fr_engine::apfs::{
    parse_container_superblock, scan_deleted_candidates, ContainerParseError,
    APFS_BLOCK_COUNT_OFFSET, APFS_BLOCK_SIZE_OFFSET, APFS_CONTAINER_OID_OFFSET,
    APFS_FEATURES_OFFSET, APFS_INCOMPAT_FEATURES_OFFSET, APFS_MAGIC_NXSB, APFS_MAGIC_OFFSET,
    APFS_TOMBSTONE_HEADER_SIZE, APFS_TOMBSTONE_MARKER, APFS_TOMBSTONE_NAME_CAPACITY,
    APFS_TOMBSTONE_RECORD_SIZE,
};

#[test]
fn parses_valid_apfs_container_superblock() {
    let image = build_test_apfs_image();
    let container = parse_container_superblock(&image).expect("parse apfs container");

    assert_eq!(container.container_object_id, 99);
    assert_eq!(container.block_size_bytes, 4096);
    assert_eq!(container.block_count, 32_768);
    assert_eq!(container.features, 0x10);
    assert_eq!(container.incompat_features, 0x20);
}

#[test]
fn rejects_invalid_apfs_magic() {
    let mut image = build_test_apfs_image();
    write_u32(&mut image, APFS_MAGIC_OFFSET, 0x1234_5678);

    let error = parse_container_superblock(&image).unwrap_err();
    assert!(matches!(error, ContainerParseError::InvalidMagic(0x1234_5678)));
}

#[test]
fn rejects_invalid_block_size() {
    let mut image = build_test_apfs_image();
    write_u32(&mut image, APFS_BLOCK_SIZE_OFFSET, 3000);

    let error = parse_container_superblock(&image).unwrap_err();
    assert!(matches!(error, ContainerParseError::InvalidBlockSize(3000)));
}

#[test]
fn extracts_deleted_tombstone_candidate() {
    let mut image = build_test_apfs_image();
    let record = build_tombstone_record(2048, 16_384, true, "presentation.key", r"projects\presentation.key");
    image[8192..8192 + record.len()].copy_from_slice(&record);

    let (_, candidates) = scan_deleted_candidates(&image, 16).expect("scan apfs");
    assert_eq!(candidates.len(), 1);
    assert_eq!(candidates[0].cnid, 2048);
    assert_eq!(candidates[0].name, "presentation.key");
    assert_eq!(candidates[0].path, r".\projects\presentation.key");
    assert!(candidates[0].is_directory);
}

#[test]
fn ignores_tombstone_with_invalid_name_length() {
    let mut image = build_test_apfs_image();
    let mut record = build_tombstone_record(5, 512, false, "a.txt", r"docs\a.txt");
    record[25] = 0;
    image[8192..8192 + record.len()].copy_from_slice(&record);

    let (_, candidates) = scan_deleted_candidates(&image, 16).expect("scan apfs");
    assert!(candidates.is_empty());
}

fn build_test_apfs_image() -> Vec<u8> {
    let mut image = vec![0u8; 1024 * 64];
    write_u64(&mut image, APFS_CONTAINER_OID_OFFSET, 99);
    write_u32(&mut image, APFS_MAGIC_OFFSET, APFS_MAGIC_NXSB);
    write_u32(&mut image, APFS_BLOCK_SIZE_OFFSET, 4096);
    write_u64(&mut image, APFS_BLOCK_COUNT_OFFSET, 32_768);
    write_u64(&mut image, APFS_FEATURES_OFFSET, 0x10);
    write_u64(&mut image, APFS_INCOMPAT_FEATURES_OFFSET, 0x20);
    image
}

fn build_tombstone_record(cnid: u64, size: u64, is_directory: bool, name: &str, path: &str) -> Vec<u8> {
    let mut record = vec![0u8; APFS_TOMBSTONE_RECORD_SIZE];
    record[..8].copy_from_slice(&APFS_TOMBSTONE_MARKER);
    write_u64(&mut record, 8, cnid);
    write_u64(&mut record, 16, size);
    record[24] = if is_directory { 0x01 } else { 0x00 };

    let name_bytes = name.as_bytes();
    let path_bytes = path.as_bytes();
    record[25] = name_bytes.len() as u8;
    record[26] = path_bytes.len() as u8;

    let name_start = APFS_TOMBSTONE_HEADER_SIZE;
    let path_start = name_start + APFS_TOMBSTONE_NAME_CAPACITY;
    record[name_start..name_start + name_bytes.len()].copy_from_slice(name_bytes);
    record[path_start..path_start + path_bytes.len()].copy_from_slice(path_bytes);
    record
}

fn write_u32(bytes: &mut [u8], offset: usize, value: u32) {
    bytes[offset..offset + 4].copy_from_slice(&value.to_le_bytes());
}

fn write_u64(bytes: &mut [u8], offset: usize, value: u64) {
    bytes[offset..offset + 8].copy_from_slice(&value.to_le_bytes());
}
