use fr_engine::hfs::{
    parse_volume_header, scan_deleted_candidates, VolumeHeaderParseError,
    HFS_BLOCK_SIZE_OFFSET, HFS_FILE_COUNT_OFFSET, HFS_FOLDER_COUNT_OFFSET,
    HFS_SIGNATURE_HPLUS, HFS_SIGNATURE_OFFSET, HFS_TOMBSTONE_HEADER_SIZE, HFS_TOMBSTONE_MARKER,
    HFS_TOMBSTONE_NAME_CAPACITY, HFS_TOMBSTONE_RECORD_SIZE, HFS_TOTAL_BLOCKS_OFFSET,
    HFS_VERSION_OFFSET,
};

#[test]
fn parses_valid_hfs_volume_header() {
    let image = build_test_hfs_image();
    let header = parse_volume_header(&image).expect("parse hfs header");

    assert_eq!(header.signature, HFS_SIGNATURE_HPLUS);
    assert_eq!(header.version, 4);
    assert_eq!(header.block_size_bytes, 4096);
    assert_eq!(header.total_blocks, 65_536);
    assert_eq!(header.file_count, 200);
    assert_eq!(header.folder_count, 80);
}

#[test]
fn rejects_invalid_hfs_signature() {
    let mut image = build_test_hfs_image();
    write_u16_be(&mut image, HFS_SIGNATURE_OFFSET, 0x4A4A);

    let error = parse_volume_header(&image).unwrap_err();
    assert!(matches!(
        error,
        VolumeHeaderParseError::InvalidSignature(0x4A4A)
    ));
}

#[test]
fn rejects_invalid_hfs_block_size() {
    let mut image = build_test_hfs_image();
    write_u32_be(&mut image, HFS_BLOCK_SIZE_OFFSET, 1234);

    let error = parse_volume_header(&image).unwrap_err();
    assert!(matches!(
        error,
        VolumeHeaderParseError::InvalidBlockSize(1234)
    ));
}

#[test]
fn extracts_deleted_hfs_tombstone_candidate() {
    let mut image = build_test_hfs_image();
    let record =
        build_tombstone_record(77, 12_288, false, "invoice.pages", r"archive\invoice.pages");
    image[4096..4096 + record.len()].copy_from_slice(&record);

    let (_, candidates) = scan_deleted_candidates(&image, 16).expect("scan hfs");
    assert_eq!(candidates.len(), 1);
    assert_eq!(candidates[0].cnid, 77);
    assert_eq!(candidates[0].name, "invoice.pages");
    assert_eq!(candidates[0].path, r".\archive\invoice.pages");
    assert_eq!(candidates[0].size_bytes, 12_288);
}

#[test]
fn ignores_tombstone_with_empty_name() {
    let mut image = build_test_hfs_image();
    let mut record = build_tombstone_record(88, 100, false, "draft.txt", r"draft.txt");
    record[21] = 0;
    image[4096..4096 + record.len()].copy_from_slice(&record);

    let (_, candidates) = scan_deleted_candidates(&image, 16).expect("scan hfs");
    assert!(candidates.is_empty());
}

fn build_test_hfs_image() -> Vec<u8> {
    let mut image = vec![0u8; 1024 * 64];
    write_u16_be(&mut image, HFS_SIGNATURE_OFFSET, HFS_SIGNATURE_HPLUS);
    write_u16_be(&mut image, HFS_VERSION_OFFSET, 4);
    write_u32_be(&mut image, HFS_FILE_COUNT_OFFSET, 200);
    write_u32_be(&mut image, HFS_FOLDER_COUNT_OFFSET, 80);
    write_u32_be(&mut image, HFS_BLOCK_SIZE_OFFSET, 4096);
    write_u32_be(&mut image, HFS_TOTAL_BLOCKS_OFFSET, 65_536);
    image
}

fn build_tombstone_record(
    cnid: u32,
    size: u64,
    is_directory: bool,
    name: &str,
    path: &str,
) -> Vec<u8> {
    let mut record = vec![0u8; HFS_TOMBSTONE_RECORD_SIZE];
    record[..8].copy_from_slice(&HFS_TOMBSTONE_MARKER);
    write_u32_le(&mut record, 8, cnid);
    write_u64_le(&mut record, 12, size);
    record[20] = if is_directory { 0x01 } else { 0x00 };

    let name_bytes = name.as_bytes();
    let path_bytes = path.as_bytes();
    record[21] = name_bytes.len() as u8;
    record[22] = path_bytes.len() as u8;

    let name_start = HFS_TOMBSTONE_HEADER_SIZE;
    let path_start = name_start + HFS_TOMBSTONE_NAME_CAPACITY;
    record[name_start..name_start + name_bytes.len()].copy_from_slice(name_bytes);
    record[path_start..path_start + path_bytes.len()].copy_from_slice(path_bytes);

    record
}

fn write_u16_be(bytes: &mut [u8], offset: usize, value: u16) {
    bytes[offset..offset + 2].copy_from_slice(&value.to_be_bytes());
}

fn write_u32_be(bytes: &mut [u8], offset: usize, value: u32) {
    bytes[offset..offset + 4].copy_from_slice(&value.to_be_bytes());
}

fn write_u32_le(bytes: &mut [u8], offset: usize, value: u32) {
    bytes[offset..offset + 4].copy_from_slice(&value.to_le_bytes());
}

fn write_u64_le(bytes: &mut [u8], offset: usize, value: u64) {
    bytes[offset..offset + 8].copy_from_slice(&value.to_le_bytes());
}
