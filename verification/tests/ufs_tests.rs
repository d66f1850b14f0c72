use fr_engine::ufs::{
    parse_superblock, scan_deleted_candidates, SuperblockParseError, UFS2_MAGIC,
    UFS_BLOCK_SIZE_OFFSET, UFS_FRAGMENT_SIZE_OFFSET, UFS_MAGIC_OFFSET, UFS_TOMBSTONE_HEADER_SIZE,
    UFS_TOMBSTONE_MARKER, UFS_TOMBSTONE_NAME_CAPACITY, UFS_TOMBSTONE_RECORD_SIZE,
    UFS_TOTAL_BLOCKS_OFFSET,
};

#[test]
fn parses_valid_ufs_superblock() {
    let image = build_test_ufs_image();
    let sb = parse_superblock(&image).expect("parse ufs");
    assert_eq!(sb.magic, UFS2_MAGIC);
    assert_eq!(sb.block_size_bytes, 4096);
    assert_eq!(sb.fragment_size_bytes, 1024);
    assert_eq!(sb.total_blocks, 262_144);
}

#[test]
fn rejects_invalid_magic() {
    let mut image = build_test_ufs_image();
    write_u32_le(&mut image, UFS_MAGIC_OFFSET, 0xDEAD_BEEF);

    let err = parse_superblock(&image).unwrap_err();
    assert!(matches!(
        err,
        SuperblockParseError::InvalidMagic(0xDEAD_BEEF)
    ));
}

#[test]
fn rejects_invalid_fragment_size() {
    let mut image = build_test_ufs_image();
    write_u32_le(&mut image, UFS_FRAGMENT_SIZE_OFFSET, 8192);

    let err = parse_superblock(&image).unwrap_err();
    assert!(matches!(
        err,
        SuperblockParseError::InvalidFragmentSize(8192)
    ));
}

#[test]
fn extracts_deleted_candidate_from_tombstone_record() {
    let mut image = build_test_ufs_image();
    let record = build_tombstone_record(120, 2048, false, "passwd.old", r"etc\passwd.old");
    let offset = 16 * 1024;
    image[offset..offset + record.len()].copy_from_slice(&record);

    let (_, candidates) = scan_deleted_candidates(&image, 8).expect("scan ufs");
    assert_eq!(candidates.len(), 1);
    assert_eq!(candidates[0].inode_number, 120);
    assert_eq!(candidates[0].name, "passwd.old");
    assert_eq!(candidates[0].path, r".\etc\passwd.old");
}

fn build_test_ufs_image() -> Vec<u8> {
    let mut image = vec![0u8; 128 * 1024];
    write_u32_le(&mut image, UFS_MAGIC_OFFSET, UFS2_MAGIC);
    write_u32_le(&mut image, UFS_BLOCK_SIZE_OFFSET, 4096);
    write_u32_le(&mut image, UFS_FRAGMENT_SIZE_OFFSET, 1024);
    write_u64_le(&mut image, UFS_TOTAL_BLOCKS_OFFSET, 262_144);
    image
}

fn build_tombstone_record(
    inode_number: u32,
    size_bytes: u64,
    is_directory: bool,
    name: &str,
    path: &str,
) -> Vec<u8> {
    let mut record = vec![0u8; UFS_TOMBSTONE_RECORD_SIZE];
    record[..8].copy_from_slice(&UFS_TOMBSTONE_MARKER);
    write_u32_le(&mut record, 8, inode_number);
    write_u64_le(&mut record, 12, size_bytes);
    record[20] = if is_directory { 1 } else { 0 };
    record[21] = name.len() as u8;
    record[22] = path.len() as u8;

    let name_start = UFS_TOMBSTONE_HEADER_SIZE;
    let path_start = name_start + UFS_TOMBSTONE_NAME_CAPACITY;
    record[name_start..name_start + name.len()].copy_from_slice(name.as_bytes());
    record[path_start..path_start + path.len()].copy_from_slice(path.as_bytes());

    record
}

fn write_u32_le(bytes: &mut [u8], offset: usize, value: u32) {
    bytes[offset..offset + 4].copy_from_slice(&value.to_le_bytes());
}

fn write_u64_le(bytes: &mut [u8], offset: usize, value: u64) {
    bytes[offset..offset + 8].copy_from_slice(&value.to_le_bytes());
}
