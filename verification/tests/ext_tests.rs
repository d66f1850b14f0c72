use fr_engine::ext::{
    parse_superblock, scan_deleted_candidates, ExtFilesystemKind, SuperblockParseError,
    EXT_FEATURE_COMPAT_HAS_JOURNAL, EXT_FEATURE_INCOMPAT_EXTENTS, EXT_GROUP_DESCRIPTOR_INODE_TABLE_OFFSET,
    EXT_INODE_SIZE_HIGH_OFFSET, EXT_SUPERBLOCK_FEATURE_COMPAT_OFFSET, EXT_SUPERBLOCK_FEATURE_INCOMPAT_OFFSET,
    EXT_SUPERBLOCK_INODE_SIZE_OFFSET, EXT_SUPERBLOCK_MAGIC_OFFSET, EXT_SUPERBLOCK_OFFSET,
};

#[test]
fn parses_valid_ext_superblock() {
    let image = build_test_ext4_image();
    let sb = parse_superblock(&image).expect("parse ext superblock");
    assert_eq!(sb.filesystem_kind, ExtFilesystemKind::Ext4);
    assert_eq!(sb.block_size_bytes, 4096);
    assert_eq!(sb.inodes_count, 1024);
    assert_eq!(sb.blocks_count, 8192);
    assert_eq!(sb.first_data_block, 0);
    assert_eq!(sb.inodes_per_group, 256);
    assert_eq!(sb.inode_size_bytes, 256);
}

#[test]
fn classifies_ext3_when_journal_feature_present_without_extents() {
    let mut image = build_test_ext4_image();
    write_u32(&mut image, EXT_SUPERBLOCK_FEATURE_INCOMPAT_OFFSET, 0);
    write_u32(
        &mut image,
        EXT_SUPERBLOCK_FEATURE_COMPAT_OFFSET,
        EXT_FEATURE_COMPAT_HAS_JOURNAL,
    );

    let sb = parse_superblock(&image).expect("parse ext3-like superblock");
    assert_eq!(sb.filesystem_kind, ExtFilesystemKind::Ext3);
}

#[test]
fn classifies_ext2_when_no_journal_or_extents_features_present() {
    let mut image = build_test_ext4_image();
    write_u32(&mut image, EXT_SUPERBLOCK_FEATURE_INCOMPAT_OFFSET, 0);
    write_u32(&mut image, EXT_SUPERBLOCK_FEATURE_COMPAT_OFFSET, 0);

    let sb = parse_superblock(&image).expect("parse ext2-like superblock");
    assert_eq!(sb.filesystem_kind, ExtFilesystemKind::Ext2);
}

#[test]
fn rejects_invalid_superblock_magic() {
    let mut image = build_test_ext4_image();
    write_u16(&mut image, EXT_SUPERBLOCK_MAGIC_OFFSET, 0x1234);
    let error = parse_superblock(&image).unwrap_err();
    assert!(matches!(error, SuperblockParseError::InvalidMagic(0x1234)));
}

#[test]
fn extracts_deleted_candidate_from_directory_entry() {
    let mut image = build_test_ext4_image();
    let offset = 8192usize;
    let entry = build_directory_entry(0, "deleted.log", 1);
    image[offset..offset + entry.len()].copy_from_slice(&entry);

    let (sb, entries) = scan_deleted_candidates(&image, 16).expect("scan ext");
    assert_eq!(sb.block_size_bytes, 4096);
    assert_eq!(entries.len(), 1);
    assert_eq!(entries[0].entry_offset_bytes, offset as u64);
    assert_eq!(entries[0].name, "deleted.log");
}

#[test]
fn links_deleted_directory_entry_to_deleted_inode_metadata() {
    let mut image = build_test_ext4_image();
    set_deleted_inode(&mut image, 15, 0x81A4, 8192, 1_704_067_200);

    let offset = 8192usize;
    let entry = build_directory_entry(16, "invoice.pdf", 1);
    image[offset..offset + entry.len()].copy_from_slice(&entry);

    let (_, entries) = scan_deleted_candidates(&image, 16).expect("scan ext");
    assert_eq!(entries.len(), 1);
    assert_eq!(entries[0].inode_number, 16);
    assert_eq!(entries[0].entry_offset_bytes, offset as u64);
    assert_eq!(entries[0].name, "invoice.pdf");
    assert_eq!(entries[0].path, r".\invoice.pdf");
    assert_eq!(entries[0].size_bytes, 8192);
}

#[test]
fn ignores_in_use_directory_entry() {
    let mut image = build_test_ext4_image();
    let offset = 8192usize;
    let entry = build_directory_entry(42, "active.log", 1);
    image[offset..offset + entry.len()].copy_from_slice(&entry);

    let (_, entries) = scan_deleted_candidates(&image, 16).expect("scan ext");
    assert!(entries.is_empty());
}

#[test]
fn extracts_deleted_inode_candidate_from_inode_table() {
    let mut image = build_test_ext4_image();
    set_deleted_inode(&mut image, 15, 0x81A4, 8192, 1_704_067_200);

    let (_, entries) = scan_deleted_candidates(&image, 32).expect("scan ext");
    let inode_entry = entries
        .iter()
        .find(|candidate| candidate.inode_number == 16)
        .expect("inode candidate");

    assert_eq!(inode_entry.name, "inode-16");
    assert_eq!(inode_entry.path, r".\inode-16");
    assert_eq!(inode_entry.size_bytes, 8192);
}

#[test]
fn extracts_deleted_inode_from_second_group_inode_table() {
    let mut image = build_test_ext4_image_two_groups();
    set_deleted_inode_for_group(&mut image, 1, 3, 0x81A4, 4096, 1_704_153_600);

    let (_, entries) = scan_deleted_candidates(&image, 64).expect("scan ext");
    let inode_entry = entries
        .iter()
        .find(|candidate| candidate.inode_number == 260)
        .expect("inode candidate from second group");

    assert_eq!(inode_entry.name, "inode-260");
    assert_eq!(inode_entry.path, r".\inode-260");
    assert_eq!(inode_entry.size_bytes, 4096);
}

#[test]
fn ignores_inode_with_unsupported_file_type() {
    let mut image = build_test_ext4_image();
    set_deleted_inode(&mut image, 15, 0x21A4, 4096, 1_704_067_200);

    let (_, entries) = scan_deleted_candidates(&image, 32).expect("scan ext");
    assert!(!entries.iter().any(|candidate| candidate.inode_number == 16));
}

#[test]
fn ignores_inode_with_invalid_deletion_timestamp() {
    let mut image = build_test_ext4_image();
    set_deleted_inode(&mut image, 15, 0x81A4, 4096, 1000);

    let (_, entries) = scan_deleted_candidates(&image, 32).expect("scan ext");
    assert!(!entries.iter().any(|candidate| candidate.inode_number == 16));
}

#[test]
fn reads_high_size_bits_for_large_inode_payloads() {
    let mut image = build_test_ext4_image();
    set_deleted_inode_with_high_size(
        &mut image,
        15,
        0x81A4,
        0x0000_1000,
        0x0000_0002,
        1_704_067_200,
    );

    let (_, entries) = scan_deleted_candidates(&image, 32).expect("scan ext");
    let inode_entry = entries
        .iter()
        .find(|candidate| candidate.inode_number == 16)
        .expect("inode candidate");

    assert_eq!(inode_entry.size_bytes, 0x0000_0002_0000_1000);
}

fn build_test_ext4_image() -> Vec<u8> {
    let mut image = vec![0u8; 512 * 256];
    write_u32(&mut image, EXT_SUPERBLOCK_OFFSET + 0x00, 1024);
    write_u32(&mut image, EXT_SUPERBLOCK_OFFSET + 0x04, 8192);
    write_u32(&mut image, EXT_SUPERBLOCK_OFFSET + 0x18, 2);
    write_u32(&mut image, EXT_SUPERBLOCK_OFFSET + 0x20, 32768);
    write_u32(&mut image, EXT_SUPERBLOCK_OFFSET + 0x28, 256);
    write_u32(
        &mut image,
        EXT_SUPERBLOCK_FEATURE_INCOMPAT_OFFSET,
        EXT_FEATURE_INCOMPAT_EXTENTS,
    );
    write_u16(&mut image, EXT_SUPERBLOCK_MAGIC_OFFSET, 0xEF53);
    write_u16(&mut image, EXT_SUPERBLOCK_INODE_SIZE_OFFSET, 256);
    write_u32(
        &mut image,
        4096 + EXT_GROUP_DESCRIPTOR_INODE_TABLE_OFFSET,
        10,
    );
    image
}

fn build_test_ext4_image_two_groups() -> Vec<u8> {
    let mut image = vec![0u8; 4096 * 40];
    write_u32(&mut image, EXT_SUPERBLOCK_OFFSET + 0x00, 512);
    write_u32(&mut image, EXT_SUPERBLOCK_OFFSET + 0x04, 65_536);
    write_u32(&mut image, EXT_SUPERBLOCK_OFFSET + 0x18, 2);
    write_u32(&mut image, EXT_SUPERBLOCK_OFFSET + 0x20, 32_768);
    write_u32(&mut image, EXT_SUPERBLOCK_OFFSET + 0x28, 256);
    write_u32(
        &mut image,
        EXT_SUPERBLOCK_FEATURE_INCOMPAT_OFFSET,
        EXT_FEATURE_INCOMPAT_EXTENTS,
    );
    write_u16(&mut image, EXT_SUPERBLOCK_MAGIC_OFFSET, 0xEF53);
    write_u16(&mut image, EXT_SUPERBLOCK_INODE_SIZE_OFFSET, 256);
    write_u32(
        &mut image,
        4096 + EXT_GROUP_DESCRIPTOR_INODE_TABLE_OFFSET,
        10,
    );
    write_u32(
        &mut image,
        4096 + 32 + EXT_GROUP_DESCRIPTOR_INODE_TABLE_OFFSET,
        20,
    );
    image
}

fn set_deleted_inode(
    image: &mut [u8],
    inode_index_zero_based: usize,
    mode: u16,
    size_bytes: u32,
    deletion_time: u32,
) {
    set_deleted_inode_with_high_size(
        image,
        inode_index_zero_based,
        mode,
        size_bytes,
        0,
        deletion_time,
    );
}

fn set_deleted_inode_with_high_size(
    image: &mut [u8],
    inode_index_zero_based: usize,
    mode: u16,
    size_lo_bytes: u32,
    size_hi_bytes: u32,
    deletion_time: u32,
) {
    let inode_size = 256usize;
    let inode_table_offset = 10usize * 4096usize;
    let inode_offset = inode_table_offset + inode_index_zero_based * inode_size;
    write_u16(image, inode_offset + 0, mode);
    write_u32(image, inode_offset + 4, size_lo_bytes);
    write_u32(
        image,
        inode_offset + EXT_INODE_SIZE_HIGH_OFFSET,
        size_hi_bytes,
    );
    write_u32(image, inode_offset + 20, deletion_time);
    write_u16(image, inode_offset + 26, 0);
}

fn set_deleted_inode_for_group(
    image: &mut [u8],
    group_index: usize,
    inode_index_zero_based: usize,
    mode: u16,
    size_bytes: u32,
    deletion_time: u32,
) {
    let inode_size = 256usize;
    let gd_offset = 4096 + (group_index * 32);
    let inode_table_block =
        read_u32_le(image, gd_offset + EXT_GROUP_DESCRIPTOR_INODE_TABLE_OFFSET);
    let inode_table_offset = (inode_table_block as usize) * 4096usize;
    let inode_offset = inode_table_offset + inode_index_zero_based * inode_size;
    write_u16(image, inode_offset + 0, mode);
    write_u32(image, inode_offset + 4, size_bytes);
    write_u32(image, inode_offset + 20, deletion_time);
    write_u16(image, inode_offset + 26, 0);
}

fn build_directory_entry(inode: u32, name: &str, file_type: u8) -> Vec<u8> {
    let name_bytes = name.as_bytes();
    let rec_len = align_to_4(8 + name_bytes.len());
    let mut entry = vec![0u8; rec_len];
    write_u32(&mut entry, 0, inode);
    write_u16(&mut entry, 4, rec_len as u16);
    entry[6] = name_bytes.len() as u8;
    entry[7] = file_type;
    entry[8..8 + name_bytes.len()].copy_from_slice(name_bytes);
    entry
}

fn align_to_4(value: usize) -> usize {
    (value + 3) & !3
}

fn write_u16(bytes: &mut [u8], offset: usize, value: u16) {
    bytes[offset..offset + 2].copy_from_slice(&value.to_le_bytes());
}

fn write_u32(bytes: &mut [u8], offset: usize, value: u32) {
    bytes[offset..offset + 4].copy_from_slice(&value.to_le_bytes());
}

fn read_u32_le(bytes: &[u8], offset: usize) -> u32 {
    u32::from_le_bytes([bytes[offset], bytes[offset + 1], bytes[offset + 2], bytes[offset + 3]])
}

#[test]
fn filesystem_kind_labels_and_codes() {
    assert_eq!(ExtFilesystemKind::Ext2.as_str(), "ext2");
    assert_eq!(ExtFilesystemKind::Ext3.as_str(), "ext3");
    assert_eq!(ExtFilesystemKind::Ext4.as_str(), "ext4");
    assert_eq!(ExtFilesystemKind::Ext2.as_code(), 1);
    assert_eq!(ExtFilesystemKind::Ext3.as_code(), 2);
    assert_eq!(ExtFilesystemKind::Ext4.as_code(), 3);
}

#[test]
fn rejects_superblock_errors_in_order() {
    assert_eq!(
        parse_superblock(&[0u8; 100]).unwrap_err(),
        SuperblockParseError::BufferTooSmall { expected: 2048, actual: 100 }
    );
    let mut image = build_test_ext4_image();
    write_u32(&mut image, EXT_SUPERBLOCK_OFFSET + 0x18, 7);
    assert_eq!(parse_superblock(&image).unwrap_err(), SuperblockParseError::InvalidBlockSizeShift(7));
    let mut image = build_test_ext4_image();
    write_u16(&mut image, EXT_SUPERBLOCK_INODE_SIZE_OFFSET, 130);
    assert_eq!(parse_superblock(&image).unwrap_err(), SuperblockParseError::InvalidInodeSize(130));
}

#[test]
fn links_each_deleted_inode_to_one_directory_entry() {
    let mut image = build_test_ext4_image();
    set_deleted_inode(&mut image, 15, 0x81A4, 100, 1_704_067_200);
    let first = build_directory_entry(16, "a.txt", 1);
    let second = build_directory_entry(16, "b.txt", 1);
    image[8192..8192 + first.len()].copy_from_slice(&first);
    image[8192 + first.len()..8192 + first.len() + second.len()].copy_from_slice(&second);

    let (_, entries) = scan_deleted_candidates(&image, 16).unwrap();
    assert_eq!(entries.len(), 1);
    assert_eq!(entries[0].name, "a.txt");
    assert_eq!(entries[0].inode_number, 16);
}

#[test]
fn skips_dot_names_and_names_with_separators() {
    let mut image = build_test_ext4_image();
    let dots = build_directory_entry(0, "..", 2);
    let slash = build_directory_entry(0, "a/b", 1);
    image[8192..8192 + dots.len()].copy_from_slice(&dots);
    image[8192 + dots.len()..8192 + dots.len() + slash.len()].copy_from_slice(&slash);
    let (_, entries) = scan_deleted_candidates(&image, 16).unwrap();
    assert!(entries.is_empty());
}

#[test]
fn stops_at_entry_limit() {
    let mut image = build_test_ext4_image();
    set_deleted_inode(&mut image, 15, 0x81A4, 100, 1_704_067_200);
    let entry = build_directory_entry(0, "gone.txt", 1);
    image[8192..8192 + entry.len()].copy_from_slice(&entry);
    let (_, entries) = scan_deleted_candidates(&image, 1).unwrap();
    assert_eq!(entries.len(), 1);
    assert_eq!(entries[0].name, "gone.txt");
    assert_eq!(entries[0].path, r".\gone.txt");
    let (_, none) = scan_deleted_candidates(&image, 0).unwrap();
    assert!(none.is_empty());
}
