use fr_engine::fat::{
    parse_boot_sector, quick_scan_deleted_root_entries, BootSectorParseError, FatFilesystemKind, ScanError,
    EXFAT_OEM_ID,
};

use std::collections::HashSet;

#[test]
fn parses_valid_fat32_boot_sector() {
    let image = build_fat32_test_image();
    let boot = parse_boot_sector(&image).expect("parse fat32 boot");
    assert_eq!(boot.filesystem, FatFilesystemKind::Fat32);
    assert_eq!(boot.bytes_per_sector, 512);
    assert_eq!(boot.sectors_per_cluster, 1);
    assert_eq!(boot.fat_offset_sectors, 32);
    assert_eq!(boot.data_region_offset_sectors, 33);
    assert_eq!(boot.root_dir_first_cluster, 2);
}

#[test]
fn parses_valid_exfat_boot_sector() {
    let image = build_exfat_test_image();
    let boot = parse_boot_sector(&image).expect("parse exfat boot");
    assert_eq!(boot.filesystem, FatFilesystemKind::ExFat);
    assert_eq!(boot.bytes_per_sector, 512);
    assert_eq!(boot.sectors_per_cluster, 1);
    assert_eq!(boot.fat_offset_sectors, 24);
    assert_eq!(boot.data_region_offset_sectors, 40);
    assert_eq!(boot.root_dir_first_cluster, 2);
}

#[test]
fn scans_deleted_fat32_root_entries() {
    let image = build_fat32_test_image();
    let (boot, entries) = quick_scan_deleted_root_entries(&image, 16).expect("scan fat32");
    assert_eq!(boot.filesystem, FatFilesystemKind::Fat32);
    assert_eq!(entries.len(), 1);
    let entry = &entries[0];
    assert_eq!(entry.name, "_EST.TXT");
    assert_eq!(entry.path, r".\_EST.TXT");
    assert!(!entry.is_directory);
    assert_eq!(entry.start_cluster, 5);
    assert_eq!(entry.size_bytes, 1234);
}

#[test]
fn scans_deleted_exfat_root_entries() {
    let image = build_exfat_test_image();
    let (boot, entries) = quick_scan_deleted_root_entries(&image, 16).expect("scan exfat");
    assert_eq!(boot.filesystem, FatFilesystemKind::ExFat);
    assert_eq!(entries.len(), 1);
    let entry = &entries[0];
    assert_eq!(entry.name, "lost.doc");
    assert_eq!(entry.path, r".\lost.doc");
    assert!(!entry.is_directory);
    assert_eq!(entry.start_cluster, 7);
    assert_eq!(entry.size_bytes, 42);
}

#[test]
fn scans_deleted_fat32_nested_entries() {
    let image = build_fat32_nested_test_image();
    let (_, entries) = quick_scan_deleted_root_entries(&image, 32).expect("scan nested fat32");
    let paths: HashSet<String> = entries.iter().map(|entry| entry.path.clone()).collect();
    assert!(paths.contains(r".\_EST.TXT"));
    assert!(paths.contains(r".\_ELDIR"));
    assert!(paths.contains(r".\SUBDIR\_HILD.TXT"));
    assert!(paths.contains(r".\_ELDIR\_NNER.BIN"));
}

#[test]
fn scans_deleted_exfat_nested_entries() {
    let image = build_exfat_nested_test_image();
    let (_, entries) = quick_scan_deleted_root_entries(&image, 32).expect("scan nested exfat");
    let paths: HashSet<String> = entries.iter().map(|entry| entry.path.clone()).collect();
    assert!(paths.contains(r".\docs"));
    assert!(paths.contains(r".\lost.doc"));
    assert!(paths.contains(r".\docs\notes.txt"));
}

#[test]
fn scans_deleted_fat32_long_file_name_entries() {
    let image = build_fat32_deleted_lfn_test_image();
    let (_, entries) = quick_scan_deleted_root_entries(&image, 16).expect("scan lfn fat32");
    assert_eq!(entries.len(), 1);
    let entry = &entries[0];
    assert_eq!(entry.name, "QuarterlyReport.txt");
    assert_eq!(entry.path, r".\QuarterlyReport.txt");
    assert!(!entry.is_directory);
    assert_eq!(entry.start_cluster, 5);
    assert_eq!(entry.size_bytes, 4321);
}

#[test]
fn returns_cluster_loop_error_for_directory_chain() {
    let image = build_fat32_loop_chain_test_image();
    let err = quick_scan_deleted_root_entries(&image, 16).expect_err("expected cluster loop");
    assert!(matches!(err, ScanError::ClusterLoop(2)));
}

#[test]
fn returns_invalid_cluster_error_for_bad_cluster_marker() {
    let image = build_fat32_bad_cluster_chain_test_image();
    let err =
        quick_scan_deleted_root_entries(&image, 16).expect_err("expected invalid cluster chain");
    assert!(matches!(err, ScanError::InvalidCluster(0x0FFF_FFF7)));
}

fn build_fat32_test_image() -> Vec<u8> {
    let mut image = vec![0u8; 512 * 128];
    write_u16(&mut image, 0x0B, 512);
    image[0x0D] = 1;
    write_u16(&mut image, 0x0E, 32);
    image[0x10] = 1;
    write_u16(&mut image, 0x16, 0);
    write_u32(&mut image, 0x20, 128);
    write_u32(&mut image, 0x24, 1);
    write_u32(&mut image, 0x2C, 2);
    write_u16(&mut image, 0x1FE, 0xAA55);
    image[0x52..0x5A].copy_from_slice(b"FAT32   ");

    let fat_sector_offset = 32 * 512;
    write_u32(&mut image, fat_sector_offset, 0x0FFF_FFF8);
    write_u32(&mut image, fat_sector_offset + 4, 0x0FFF_FFFF);
    write_u32(&mut image, fat_sector_offset + 8, 0x0FFF_FFFF);

    let root_sector_offset = 33 * 512;
    image[root_sector_offset] = 0xE5;
    image[root_sector_offset + 1..root_sector_offset + 8].copy_from_slice(b"EST    ");
    image[root_sector_offset + 8..root_sector_offset + 11].copy_from_slice(b"TXT");
    image[root_sector_offset + 11] = 0x20;
    write_u16(&mut image, root_sector_offset + 26, 5);
    write_u32(&mut image, root_sector_offset + 28, 1234);
    image[root_sector_offset + 32] = 0x00;
    image
}

fn build_fat32_nested_test_image() -> Vec<u8> {
    let mut image = build_fat32_test_image();

    let fat_sector_offset = 32 * 512;
    write_u32(&mut image, fat_sector_offset + (6 * 4), 0x0FFF_FFFF);
    write_u32(&mut image, fat_sector_offset + (7 * 4), 0x0FFF_FFFF);

    let root_sector_offset = 33 * 512;
    image[root_sector_offset + 32] = b'S';
    image[root_sector_offset + 33..root_sector_offset + 40].copy_from_slice(b"UBDIR  ");
    image[root_sector_offset + 32 + 11] = 0x10;
    write_u16(&mut image, root_sector_offset + 32 + 26, 6);
    write_u32(&mut image, root_sector_offset + 32 + 28, 0);

    image[root_sector_offset + 64] = 0xE5;
    image[root_sector_offset + 65..root_sector_offset + 72].copy_from_slice(b"ELDIR  ");
    image[root_sector_offset + 64 + 11] = 0x10;
    write_u16(&mut image, root_sector_offset + 64 + 26, 7);
    write_u32(&mut image, root_sector_offset + 64 + 28, 0);
    image[root_sector_offset + 96] = 0x00;

    let subdir_sector_offset = 37 * 512;
    image[subdir_sector_offset] = 0xE5;
    image[subdir_sector_offset + 1..subdir_sector_offset + 8].copy_from_slice(b"HILD   ");
    image[subdir_sector_offset + 8..subdir_sector_offset + 11].copy_from_slice(b"TXT");
    image[subdir_sector_offset + 11] = 0x20;
    write_u16(&mut image, subdir_sector_offset + 26, 9);
    write_u32(&mut image, subdir_sector_offset + 28, 55);
    image[subdir_sector_offset + 32] = 0x00;

    let deleted_subdir_sector_offset = 38 * 512;
    image[deleted_subdir_sector_offset] = 0xE5;
    image[deleted_subdir_sector_offset + 1..deleted_subdir_sector_offset + 8]
        .copy_from_slice(b"NNER   ");
    image[deleted_subdir_sector_offset + 8..deleted_subdir_sector_offset + 11]
        .copy_from_slice(b"BIN");
    image[deleted_subdir_sector_offset + 11] = 0x20;
    write_u16(&mut image, deleted_subdir_sector_offset + 26, 10);
    write_u32(&mut image, deleted_subdir_sector_offset + 28, 66);
    image[deleted_subdir_sector_offset + 32] = 0x00;

    image
}

fn build_fat32_deleted_lfn_test_image() -> Vec<u8> {
    let mut image = build_fat32_test_image();
    let root_sector_offset = 33 * 512;
    image[root_sector_offset..root_sector_offset + 512].fill(0);

    write_fat32_lfn_entry(&mut image, root_sector_offset, 0x42, "rt.txt");
    write_fat32_lfn_entry(&mut image, root_sector_offset + 32, 0x01, "QuarterlyRepo");

    image[root_sector_offset + 64] = 0xE5;
    image[root_sector_offset + 65..root_sector_offset + 72].copy_from_slice(b"EPORT~1");
    image[root_sector_offset + 72..root_sector_offset + 75].copy_from_slice(b"TXT");
    image[root_sector_offset + 64 + 11] = 0x20;
    write_u16(&mut image, root_sector_offset + 64 + 26, 5);
    write_u32(&mut image, root_sector_offset + 64 + 28, 4321);
    image[root_sector_offset + 96] = 0x00;

    image
}

fn build_fat32_loop_chain_test_image() -> Vec<u8> {
    let mut image = build_fat32_test_image();
    let fat_sector_offset = 32 * 512;
    write_u32(&mut image, fat_sector_offset + (2 * 4), 3);
    write_u32(&mut image, fat_sector_offset + (3 * 4), 2);
    image
}

fn build_fat32_bad_cluster_chain_test_image() -> Vec<u8> {
    let mut image = build_fat32_test_image();
    let fat_sector_offset = 32 * 512;
    write_u32(&mut image, fat_sector_offset + (2 * 4), 0x0FFF_FFF7);
    image
}

fn build_exfat_test_image() -> Vec<u8> {
    let mut image = vec![0u8; 512 * 128];
    image[0x03..0x0B].copy_from_slice(&EXFAT_OEM_ID);
    write_u64(&mut image, 0x48, 128);
    write_u32(&mut image, 0x50, 24);
    write_u32(&mut image, 0x54, 1);
    write_u32(&mut image, 0x58, 40);
    write_u32(&mut image, 0x5C, 32);
    write_u32(&mut image, 0x60, 2);
    write_u32(&mut image, 0x64, 0x4433_2211);
    image[0x6C] = 9;
    image[0x6D] = 0;
    image[0x6E] = 1;
    write_u16(&mut image, 0x1FE, 0xAA55);

    let fat_sector_offset = 24 * 512;
    write_u32(&mut image, fat_sector_offset, 0xFFFF_FFF8);
    write_u32(&mut image, fat_sector_offset + 4, 0xFFFF_FFFF);
    write_u32(&mut image, fat_sector_offset + 8, 0xFFFF_FFFF);

    let root_sector_offset = 40 * 512;
    image[root_sector_offset] = 0x05;
    image[root_sector_offset + 1] = 2;
    write_u16(&mut image, root_sector_offset + 4, 0x20);

    image[root_sector_offset + 32] = 0x40;
    image[root_sector_offset + 32 + 3] = 8;
    write_u32(&mut image, root_sector_offset + 32 + 20, 7);
    write_u64(&mut image, root_sector_offset + 32 + 24, 42);

    image[root_sector_offset + 64] = 0x41;
    write_utf16_entry(
        &mut image[root_sector_offset + 64 + 2..root_sector_offset + 64 + 32],
        "lost.doc",
    );
    image[root_sector_offset + 96] = 0x00;
    image
}

fn build_exfat_nested_test_image() -> Vec<u8> {
    let mut image = vec![0u8; 512 * 160];
    image[0x03..0x0B].copy_from_slice(&EXFAT_OEM_ID);
    write_u64(&mut image, 0x48, 160);
    write_u32(&mut image, 0x50, 24);
    write_u32(&mut image, 0x54, 1);
    write_u32(&mut image, 0x58, 40);
    write_u32(&mut image, 0x5C, 32);
    write_u32(&mut image, 0x60, 2);
    write_u32(&mut image, 0x64, 0x4433_2211);
    image[0x6C] = 9;
    image[0x6D] = 0;
    image[0x6E] = 1;
    write_u16(&mut image, 0x1FE, 0xAA55);

    let fat_sector_offset = 24 * 512;
    write_u32(&mut image, fat_sector_offset, 0xFFFF_FFF8);
    write_u32(&mut image, fat_sector_offset + 4, 0xFFFF_FFFF);
    write_u32(&mut image, fat_sector_offset + 8, 0xFFFF_FFFF);
    write_u32(&mut image, fat_sector_offset + (5 * 4), 0xFFFF_FFFF);

    let root_sector_offset = 40 * 512;
    image[root_sector_offset] = 0x05;
    image[root_sector_offset + 1] = 2;
    write_u16(&mut image, root_sector_offset + 4, 0x10);

    image[root_sector_offset + 32] = 0xC0;
    image[root_sector_offset + 32 + 3] = 4;
    write_u32(&mut image, root_sector_offset + 32 + 20, 5);

    image[root_sector_offset + 64] = 0xC1;
    write_utf16_entry(
        &mut image[root_sector_offset + 64 + 2..root_sector_offset + 64 + 32],
        "docs",
    );

    image[root_sector_offset + 96] = 0x05;
    image[root_sector_offset + 96 + 1] = 2;
    write_u16(&mut image, root_sector_offset + 96 + 4, 0x20);

    image[root_sector_offset + 128] = 0x40;
    image[root_sector_offset + 128 + 3] = 8;
    write_u32(&mut image, root_sector_offset + 128 + 20, 7);
    write_u64(&mut image, root_sector_offset + 128 + 24, 42);

    image[root_sector_offset + 160] = 0x41;
    write_utf16_entry(
        &mut image[root_sector_offset + 160 + 2..root_sector_offset + 160 + 32],
        "lost.doc",
    );
    image[root_sector_offset + 192] = 0x00;

    let docs_sector_offset = 43 * 512;
    image[docs_sector_offset] = 0x05;
    image[docs_sector_offset + 1] = 2;
    write_u16(&mut image, docs_sector_offset + 4, 0x20);

    image[docs_sector_offset + 32] = 0x40;
    image[docs_sector_offset + 32 + 3] = 9;
    write_u32(&mut image, docs_sector_offset + 32 + 20, 8);
    write_u64(&mut image, docs_sector_offset + 32 + 24, 21);

    image[docs_sector_offset + 64] = 0x41;
    write_utf16_entry(
        &mut image[docs_sector_offset + 64 + 2..docs_sector_offset + 64 + 32],
        "notes.txt",
    );
    image[docs_sector_offset + 96] = 0x00;

    image
}

fn write_fat32_lfn_entry(image: &mut [u8], offset: usize, order: u8, text: &str) {
    let entry = &mut image[offset..offset + 32];
    entry.fill(0);
    entry[0] = order;
    entry[11] = 0x0F;
    entry[12] = 0x00;
    entry[13] = 0x00;
    write_u16(entry, 26, 0);
    write_lfn_text(entry, text);
}

fn write_lfn_text(entry: &mut [u8], text: &str) {
    const CHAR_OFFSETS: [usize; 13] = [1, 3, 5, 7, 9, 14, 16, 18, 20, 22, 24, 28, 30];
    for offset in CHAR_OFFSETS {
        write_u16(entry, offset, 0xFFFF);
    }

    let units: Vec<u16> = text.encode_utf16().take(13).collect();
    for (index, code_unit) in units.iter().enumerate() {
        write_u16(entry, CHAR_OFFSETS[index], *code_unit);
    }

    if units.len() < CHAR_OFFSETS.len() {
        write_u16(entry, CHAR_OFFSETS[units.len()], 0x0000);
    }
}

fn write_utf16_entry(slot: &mut [u8], value: &str) {
    let mut cursor = 0usize;
    for code in value.encode_utf16().take(15) {
        slot[cursor..cursor + 2].copy_from_slice(&code.to_le_bytes());
        cursor += 2;
    }
    while cursor + 1 < slot.len() {
        slot[cursor..cursor + 2].copy_from_slice(&0u16.to_le_bytes());
        cursor += 2;
    }
}

fn write_u16(bytes: &mut [u8], offset: usize, value: u16) {
    bytes[offset..offset + 2].copy_from_slice(&value.to_le_bytes());
}

fn write_u32(bytes: &mut [u8], offset: usize, value: u32) {
    bytes[offset..offset + 4].copy_from_slice(&value.to_le_bytes());
}

fn write_u64(bytes: &mut [u8], offset: usize, value: u64) {
    bytes[offset..offset + 8].copy_from_slice(&value.to_le_bytes());
}

#[test]
fn boot_sector_errors_come_in_order() {

    assert_eq!(
        parse_boot_sector(&[0u8; 100]).unwrap_err(),
        BootSectorParseError::BufferTooSmall { expected: 512, actual: 100 }
    );
    let mut image = build_fat32_test_image();
    write_u16(&mut image, 0x1FE, 0x1234);
    assert_eq!(parse_boot_sector(&image).unwrap_err(), BootSectorParseError::InvalidBootSignature(0x1234));
    let mut image = build_exfat_test_image();
    image[0x6D] = 8;
    assert_eq!(
        parse_boot_sector(&image).unwrap_err(),
        BootSectorParseError::InvalidShiftValue { field: "sectors_per_cluster_shift", value: 8 }
    );
    let mut image = build_fat32_test_image();
    write_u16(&mut image, 0x16, 9);
    assert_eq!(parse_boot_sector(&image).unwrap_err(), BootSectorParseError::UnsupportedFilesystem);
}

#[test]
fn cluster_offsets_follow_the_data_region() {
    let image = build_fat32_test_image();
    let boot = parse_boot_sector(&image).unwrap();
    assert_eq!(boot.cluster_size_bytes(), 512);
    assert_eq!(boot.fat_offset_bytes(), Some(32 * 512));
    assert_eq!(boot.data_region_offset_bytes(), Some(33 * 512));
    assert_eq!(boot.cluster_offset_bytes(2), Some(33 * 512));
    assert_eq!(boot.cluster_offset_bytes(5), Some(36 * 512));
    assert_eq!(boot.cluster_offset_bytes(1), None);
}

#[test]
fn scan_with_zero_limit_reads_nothing() {
    let image = build_fat32_loop_chain_test_image();
    let (_, entries) = quick_scan_deleted_root_entries(&image, 0).unwrap();
    assert!(entries.is_empty());
}

#[test]
fn scan_stops_at_the_entry_limit() {
    let image = build_fat32_nested_test_image();
    let (_, entries) = quick_scan_deleted_root_entries(&image, 1).unwrap();
    assert_eq!(entries.len(), 1);
    assert_eq!(entries[0].path, r".\_EST.TXT");
}

#[test]
fn directory_past_the_image_end_is_out_of_bounds() {
    let mut image = build_fat32_test_image();
    image.truncate(33 * 512 + 100);
    let err = quick_scan_deleted_root_entries(&image, 16).unwrap_err();
    assert_eq!(err, ScanError::OutOfBounds { offset: 33 * 512, length: 512, image_len: 33 * 512 + 100 });
}
