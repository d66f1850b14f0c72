use fr_engine::virtual_raid::probe_raid_layout;
use fr_engine::volume_scans::{
    apfs_prefix_candidates, candidate_budget, candidate_counts, ext_prefix_candidates, fat_prefix_candidates,
    hfs_prefix_candidates, probe_apfs_container, probe_ext_superblock, probe_fat_boot, probe_hfs_volume_header,
    probe_ntfs_boot, probe_refs_boot, probe_ufs_superblock, refs_prefix_candidates, ufs_prefix_candidates,
};

fn write_u16(image: &mut [u8], offset: usize, value: u16) {
    image[offset..offset + 2].copy_from_slice(&value.to_le_bytes());
}

fn write_u32(image: &mut [u8], offset: usize, value: u32) {
    image[offset..offset + 4].copy_from_slice(&value.to_le_bytes());
}

fn write_u64(image: &mut [u8], offset: usize, value: u64) {
    image[offset..offset + 8].copy_from_slice(&value.to_le_bytes());
}

#[test]
fn candidate_budget_defaults_to_512() {
    assert_eq!(candidate_budget(0), 512);
    assert_eq!(candidate_budget(7), 7);
}

#[test]
fn candidate_counts_report_all_and_hand_over_what_fits() {
    assert_eq!(candidate_counts(10, 4), (10, 4));
    assert_eq!(candidate_counts(3, 8), (3, 3));
    assert_eq!(candidate_counts(0, 8), (0, 0));
}

#[test]
fn short_prefixes_are_unreadable() {
    assert_eq!(refs_prefix_candidates(&[0u8; 100], 0).unwrap_err(), 31);
    assert_eq!(ext_prefix_candidates(&[0u8; 2047], 0).unwrap_err(), 31);
    assert_eq!(apfs_prefix_candidates(&[0u8; 4095], 0).unwrap_err(), 31);
    assert_eq!(hfs_prefix_candidates(&[0u8; 1000], 0).unwrap_err(), 31);
    assert_eq!(ufs_prefix_candidates(&[0u8; 16383], 0).unwrap_err(), 31);
    assert_eq!(fat_prefix_candidates(&[0u8; 511], 0).unwrap_err(), 31);
}

#[test]
fn prefixes_without_a_filesystem_name_their_code() {
    let zeros = vec![0u8; 64 * 1024];
    assert_eq!(refs_prefix_candidates(&zeros, 0).unwrap_err(), 80);
    assert_eq!(ext_prefix_candidates(&zeros, 0).unwrap_err(), 90);
    assert_eq!(apfs_prefix_candidates(&zeros, 0).unwrap_err(), 100);
    assert_eq!(hfs_prefix_candidates(&zeros, 0).unwrap_err(), 110);
    assert_eq!(ufs_prefix_candidates(&zeros, 0).unwrap_err(), 130);
    assert_eq!(fat_prefix_candidates(&zeros, 0).unwrap_err(), 70);
    assert_eq!(probe_ntfs_boot(&zeros[..512]).unwrap_err(), 30);
    assert_eq!(probe_refs_boot(&zeros[..512]).unwrap_err(), 80);
    assert_eq!(probe_ext_superblock(&zeros[..4096]).unwrap_err(), 90);
    assert_eq!(probe_apfs_container(&zeros[..4096]).unwrap_err(), 100);
    assert_eq!(probe_hfs_volume_header(&zeros[..2048]).unwrap_err(), 110);
    assert_eq!(probe_ufs_superblock(&zeros[..16384]).unwrap_err(), 130);
    assert_eq!(probe_fat_boot(&zeros[..512]).unwrap_err(), 70);
}

#[test]
fn apfs_prefix_yields_its_tombstones() {
    let mut image = vec![0u8; 1024 * 64];
    write_u64(&mut image, 0x08, 99);
    write_u32(&mut image, 0x20, 0x4253_584E);
    write_u32(&mut image, 0x24, 4096);
    write_u64(&mut image, 0x28, 32_768);
    let mut record = vec![0u8; 316];
    record[..8].copy_from_slice(b"APFSDEL\0");
    write_u64(&mut record, 8, 2048);
    write_u64(&mut record, 16, 16_384);
    let name = "presentation.key";
    let path = r"projects\presentation.key";
    record[25] = name.len() as u8;
    record[26] = path.len() as u8;
    record[28..28 + name.len()].copy_from_slice(name.as_bytes());
    record[124..124 + path.len()].copy_from_slice(path.as_bytes());
    image[8192..8192 + record.len()].copy_from_slice(&record);

    let container = probe_apfs_container(&image[..4096]).unwrap();
    assert_eq!(container.container_object_id, 99);
    let candidates = apfs_prefix_candidates(&image, 0).unwrap();
    assert_eq!(candidates.len(), 1);
    assert_eq!(candidates[0].cnid, 2048);
    assert_eq!(candidates[0].name, "presentation.key");
}

#[test]
fn fat_prefix_yields_deleted_root_entries() {
    let mut image = vec![0u8; 512 * 128];
    write_u16(&mut image, 0x0B, 512);
    image[0x0D] = 1;
    write_u16(&mut image, 0x0E, 32);
    image[0x10] = 1;
    write_u32(&mut image, 0x20, 128);
    write_u32(&mut image, 0x24, 1);
    write_u32(&mut image, 0x2C, 2);
    write_u16(&mut image, 0x1FE, 0xAA55);
    image[0x52..0x5A].copy_from_slice(b"FAT32   ");
    write_u32(&mut image, 32 * 512, 0x0FFF_FFF8);
    write_u32(&mut image, 32 * 512 + 4, 0x0FFF_FFFF);
    write_u32(&mut image, 32 * 512 + 8, 0x0FFF_FFFF);
    let root = 33 * 512;
    image[root] = 0xE5;
    image[root + 1..root + 8].copy_from_slice(b"ILE    ");
    image[root + 8..root + 11].copy_from_slice(b"BIN");
    image[root + 11] = 0x20;
    write_u16(&mut image, root + 26, 5);
    write_u32(&mut image, root + 28, 15);

    let boot = probe_fat_boot(&image[..512]).unwrap();
    assert_eq!(boot.root_dir_first_cluster, 2);
    let entries = fat_prefix_candidates(&image, 0).unwrap();
    assert_eq!(entries.len(), 1);
    assert_eq!(entries[0].start_cluster, 5);
    assert_eq!(entries[0].size_bytes, 15);
    assert!(!entries[0].is_directory);
}

#[test]
fn raid_probe_needs_a_prefix_and_a_layout() {
    assert_eq!(probe_raid_layout(&[0u8; 100], None).unwrap_err(), 31);
    assert_eq!(probe_raid_layout(&vec![0u8; 8192], None).unwrap_err(), 140);
}
