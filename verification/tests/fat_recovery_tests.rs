use fr_engine::fat_recovery::{prepare_fat_file_recovery, read_fat_next_cluster, recover_fat_candidate_data};
use fr_engine::recovery::recovery_status;
use fr_engine::recovery::DataWrite;

fn write_u16(image: &mut [u8], offset: usize, value: u16) {
    image[offset..offset + 2].copy_from_slice(&value.to_le_bytes());
}

fn write_u32(image: &mut [u8], offset: usize, value: u32) {
    image[offset..offset + 4].copy_from_slice(&value.to_le_bytes());
}

const FAT_OFFSET: usize = 32 * 512;

fn build_test_fat32_image_with_recoverable_file(payload: &[u8]) -> Vec<u8> {
    let mut image = vec![0u8; 512 * 128];
    write_u16(&mut image, 0x0B, 512);
    image[0x0D] = 1;
    write_u16(&mut image, 0x0E, 32);
    image[0x10] = 1;
    write_u16(&mut image, 0x16, 0);
    write_u32(&mut image, 0x20, 128);
    write_u32(&mut image, 0x24, 1);
    write_u32(&mut image, 0x2C, 2);
    write_u16(&mut image, 0x1FE, 0xAA55);
    image[0x52..0x5A].copy_from_slice(b"FAT32   ");

    write_u32(&mut image, FAT_OFFSET, 0x0FFF_FFF8);
    write_u32(&mut image, FAT_OFFSET + 4, 0x0FFF_FFFF);
    write_u32(&mut image, FAT_OFFSET + 8, 0x0FFF_FFFF);
    write_u32(&mut image, FAT_OFFSET + (5 * 4), 0x0FFF_FFFF);

    let root_sector_offset = 33 * 512;
    image[root_sector_offset] = 0xE5;
    image[root_sector_offset + 1..root_sector_offset + 8].copy_from_slice(b"ILE    ");
    image[root_sector_offset + 8..root_sector_offset + 11].copy_from_slice(b"BIN");
    image[root_sector_offset + 11] = 0x20;
    write_u16(&mut image, root_sector_offset + 26, 5);
    write_u32(&mut image, root_sector_offset + 28, payload.len() as u32);
    image[root_sector_offset + 32] = 0x00;

    let file_cluster_sector_offset = 36 * 512;
    image[file_cluster_sector_offset..file_cluster_sector_offset + payload.len()].copy_from_slice(payload);

    image
}

/// Byte offset of a data cluster in the test image (data region at sector 33).
fn cluster_offset(cluster: usize) -> usize {
    (33 + cluster - 2) * 512
}

/// Runs a recovery and materializes its writes: status, bytes and partial.
fn recover(image: &[u8], start_cluster: u32, size: u64) -> (i32, Vec<u8>, bool) {
    let boot = match prepare_fat_file_recovery(image, start_cluster) {
        Ok(boot) => boot,
        Err(status) => return (status, Vec::new(), false),
    };
    let (writes, partial) = match recover_fat_candidate_data(image, &boot, start_cluster, size) {
        Ok(result) => result,
        Err(status) => return (status, Vec::new(), false),
    };
    let mut out = Vec::new();
    for write in writes {
        match write {
            DataWrite::Zeros(n) => out.extend(std::iter::repeat(0u8).take(n)),
            DataWrite::Image(offset, n) => out.extend_from_slice(&image[offset as usize..offset as usize + n]),
        }
    }
    let status = recovery_status(out.len() as u64, size);
    (status, out, partial)
}

#[test]
fn fat_recovery_writes_expected_bytes() {
    let payload = b"fat-recovery-ok";
    let image = build_test_fat32_image_with_recoverable_file(payload);
    let (status, out, partial) = recover(&image, 5, payload.len() as u64);
    assert_eq!(status, 0);
    assert_eq!(out.len(), payload.len());
    assert!(!partial);
    assert_eq!(out, payload);
}

#[test]
fn fat_recovery_uses_contiguous_fallback_after_chain_gap() {
    let payload = b"fat-partial";
    let image = build_test_fat32_image_with_recoverable_file(payload);
    let (status, out, partial) = recover(&image, 5, 800);
    assert_eq!(status, 0);
    assert_eq!(out.len(), 800);
    assert!(partial);
    assert_eq!(&out[..payload.len()], payload);
}

#[test]
fn fat_recovery_follows_the_chain() {
    let mut image = build_test_fat32_image_with_recoverable_file(b"");
    // 5 -> 9 -> end; cluster 6 would be the contiguous guess.
    write_u32(&mut image, FAT_OFFSET + 5 * 4, 9);
    write_u32(&mut image, FAT_OFFSET + 9 * 4, 0x0FFF_FFFF);
    image[cluster_offset(5)..cluster_offset(5) + 512].fill(b'a');
    image[cluster_offset(6)..cluster_offset(6) + 512].fill(b'x');
    image[cluster_offset(9)..cluster_offset(9) + 512].fill(b'b');
    let (status, out, partial) = recover(&image, 5, 700);
    assert_eq!(status, 0);
    assert!(!partial);
    assert_eq!(out.len(), 700);
    assert!(out[..512].iter().all(|b| *b == b'a'));
    assert!(out[512..].iter().all(|b| *b == b'b'));
}

#[test]
fn fat_recovery_stops_on_a_cycle() {
    let mut image = build_test_fat32_image_with_recoverable_file(b"loop");
    // 5 -> 6 -> 5: the second visit of cluster 5 stops the walk.
    write_u32(&mut image, FAT_OFFSET + 5 * 4, 6);
    write_u32(&mut image, FAT_OFFSET + 6 * 4, 5);
    let (status, out, partial) = recover(&image, 5, 4096);
    assert_eq!(status, 0);
    assert!(partial);
    assert_eq!(out.len(), 1024);
}

#[test]
fn fat_recovery_fallback_stops_at_a_used_cluster() {
    let mut image = build_test_fat32_image_with_recoverable_file(b"used");
    // Cluster 6 is free, cluster 7 belongs to another file.
    write_u32(&mut image, FAT_OFFSET + 7 * 4, 0x0FFF_FFFF);
    let (status, out, partial) = recover(&image, 5, 4096);
    assert_eq!(status, 0);
    assert!(partial);
    assert_eq!(out.len(), 1024);
}

#[test]
fn fat_recovery_rejects_low_start_cluster() {
    let image = build_test_fat32_image_with_recoverable_file(b"x");
    assert_eq!(prepare_fat_file_recovery(&image, 1).unwrap_err(), 75);
    assert_eq!(recover(&image, 0, 1).0, 75);
}

#[test]
fn fat_recovery_rejects_short_image_and_bad_boot_sector() {
    assert_eq!(prepare_fat_file_recovery(&[0u8; 100], 5).unwrap_err(), 31);
    assert_eq!(prepare_fat_file_recovery(&[0u8; 1024], 5).unwrap_err(), 70);
}

#[test]
fn fat_recovery_of_an_empty_file_writes_nothing() {
    let image = build_test_fat32_image_with_recoverable_file(b"x");
    let (status, out, partial) = recover(&image, 5, 0);
    assert_eq!(status, 0);
    assert!(out.is_empty());
    assert!(!partial);
}

#[test]
fn fat_recovery_past_the_image_writes_nothing() {
    let image = build_test_fat32_image_with_recoverable_file(b"x");
    let (status, out, partial) = recover(&image, 500, 10);
    assert_eq!(status, 76);
    assert!(out.is_empty());
    assert!(partial);
}

#[test]
fn fat_entry_is_masked_to_28_bits() {
    let mut image = build_test_fat32_image_with_recoverable_file(b"x");
    write_u32(&mut image, FAT_OFFSET + 8 * 4, 0xF000_0009);
    let boot = prepare_fat_file_recovery(&image, 5).unwrap();
    assert_eq!(read_fat_next_cluster(&image, &boot, 8), Ok(9));
    assert_eq!(read_fat_next_cluster(&image, &boot, 5), Ok(0x0FFF_FFFF));
    // An entry past the end of the image reads as free.
    assert_eq!(read_fat_next_cluster(&image, &boot, 100_000), Ok(0));
}
