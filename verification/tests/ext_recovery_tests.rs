use fr_engine::ext_recovery::{ext_file_writes, prepare_ext_file_recovery};
use fr_engine::recovery::recovery_status;
use fr_engine::recovery::DataWrite;

const BLOCK: usize = 4096;
const POINTERS: usize = 40;

fn write_u16(image: &mut [u8], offset: usize, value: u16) {
    image[offset..offset + 2].copy_from_slice(&value.to_le_bytes());
}

fn write_u32(image: &mut [u8], offset: usize, value: u32) {
    image[offset..offset + 4].copy_from_slice(&value.to_le_bytes());
}

fn initialize_image(file_size: u32, block_capacity: usize) -> (Vec<u8>, usize) {
    let mut image = vec![0u8; BLOCK * block_capacity];
    write_u32(&mut image, 1024, 1024);
    write_u32(&mut image, 1024 + 0x04, 65_536);
    write_u32(&mut image, 1024 + 0x14, 0);
    write_u32(&mut image, 1024 + 0x18, 2);
    write_u32(&mut image, 1024 + 0x20, 32_768);
    write_u32(&mut image, 1024 + 0x28, 256);
    write_u32(&mut image, 1024 + 0x60, 0x0040);
    write_u16(&mut image, 1024 + 0x38, 0xEF53);
    write_u16(&mut image, 1024 + 0x58, 256);
    write_u32(&mut image, 4096 + 8, 10);
    let inode_offset = 10 * BLOCK + 15 * 256;
    write_u16(&mut image, inode_offset, 0x81A4);
    write_u32(&mut image, inode_offset + 4, file_size);
    (image, inode_offset)
}

fn fill_block(image: &mut [u8], block: usize, data: &[u8]) {
    image[block * BLOCK..block * BLOCK + data.len()].copy_from_slice(data);
}

fn patterned(block_count: usize, mul: u8, add: u8) -> Vec<u8> {
    let mut payload = vec![0u8; BLOCK * block_count];
    for index in 0..block_count {
        let fill = (index as u8).wrapping_mul(mul).wrapping_add(add);
        payload[index * BLOCK..(index + 1) * BLOCK].fill(fill);
    }
    payload
}

/// Runs a recovery and materializes its writes: status, bytes and partial.
fn recover(image: &[u8], inode: u64) -> (i32, Vec<u8>, bool) {
    let plan = match prepare_ext_file_recovery(image, inode) {
        Ok(plan) => plan,
        Err(status) => return (status, Vec::new(), false),
    };
    let (writes, partial) = match ext_file_writes(image, &plan) {
        Ok(result) => result,
        Err(status) => return (status, Vec::new(), false),
    };
    let mut out = Vec::new();
    for write in writes {
        match write {
            DataWrite::Zeros(n) => out.extend(std::iter::repeat(0u8).take(n)),
            DataWrite::Image(offset, n) => {
                out.extend_from_slice(&image[offset as usize..offset as usize + n])
            }
        }
    }
    let status = recovery_status(out.len() as u64, plan.file_size);
    (status, out, partial)
}

fn set_direct_blocks(image: &mut [u8], inode_offset: usize, payload: &[u8], first_block: usize) {
    for index in 0..12 {
        let block = first_block + index;
        write_u32(image, inode_offset + POINTERS + index * 4, block as u32);
        fill_block(image, block, &payload[index * BLOCK..(index + 1) * BLOCK]);
    }
}

#[test]
fn recover_ext_returns_unsupported_for_missing_inode() {
    let (image, _) = initialize_image(10, 64);
    let (status, bytes, partial) = recover(&image, 42);
    assert_eq!(status, 91);
    assert!(bytes.is_empty());
    assert!(!partial);
}

#[test]
fn recover_ext_recovers_direct_blocks() {
    let payload = b"EXT-RECOVERY-DIRECT-BLOCK";
    let (mut image, inode) = initialize_image(payload.len() as u32, 64);
    write_u32(&mut image, inode + POINTERS, 30);
    fill_block(&mut image, 30, payload);
    let (status, bytes, partial) = recover(&image, 16);
    assert_eq!(status, 0);
    assert!(!partial);
    assert_eq!(bytes, payload);
}

#[test]
fn recover_ext_recovers_single_indirect_blocks() {
    let payload = patterned(13, 17, 3);
    let (mut image, inode) = initialize_image(payload.len() as u32, 64);
    set_direct_blocks(&mut image, inode, &payload, 30);
    write_u32(&mut image, inode + POINTERS + 48, 50);
    write_u32(&mut image, 50 * BLOCK, 60);
    fill_block(&mut image, 60, &payload[12 * BLOCK..]);
    let (status, bytes, partial) = recover(&image, 16);
    assert_eq!(status, 0);
    assert!(!partial);
    assert_eq!(bytes, payload);
}

#[test]
fn recover_ext_marks_partial_when_single_indirect_pointer_missing() {
    let payload = patterned(13, 17, 3);
    let (mut image, inode) = initialize_image(payload.len() as u32, 64);
    set_direct_blocks(&mut image, inode, &payload, 30);
    let (status, bytes, partial) = recover(&image, 16);
    assert_eq!(status, 0);
    assert!(partial);
    assert_eq!(bytes, payload[..12 * BLOCK]);
}

#[test]
fn recover_ext_recovers_double_indirect_blocks() {
    let payload = patterned(12 + 1024 + 1, 13, 7);
    let (mut image, inode) = initialize_image(payload.len() as u32, 2048);
    set_direct_blocks(&mut image, inode, &payload, 30);
    write_u32(&mut image, inode + POINTERS + 48, 50);
    for index in 0..1024 {
        let block = 100 + index;
        write_u32(&mut image, 50 * BLOCK + index * 4, block as u32);
        fill_block(&mut image, block, &payload[(12 + index) * BLOCK..(13 + index) * BLOCK]);
    }
    write_u32(&mut image, inode + POINTERS + 52, 60);
    write_u32(&mut image, 60 * BLOCK, 61);
    write_u32(&mut image, 61 * BLOCK, 1300);
    fill_block(&mut image, 1300, &payload[(12 + 1024) * BLOCK..]);
    let (status, bytes, partial) = recover(&image, 16);
    assert_eq!(status, 0);
    assert!(!partial);
    assert_eq!(bytes, payload);
}

#[test]
fn recover_ext_recovers_triple_indirect_blocks() {
    let payload = patterned(15, 19, 11);
    let (mut image, inode) = initialize_image(payload.len() as u32, 512);
    set_direct_blocks(&mut image, inode, &payload, 30);
    write_u32(&mut image, inode + POINTERS + 48, 50);
    write_u32(&mut image, 50 * BLOCK, 100);
    fill_block(&mut image, 100, &payload[12 * BLOCK..13 * BLOCK]);
    write_u32(&mut image, inode + POINTERS + 52, 60);
    write_u32(&mut image, 60 * BLOCK, 61);
    write_u32(&mut image, 61 * BLOCK, 120);
    fill_block(&mut image, 120, &payload[13 * BLOCK..14 * BLOCK]);
    write_u32(&mut image, inode + POINTERS + 56, 70);
    write_u32(&mut image, 70 * BLOCK, 71);
    write_u32(&mut image, 71 * BLOCK, 72);
    write_u32(&mut image, 72 * BLOCK, 140);
    fill_block(&mut image, 140, &payload[14 * BLOCK..]);
    let (status, bytes, partial) = recover(&image, 16);
    assert_eq!(status, 0);
    assert!(partial);
    assert_eq!(bytes, payload);
}

fn write_extent_header(image: &mut [u8], at: usize, entries: u16) {
    write_u16(image, at, 0xF30A);
    write_u16(image, at + 2, entries);
    write_u16(image, at + 4, 4);
    write_u16(image, at + 6, 0);
}

fn write_extent(image: &mut [u8], at: usize, logical: u32, length: u16, start: u32) {
    write_u32(image, at, logical);
    write_u16(image, at + 4, length);
    write_u16(image, at + 6, 0);
    write_u32(image, at + 8, start);
}

#[test]
fn recover_ext_recovers_extent_leaf_inode() {
    let payload = patterned(2, 23, 5);
    let (mut image, inode) = initialize_image(payload.len() as u32, 64);
    write_u32(&mut image, inode + 32, 0x0008_0000);
    write_extent_header(&mut image, inode + POINTERS, 1);
    write_extent(&mut image, inode + POINTERS + 12, 0, 2, 30);
    fill_block(&mut image, 30, &payload);
    let (status, bytes, partial) = recover(&image, 16);
    assert_eq!(status, 0);
    assert!(!partial);
    assert_eq!(bytes, payload);
}

#[test]
fn recover_ext_zero_fills_uninitialized_extent_blocks() {
    let payload = vec![0x5Au8; BLOCK];
    let (mut image, inode) = initialize_image((2 * BLOCK) as u32, 64);
    write_u32(&mut image, inode + 32, 0x0008_0000);
    write_extent_header(&mut image, inode + POINTERS, 2);
    write_extent(&mut image, inode + POINTERS + 12, 0, 1, 30);
    write_extent(&mut image, inode + POINTERS + 24, 1, 0x8000 | 1, 0);
    fill_block(&mut image, 30, &payload);
    let (status, bytes, partial) = recover(&image, 16);
    assert_eq!(status, 0);
    assert!(!partial);
    assert_eq!(bytes.len(), 2 * BLOCK);
    assert_eq!(&bytes[..BLOCK], payload.as_slice());
    assert!(bytes[BLOCK..].iter().all(|byte| *byte == 0));
}

#[test]
fn recover_ext_zero_fills_holes_between_extents_and_orders_runs() {
    let (mut image, inode) = initialize_image((3 * BLOCK) as u32, 64);
    write_u32(&mut image, inode + 32, 0x0008_0000);
    write_extent_header(&mut image, inode + POINTERS, 2);
    write_extent(&mut image, inode + POINTERS + 12, 2, 1, 31);
    write_extent(&mut image, inode + POINTERS + 24, 0, 1, 30);
    fill_block(&mut image, 30, &[1u8; BLOCK]);
    fill_block(&mut image, 31, &[2u8; BLOCK]);
    let (status, bytes, partial) = recover(&image, 16);
    assert_eq!(status, 0);
    assert!(!partial);
    assert!(bytes[..BLOCK].iter().all(|byte| *byte == 1));
    assert!(bytes[BLOCK..2 * BLOCK].iter().all(|byte| *byte == 0));
    assert!(bytes[2 * BLOCK..].iter().all(|byte| *byte == 2));
}

#[test]
fn recover_ext_rejects_bad_extent_header() {
    let (mut image, inode) = initialize_image(100, 64);
    write_u32(&mut image, inode + 32, 0x0008_0000);
    write_u16(&mut image, inode + POINTERS, 0x1234);
    let (status, _, _) = recover(&image, 16);
    assert_eq!(status, 91);
}

#[test]
fn recover_ext_recovers_inline_symlink_target() {
    let target = "logs/2026/latest-report.txt";
    let (mut image, inode) = initialize_image(target.len() as u32, 64);
    write_u16(&mut image, inode, 0xA1FF);
    image[inode + POINTERS..inode + POINTERS + target.len()].copy_from_slice(target.as_bytes());
    let (status, bytes, partial) = recover(&image, 16);
    assert_eq!(status, 0);
    assert!(!partial);
    assert_eq!(bytes, target.as_bytes());
}

#[test]
fn recover_ext_recovers_non_inline_symlink_target() {
    let target =
        "this/is/a/very/long/symlink/target/path/that/exceeds/the/inline/inode/storage/window";
    let (mut image, inode) = initialize_image(target.len() as u32, 64);
    write_u16(&mut image, inode, 0xA1FF);
    write_u32(&mut image, inode + POINTERS, 30);
    fill_block(&mut image, 30, target.as_bytes());
    let (status, bytes, partial) = recover(&image, 16);
    assert_eq!(status, 0);
    assert!(!partial);
    assert_eq!(bytes, target.as_bytes());
}

#[test]
fn recover_ext_rejects_unsupported_inode_type_and_short_image() {
    let (mut image, inode) = initialize_image(10, 64);
    write_u16(&mut image, inode, 0x1000);
    assert_eq!(recover(&image, 16).0, 91);
    assert_eq!(recover(&image[..100], 16).0, 31);
    let blank = vec![0u8; 8192];
    assert_eq!(recover(&blank, 16).0, 90);
}

#[test]
fn recover_ext_reports_nothing_written_for_missing_first_block() {
    let (image, _) = initialize_image(10, 64);
    let (status, bytes, partial) = recover(&image, 16);
    assert_eq!(status, 76);
    assert!(bytes.is_empty());
    assert!(partial);
}
