use fr_engine::payload_recovery::{
    copy_range_writes, find_payload_descriptor, parse_payload_descriptor_after_record, MetadataPayloadDescriptor,
    MetadataRecoveryKind, METADATA_ENCRYPTED_FLAG, RECOVERY_STATUS_ENCRYPTED_LOCKED,
    RECOVERY_STATUS_UNREADABLE_RANGE, RECOVERY_STATUS_UNSUPPORTED_LAYOUT,
};
use fr_engine::recovery::DataWrite;

fn write_u32(image: &mut [u8], offset: usize, value: u32) {
    image[offset..offset + 4].copy_from_slice(&value.to_le_bytes());
}

fn write_u64(image: &mut [u8], offset: usize, value: u64) {
    image[offset..offset + 8].copy_from_slice(&value.to_le_bytes());
}

fn write_payload_descriptor(image: &mut [u8], descriptor_offset: usize, payload_offset: usize, payload: &[u8]) {
    image[payload_offset..payload_offset + payload.len()].copy_from_slice(payload);
    write_u64(image, descriptor_offset, payload_offset as u64);
    write_u64(image, descriptor_offset + 8, payload.len() as u64);
}

fn write_refs_payload_descriptor(
    image: &mut [u8],
    descriptor_offset: usize,
    object_id: u64,
    payload_offset: u64,
    payload_length: u64,
    encrypted: bool,
) {
    image[descriptor_offset..descriptor_offset + 8].copy_from_slice(b"REFSPAY\0");
    write_u64(image, descriptor_offset + 8, object_id);
    write_u64(image, descriptor_offset + 16, payload_offset);
    write_u64(image, descriptor_offset + 24, payload_length);
    image[descriptor_offset + 32] = if encrypted { METADATA_ENCRYPTED_FLAG } else { 0 };
}

fn refs_image(object_id: u64, payload: &[u8], encrypted: bool) -> Vec<u8> {
    let mut image = vec![0u8; 512 * 128];
    image[0x03..0x0B].copy_from_slice(b"ReFS    ");
    let payload_offset = 48 * 1024usize;
    image[payload_offset..payload_offset + payload.len()].copy_from_slice(payload);
    write_refs_payload_descriptor(&mut image, 16 * 1024, object_id, 48 * 1024, payload.len() as u64, encrypted);
    image
}

/// A tombstone record: 316 bytes with a 64-bit id at 8 and flags at 24
/// (`wide`), or 312 bytes with a 32-bit id at 8 and flags at 20.
fn tombstone_record(marker: &[u8; 8], id: u64, size_bytes: u64, wide: bool) -> Vec<u8> {
    let mut record = vec![0u8; if wide { 316 } else { 312 }];
    record[..8].copy_from_slice(marker);
    if wide {
        write_u64(&mut record, 8, id);
        write_u64(&mut record, 16, size_bytes);
    } else {
        write_u32(&mut record, 8, id as u32);
        write_u64(&mut record, 12, size_bytes);
    }
    record
}

fn tombstone_image(
    len: usize,
    marker: &[u8; 8],
    id: u64,
    wide: bool,
    record_offset: usize,
    payload_offset: usize,
    payload: &[u8],
    encrypted: bool,
) -> Vec<u8> {
    let mut image = vec![0u8; len];
    let mut record = tombstone_record(marker, id, payload.len() as u64, wide);
    if encrypted {
        record[if wide { 24 } else { 20 }] |= METADATA_ENCRYPTED_FLAG;
    }
    image[record_offset..record_offset + record.len()].copy_from_slice(&record);
    write_payload_descriptor(&mut image, record_offset + record.len(), payload_offset, payload);
    image
}

/// Finds the descriptor and materializes the copy of its range.
fn recover(kind: MetadataRecoveryKind, image: &[u8], id: u64) -> Result<(Vec<u8>, bool), i32> {
    let descriptor = find_payload_descriptor(kind, image, id)?;
    let (writes, partial) =
        copy_range_writes(image.len() as u64, descriptor.offset_bytes, descriptor.length_bytes)?;
    let mut out = Vec::new();
    for write in writes {
        match write {
            DataWrite::Zeros(n) => out.extend(std::iter::repeat(0u8).take(n)),
            DataWrite::Image(offset, n) => out.extend_from_slice(&image[offset as usize..offset as usize + n]),
        }
    }
    Ok((out, partial))
}

#[test]
fn refs_payload_is_recovered_from_its_descriptor() {
    let payload = b"REFS-RECOVERED-PAYLOAD";
    let image = refs_image(42, payload, false);
    let (out, partial) = recover(MetadataRecoveryKind::Refs, &image, 42).unwrap();
    assert!(!partial);
    assert_eq!(out, payload);
}

#[test]
fn refs_payload_out_of_bounds_is_unreadable() {
    let payload = b"REFS-OUT-OF-BOUNDS";
    let mut image = refs_image(42, payload, false);
    write_refs_payload_descriptor(&mut image, 16 * 1024, 42, 512 * 1024, payload.len() as u64, false);
    assert_eq!(recover(MetadataRecoveryKind::Refs, &image, 42), Err(RECOVERY_STATUS_UNREADABLE_RANGE));
}

#[test]
fn refs_encrypted_descriptor_is_locked() {
    let image = refs_image(42, b"secret", true);
    assert_eq!(
        find_payload_descriptor(MetadataRecoveryKind::Refs, &image, 42),
        Err(RECOVERY_STATUS_ENCRYPTED_LOCKED)
    );
}

#[test]
fn apfs_payload_is_recovered_from_its_descriptor() {
    let payload = b"APFS-CONTENT-PAYLOAD";
    let image = tombstone_image(64 * 1024, b"APFSDEL\0", 2048, true, 8192, 24 * 1024, payload, false);
    let (out, partial) = recover(MetadataRecoveryKind::Apfs, &image, 2048).unwrap();
    assert!(!partial);
    assert_eq!(out, payload);
    assert_eq!(
        find_payload_descriptor(MetadataRecoveryKind::Apfs, &image, 2048),
        Ok(MetadataPayloadDescriptor { offset_bytes: 24 * 1024, length_bytes: payload.len() as u64 })
    );
}

#[test]
fn apfs_locked_candidate_is_refused() {
    let image = tombstone_image(64 * 1024, b"APFSDEL\0", 2048, true, 8192, 24 * 1024, b"APFS-LOCKED-PAYLOAD", true);
    assert_eq!(recover(MetadataRecoveryKind::Apfs, &image, 2048), Err(RECOVERY_STATUS_ENCRYPTED_LOCKED));
}

#[test]
fn hfs_payload_is_recovered_from_its_descriptor() {
    let payload = b"HFS-CONTENT-PAYLOAD";
    let image = tombstone_image(64 * 1024, b"HFSDEL\0\0", 77, false, 4096, 20 * 1024, payload, false);
    let (out, partial) = recover(MetadataRecoveryKind::Hfs, &image, 77).unwrap();
    assert!(!partial);
    assert_eq!(out, payload);
}

#[test]
fn hfs_ids_are_matched_on_their_low_32_bits() {
    let payload = b"HFS-CONTENT-PAYLOAD";
    let image = tombstone_image(64 * 1024, b"HFSDEL\0\0", 77, false, 4096, 20 * 1024, payload, false);
    let (out, _) = recover(MetadataRecoveryKind::Hfs, &image, (1u64 << 32) + 77).unwrap();
    assert_eq!(out, payload);
    assert_eq!(
        find_payload_descriptor(MetadataRecoveryKind::Hfs, &image, 1u64 << 32),
        Err(RECOVERY_STATUS_UNSUPPORTED_LAYOUT)
    );
}

#[test]
fn xfs_payload_is_recovered_from_its_descriptor() {
    let payload = b"XFS-CONTENT-PAYLOAD";
    let image = tombstone_image(64 * 1024, b"XFSDEL\0\0", 88, true, 8192, 28 * 1024, payload, false);
    let (out, partial) = recover(MetadataRecoveryKind::Xfs, &image, 88).unwrap();
    assert!(!partial);
    assert_eq!(out, payload);
}

#[test]
fn xfs_tombstone_without_descriptor_is_unsupported() {
    let mut image = vec![0u8; 64 * 1024];
    let record = tombstone_record(b"XFSDEL\0\0", 88, 10_240, true);
    image[8192..8192 + record.len()].copy_from_slice(&record);
    assert_eq!(recover(MetadataRecoveryKind::Xfs, &image, 88), Err(RECOVERY_STATUS_UNSUPPORTED_LAYOUT));
}

#[test]
fn ufs_payload_is_recovered_from_its_descriptor() {
    let payload = b"UFS-CONTENT-PAYLOAD";
    let image = tombstone_image(128 * 1024, b"UFSDEL\0\0", 120, false, 16 * 1024, 32 * 1024, payload, false);
    let (out, partial) = recover(MetadataRecoveryKind::Ufs, &image, 120).unwrap();
    assert!(!partial);
    assert_eq!(out, payload);
}

#[test]
fn zero_candidate_and_empty_prefix_are_refused() {
    let image = refs_image(42, b"x", false);
    assert_eq!(find_payload_descriptor(MetadataRecoveryKind::Refs, &image, 0), Err(RECOVERY_STATUS_UNSUPPORTED_LAYOUT));
    assert_eq!(find_payload_descriptor(MetadataRecoveryKind::Refs, &[], 42), Err(31));
    assert_eq!(find_payload_descriptor(MetadataRecoveryKind::Refs, &image, 43), Err(RECOVERY_STATUS_UNSUPPORTED_LAYOUT));
}

#[test]
fn payload_descriptor_after_record_is_bounded_by_the_image() {
    let mut image = vec![0u8; 64];
    write_u64(&mut image, 40, 7);
    write_u64(&mut image, 48, 9);
    assert_eq!(
        parse_payload_descriptor_after_record(&image, 0, 40),
        Ok(MetadataPayloadDescriptor { offset_bytes: 7, length_bytes: 9 })
    );
    assert_eq!(parse_payload_descriptor_after_record(&image, 0, 49), Err(RECOVERY_STATUS_UNSUPPORTED_LAYOUT));
    write_u64(&mut image, 40, u64::MAX);
    assert_eq!(parse_payload_descriptor_after_record(&image, 0, 40), Err(RECOVERY_STATUS_UNSUPPORTED_LAYOUT));
}

#[test]
fn range_copy_goes_in_mebibyte_chunks_and_stops_partial() {
    let mib = 1u64 << 20;
    let (writes, partial) = copy_range_writes(3 * mib, 100, 2 * mib + 5).unwrap();
    assert!(!partial);
    assert_eq!(
        writes,
        vec![
            DataWrite::Image(100, mib as usize),
            DataWrite::Image(100 + mib, mib as usize),
            DataWrite::Image(100 + 2 * mib, 5),
        ]
    );
    let (writes, partial) = copy_range_writes(mib + 50, 0, 2 * mib).unwrap();
    assert!(partial);
    assert_eq!(writes, vec![DataWrite::Image(0, mib as usize)]);
    assert_eq!(copy_range_writes(10, 0, 0), Err(RECOVERY_STATUS_UNSUPPORTED_LAYOUT));
    assert_eq!(copy_range_writes(10, 8, 4), Err(RECOVERY_STATUS_UNREADABLE_RANGE));
}
