use fr_engine::raid::{
    apply_manual_override, assess_degraded_layout, detect_layout, find_signature_offset, map_logical_offset,
    ParityRotation, RaidError, RaidLayout, RaidLevel, RaidManualOverride, RaidMetadataFamily,
    DDF_SIGNATURE, IMSM_SIGNATURE, MD_MAGIC, MD_SUPERBLOCK_V1_OFFSET, SPACES_HEADER_OFFSET,
    SPACES_SIGNATURE,
};

#[test]
fn detects_mdraid_layout_from_superblock_v1_header() {
    let image = build_mdraid_image(5, 0, 128 * 1024, 4, 2048);
    let layout = detect_layout(&image).expect("detect").expect("md layout");
    assert_eq!(layout.metadata_family, RaidMetadataFamily::LinuxMd);
    assert_eq!(layout.level, RaidLevel::Raid5);
    assert_eq!(layout.member_count, 4);
    assert_eq!(layout.stripe_size_bytes, 128 * 1024);
    assert_eq!(layout.data_offset_bytes, 2048 * 512);
    assert_eq!(layout.parity_rotation, ParityRotation::LeftSymmetric);
    assert_eq!(layout.disk_order, vec![0, 1, 2, 3]);
    assert!(layout.confidence_score >= 80);
}

#[test]
fn detects_storage_spaces_layout_from_signature() {
    let image = build_spaces_image(1, 64, 3, 4096, 1);
    let layout = detect_layout(&image)
        .expect("detect")
        .expect("spaces layout");
    assert_eq!(
        layout.metadata_family,
        RaidMetadataFamily::WindowsStorageSpaces
    );
    assert_eq!(layout.level, RaidLevel::Raid1);
    assert_eq!(layout.member_count, 3);
    assert_eq!(layout.stripe_size_bytes, 64 * 1024);
    assert_eq!(layout.data_offset_bytes, 4096 * 1024);
    assert_eq!(layout.parity_rotation, ParityRotation::RightSymmetric);
}

#[test]
fn returns_none_when_no_supported_metadata_is_present() {
    let image = vec![0u8; 32 * 1024];
    assert!(detect_layout(&image).expect("detect").is_none());
}

#[test]
fn detects_intel_imsm_layout_from_signature() {
    let image = build_imsm_image(2, 128, 4, 4096);
    let layout = detect_layout(&image).expect("detect").expect("imsm layout");
    assert_eq!(layout.metadata_family, RaidMetadataFamily::IntelImsm);
    assert_eq!(layout.level, RaidLevel::Raid5);
    assert_eq!(layout.member_count, 4);
    assert_eq!(layout.stripe_size_bytes, 128 * 1024);
    assert_eq!(layout.data_offset_bytes, 4096 * 512);
}

#[test]
fn detects_ddf_layout_from_signature() {
    let image = build_ddf_image(5, 64, 5, 8192, 2);
    let layout = detect_layout(&image).expect("detect").expect("ddf layout");
    assert_eq!(layout.metadata_family, RaidMetadataFamily::Ddf);
    assert_eq!(layout.level, RaidLevel::Raid5);
    assert_eq!(layout.member_count, 5);
    assert_eq!(layout.stripe_size_bytes, 64 * 1024);
    assert_eq!(layout.data_offset_bytes, 8192 * 512);
    assert_eq!(layout.parity_rotation, ParityRotation::RightSymmetric);
}

#[test]
fn degraded_assessment_reports_full_recoverability_for_raid5_single_missing_parity() {
    let layout = RaidLayout {
        metadata_family: RaidMetadataFamily::LinuxMd,
        level: RaidLevel::Raid5,
        member_count: 4,
        stripe_size_bytes: 64 * 1024,
        data_offset_bytes: 2 * 1024 * 1024,
        parity_rotation: ParityRotation::LeftSymmetric,
        disk_order: vec![0, 1, 2, 3],
        confidence_score: 85,
    };

    let assessment = assess_degraded_layout(&layout, &[3], 64).expect("assessment");
    assert!(assessment.recoverability_percent >= 95);
    assert_eq!(assessment.missing_member_count, 1);
}

#[test]
fn degraded_assessment_reports_low_recoverability_for_raid0_missing_member() {
    let layout = RaidLayout {
        metadata_family: RaidMetadataFamily::LinuxMd,
        level: RaidLevel::Raid0,
        member_count: 3,
        stripe_size_bytes: 64 * 1024,
        data_offset_bytes: 1_048_576,
        parity_rotation: ParityRotation::Unknown,
        disk_order: vec![0, 1, 2],
        confidence_score: 80,
    };

    let assessment = assess_degraded_layout(&layout, &[1], 64).expect("assessment");
    assert!(assessment.recoverability_percent < 95);
    assert!(assessment.confidence_penalty > 0);
}

#[test]
fn applies_manual_override_for_level_stripe_and_order() {
    let image = build_mdraid_image(5, 0, 128 * 1024, 4, 2048);
    let base = detect_layout(&image).expect("detect").expect("layout");
    let override_cfg = RaidManualOverride {
        level: Some(RaidLevel::Raid0),
        stripe_size_bytes: Some(256 * 1024),
        data_offset_bytes: Some(2 * 1024 * 1024),
        parity_rotation: None,
        disk_order: Some(vec![2, 0, 3, 1]),
    };
    let resolved = apply_manual_override(&base, &override_cfg).expect("override");
    assert_eq!(resolved.level, RaidLevel::Raid0);
    assert_eq!(resolved.stripe_size_bytes, 256 * 1024);
    assert_eq!(resolved.data_offset_bytes, 2 * 1024 * 1024);
    assert_eq!(resolved.disk_order, vec![2, 0, 3, 1]);
}

#[test]
fn rejects_manual_override_with_invalid_disk_order() {
    let image = build_mdraid_image(5, 0, 128 * 1024, 4, 2048);
    let base = detect_layout(&image).expect("detect").expect("layout");
    let override_cfg = RaidManualOverride {
        level: None,
        stripe_size_bytes: None,
        data_offset_bytes: None,
        parity_rotation: None,
        disk_order: Some(vec![0, 1, 1, 3]),
    };
    let err = apply_manual_override(&base, &override_cfg).expect_err("invalid order");
    assert_eq!(err, RaidError::InvalidDiskOrder);
}

#[test]
fn maps_logical_offset_for_raid0_layout() {
    let layout = RaidLayout {
        metadata_family: RaidMetadataFamily::LinuxMd,
        level: RaidLevel::Raid0,
        member_count: 3,
        stripe_size_bytes: 64 * 1024,
        data_offset_bytes: 1_048_576,
        parity_rotation: ParityRotation::Unknown,
        disk_order: vec![2, 0, 1],
        confidence_score: 80,
    };
    let mapping = map_logical_offset(&layout, (64 * 1024 * 3 + 123) as u64).expect("map");
    assert_eq!(mapping.member_index, 2);
    assert_eq!(mapping.member_offset_bytes, 1_048_576 + 64 * 1024 + 123);
    assert_eq!(mapping.parity_member_index, None);
}

#[test]
fn maps_logical_offset_for_raid5_layout() {
    let layout = RaidLayout {
        metadata_family: RaidMetadataFamily::LinuxMd,
        level: RaidLevel::Raid5,
        member_count: 4,
        stripe_size_bytes: 64 * 1024,
        data_offset_bytes: 2_097_152,
        parity_rotation: ParityRotation::LeftSymmetric,
        disk_order: vec![0, 1, 2, 3],
        confidence_score: 85,
    };
    let mapping = map_logical_offset(&layout, 0).expect("map");
    assert_eq!(mapping.member_index, 0);
    assert_eq!(mapping.member_offset_bytes, 2_097_152);
    assert_eq!(mapping.parity_member_index, Some(3));
}

#[test]
fn maps_logical_offset_for_raid10_layout() {
    let layout = RaidLayout {
        metadata_family: RaidMetadataFamily::LinuxMd,
        level: RaidLevel::Raid10,
        member_count: 4,
        stripe_size_bytes: 64 * 1024,
        data_offset_bytes: 512 * 1024,
        parity_rotation: ParityRotation::Unknown,
        disk_order: vec![0, 1, 2, 3],
        confidence_score: 82,
    };

    let first = map_logical_offset(&layout, 0).expect("map first stripe");
    assert_eq!(first.member_index, 0);
    assert_eq!(first.parity_member_index, Some(1));
    assert_eq!(first.member_offset_bytes, 512 * 1024);

    let second = map_logical_offset(&layout, 64 * 1024).expect("map second stripe");
    assert_eq!(second.member_index, 2);
    assert_eq!(second.parity_member_index, Some(3));
    assert_eq!(second.member_offset_bytes, 512 * 1024);
}

#[test]
fn reports_invalid_member_count_during_detection() {
    let image = build_mdraid_image(5, 0, 64 * 1024, 1, 2048);
    let err = detect_layout(&image).expect_err("invalid member count");
    assert_eq!(err, RaidError::InvalidMemberCount(1));
}

fn build_mdraid_image(
    level: i32,
    layout: u32,
    chunk_size_bytes: u32,
    raid_disks: u32,
    data_offset_sectors: u64,
) -> Vec<u8> {
    let mut image = vec![0u8; 32 * 1024];
    let base = MD_SUPERBLOCK_V1_OFFSET;
    write_u32(&mut image, base, MD_MAGIC);
    write_u32(&mut image, base + 4, 1);
    write_i32(&mut image, base + 0x48, level);
    write_u32(&mut image, base + 0x4C, layout);
    write_u32(&mut image, base + 0x50, chunk_size_bytes);
    write_u32(&mut image, base + 0x5C, raid_disks);
    write_u64(&mut image, base + 0x80, data_offset_sectors);
    image
}

fn build_spaces_image(
    level: u32,
    stripe_kib: u32,
    member_count: u32,
    data_offset_kib: u32,
    parity: u32,
) -> Vec<u8> {
    let mut image = vec![0u8; 32 * 1024];
    image[SPACES_HEADER_OFFSET..SPACES_HEADER_OFFSET + SPACES_SIGNATURE.len()]
        .copy_from_slice(&SPACES_SIGNATURE);
    write_u32(&mut image, SPACES_HEADER_OFFSET + 0x10, level);
    write_u32(&mut image, SPACES_HEADER_OFFSET + 0x14, stripe_kib);
    write_u32(&mut image, SPACES_HEADER_OFFSET + 0x18, member_count);
    write_u32(&mut image, SPACES_HEADER_OFFSET + 0x1C, data_offset_kib);
    write_u32(&mut image, SPACES_HEADER_OFFSET + 0x20, parity);
    image
}

fn build_imsm_image(
    level: u32,
    stripe_kib: u32,
    member_count: u32,
    data_offset_sectors: u64,
) -> Vec<u8> {
    let mut image = vec![0u8; 64 * 1024];
    let base = 0x1800;
    image[base..base + IMSM_SIGNATURE.len()].copy_from_slice(&IMSM_SIGNATURE);
    write_u32(&mut image, base + 0x40, level);
    write_u32(&mut image, base + 0x44, member_count);
    write_u32(&mut image, base + 0x48, stripe_kib);
    write_u64(&mut image, base + 0x50, data_offset_sectors);
    image
}

fn build_ddf_image(
    level: u32,
    stripe_kib: u32,
    member_count: u32,
    data_offset_lba: u64,
    parity_rotation: u32,
) -> Vec<u8> {
    let mut image = vec![0u8; 64 * 1024];
    let base = 0x400;
    image[base..base + DDF_SIGNATURE.len()].copy_from_slice(&DDF_SIGNATURE);
    write_u32(&mut image, base + 0x24, level);
    write_u32(&mut image, base + 0x28, member_count);
    write_u32(&mut image, base + 0x2C, stripe_kib);
    write_u64(&mut image, base + 0x30, data_offset_lba);
    write_u32(&mut image, base + 0x38, parity_rotation);
    image
}

fn write_u32(bytes: &mut [u8], offset: usize, value: u32) {
    bytes[offset..offset + 4].copy_from_slice(&value.to_le_bytes());
}

fn write_i32(bytes: &mut [u8], offset: usize, value: i32) {
    bytes[offset..offset + 4].copy_from_slice(&value.to_le_bytes());
}

fn write_u64(bytes: &mut [u8], offset: usize, value: u64) {
    bytes[offset..offset + 8].copy_from_slice(&value.to_le_bytes());
}

fn raid0_layout(members: u32) -> RaidLayout {
    RaidLayout {
        metadata_family: RaidMetadataFamily::LinuxMd,
        level: RaidLevel::Raid0,
        member_count: members,
        stripe_size_bytes: 64 * 1024,
        data_offset_bytes: 0,
        parity_rotation: ParityRotation::Unknown,
        disk_order: (0..members).collect(),
        confidence_score: 80,
    }
}

#[test]
fn degraded_percentage_is_rounded_as_in_double_precision() {
    // 23 of 40 samples survive: 57.5 % exactly, which double precision
    // computes as just under 57.5.
    let assessment = assess_degraded_layout(&raid0_layout(7), &[0, 1, 5], 40).expect("assessment");
    assert_eq!(assessment.sample_count, 40);
    assert_eq!(assessment.recoverable_sample_count, 23);
    assert_eq!(assessment.recoverability_percent, ((23f64 / 40f64) * 100.0).round() as u8);
    assert_eq!(assessment.recoverability_percent, 57);
    assert_eq!(assessment.confidence_penalty, 43);
}

#[test]
fn degraded_percentage_rounds_halves_up_when_exact() {
    // 1 of 8 samples lost: 87.5 % is exact in double precision and rounds up.
    let assessment = assess_degraded_layout(&raid0_layout(8), &[7], 8).expect("assessment");
    assert_eq!(assessment.recoverable_sample_count, 7);
    assert_eq!(assessment.recoverability_percent, 88);
    assert_eq!(assessment.confidence_penalty, 12);
    let none_missing = assess_degraded_layout(&raid0_layout(4), &[], 100).expect("assessment");
    assert_eq!(none_missing.recoverability_percent, 100);
    assert_eq!(none_missing.confidence_penalty, 0);
}

#[test]
fn signature_search_finds_first_match_and_nothing_for_empty_signature() {
    assert_eq!(find_signature_offset(b"xxabcabc", b"abc"), Some(2));
    assert_eq!(find_signature_offset(b"xxabcabc", b"abd"), None);
    assert_eq!(find_signature_offset(b"ab", b"abc"), None);
    assert_eq!(find_signature_offset(b"abc", b""), None);
    assert_eq!(find_signature_offset(b"", b""), None);
}
