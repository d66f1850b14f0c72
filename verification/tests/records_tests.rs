use fr_engine::carving::{
    carve_family_flag_for_extension, CARVE_FAMILY_ARCHIVES, CARVE_FAMILY_DOCUMENTS, CARVE_FAMILY_IMAGES,
    CARVE_FAMILY_MEDIA, CARVE_FAMILY_OFFICE, SIGNATURE_PACK_NAME, SIGNATURE_PACK_VERSION,
};
use fr_engine::ext::{ExtDeletedCandidate, ExtFilesystemKind};
use fr_engine::fat::FatDeletedEntry;
use fr_engine::fat::FatFilesystemKind;
use fr_engine::raid::{ParityRotation, RaidLayout, RaidLevel, RaidMetadataFamily};
use fr_engine::records::{
    build_named_stream_output_path, decode_raid_layout, decode_raid_manual_override,
    encode_carve_signature_pack_metadata, encode_ext_deleted_candidate, encode_fat_deleted_candidate,
    encode_quick_scan_candidate, encode_vss_snapshot, encode_xfs_deleted_candidate, VssSnapshot, XfsDeletedCandidate,
    encode_raid_layout, is_windows_reserved_name, map_fat_scan_error, normalize_max_records,
    normalize_max_scan_bytes, parse_source_kind, sanitize_windows_path_component,
    usize_to_u32_saturating, FrRaidManualOverride, CANDIDATE_FLAG_DELETED,
    CANDIDATE_FLAG_EVIDENCE_MFT, CANDIDATE_FLAG_HAS_NAME,
};
use fr_engine::session::QuickScanCandidate;
use fr_engine::types::{EvidenceSource, RecoverySourceKind};

fn c_text(bytes: &[u8]) -> String {
    let end = bytes.iter().position(|b| *b == 0).unwrap_or(bytes.len());
    String::from_utf8_lossy(&bytes[..end]).into_owned()
}

#[test]
fn normalize_max_scan_bytes_does_not_cap_at_256mib() {
    let requested = 1024_u64 * 1024_u64 * 1024_u64;
    assert_eq!(normalize_max_scan_bytes(requested), requested);
}

#[test]
fn sanitize_windows_path_component_normalizes_invalid_names() {
    assert_eq!(sanitize_windows_path_component("Zone.Identifier"), "Zone.Identifier");
    assert_eq!(sanitize_windows_path_component("bad:name*with?chars"), "bad_name_with_chars");
    assert_eq!(sanitize_windows_path_component("CON"), "_CON");
    assert_eq!(sanitize_windows_path_component("..."), "stream");
}

#[test]
fn build_named_stream_output_path_deduplicates_case_insensitive_names() {
    let output_path = r"C:\recovery\file.txt";
    let mut seen_names = Vec::new();

    let first = build_named_stream_output_path(output_path, "Zone.Identifier", &mut seen_names);
    let second = build_named_stream_output_path(output_path, "zone.identifier", &mut seen_names);

    assert_eq!(first, r"C:\recovery\file.txt.ads-Zone.Identifier");
    assert_eq!(second, r"C:\recovery\file.txt.ads-zone.identifier-2");
}

#[test]
fn stream_path_without_file_name_uses_recovered() {
    let mut seen = Vec::new();
    assert_eq!(build_named_stream_output_path(r"out\", "a", &mut seen), r"out\recovered.ads-a");
    assert_eq!(seen, vec![("a".to_string(), 1)]);
}

#[test]
fn reserved_names_ignore_ascii_case() {
    assert!(is_windows_reserved_name("com7"));
    assert!(is_windows_reserved_name("Lpt1"));
    assert!(is_windows_reserved_name("nul"));
    assert!(!is_windows_reserved_name("COM0"));
    assert!(!is_windows_reserved_name("CONSOLE"));
}

#[test]
fn request_normalisation_defaults_and_saturates() {
    assert_eq!(normalize_max_scan_bytes(0), 64 * 1024 * 1024);
    assert_eq!(normalize_max_records(0), 4096);
    assert_eq!(normalize_max_records(7), 7);
    assert_eq!(usize_to_u32_saturating(usize::MAX), u32::MAX);
    assert_eq!(usize_to_u32_saturating(12), 12);
    assert_eq!(parse_source_kind(3), Ok(RecoverySourceKind::Volume));
    assert_eq!(parse_source_kind(2), Ok(RecoverySourceKind::ImageFile));
    assert_eq!(parse_source_kind(9), Err(()));
}

#[test]
fn candidate_records_cut_text_at_the_field_size() {
    let long_name = "n".repeat(200);
    let record = encode_ext_deleted_candidate(&ExtDeletedCandidate {
        inode_number: 16,
        entry_offset_bytes: 8192,
        size_bytes: 10,
        name: long_name.clone(),
        path: format!(r".\{long_name}"),
        is_directory: true,
    });
    assert_eq!(record.flags, 0x3);
    assert_eq!(c_text(&record.name), "n".repeat(127));
    assert_eq!(record.name[127], 0);
    let fat = encode_fat_deleted_candidate(&FatDeletedEntry {
        filesystem: FatFilesystemKind::Fat32,
        name: "A.TXT".to_string(),
        path: r".\A.TXT".to_string(),
        is_directory: false,
        start_cluster: 5,
        size_bytes: 9,
    });
    assert_eq!(fat.flags, 0x1);
    assert_eq!(c_text(&fat.reconstructed_path), r".\A.TXT");
    assert_eq!(ExtFilesystemKind::Ext4.as_code(), 3);
}

#[test]
fn raid_layout_record_round_trips() {
    let layout = RaidLayout {
        metadata_family: RaidMetadataFamily::LinuxMd,
        level: RaidLevel::Raid5,
        member_count: 3,
        stripe_size_bytes: 65536,
        data_offset_bytes: 2048,
        parity_rotation: ParityRotation::LeftSymmetric,
        disk_order: vec![2, 0, 1],
        confidence_score: 90,
    };
    let record = encode_raid_layout(&layout);
    assert_eq!(record.level, 4);
    assert_eq!(record.disk_order_count, 3);
    let back = decode_raid_layout(&record).unwrap();
    assert_eq!(back.disk_order, vec![2, 0, 1]);
    assert_eq!(back.level, RaidLevel::Raid5);
    assert_eq!(back.member_count, 3);

    let mut bad = record;
    bad.member_count = 1;
    assert_eq!(decode_raid_layout(&bad).unwrap_err(), 142);
    let mut identity = record;
    identity.disk_order_count = 0;
    assert_eq!(decode_raid_layout(&identity).unwrap().disk_order, vec![0, 1, 2]);
}

#[test]
fn raid_override_record_reads_flagged_fields_only() {
    let mut raw = FrRaidManualOverride {
        flags: 0x0001 | 0x0010,
        level: 1,
        stripe_size_bytes: 4096,
        data_offset_bytes: 0,
        parity_rotation: 0,
        disk_order_count: 2,
        disk_order: [0; 32],
    };
    raw.disk_order[0] = 1;
    let o = decode_raid_manual_override(&raw).unwrap();
    assert_eq!(o.level, Some(RaidLevel::Raid0));
    assert_eq!(o.stripe_size_bytes, None);
    assert_eq!(o.disk_order, Some(vec![1, 0]));
    raw.level = 9;
    assert_eq!(decode_raid_manual_override(&raw).unwrap_err(), 142);
}

#[test]
fn quick_scan_candidate_record_scores_and_flags() {
    let candidate = QuickScanCandidate {
        record_index: 1,
        record_number: 6,
        in_use: false,
        deleted: true,
        is_directory: false,
        has_non_resident_data: false,
        has_named_data_streams: false,
        has_compressed_data: false,
        has_sparse_data: false,
        has_encrypted_data: false,
        usn_reason_mask: None,
        name: Some("report.txt".to_string()),
        parent_record_number: Some(5),
        reconstructed_path: Some(r"Docs\report.txt".to_string()),
        evidence_sources: vec![EvidenceSource::Mft],
    };
    let record = encode_quick_scan_candidate(&candidate);
    assert_eq!(record.record_number, 6);
    assert_eq!(record.parent_record_number, 5);
    assert_eq!(
        record.flags,
        CANDIDATE_FLAG_DELETED | CANDIDATE_FLAG_HAS_NAME | 0x0020 | CANDIDATE_FLAG_EVIDENCE_MFT
    );
    assert_eq!(record.confidence_tier, 0);
    assert!(c_text(&record.confidence_reason).starts_with("Score 88."));
    assert_eq!(c_text(&record.name), "report.txt");
}

#[test]
fn status_codes_and_family_flags() {
    assert_eq!(map_fat_scan_error(&fr_engine::fat::ScanError::ClusterLoop(2)), 73);
    assert_eq!(carve_family_flag_for_extension("webp"), CARVE_FAMILY_IMAGES);
    assert_eq!(carve_family_flag_for_extension("7z"), CARVE_FAMILY_ARCHIVES);
    assert_eq!(carve_family_flag_for_extension("exe"), 0);
}

#[test]
fn ffi_get_carve_signature_pack_metadata_returns_version_and_formats() {
    let metadata = encode_carve_signature_pack_metadata();
    assert_eq!(c_text(&metadata.pack_name), SIGNATURE_PACK_NAME);
    assert_eq!(c_text(&metadata.pack_version), SIGNATURE_PACK_VERSION);
    assert!(metadata.format_count >= 20);
    assert_ne!(metadata.family_flags & CARVE_FAMILY_IMAGES, 0);
    assert_ne!(metadata.family_flags & CARVE_FAMILY_ARCHIVES, 0);
    let formats = c_text(&metadata.formats_csv);
    assert!(formats.contains("webp"));
    assert!(formats.contains("7z"));
    assert!(formats.contains("mp4"));
}

#[test]
fn signature_pack_formats_are_listed_sorted_once_each() {
    let metadata = encode_carve_signature_pack_metadata();
    assert_eq!(metadata.format_count, 20);
    assert_eq!(
        metadata.family_flags,
        CARVE_FAMILY_IMAGES | CARVE_FAMILY_DOCUMENTS | CARVE_FAMILY_ARCHIVES | CARVE_FAMILY_OFFICE | CARVE_FAMILY_MEDIA
    );
    assert_eq!(
        c_text(&metadata.formats_csv),
        "7z,bmp,docx,flac,gif,gz,jpg,mp3,mp4,ogg,pdf,png,pptx,rar,tiff,txt,wav,webp,xlsx,zip"
    );
}

#[test]
fn encode_vss_snapshot_maps_all_fields() {
    let snapshot = VssSnapshot {
        snapshot_id: "{11111111-1111-1111-1111-111111111111}".to_string(),
        volume_name: Some(r"\\?\Volume{abc}\".to_string()),
        device_object: r"\\?\GLOBALROOT\Device\HarddiskVolumeShadowCopy7".to_string(),
        install_time_utc: Some("2026-03-28T10:10:10+00:00".to_string()),
        snapshot_path: r"\\?\GLOBALROOT\Device\HarddiskVolumeShadowCopy7\".to_string(),
    };

    let encoded = encode_vss_snapshot(&snapshot);
    assert_eq!(c_text(&encoded.snapshot_id), snapshot.snapshot_id);
    assert_eq!(c_text(&encoded.volume_name), snapshot.volume_name.as_deref().unwrap());
    assert_eq!(c_text(&encoded.device_object), snapshot.device_object);
    assert_eq!(c_text(&encoded.install_time_utc), snapshot.install_time_utc.as_deref().unwrap());
    assert_eq!(c_text(&encoded.snapshot_path), snapshot.snapshot_path);
}

#[test]
fn vss_snapshot_without_optional_fields_leaves_them_zero() {
    let snapshot = VssSnapshot {
        snapshot_id: "id".to_string(),
        volume_name: None,
        device_object: "dev".to_string(),
        install_time_utc: None,
        snapshot_path: "path".to_string(),
    };
    let encoded = encode_vss_snapshot(&snapshot);
    assert!(encoded.volume_name.iter().all(|b| *b == 0));
    assert!(encoded.install_time_utc.iter().all(|b| *b == 0));
    assert_eq!(c_text(&encoded.device_object), "dev");
}

#[test]
fn xfs_candidate_record_carries_flags_and_text() {
    let candidate = XfsDeletedCandidate {
        inode_number: 88,
        size_bytes: 10_240,
        name: "audit.log".to_string(),
        path: r"logs\audit.log".to_string(),
        is_directory: true,
    };
    let encoded = encode_xfs_deleted_candidate(&candidate);
    assert_eq!(encoded.flags, 0x0003);
    assert_eq!(encoded.inode_number, 88);
    assert_eq!(encoded.size_bytes, 10_240);
    assert_eq!(c_text(&encoded.name), "audit.log");
    assert_eq!(c_text(&encoded.reconstructed_path), r"logs\audit.log");
}
