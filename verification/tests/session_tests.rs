use fr_engine::session::{
    apply_usn_evidence, quick_scan_ntfs_metadata, MftRecordScan, QuickScanConfig, QuickScanError,
    QuickScanSummary, SessionError, SessionOrchestrator, UtcInstant,
};
use fr_engine::types::EvidenceSource;

const T0: UtcInstant = UtcInstant { seconds: 1_700_000_000, nanos: 0 };
const T1: UtcInstant = UtcInstant { seconds: 1_700_000_060, nanos: 500 };
use fr_engine::usn::{UsnRecord, USN_REASON_CLOSE, USN_REASON_FILE_DELETE};

#[test]
fn can_checkpoint_and_cancel() {
    let mut orchestrator = SessionOrchestrator::default();
    let session = orchestrator.start_session("abc", T0);
    assert_eq!(session.state.checkpoint, "initialized");

    orchestrator.checkpoint("abc", "mft-pass", T1).unwrap();
    orchestrator.cancel("abc", T1).unwrap();

    let state = orchestrator.get("abc").unwrap();
    assert_eq!(state.state.checkpoint, "mft-pass");
    assert!(state.state.canceled);
}

#[test]
fn unknown_sessions_are_not_found() {
    let mut orchestrator = SessionOrchestrator::default();
    orchestrator.start_session("abc", T0);
    assert_eq!(
        orchestrator.checkpoint("xyz", "mft-pass", T1),
        Err(SessionError::NotFound("xyz".to_string()))
    );
    assert_eq!(orchestrator.cancel("xyz", T1), Err(SessionError::NotFound("xyz".to_string())));
    assert!(orchestrator.get("xyz").is_none());
    let kept = orchestrator.get("abc").unwrap();
    assert_eq!(kept.state.checkpoint, "initialized");
    assert!(!kept.state.canceled);
}

#[test]
fn restarting_a_session_resets_it() {
    let mut orchestrator = SessionOrchestrator::default();
    orchestrator.start_session("abc", T0);
    orchestrator.start_session("def", T0);
    orchestrator.checkpoint("abc", "mft-pass", T1).unwrap();
    orchestrator.cancel("abc", T1).unwrap();
    let again = orchestrator.start_session("abc", T0);
    assert_eq!(again.state.checkpoint, "initialized");
    assert!(!again.state.canceled);
    let state = orchestrator.get("abc").unwrap();
    assert_eq!(state.state.checkpoint, "initialized");
    assert!(!state.state.canceled);
    assert_eq!(orchestrator.get("def").unwrap().state.checkpoint, "initialized");
}

#[test]
fn quick_scan_parses_single_record() {
    let image = build_test_ntfs_image_with_single_record();

    let summary =
        quick_scan_ntfs_metadata(&image, QuickScanConfig { max_records: 16 }).unwrap();

    assert_eq!(summary.parsed_records, 1);
    assert_eq!(summary.parse_failures, 0);
    assert_eq!(summary.resident_attribute_count, 1);
    assert_eq!(summary.non_resident_attribute_count, 0);
}

#[test]
fn quick_scan_extracts_deleted_named_candidate() {
    let image = build_test_ntfs_image_with_named_records();

    let summary =
        quick_scan_ntfs_metadata(&image, QuickScanConfig { max_records: 16 }).unwrap();

    assert_eq!(summary.parsed_records, 2);
    assert_eq!(summary.deleted_records, 1);
    assert_eq!(summary.named_records, 2);
    assert_eq!(summary.candidates.len(), 2);

    let deleted = summary
        .candidates
        .iter()
        .find(|candidate| candidate.record_number == 6)
        .unwrap();

    assert!(deleted.deleted);
    assert_eq!(deleted.name.as_deref(), Some("report.txt"));
    assert_eq!(deleted.parent_record_number, Some(5));
    assert_eq!(
        deleted.reconstructed_path.as_deref(),
        Some(r"Docs\report.txt")
    );
}

#[test]
fn quick_scan_skips_zero_record_gap_before_later_records() {
    let image = build_test_ntfs_image_with_named_records_at_indexes(0, 20);

    let summary =
        quick_scan_ntfs_metadata(&image, QuickScanConfig { max_records: 64 }).unwrap();

    assert_eq!(summary.parsed_records, 2);
    assert_eq!(summary.deleted_records, 1);
    assert_eq!(summary.named_records, 2);

    let deleted = summary
        .candidates
        .iter()
        .find(|candidate| candidate.record_number == 6)
        .unwrap();
    assert!(deleted.deleted);
    assert_eq!(
        deleted.reconstructed_path.as_deref(),
        Some(r"Docs\report.txt")
    );
}

#[test]
fn apply_usn_evidence_marks_matching_candidate() {
    let image = build_test_ntfs_image_with_named_records();
    let mut summary =
        quick_scan_ntfs_metadata(&image, QuickScanConfig { max_records: 16 }).unwrap();

    let usn_records = vec![UsnRecord {
        major_version: 2,
        minor_version: 0,
        file_reference_number: 6,
        parent_file_reference_number: 5,
        usn: 9,
        timestamp_100ns: 10,
        reason: USN_REASON_FILE_DELETE | USN_REASON_CLOSE,
        source_info: 0,
        security_id: 0,
        file_attributes: 0,
        file_name: "report.txt".to_string(),
    }];

    let enriched = apply_usn_evidence(&mut summary.candidates, &usn_records);
    assert_eq!(enriched, 1);

    let deleted = summary
        .candidates
        .iter()
        .find(|candidate| candidate.record_number == 6)
        .unwrap();
    assert!(deleted.evidence_sources.contains(&EvidenceSource::Mft));
    assert!(deleted.evidence_sources.contains(&EvidenceSource::Usn));
    assert_eq!(
        deleted.usn_reason_mask,
        Some(USN_REASON_FILE_DELETE | USN_REASON_CLOSE)
    );
}

#[test]
fn quick_scan_reports_mft_bounds_error() {
    let mut image = vec![0u8; 4096];
    image[0x03..0x0B].copy_from_slice(b"NTFS    ");
    write_u16(&mut image, 0x0B, 512);
    image[0x0D] = 1;
    write_u64(&mut image, 0x28, 1000);
    write_u64(&mut image, 0x30, 1_000_000);
    write_u64(&mut image, 0x38, 1);
    image[0x40] = (-10i8) as u8;
    image[0x44] = 1;
    write_u16(&mut image, 0x1FE, 0xAA55);

    let error = quick_scan_ntfs_metadata(&image, QuickScanConfig::default()).unwrap_err();
    assert!(matches!(error, QuickScanError::MftOutOfBounds(_, _)));
}

fn build_test_ntfs_image_with_single_record() -> Vec<u8> {
    let mut image = vec![0u8; 8 * 1024];

    image[0x03..0x0B].copy_from_slice(b"NTFS    ");
    write_u16(&mut image, 0x0B, 512);
    image[0x0D] = 1;
    write_u64(&mut image, 0x28, 16_000);
    write_u64(&mut image, 0x30, 4);
    write_u64(&mut image, 0x38, 2);
    image[0x40] = (-10i8) as u8;
    image[0x44] = 1;
    write_u64(&mut image, 0x48, 0xAABBCCDDEEFF0011);
    write_u16(&mut image, 0x1FE, 0xAA55);

    let mft_offset = 4 * 512;
    let record = build_resident_mft_record();
    image[mft_offset..mft_offset + record.len()].copy_from_slice(&record);

    image
}

fn build_test_ntfs_image_with_named_records() -> Vec<u8> {
    build_test_ntfs_image_with_named_records_at_indexes(0, 1)
}

fn build_test_ntfs_image_with_named_records_at_indexes(
    parent_record_index: usize,
    child_record_index: usize,
) -> Vec<u8> {
    let highest_record_index = parent_record_index.max(child_record_index);
    let image_len = (8 + highest_record_index + 1) * 1024;
    let mut image = vec![0u8; image_len];

    image[0x03..0x0B].copy_from_slice(b"NTFS    ");
    write_u16(&mut image, 0x0B, 512);
    image[0x0D] = 1;
    write_u64(&mut image, 0x28, 24_000);
    write_u64(&mut image, 0x30, 4);
    write_u64(&mut image, 0x38, 2);
    image[0x40] = (-10i8) as u8;
    image[0x44] = 1;
    write_u16(&mut image, 0x1FE, 0xAA55);

    let mft_offset = 4 * 512;
    let parent = build_named_record(5, 0x0003, "Docs", 0);
    let child_deleted = build_named_record(6, 0x0000, "report.txt", 5);
    let parent_offset = mft_offset + parent_record_index * 1024;
    let child_offset = mft_offset + child_record_index * 1024;

    image[parent_offset..parent_offset + parent.len()].copy_from_slice(&parent);
    image[child_offset..child_offset + child_deleted.len()].copy_from_slice(&child_deleted);

    image
}

fn build_resident_mft_record() -> Vec<u8> {
    let mut record = vec![0u8; 1024];
    record[0x00..0x04].copy_from_slice(b"FILE");
    write_u16(&mut record, 0x04, 0x30);
    write_u16(&mut record, 0x06, 3);
    write_u16(&mut record, 0x10, 1);
    write_u16(&mut record, 0x12, 1);
    write_u16(&mut record, 0x14, 0x38);
    write_u16(&mut record, 0x16, 0x0001);
    write_u32(&mut record, 0x18, 0x70);
    write_u32(&mut record, 0x1C, 1024);

    write_u16(&mut record, 0x30, 0xAAAA);
    write_u16(&mut record, 0x32, 0x1111);
    write_u16(&mut record, 0x34, 0x2222);
    write_u16(&mut record, 510, 0xAAAA);
    write_u16(&mut record, 1022, 0xAAAA);

    let attr_offset = 0x38;
    write_u32(&mut record, attr_offset, 0x10);
    write_u32(&mut record, attr_offset + 4, 0x20);
    record[attr_offset + 8] = 0;
    record[attr_offset + 9] = 0;
    write_u16(&mut record, attr_offset + 10, 0);
    write_u16(&mut record, attr_offset + 12, 0);
    write_u16(&mut record, attr_offset + 14, 1);
    write_u32(&mut record, attr_offset + 16, 4);
    write_u16(&mut record, attr_offset + 20, 0x18);
    record[attr_offset + 24..attr_offset + 28].copy_from_slice(&[1, 2, 3, 4]);
    write_u32(&mut record, attr_offset + 0x20, 0xFFFF_FFFF);

    record
}

fn build_named_record(
    record_number: u32,
    flags: u16,
    file_name: &str,
    parent_record: u64,
) -> Vec<u8> {
    let mut record = vec![0u8; 1024];
    record[0x00..0x04].copy_from_slice(b"FILE");
    write_u16(&mut record, 0x04, 0x30);
    write_u16(&mut record, 0x06, 3);
    write_u16(&mut record, 0x10, 1);
    write_u16(&mut record, 0x12, 1);
    write_u16(&mut record, 0x14, 0x38);
    write_u16(&mut record, 0x16, flags);
    write_u32(&mut record, 0x1C, 1024);
    write_u32(&mut record, 0x2C, record_number);

    write_u16(&mut record, 0x30, 0xAAAA);
    write_u16(&mut record, 0x32, 0x1111);
    write_u16(&mut record, 0x34, 0x2222);
    write_u16(&mut record, 510, 0xAAAA);
    write_u16(&mut record, 1022, 0xAAAA);

    let attr_offset = 0x38usize;
    let file_name_attr = build_file_name_attribute(file_name, parent_record);
    record[attr_offset..attr_offset + file_name_attr.len()].copy_from_slice(&file_name_attr);

    let end_offset = attr_offset + file_name_attr.len();
    write_u32(&mut record, end_offset, 0xFFFF_FFFF);
    write_u32(&mut record, 0x18, (end_offset + 4) as u32);

    record
}

fn build_file_name_attribute(file_name: &str, parent_record: u64) -> Vec<u8> {
    let utf16: Vec<u16> = file_name.encode_utf16().collect();
    let name_len = utf16.len() as u8;
    let value_len = 0x42usize + utf16.len() * 2;
    let attr_len = 0x18usize + value_len;
    let mut attr = vec![0u8; attr_len];

    write_u32(&mut attr, 0x00, 0x30);
    write_u32(&mut attr, 0x04, attr_len as u32);
    attr[0x08] = 0;
    attr[0x09] = 0;
    write_u16(&mut attr, 0x0A, 0);
    write_u16(&mut attr, 0x0C, 0);
    write_u16(&mut attr, 0x0E, 1);
    write_u32(&mut attr, 0x10, value_len as u32);
    write_u16(&mut attr, 0x14, 0x18);

    write_u64(&mut attr, 0x18, parent_record & 0x0000_FFFF_FFFF_FFFF);
    attr[0x18 + 0x40] = name_len;
    attr[0x18 + 0x41] = 1;

    let mut cursor = 0x18 + 0x42;
    for code in utf16 {
        attr[cursor..cursor + 2].copy_from_slice(&code.to_le_bytes());
        cursor += 2;
    }

    attr
}

fn write_u16(bytes: &mut [u8], offset: usize, value: u16) {
    bytes[offset..offset + 2].copy_from_slice(&value.to_le_bytes());
}

fn write_u32(bytes: &mut [u8], offset: usize, value: u32) {
    bytes[offset..offset + 4].copy_from_slice(&value.to_le_bytes());
}

fn write_u64(bytes: &mut [u8], offset: usize, value: u64) {
    bytes[offset..offset + 8].copy_from_slice(&value.to_le_bytes());
}

#[test]
fn quick_scan_reports_unparsable_record_with_message() {
    let mut image = build_test_ntfs_image_with_named_records();
    let mft_offset = 4 * 512;
    image[mft_offset..mft_offset + 4].copy_from_slice(b"BAAD");

    let summary = quick_scan_ntfs_metadata(&image, QuickScanConfig { max_records: 16 }).unwrap();
    assert_eq!(summary.parsed_records, 1);
    assert_eq!(summary.parse_failures, 1);
    assert_eq!(summary.record_errors[0].record_index, 0);
    assert_eq!(summary.record_errors[0].reason, "invalid MFT record signature: [66, 65, 65, 68]");
    let orphan = &summary.candidates[0];
    assert_eq!(orphan.record_number, 6);
    assert_eq!(orphan.reconstructed_path.as_deref(), Some("report.txt"));
}

#[test]
fn quick_scan_rejects_small_file_records() {
    let mut image = build_test_ntfs_image_with_named_records();
    image[0x40] = (-7i8) as u8;
    let error = quick_scan_ntfs_metadata(&image, QuickScanConfig::default()).unwrap_err();
    assert_eq!(error, QuickScanError::InvalidFileRecordSize(128));
}

#[test]
fn quick_scan_rejects_short_boot_sector() {
    let image = vec![0u8; 100];
    let error = quick_scan_ntfs_metadata(&image, QuickScanConfig::default()).unwrap_err();
    assert!(matches!(error, QuickScanError::BootSector(_)));
}

#[test]
fn quick_scan_with_no_record_budget_visits_nothing() {
    let image = build_test_ntfs_image_with_named_records();
    let summary = quick_scan_ntfs_metadata(&image, QuickScanConfig { max_records: 0 }).unwrap();
    assert_eq!(summary.parsed_records, 0);
    assert!(summary.candidates.is_empty());
    assert!(summary.record_errors.is_empty());
}

#[test]
fn quick_scan_stops_following_parent_cycles() {
    let mut image = vec![0u8; (8 + 2) * 1024];
    image[0x03..0x0B].copy_from_slice(b"NTFS    ");
    write_u16(&mut image, 0x0B, 512);
    image[0x0D] = 1;
    write_u64(&mut image, 0x30, 4);
    image[0x40] = (-10i8) as u8;
    image[0x44] = 1;
    write_u16(&mut image, 0x1FE, 0xAA55);
    let a = build_named_record(7, 0x0001, "a", 8);
    let b = build_named_record(8, 0x0001, "b", 7);
    image[2048..2048 + 1024].copy_from_slice(&a);
    image[3072..3072 + 1024].copy_from_slice(&b);

    let summary = quick_scan_ntfs_metadata(&image, QuickScanConfig { max_records: 4 }).unwrap();
    assert_eq!(summary.candidates.len(), 2);
    assert_eq!(summary.candidates[0].reconstructed_path.as_deref(), Some(r"a\b\a"));
    assert_eq!(summary.candidates[1].reconstructed_path.as_deref(), Some(r"b\a\b"));
}

#[test]
fn usn_evidence_matches_trimmed_case_insensitive_names_once() {
    let image = build_test_ntfs_image_with_named_records();
    let mut summary = quick_scan_ntfs_metadata(&image, QuickScanConfig { max_records: 16 }).unwrap();
    let record = |name: &str, reason: u32| UsnRecord {
        major_version: 2,
        minor_version: 0,
        file_reference_number: 6,
        parent_file_reference_number: 5,
        usn: 1,
        timestamp_100ns: 1,
        reason,
        source_info: 0,
        security_id: 0,
        file_attributes: 0,
        file_name: name.to_string(),
    };
    let usn_records = vec![record("  REPORT.TXT ", USN_REASON_FILE_DELETE), record("report.txt", USN_REASON_CLOSE)];

    assert_eq!(apply_usn_evidence(&mut summary.candidates, &usn_records), 1);
    assert_eq!(apply_usn_evidence(&mut summary.candidates, &usn_records), 1);
    let deleted = summary.candidates.iter().find(|c| c.record_number == 6).unwrap();
    assert_eq!(deleted.evidence_sources, vec![EvidenceSource::Mft, EvidenceSource::Usn]);
    assert_eq!(deleted.usn_reason_mask, Some(USN_REASON_FILE_DELETE | USN_REASON_CLOSE));
    let parent = summary.candidates.iter().find(|c| c.record_number == 5).unwrap();
    assert_eq!(parent.usn_reason_mask, None);
    assert_eq!(parent.evidence_sources, vec![EvidenceSource::Mft]);
}

#[test]
fn usn_evidence_without_records_changes_nothing() {
    let image = build_test_ntfs_image_with_named_records();
    let mut summary = quick_scan_ntfs_metadata(&image, QuickScanConfig { max_records: 16 }).unwrap();
    let before = summary.candidates.clone();
    assert_eq!(apply_usn_evidence(&mut summary.candidates, &[]), 0);
    assert_eq!(summary.candidates, before);
}

/// Drives a record-at-a-time scan over an in-memory volume, the way a
/// caller reading from a device would.
fn scan_record_by_record(volume: &[u8], config: QuickScanConfig) -> Result<QuickScanSummary, QuickScanError> {
    if volume.len() < 512 {
        return Err(QuickScanError::SourceTooSmall);
    }
    let mut scan = MftRecordScan::begin(&volume[..512], config)?;
    let size = scan.record_size();
    while let Some(offset) = scan.next_record_offset()? {
        let start = offset as usize;
        if start + size <= volume.len() {
            scan.record_read(Some(&volume[start..start + size]));
        } else {
            scan.record_read(None);
        }
    }
    Ok(scan.finish())
}

#[test]
fn record_by_record_scan_matches_in_memory_scan() {
    for image in [
        build_test_ntfs_image_with_single_record(),
        build_test_ntfs_image_with_named_records(),
        build_test_ntfs_image_with_named_records_at_indexes(5, 20),
    ] {
        let config = QuickScanConfig { max_records: 64 };
        let a = quick_scan_ntfs_metadata(&image, config).unwrap();
        let b = scan_record_by_record(&image, config).unwrap();
        assert_eq!(a.parsed_records, b.parsed_records);
        assert_eq!(a.parse_failures, b.parse_failures);
        assert_eq!(a.resident_attribute_count, b.resident_attribute_count);
        assert_eq!(a.non_resident_attribute_count, b.non_resident_attribute_count);
        assert_eq!(a.deleted_records, b.deleted_records);
        assert_eq!(a.named_records, b.named_records);
        assert_eq!(a.candidates, b.candidates);
        assert_eq!(a.record_errors, b.record_errors);
    }
}

#[test]
fn record_by_record_scan_finds_the_deleted_named_candidate() {
    let image = build_test_ntfs_image_with_named_records();
    let summary = scan_record_by_record(&image, QuickScanConfig { max_records: 16 }).unwrap();
    assert_eq!(summary.parsed_records, 2);
    assert_eq!(summary.deleted_records, 1);
    let deleted = summary.candidates.iter().find(|c| c.record_number == 6).unwrap();
    assert_eq!(deleted.reconstructed_path.as_deref(), Some(r"Docs\report.txt"));
}

#[test]
fn record_by_record_scan_uses_the_default_budget_for_zero() {
    let image = build_test_ntfs_image_with_single_record();
    let mut scan = MftRecordScan::begin(&image[..512], QuickScanConfig { max_records: 0 }).unwrap();
    let mut visited = 0;
    while let Some(_) = scan.next_record_offset().unwrap() {
        scan.record_read(Some(&vec![0u8; scan.record_size()]));
        visited += 1;
    }
    // The default budget is 4096 slots; zero slots never stop it earlier.
    assert_eq!(visited, 4096);
    assert_eq!(scan.finish().parsed_records, 0);
}

#[test]
fn record_by_record_scan_stops_at_a_failed_read() {
    let image = build_test_ntfs_image_with_single_record();
    let mut scan = MftRecordScan::begin(&image[..512], QuickScanConfig { max_records: 16 }).unwrap();
    assert!(scan.next_record_offset().unwrap().is_some());
    scan.record_read(None);
    assert_eq!(scan.next_record_offset().unwrap(), None);
    assert_eq!(scan.finish().parsed_records, 0);
}

#[test]
fn record_by_record_scan_rejects_bad_boot_sectors() {
    assert!(matches!(
        MftRecordScan::begin(&[0u8; 100], QuickScanConfig::default()),
        Err(QuickScanError::BootSector(_))
    ));
    let mut image = build_test_ntfs_image_with_single_record();
    image[0x40] = (-7i8) as u8;
    assert!(matches!(
        MftRecordScan::begin(&image[..512], QuickScanConfig::default()),
        Err(QuickScanError::InvalidFileRecordSize(128))
    ));
}

#[test]
fn session_records_carry_the_callers_clock() {
    let mut orchestrator = SessionOrchestrator::default();
    assert_eq!(orchestrator.start_session("abc", T0).updated_at, T0);
    orchestrator.checkpoint("abc", "mft-pass", T1).unwrap();
    assert_eq!(orchestrator.get("abc").unwrap().updated_at, T1);
}
