use fr_engine::mft::{
    parse_data_runs, parse_mft_record, AttributeForm, MftParseError, ATTRIBUTE_TYPE_DATA, ATTRIBUTE_TYPE_END,
    ATTRIBUTE_TYPE_STANDARD_INFORMATION,
};

#[test]
fn parses_record_with_resident_attribute() {
    let mut record = build_base_record(0x70);
    let attr_offset = 0x38;

    write_u32(&mut record, attr_offset, ATTRIBUTE_TYPE_STANDARD_INFORMATION);
    write_u32(&mut record, attr_offset + 4, 0x20);
    record[attr_offset + 8] = 0;
    record[attr_offset + 9] = 0;
    write_u16(&mut record, attr_offset + 10, 0);
    write_u16(&mut record, attr_offset + 12, 0);
    write_u16(&mut record, attr_offset + 14, 1);
    write_u32(&mut record, attr_offset + 16, 4);
    write_u16(&mut record, attr_offset + 20, 0x18);
    record[attr_offset + 24..attr_offset + 28].copy_from_slice(&[1, 2, 3, 4]);

    write_u32(&mut record, attr_offset + 0x20, ATTRIBUTE_TYPE_END);

    let parsed = parse_mft_record(&record, 512).unwrap();
    assert!(parsed.header.in_use());
    assert_eq!(parsed.attributes.len(), 1);

    let attribute = &parsed.attributes[0];
    assert_eq!(attribute.attribute_type, ATTRIBUTE_TYPE_STANDARD_INFORMATION);

    match &attribute.form {
        AttributeForm::Resident(value) => assert_eq!(value.value, vec![1, 2, 3, 4]),
        _ => panic!("expected resident attribute"),
    }
}

#[test]
fn parses_record_with_non_resident_data_runs() {
    let mut record = build_base_record(0xA0);
    let attr_offset = 0x38;

    write_u32(&mut record, attr_offset, ATTRIBUTE_TYPE_DATA);
    write_u32(&mut record, attr_offset + 4, 0x50);
    record[attr_offset + 8] = 1;
    record[attr_offset + 9] = 0;
    write_u16(&mut record, attr_offset + 10, 0);
    write_u16(&mut record, attr_offset + 12, 0);
    write_u16(&mut record, attr_offset + 14, 5);

    write_u64(&mut record, attr_offset + 0x10, 0);
    write_u64(&mut record, attr_offset + 0x18, 9);
    write_u16(&mut record, attr_offset + 0x20, 0x40);
    write_u16(&mut record, attr_offset + 0x22, 0);
    write_u64(&mut record, attr_offset + 0x28, 40960);
    write_u64(&mut record, attr_offset + 0x30, 32768);
    write_u64(&mut record, attr_offset + 0x38, 32768);
    write_u64(&mut record, attr_offset + 0x40, 32768);

    let run_bytes = [0x11, 0x03, 0x0A, 0x11, 0x02, 0xFE, 0x01, 0x05, 0x00];
    record[attr_offset + 0x40..attr_offset + 0x40 + run_bytes.len()].copy_from_slice(&run_bytes);

    write_u32(&mut record, attr_offset + 0x50, ATTRIBUTE_TYPE_END);

    let parsed = parse_mft_record(&record, 512).unwrap();
    assert_eq!(parsed.attributes.len(), 1);

    let attribute = &parsed.attributes[0];
    match &attribute.form {
        AttributeForm::NonResident(value) => {
            assert_eq!(value.data_runs.len(), 3);
            assert_eq!(value.data_runs[0].cluster_count, 3);
            assert_eq!(value.data_runs[0].lcn, Some(10));
            assert_eq!(value.data_runs[1].cluster_count, 2);
            assert_eq!(value.data_runs[1].lcn, Some(8));
            assert_eq!(value.data_runs[2].cluster_count, 5);
            assert_eq!(value.data_runs[2].lcn, None);
        }
        _ => panic!("expected non-resident attribute"),
    }
}

#[test]
fn detects_fixup_mismatch() {
    let mut record = build_base_record(0x70);
    write_u16(&mut record, 510, 0xBBBB);

    let error = parse_mft_record(&record, 512).unwrap_err();
    assert!(matches!(error, MftParseError::FixupMismatch { .. }));
}

fn build_base_record(bytes_in_use: u32) -> Vec<u8> {
    let mut record = vec![0u8; 1024];

    record[0x00..0x04].copy_from_slice(b"FILE");
    write_u16(&mut record, 0x04, 0x30);
    write_u16(&mut record, 0x06, 3);
    write_u16(&mut record, 0x10, 1);
    write_u16(&mut record, 0x12, 1);
    write_u16(&mut record, 0x14, 0x38);
    write_u16(&mut record, 0x16, 0x0001);
    write_u32(&mut record, 0x18, bytes_in_use);
    write_u32(&mut record, 0x1C, 1024);
    write_u64(&mut record, 0x20, 0);
    write_u16(&mut record, 0x28, 1);
    write_u32(&mut record, 0x2C, 42);

    write_u16(&mut record, 0x30, 0xAAAA);
    write_u16(&mut record, 0x32, 0x1111);
    write_u16(&mut record, 0x34, 0x2222);

    write_u16(&mut record, 510, 0xAAAA);
    write_u16(&mut record, 1022, 0xAAAA);

    record
}

fn write_u16(bytes: &mut [u8], offset: usize, value: u16) {
    bytes[offset..offset + 2].copy_from_slice(&value.to_le_bytes());
}

fn write_u32(bytes: &mut [u8], offset: usize, value: u32) {
    bytes[offset..offset + 4].copy_from_slice(&value.to_le_bytes());
}

fn write_u64(bytes: &mut [u8], offset: usize, value: u64) {
    bytes[offset..offset + 8].copy_from_slice(&value.to_le_bytes());
}

#[test]
fn rejects_record_shorter_than_header() {
    let record = vec![0u8; 40];
    let error = parse_mft_record(&record, 512).unwrap_err();
    assert_eq!(error, MftParseError::BufferTooSmall { expected: 48, actual: 40 });
}

#[test]
fn rejects_sector_size_below_two() {
    let record = build_base_record(0x70);
    let error = parse_mft_record(&record, 1).unwrap_err();
    assert_eq!(error, MftParseError::InvalidSectorSize(1));
}

#[test]
fn rejects_record_without_file_signature() {
    let mut record = build_base_record(0x70);
    record[0..4].copy_from_slice(b"BAAD");
    let error = parse_mft_record(&record, 512).unwrap_err();
    assert_eq!(error, MftParseError::InvalidSignature(*b"BAAD"));
}

#[test]
fn fixup_restores_sector_tail_bytes() {
    let mut record = build_base_record(0x70);
    write_u32(&mut record, 0x38, ATTRIBUTE_TYPE_END);
    let parsed = parse_mft_record(&record, 512).unwrap();
    assert_eq!(parsed.header.record_number, 42);
    assert_eq!(parsed.header.bytes_in_use, 0x70);
    assert!(parsed.header.in_use());
    assert!(!parsed.header.is_directory());
    assert!(parsed.attributes.is_empty());
}

#[test]
fn fixup_mismatch_reports_sector_and_values() {
    let mut record = build_base_record(0x70);
    write_u16(&mut record, 1022, 0xCCCC);
    let error = parse_mft_record(&record, 512).unwrap_err();
    assert_eq!(error, MftParseError::FixupMismatch { sector_index: 1, expected: 0xAAAA, actual: 0xCCCC });
}

#[test]
fn rejects_attribute_shorter_than_its_header() {
    let mut record = build_base_record(0x70);
    write_u32(&mut record, 0x38, ATTRIBUTE_TYPE_STANDARD_INFORMATION);
    write_u32(&mut record, 0x3C, 8);
    let error = parse_mft_record(&record, 512).unwrap_err();
    assert_eq!(error, MftParseError::InvalidAttributeLength { offset: 0x38, length: 8 });
}

#[test]
fn zero_length_data_run_is_refused() {
    let error = parse_data_runs(&[0x01, 0x00, 0x00]).unwrap_err();
    assert_eq!(error, MftParseError::InvalidDataRunLength);
    let runs = parse_data_runs(&[0x21, 0x04, 0x00, 0x10, 0x00]).unwrap();
    assert_eq!(runs.len(), 1);
    assert_eq!(runs[0].cluster_count, 4);
    assert_eq!(runs[0].lcn, Some(0x1000));
}
