use fr_engine::usn::{
    decode_reason_labels, parse_usn_records, USN_REASON_LABELLED_BITS, UsnParseError, USN_REASON_CLOSE,
    USN_REASON_FILE_CREATE, USN_REASON_FILE_DELETE, USN_REASON_RENAME_NEW_NAME,
    USN_RECORD_MIN_V2, USN_RECORD_MIN_V3,
};

#[test]
fn parses_v2_record() {
    let record = build_v2_record(
        "report.txt",
        USN_REASON_FILE_DELETE | USN_REASON_CLOSE,
        42,
        7,
    );
    let parsed = parse_usn_records(&record).unwrap();

    assert_eq!(parsed.len(), 1);
    assert_eq!(parsed[0].major_version, 2);
    assert_eq!(parsed[0].file_reference_number, 42);
    assert_eq!(parsed[0].parent_file_reference_number, 7);
    assert_eq!(parsed[0].file_name, "report.txt");
    assert_eq!(
        decode_reason_labels(parsed[0].reason),
        vec!["file-delete", "close"]
    );
}

#[test]
fn parses_v3_record() {
    let record = build_v3_record(
        "notes.md",
        USN_REASON_FILE_CREATE | USN_REASON_RENAME_NEW_NAME,
        512,
        64,
    );
    let parsed = parse_usn_records(&record).unwrap();

    assert_eq!(parsed.len(), 1);
    assert_eq!(parsed[0].major_version, 3);
    assert_eq!(parsed[0].file_reference_number, 512);
    assert_eq!(parsed[0].parent_file_reference_number, 64);
    assert_eq!(parsed[0].file_name, "notes.md");
}

#[test]
fn parses_multiple_records_with_padding() {
    let mut bytes = Vec::new();
    bytes.extend_from_slice(&build_v2_record("a.txt", USN_REASON_CLOSE, 1, 0));
    bytes.extend_from_slice(&build_v3_record("b.txt", USN_REASON_FILE_DELETE, 2, 0));
    bytes.extend_from_slice(&[0u8; 64]);

    let parsed = parse_usn_records(&bytes).unwrap();
    assert_eq!(parsed.len(), 2);
    assert_eq!(parsed[0].file_name, "a.txt");
    assert_eq!(parsed[1].file_name, "b.txt");
}

#[test]
fn returns_error_on_truncated_record() {
    let mut bytes = build_v2_record("broken.bin", USN_REASON_CLOSE, 9, 1);
    bytes.truncate(bytes.len() - 3);

    let error = parse_usn_records(&bytes).unwrap_err();
    assert!(matches!(error, UsnParseError::TruncatedRecordBody { .. }));
}

#[test]
fn zero_bytes_hold_no_records() {
    for n in [0usize, 1, 7, 8, 60, 200] {
        let zeros = vec![0u8; n];
        assert_eq!(parse_usn_records(&zeros).unwrap().len(), 0);
    }
}

#[test]
fn concatenated_buffers_give_concatenated_records() {
    let a = build_v2_record("first.txt", USN_REASON_CLOSE, 10, 1);
    let b = build_v3_record("second.txt", USN_REASON_FILE_DELETE, 11, 1);
    let mut both = a.clone();
    both.extend_from_slice(&b);
    let ra = parse_usn_records(&a).unwrap();
    let rb = parse_usn_records(&b).unwrap();
    let rab = parse_usn_records(&both).unwrap();
    assert_eq!(rab.len(), ra.len() + rb.len());
    assert_eq!(rab[0].file_name, ra[0].file_name);
    assert_eq!(rab[0].file_reference_number, 10);
    assert_eq!(rab[1].file_name, rb[0].file_name);
    assert_eq!(rab[1].major_version, 3);
    assert_eq!(rab[1].reason, USN_REASON_FILE_DELETE);
}

#[test]
fn reason_labels_follow_bit_order_and_union() {
    assert!(decode_reason_labels(0).is_empty());
    assert_eq!(
        decode_reason_labels(USN_REASON_CLOSE | USN_REASON_FILE_DELETE),
        vec!["file-delete", "close"]
    );
    let a = USN_REASON_FILE_CREATE | USN_REASON_CLOSE;
    let b = USN_REASON_RENAME_NEW_NAME | USN_REASON_CLOSE;
    let union = decode_reason_labels(a | b);
    assert_eq!(union, vec!["file-create", "rename-new-name", "close"]);
    for label in decode_reason_labels(a).iter().chain(decode_reason_labels(b).iter()) {
        assert!(union.contains(label));
    }
    assert_eq!(decode_reason_labels(0xFFFF_FFFF).len(), 23);
}

fn build_v2_record(name: &str, reason: u32, file_ref: u64, parent_ref: u64) -> Vec<u8> {
    let name_utf16: Vec<u16> = name.encode_utf16().collect();
    let name_len_bytes = (name_utf16.len() * 2) as u16;
    let header_len = USN_RECORD_MIN_V2 as u16;
    let record_len = align_to_8((header_len + name_len_bytes) as usize);
    let mut record = vec![0u8; record_len];

    write_u32(&mut record, 0, record_len as u32);
    write_u16(&mut record, 4, 2);
    write_u16(&mut record, 6, 0);
    write_u64(&mut record, 8, file_ref);
    write_u64(&mut record, 16, parent_ref);
    write_i64(&mut record, 24, 1001);
    write_i64(&mut record, 32, 1337);
    write_u32(&mut record, 40, reason);
    write_u32(&mut record, 44, 0);
    write_u32(&mut record, 48, 0);
    write_u32(&mut record, 52, 0);
    write_u16(&mut record, 56, name_len_bytes);
    write_u16(&mut record, 58, header_len);

    write_utf16_name(&mut record, header_len as usize, &name_utf16);
    record
}

fn build_v3_record(name: &str, reason: u32, file_ref: u64, parent_ref: u64) -> Vec<u8> {
    let name_utf16: Vec<u16> = name.encode_utf16().collect();
    let name_len_bytes = (name_utf16.len() * 2) as u16;
    let header_len = USN_RECORD_MIN_V3 as u16;
    let record_len = align_to_8((header_len + name_len_bytes) as usize);
    let mut record = vec![0u8; record_len];

    write_u32(&mut record, 0, record_len as u32);
    write_u16(&mut record, 4, 3);
    write_u16(&mut record, 6, 0);
    write_u64(&mut record, 8, file_ref);
    write_u64(&mut record, 24, parent_ref);
    write_i64(&mut record, 40, 2002);
    write_i64(&mut record, 48, 4242);
    write_u32(&mut record, 56, reason);
    write_u32(&mut record, 60, 0);
    write_u32(&mut record, 64, 0);
    write_u32(&mut record, 68, 0);
    write_u16(&mut record, 72, name_len_bytes);
    write_u16(&mut record, 74, header_len);

    write_utf16_name(&mut record, header_len as usize, &name_utf16);
    record
}

fn write_utf16_name(record: &mut [u8], offset: usize, utf16: &[u16]) {
    let mut cursor = offset;
    for code in utf16 {
        record[cursor..cursor + 2].copy_from_slice(&code.to_le_bytes());
        cursor += 2;
    }
}

fn align_to_8(value: usize) -> usize {
    (value + 7) & !7
}

fn write_u16(bytes: &mut [u8], offset: usize, value: u16) {
    bytes[offset..offset + 2].copy_from_slice(&value.to_le_bytes());
}

fn write_u32(bytes: &mut [u8], offset: usize, value: u32) {
    bytes[offset..offset + 4].copy_from_slice(&value.to_le_bytes());
}

fn write_u64(bytes: &mut [u8], offset: usize, value: u64) {
    bytes[offset..offset + 8].copy_from_slice(&value.to_le_bytes());
}

fn write_i64(bytes: &mut [u8], offset: usize, value: i64) {
    bytes[offset..offset + 8].copy_from_slice(&value.to_le_bytes());
}

#[test]
fn label_count_is_the_number_of_labelled_bits_set() {
    for reason in [0u32, 1, 0x8, 0x200 | 0x8000_0000, 0x7FFF_FFFF, 0xFFFF_FFFF, 0x1234_5678, 0x0100_0088] {
        assert_eq!(
            decode_reason_labels(reason).len() as u32,
            (reason & USN_REASON_LABELLED_BITS).count_ones()
        );
    }
    assert_eq!(USN_REASON_LABELLED_BITS, 0x80FF_FF77);
}
