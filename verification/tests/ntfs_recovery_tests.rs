use fr_engine::mft::{AttributeForm, DataRun, MftRecord, NonResidentAttribute};
use fr_engine::ntfs::NtfsBootSector;
use fr_engine::ntfs_recovery::{
    begin_compressed_export, begin_stream_tally, compressed_stream_end, compressed_unit_step, tally_stream, UnitAction,
    compression_unit_cluster_count, decompressed_unit_outcome, finish_ntfs_recovery,
    locate_mft_record, plan_compressed_stream, plan_stream_recovery, select_data_streams, start_stream_export,
    RECOVERY_DIAG_NO_DEFAULT_DATA_STREAM,
    trim_lznt1_stream_padding, CompressionUnit, Extent, StreamPlan, UnitPlanEnd, RECOVERY_DIAG_EXPORTED_NAMED_DATA_STREAMS, RECOVERY_DIAG_HAS_NAMED_DATA_STREAM,
    RECOVERY_DIAG_SKIPPED_NAMED_DATA_STREAMS, RECOVERY_DIAG_SPARSE_ZERO_FILLED,
    RECOVERY_DIAG_UNSUPPORTED_COMPRESSED, RECOVERY_DIAG_UNSUPPORTED_ENCRYPTED,
};
use fr_engine::recovery::DataWrite;

const ATTRIBUTE_TYPE_DATA: u32 = 0x80;

fn write_u16(b: &mut [u8], at: usize, v: u16) {
    b[at..at + 2].copy_from_slice(&v.to_le_bytes());
}
fn write_u32(b: &mut [u8], at: usize, v: u32) {
    b[at..at + 4].copy_from_slice(&v.to_le_bytes());
}
fn write_u64(b: &mut [u8], at: usize, v: u64) {
    b[at..at + 8].copy_from_slice(&v.to_le_bytes());
}

fn image_with_record_at_index(record: &[u8], record_index: usize) -> Vec<u8> {
    let mut image = vec![0u8; (8 + record_index + 1) * 1024];
    image[0x03..0x0B].copy_from_slice(b"NTFS    ");
    write_u16(&mut image, 0x0B, 512);
    image[0x0D] = 1;
    write_u64(&mut image, 0x28, 24_000);
    write_u64(&mut image, 0x30, 4);
    write_u64(&mut image, 0x38, 2);
    image[0x40] = (-10i8) as u8;
    image[0x44] = 1;
    write_u16(&mut image, 0x1FE, 0xAA55);
    let record_offset = 4 * 512 + record_index * 1024;
    image[record_offset..record_offset + record.len()].copy_from_slice(record);
    image
}

fn record_with_data_attributes(record_number: u32, attributes: Vec<Vec<u8>>) -> Vec<u8> {
    let mut record = vec![0u8; 1024];
    record[0x00..0x04].copy_from_slice(b"FILE");
    write_u16(&mut record, 0x04, 0x30);
    write_u16(&mut record, 0x06, 3);
    write_u16(&mut record, 0x10, 1);
    write_u16(&mut record, 0x12, 1);
    write_u16(&mut record, 0x14, 0x38);
    write_u16(&mut record, 0x16, 0x0001);
    write_u32(&mut record, 0x1C, 1024);
    write_u32(&mut record, 0x2C, record_number);
    write_u16(&mut record, 0x30, 0xAAAA);
    write_u16(&mut record, 0x32, 0x1111);
    write_u16(&mut record, 0x34, 0x2222);
    write_u16(&mut record, 510, 0xAAAA);
    write_u16(&mut record, 1022, 0xAAAA);
    let mut cursor = 0x38usize;
    for attribute in attributes {
        record[cursor..cursor + attribute.len()].copy_from_slice(&attribute);
        cursor += attribute.len();
    }
    write_u32(&mut record, cursor, 0xFFFF_FFFF);
    write_u32(&mut record, 0x18, (cursor + 4) as u32);
    record
}

fn utf16_name(name: Option<&str>) -> Vec<u16> {
    name.map(|n| n.encode_utf16().collect()).unwrap_or_default()
}

fn resident_data_attribute(id: u16, name: Option<&str>, flags: u16, value: &[u8]) -> Vec<u8> {
    let units = utf16_name(name);
    let name_offset = if units.is_empty() { 0 } else { 0x18 };
    let value_offset = 0x18 + units.len() * 2;
    let attr_len = (value_offset + value.len() + 7) & !7;
    let mut attr = vec![0u8; attr_len];
    write_u32(&mut attr, 0x00, ATTRIBUTE_TYPE_DATA);
    write_u32(&mut attr, 0x04, attr_len as u32);
    attr[0x09] = units.len() as u8;
    write_u16(&mut attr, 0x0A, name_offset as u16);
    write_u16(&mut attr, 0x0C, flags);
    write_u16(&mut attr, 0x0E, id);
    write_u32(&mut attr, 0x10, value.len() as u32);
    write_u16(&mut attr, 0x14, value_offset as u16);
    for (k, unit) in units.iter().enumerate() {
        write_u16(&mut attr, name_offset + 2 * k, *unit);
    }
    attr[value_offset..value_offset + value.len()].copy_from_slice(value);
    attr
}

fn encode_unsigned_le(value: u64) -> Vec<u8> {
    let mut encoded = value.to_le_bytes().to_vec();
    while encoded.len() > 1 && encoded.last() == Some(&0) {
        encoded.pop();
    }
    encoded
}

fn encode_signed_le(value: i64) -> Vec<u8> {
    let bytes = value.to_le_bytes();
    let mut length = 8usize;
    while length > 1 {
        let last = bytes[length - 1];
        let next = bytes[length - 2];
        let positive = last == 0x00 && (next & 0x80) == 0;
        let negative = last == 0xFF && (next & 0x80) != 0;
        if positive || negative {
            length -= 1;
            continue;
        }
        break;
    }
    bytes[..length].to_vec()
}

fn mapping_pairs(runs: &[(u64, Option<i64>)]) -> Vec<u8> {
    let mut bytes = Vec::new();
    let mut current = 0i64;
    for (count, lcn) in runs {
        let length = encode_unsigned_le(*count);
        let (offset, next) = match lcn {
            Some(target) => (encode_signed_le(target - current), *target),
            None => (Vec::new(), current),
        };
        bytes.push(((offset.len() as u8) << 4) | length.len() as u8);
        bytes.extend_from_slice(&length);
        bytes.extend_from_slice(&offset);
        current = next;
    }
    bytes.push(0);
    bytes
}

fn non_resident_data_attribute(
    id: u16,
    flags: u16,
    data_size: u64,
    runs: &[(u64, Option<i64>)],
    cluster_size: u64,
) -> Vec<u8> {
    let pairs = mapping_pairs(runs);
    let header_len = 0x48usize;
    let attr_len = (header_len + pairs.len() + 7) & !7;
    let mut attr = vec![0u8; attr_len];
    write_u32(&mut attr, 0x00, ATTRIBUTE_TYPE_DATA);
    write_u32(&mut attr, 0x04, attr_len as u32);
    attr[0x08] = 1;
    write_u16(&mut attr, 0x0C, flags);
    write_u16(&mut attr, 0x0E, id);
    let total: u64 = runs.iter().map(|(count, _)| *count).sum();
    write_u64(&mut attr, 0x18, total.saturating_sub(1));
    write_u16(&mut attr, 0x20, header_len as u16);
    write_u64(&mut attr, 0x28, total * cluster_size);
    write_u64(&mut attr, 0x30, data_size);
    write_u64(&mut attr, 0x38, data_size);
    attr[header_len..header_len + pairs.len()].copy_from_slice(&pairs);
    attr
}

fn materialize(image: &[u8], writes: &[DataWrite]) -> Vec<u8> {
    let mut out = Vec::new();
    for write in writes {
        match write {
            DataWrite::Zeros(n) => out.extend(std::iter::repeat(0u8).take(*n)),
            DataWrite::Image(offset, n) => {
                out.extend_from_slice(&image[*offset as usize..*offset as usize + n])
            }
        }
    }
    out
}

fn resident_value(record: &MftRecord, index: usize) -> Vec<u8> {
    match &record.attributes[index].form {
        AttributeForm::Resident(resident) => resident.value.clone(),
        AttributeForm::NonResident(_) => panic!("expected a resident attribute"),
    }
}

fn stream_bytes(image: &[u8], boot: &NtfsBootSector, record: &MftRecord, index: usize) -> (Vec<u8>, bool, u32) {
    let (plan, diag) = plan_stream_recovery(image.len(), boot, &record.attributes[index]);
    match plan.unwrap() {
        (StreamPlan::Resident, partial) => (resident_value(record, index), partial, diag),
        (StreamPlan::Writes(writes), partial) => (materialize(image, &writes), partial, diag),
        (StreamPlan::Compressed, _) => panic!("unexpected compressed stream"),
    }
}

#[test]
fn recover_exports_default_and_named_streams() {
    let record = record_with_data_attributes(
        42,
        vec![
            resident_data_attribute(1, None, 0, b"default-stream"),
            resident_data_attribute(2, Some("Zone.Identifier"), 0, b"named-stream"),
        ],
    );
    let image = image_with_record_at_index(&record, 0);
    let (boot, found) = locate_mft_record(&image, 42).unwrap();
    let (unnamed, named, diag) = select_data_streams(&found);
    assert_eq!(unnamed, Some(0));
    assert_eq!(named, vec![1]);
    assert_ne!(diag & RECOVERY_DIAG_HAS_NAMED_DATA_STREAM, 0);
    assert_eq!(stream_bytes(&image, &boot, &found, 0).0, b"default-stream");
    assert_eq!(stream_bytes(&image, &boot, &found, 1).0, b"named-stream");
    let (status, final_diag) = finish_ntfs_recovery(2, 1, 0, diag);
    assert_eq!(status, 0);
    assert_ne!(final_diag & RECOVERY_DIAG_EXPORTED_NAMED_DATA_STREAMS, 0);
}

#[test]
fn recover_finds_record_after_zero_gap() {
    let record = record_with_data_attributes(
        123,
        vec![resident_data_attribute(1, None, 0, b"gap-test-payload")],
    );
    let image = image_with_record_at_index(&record, 24);
    let (boot, found) = locate_mft_record(&image, 123).unwrap();
    assert_eq!(found.header.record_number, 123);
    assert_eq!(stream_bytes(&image, &boot, &found, 0).0, b"gap-test-payload");
}

#[test]
fn recover_reports_missing_record_and_bad_boot_sector() {
    let record = record_with_data_attributes(5, vec![resident_data_attribute(1, None, 0, b"x")]);
    let image = image_with_record_at_index(&record, 0);
    assert_eq!(locate_mft_record(&image, 6).unwrap_err(), 41);
    assert_eq!(locate_mft_record(&image[..100], 5).unwrap_err(), 31);
    let blank = vec![0u8; 4096];
    assert_eq!(locate_mft_record(&blank, 5).unwrap_err(), 30);
}

#[test]
fn recover_handles_fragmented_non_resident_default_stream() {
    let attribute = non_resident_data_attribute(1, 0, 1024, &[(1, Some(8)), (1, Some(12))], 512);
    let record = record_with_data_attributes(124, vec![attribute]);
    let mut image = image_with_record_at_index(&record, 0);
    image[8 * 512..9 * 512].copy_from_slice(&[0x41u8; 512]);
    image[12 * 512..13 * 512].copy_from_slice(&[0x42u8; 512]);
    let (boot, found) = locate_mft_record(&image, 124).unwrap();
    let (bytes, partial, diag) = stream_bytes(&image, &boot, &found, 0);
    let mut expected = vec![0x41u8; 512];
    expected.extend_from_slice(&[0x42u8; 512]);
    assert_eq!(bytes, expected);
    assert!(!partial);
    assert_eq!(diag & RECOVERY_DIAG_SPARSE_ZERO_FILLED, 0);
}

#[test]
fn recover_marks_partial_when_non_resident_run_unreadable() {
    let attribute = non_resident_data_attribute(1, 0, 1024, &[(1, Some(8)), (1, Some(40))], 512);
    let record = record_with_data_attributes(125, vec![attribute]);
    let mut image = image_with_record_at_index(&record, 0);
    image[8 * 512..9 * 512].copy_from_slice(&[0x43u8; 512]);
    let (boot, found) = locate_mft_record(&image, 125).unwrap();
    let (bytes, partial, _) = stream_bytes(&image, &boot, &found, 0);
    assert_eq!(bytes, vec![0x43u8; 512]);
    assert!(partial);
}

#[test]
fn recover_zero_fills_sparse_runs() {
    let attribute = non_resident_data_attribute(1, 0, 1024, &[(1, None), (1, Some(8))], 512);
    let record = record_with_data_attributes(126, vec![attribute]);
    let mut image = image_with_record_at_index(&record, 0);
    image[8 * 512..9 * 512].copy_from_slice(&[0x44u8; 512]);
    let (boot, found) = locate_mft_record(&image, 126).unwrap();
    let (bytes, partial, diag) = stream_bytes(&image, &boot, &found, 0);
    let mut expected = vec![0u8; 512];
    expected.extend_from_slice(&[0x44u8; 512]);
    assert_eq!(bytes, expected);
    assert!(!partial);
    assert_ne!(diag & RECOVERY_DIAG_SPARSE_ZERO_FILLED, 0);
}

#[test]
fn recover_exports_encrypted_default_stream_as_partial_raw_data() {
    let record = record_with_data_attributes(
        127,
        vec![resident_data_attribute(1, None, 0x4000, b"ciphertext")],
    );
    let image = image_with_record_at_index(&record, 0);
    let (boot, found) = locate_mft_record(&image, 127).unwrap();
    let (bytes, partial, diag) = stream_bytes(&image, &boot, &found, 0);
    assert_eq!(bytes, b"ciphertext");
    assert!(partial);
    assert_ne!(diag & RECOVERY_DIAG_UNSUPPORTED_ENCRYPTED, 0);
}

#[test]
fn recover_rejects_compressed_resident_stream() {
    let record = record_with_data_attributes(
        128,
        vec![
            resident_data_attribute(1, None, 0, b"plain"),
            resident_data_attribute(2, Some("packed"), 0x0001, b"zz"),
        ],
    );
    let image = image_with_record_at_index(&record, 0);
    let (boot, found) = locate_mft_record(&image, 128).unwrap();
    let (plan, diag) = plan_stream_recovery(image.len(), &boot, &found.attributes[1]);
    assert_eq!(plan.unwrap_err(), 45);
    assert_ne!(diag & RECOVERY_DIAG_UNSUPPORTED_COMPRESSED, 0);
}

#[test]
fn recover_named_only_sets_no_default_and_nothing_exported_fails() {
    let record = record_with_data_attributes(
        77,
        vec![resident_data_attribute(2, Some("only"), 0, b"only-named")],
    );
    let image = image_with_record_at_index(&record, 0);
    let (_, found) = locate_mft_record(&image, 77).unwrap();
    let (unnamed, named, _) = select_data_streams(&found);
    assert_eq!(unnamed, None);
    assert_eq!(named, vec![0]);
    let (status, diag) = finish_ntfs_recovery(0, 0, 1, 0);
    assert_eq!(status, 47);
    assert_ne!(diag & RECOVERY_DIAG_SKIPPED_NAMED_DATA_STREAMS, 0);
}

fn compressed_attribute(unit_exponent: u16, data_size: u64, runs: Vec<(u64, Option<i64>)>) -> NonResidentAttribute {
    NonResidentAttribute {
        lowest_vcn: 0,
        highest_vcn: 0,
        compression_unit_size: unit_exponent,
        allocated_size: 0,
        data_size,
        initialized_size: data_size,
        compressed_size: None,
        mapping_pairs: Vec::new(),
        data_runs: runs
            .into_iter()
            .map(|(cluster_count, lcn)| DataRun { cluster_count, lcn })
            .collect(),
    }
}

#[test]
fn compressed_unit_with_sparse_tail_is_decompressed() {
    let attribute = compressed_attribute(4, 5000, vec![(4, Some(10)), (12, None)]);
    let (plan, diag) = plan_compressed_stream(9216, 512, &attribute);
    let plan = plan.unwrap();
    assert_eq!(diag, 0);
    assert_eq!(plan.end, UnitPlanEnd::Complete);
    assert_eq!(plan.units.len(), 1);
    match &plan.units[0] {
        CompressionUnit::Decompress { extents, target, unit_bytes } => {
            assert_eq!(extents, &vec![Extent { offset: 5120, length: 2048 }]);
            assert_eq!(*target, 5000);
            assert_eq!(*unit_bytes, 8192);
        }
        other => panic!("unexpected unit {:?}", other),
    }
}

#[test]
fn stored_and_sparse_units_are_copied_and_zeroed() {
    let attribute = compressed_attribute(4, 8192 + 100, vec![(16, Some(2)), (16, None)]);
    let (plan, _) = plan_compressed_stream(9216, 512, &attribute);
    let plan = plan.unwrap();
    assert_eq!(plan.end, UnitPlanEnd::Complete);
    assert_eq!(plan.units.len(), 2);
    match &plan.units[0] {
        CompressionUnit::Copy(extents) => {
            assert_eq!(extents, &vec![Extent { offset: 1024, length: 8192 }]);
        }
        other => panic!("unexpected unit {:?}", other),
    }
    match &plan.units[1] {
        CompressionUnit::Zeros(n) => assert_eq!(*n, 100),
        other => panic!("unexpected unit {:?}", other),
    }
}

#[test]
fn compressed_plan_reports_short_runs_and_unreadable_units() {
    let short = compressed_attribute(4, 20000, vec![(16, None)]);
    let (plan, _) = plan_compressed_stream(9216, 512, &short);
    let plan = plan.unwrap();
    assert_eq!(plan.units.len(), 1);
    assert_eq!(plan.end, UnitPlanEnd::RunsExhausted);
    let unreadable = compressed_attribute(4, 100, vec![(16, Some(100))]);
    let (plan, _) = plan_compressed_stream(9216, 512, &unreadable);
    assert_eq!(plan.unwrap().end, UnitPlanEnd::Unreadable);
    let huge = compressed_attribute(9, 100, vec![(16, Some(2))]);
    let (plan, diag) = plan_compressed_stream(9216, 512, &huge);
    assert_eq!(plan.unwrap_err(), 45);
    assert_eq!(diag, RECOVERY_DIAG_UNSUPPORTED_COMPRESSED);
}

#[test]
fn lznt1_padding_is_trimmed_after_the_last_chunk() {
    let bytes = [0x03u8, 0xB0, 1, 2, 3, 4, 0, 0, 0, 0];
    assert_eq!(trim_lznt1_stream_padding(&bytes), &bytes[..6]);
    assert!(trim_lznt1_stream_padding(&[0x00, 0x00, 5]).is_empty());
    assert_eq!(decompressed_unit_outcome(10, 4), (4, false));
    assert_eq!(decompressed_unit_outcome(3, 4), (3, true));
    assert_eq!(compression_unit_cluster_count(4), Some(16));
    assert_eq!(compression_unit_cluster_count(9), None);
}

#[test]
fn stream_export_needs_some_data_stream() {
    assert_eq!(start_stream_export(true, 2, 0x5), Ok((false, 0x5)));
    assert_eq!(start_stream_export(false, 1, 0x1), Ok((true, 0x1 | RECOVERY_DIAG_NO_DEFAULT_DATA_STREAM)));
    assert_eq!(start_stream_export(false, 0, 0x4), Err((42, 0x4)));
}

#[test]
fn compressed_export_writes_units_and_stops_on_short_decompression() {
    let state = begin_compressed_export(10_000);
    let (state, action) = compressed_unit_step(state, &CompressionUnit::Zeros(4096), None);
    assert_eq!(action, UnitAction::WriteZeros(4096));
    assert_eq!((state.written, state.remaining), (4096, 5904));
    assert_eq!(state.diagnostics, RECOVERY_DIAG_SPARSE_ZERO_FILLED);
    let copy = CompressionUnit::Copy(vec![
        Extent { offset: 0, length: 1000 },
        Extent { offset: 8192, length: 904 },
    ]);
    let (state, action) = compressed_unit_step(state, &copy, None);
    assert_eq!(action, UnitAction::CopyExtents);
    assert_eq!((state.written, state.remaining, state.partial), (6000, 4000, false));
    let unit = CompressionUnit::Decompress { extents: vec![Extent { offset: 0, length: 512 }], target: 4000, unit_bytes: 4096 };
    let (short, action) = compressed_unit_step(state, &unit, Some(1500));
    assert_eq!(action, UnitAction::WriteDecompressed(1500));
    assert!(short.stopped && short.partial);
    assert_eq!((short.written, short.remaining), (7500, 2500));
    assert_eq!(short.diagnostics, RECOVERY_DIAG_SPARSE_ZERO_FILLED | RECOVERY_DIAG_UNSUPPORTED_COMPRESSED);
    assert_eq!(compressed_stream_end(UnitPlanEnd::Error(33), short), Ok((7500, true)));
    let (full, action) = compressed_unit_step(state, &unit, Some(4096));
    assert_eq!(action, UnitAction::WriteDecompressed(4000));
    assert_eq!((full.written, full.remaining, full.stopped), (10_000, 0, false));
    assert_eq!(compressed_stream_end(UnitPlanEnd::Complete, full), Ok((10_000, false)));
    assert_eq!(compressed_stream_end(UnitPlanEnd::Error(33), full), Err(33));
    let (failed, action) = compressed_unit_step(state, &unit, None);
    assert_eq!(action, UnitAction::Stop);
    assert!(failed.stopped && failed.partial);
    assert_eq!(compressed_stream_end(UnitPlanEnd::Complete, failed), Ok((6000, true)));
}

#[test]
fn compressed_export_that_runs_out_of_runs_is_partial() {
    let state = begin_compressed_export(8192);
    let (state, _) = compressed_unit_step(state, &CompressionUnit::Zeros(4096), None);
    assert_eq!(compressed_stream_end(UnitPlanEnd::RunsExhausted, state), Ok((4096, true)));
    assert_eq!(compressed_stream_end(UnitPlanEnd::Unreadable, state), Ok((4096, true)));
    assert_eq!(compressed_stream_end(UnitPlanEnd::Complete, state), Ok((4096, true)));
}

#[test]
fn stream_tally_counts_exported_and_skipped_streams() {
    let tally = begin_stream_tally(false);
    let tally = tally_stream(tally, false, Some((100, false)));
    let tally = tally_stream(tally, true, Some((20, true)));
    let tally = tally_stream(tally, true, None);
    assert_eq!(tally.total_written, 120);
    assert!(tally.partial);
    assert_eq!((tally.exported, tally.exported_named, tally.skipped_named), (2, 1, 1));
    let clean = tally_stream(begin_stream_tally(false), false, Some((7, false)));
    assert!(!clean.partial);
}
