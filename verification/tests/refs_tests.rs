use fr_engine::refs::{parse_boot_sector, scan_deleted_candidates, BootSectorParseError};
use fr_engine::usn::USN_REASON_FILE_DELETE;

fn write_u16(bytes: &mut [u8], offset: usize, value: u16) {
    bytes[offset..offset + 2].copy_from_slice(&value.to_le_bytes());
}

fn write_u32(bytes: &mut [u8], offset: usize, value: u32) {
    bytes[offset..offset + 4].copy_from_slice(&value.to_le_bytes());
}

fn write_u64(bytes: &mut [u8], offset: usize, value: u64) {
    bytes[offset..offset + 8].copy_from_slice(&value.to_le_bytes());
}

fn write_i64(bytes: &mut [u8], offset: usize, value: i64) {
    bytes[offset..offset + 8].copy_from_slice(&value.to_le_bytes());
}

fn align_to_8(value: usize) -> usize {
    (value + 7) & !7
}

fn build_usn_v2_record(name: &str, reason: u32, file_ref: u64, parent_ref: u64) -> Vec<u8> {
    let name_utf16: Vec<u16> = name.encode_utf16().collect();
    let name_len_bytes = (name_utf16.len() * 2) as u16;
    let header_len = 60usize;
    let record_len = align_to_8(header_len + name_len_bytes as usize);
    let mut record = vec![0u8; record_len];

    write_u32(&mut record, 0, record_len as u32);
    write_u16(&mut record, 4, 2);
    write_u16(&mut record, 6, 0);
    write_u64(&mut record, 8, file_ref);
    write_u64(&mut record, 16, parent_ref);
    write_i64(&mut record, 24, 1001);
    write_i64(&mut record, 32, 132_537_600_400_000_000);
    write_u32(&mut record, 40, reason);
    write_u32(&mut record, 44, 0);
    write_u32(&mut record, 48, 0);
    write_u32(&mut record, 52, 0x20);
    write_u16(&mut record, 56, name_len_bytes);
    write_u16(&mut record, 58, header_len as u16);

    let mut cursor = header_len;
    for code in name_utf16 {
        record[cursor..cursor + 2].copy_from_slice(&code.to_le_bytes());
        cursor += 2;
    }
    record
}

fn refs_image() -> Vec<u8> {
    let mut image = vec![0u8; 512 * 64];
    image[0x03..0x0B].copy_from_slice(b"ReFS    ");
    image[0x0B..0x0D].copy_from_slice(&4096u16.to_le_bytes());
    image[0x0D] = 1;
    image[0x28..0x30].copy_from_slice(&2_000_000u64.to_le_bytes());
    image[0x48..0x50].copy_from_slice(&0xA1A2_A3A4_A5A6_A7A8u64.to_le_bytes());
    image
}

#[test]
fn parses_valid_refs_boot_sector() {
    let mut sector = [0u8; 512];
    sector[0x03..0x0B].copy_from_slice(b"ReFS    ");
    sector[0x0B..0x0D].copy_from_slice(&4096u16.to_le_bytes());
    sector[0x0D] = 1;
    sector[0x28..0x30].copy_from_slice(&2_000_000u64.to_le_bytes());
    sector[0x48..0x50].copy_from_slice(&0xA1A2_A3A4_A5A6_A7A8u64.to_le_bytes());

    let parsed = parse_boot_sector(&sector).expect("parse refs boot");
    assert_eq!(parsed.bytes_per_sector, 4096);
    assert_eq!(parsed.sectors_per_cluster, 1);
    assert_eq!(parsed.cluster_size_bytes(), 4096);
    assert_eq!(parsed.total_sectors, 2_000_000);
    assert_eq!(parsed.volume_serial, 0xA1A2_A3A4_A5A6_A7A8);
}

#[test]
fn rejects_non_refs_oem_id() {
    let mut sector = [0u8; 512];
    sector[0x03..0x0B].copy_from_slice(b"NTFS    ");
    sector[0x0B..0x0D].copy_from_slice(&512u16.to_le_bytes());
    sector[0x0D] = 8;

    let error = parse_boot_sector(&sector).unwrap_err();
    assert!(matches!(error, BootSectorParseError::InvalidOemId(_)));
}

#[test]
fn rejects_invalid_bytes_per_sector() {
    let mut sector = [0u8; 512];
    sector[0x03..0x0B].copy_from_slice(b"ReFS    ");
    sector[0x0B..0x0D].copy_from_slice(&500u16.to_le_bytes());
    sector[0x0D] = 1;

    let error = parse_boot_sector(&sector).unwrap_err();
    assert!(matches!(error, BootSectorParseError::InvalidBytesPerSector(500)));
}

#[test]
fn extracts_deleted_candidate_from_embedded_usn_record() {
    let mut image = refs_image();
    let usn_record = build_usn_v2_record("deleted-report.txt", USN_REASON_FILE_DELETE, 42, 5);
    let start = 4096usize;
    image[start..start + usn_record.len()].copy_from_slice(&usn_record);

    let (boot, candidates) = scan_deleted_candidates(&image, 16).expect("scan refs");
    assert_eq!(boot.bytes_per_sector, 4096);
    assert_eq!(candidates.len(), 1);
    assert_eq!(candidates[0].object_id, 42);
    assert_eq!(candidates[0].name, "deleted-report.txt");
}

#[test]
fn ignores_non_deleted_usn_record() {
    let mut image = refs_image();
    let usn_record = build_usn_v2_record("active-report.txt", 0x0000_0001, 7, 5);
    let start = 4096usize;
    image[start..start + usn_record.len()].copy_from_slice(&usn_record);

    let (_, candidates) = scan_deleted_candidates(&image, 16).expect("scan refs");
    assert!(candidates.is_empty());
}
