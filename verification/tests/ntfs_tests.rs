use fr_engine::ntfs::{parse_boot_sector, BootSectorParseError, NTFS_OEM_ID};

#[test]
fn parses_valid_ntfs_boot_sector() {
    let mut sector = [0u8; 512];
    sector[0x03..0x0B].copy_from_slice(&NTFS_OEM_ID);
    sector[0x0B..0x0D].copy_from_slice(&512u16.to_le_bytes());
    sector[0x0D] = 8;
    sector[0x28..0x30].copy_from_slice(&1_000_000u64.to_le_bytes());
    sector[0x30..0x38].copy_from_slice(&786_432u64.to_le_bytes());
    sector[0x38..0x40].copy_from_slice(&2u64.to_le_bytes());
    sector[0x40] = (-10i8) as u8;
    sector[0x44] = 1;
    sector[0x48..0x50].copy_from_slice(&0x1122_3344_5566_7788u64.to_le_bytes());
    sector[0x1FE..0x200].copy_from_slice(&0xAA55u16.to_le_bytes());

    let parsed = parse_boot_sector(&sector).unwrap();

    assert_eq!(parsed.bytes_per_sector, 512);
    assert_eq!(parsed.sectors_per_cluster, 8);
    assert_eq!(parsed.cluster_size_bytes(), 4096);
    assert_eq!(parsed.file_record_size_bytes, 1024);
    assert_eq!(parsed.index_record_size_bytes, 4096);
    assert_eq!(parsed.volume_size_bytes(), Some(512_000_000));
    assert_eq!(parsed.mft_offset_bytes(), Some(3_221_225_472));
}

#[test]
fn rejects_non_ntfs_oem_id() {
    let mut sector = [0u8; 512];
    sector[0x03..0x0B].copy_from_slice(b"NOTNTFS ");
    sector[0x1FE..0x200].copy_from_slice(&0xAA55u16.to_le_bytes());

    let error = parse_boot_sector(&sector).unwrap_err();
    assert!(matches!(error, BootSectorParseError::InvalidOemId(_)));
}

#[test]
fn rejects_invalid_signature() {
    let mut sector = [0u8; 512];
    sector[0x03..0x0B].copy_from_slice(&NTFS_OEM_ID);

    let error = parse_boot_sector(&sector).unwrap_err();
    assert!(matches!(error, BootSectorParseError::InvalidBootSignature(_)));
}

#[test]
fn parses_positive_file_record_multiplier() {
    let mut sector = [0u8; 512];
    sector[0x03..0x0B].copy_from_slice(&NTFS_OEM_ID);
    sector[0x0B..0x0D].copy_from_slice(&512u16.to_le_bytes());
    sector[0x0D] = 8;
    sector[0x40] = 2;
    sector[0x44] = 1;
    sector[0x1FE..0x200].copy_from_slice(&0xAA55u16.to_le_bytes());

    let parsed = parse_boot_sector(&sector).unwrap();
    assert_eq!(parsed.file_record_size_bytes, 8192);
}

#[test]
fn rejects_short_buffer_and_zero_sector_size() {
    let error = parse_boot_sector(&[0u8; 100]).unwrap_err();
    assert_eq!(error, BootSectorParseError::BufferTooSmall { expected: 512, actual: 100 });

    let mut sector = [0u8; 512];
    sector[0x03..0x0B].copy_from_slice(&NTFS_OEM_ID);
    sector[0x1FE..0x200].copy_from_slice(&0xAA55u16.to_le_bytes());
    assert_eq!(parse_boot_sector(&sector).unwrap_err(), BootSectorParseError::InvalidBytesPerSector(0));
    sector[0x0B..0x0D].copy_from_slice(&512u16.to_le_bytes());
    sector[0x0D] = 3;
    assert_eq!(parse_boot_sector(&sector).unwrap_err(), BootSectorParseError::InvalidSectorsPerCluster(3));
    sector[0x0D] = 1;
    sector[0x40] = 0;
    assert_eq!(parse_boot_sector(&sector).unwrap_err(), BootSectorParseError::InvalidFileRecordSize(0));
    sector[0x40] = (-40i8) as u8;
    assert_eq!(parse_boot_sector(&sector).unwrap_err(), BootSectorParseError::InvalidFileRecordSize(-40));
    sector[0x40] = 1;
    assert_eq!(parse_boot_sector(&sector).unwrap_err(), BootSectorParseError::InvalidIndexRecordSize(0));
}
