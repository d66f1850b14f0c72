//! NTFS boot sector parsing.
use vstd::prelude::*;
use crate::bytes::{bytes_match_at, is_pow2, is_power_of_two, le16, le64, read_u16_le, read_u64_le};

verus! {

/// The OEM id `"NTFS    "` at offset 3 of an NTFS boot sector.
pub const NTFS_OEM_ID: [u8; 8] = [0x4E, 0x54, 0x46, 0x53, 0x20, 0x20, 0x20, 0x20];

/// Two to the power `n`.
pub open spec fn pow2(n: nat) -> nat
    decreases n,
{
    if n == 0 {
        1
    } else {
        2 * pow2((n - 1) as nat)
    }
}

/// `pow2` grows with its exponent.
pub proof fn lemma_pow2_monotone(a: nat, b: nat)
    requires
        a <= b,
    ensures
        pow2(a) <= pow2(b),
    decreases b,
{
    if a < b {
        lemma_pow2_monotone(a, (b - 1) as nat);
    }
}

/// Computes `1 << shift` for `shift < 32`.
pub fn pow2_u32(shift: u32) -> (v: u32)
    requires
        shift < 32,
    ensures
        v == pow2(shift as nat),
{
    let mut v: u32 = 1;
    let mut i: u32 = 0;
    while i < shift
        invariant
            i <= shift < 32,
            v == pow2(i as nat),
        decreases shift - i,
    {
        proof {
            lemma_pow2_monotone((i + 1) as nat, 31);
            reveal_with_fuel(pow2, 32);
            assert(pow2(31) == 0x8000_0000);
        }
        v = v * 2;
        i = i + 1;
    }
    v
}

/// Parsed NTFS boot sector.
#[derive(Debug, Clone, PartialEq, Eq, Structural)]
pub struct NtfsBootSector {
    pub bytes_per_sector: u16,
    pub sectors_per_cluster: u8,
    pub total_sectors: u64,
    pub mft_cluster: u64,
    pub mft_mirror_cluster: u64,
    pub file_record_size_bytes: u32,
    pub index_record_size_bytes: u32,
    pub volume_serial: u64,
}

impl NtfsBootSector {
    /// Bytes per cluster.
    pub fn cluster_size_bytes(&self) -> (v: u32)
        ensures
            v == self.bytes_per_sector * self.sectors_per_cluster,
    {
        assert(self.bytes_per_sector * self.sectors_per_cluster <= 65535 * 255) by (nonlinear_arith)
            requires
                self.bytes_per_sector <= 65535,
                self.sectors_per_cluster <= 255,
        ;
        self.bytes_per_sector as u32 * self.sectors_per_cluster as u32
    }

    /// Volume size in bytes, `None` when it does not fit in 64 bits.
    pub fn volume_size_bytes(&self) -> (r: Option<u64>)
        ensures
            checked_product(self.total_sectors as int, self.bytes_per_sector as int) == r,
    {
        self.total_sectors.checked_mul(self.bytes_per_sector as u64)
    }

    /// Byte offset of the MFT, `None` when it does not fit in 64 bits.
    pub fn mft_offset_bytes(&self) -> (r: Option<u64>)
        ensures
            checked_product(
                self.mft_cluster as int,
                self.bytes_per_sector * self.sectors_per_cluster,
            ) == r,
    {
        let c = self.cluster_size_bytes();
        self.mft_cluster.checked_mul(c as u64)
    }

    /// Byte offset of the MFT mirror, `None` when it does not fit in 64 bits.
    pub fn mft_mirror_offset_bytes(&self) -> (r: Option<u64>)
        ensures
            checked_product(
                self.mft_mirror_cluster as int,
                self.bytes_per_sector * self.sectors_per_cluster,
            ) == r,
    {
        let c = self.cluster_size_bytes();
        self.mft_mirror_cluster.checked_mul(c as u64)
    }
}

/// `Some(a * b)` when the product fits in a `u64`.
pub open spec fn checked_product(a: int, b: int) -> Option<u64> {
    if a * b <= u64::MAX {
        Some((a * b) as u64)
    } else {
        None
    }
}

/// Why an NTFS boot sector was refused.
#[derive(Debug, Clone, PartialEq, Eq)]
pub enum BootSectorParseError {
    BufferTooSmall { expected: usize, actual: usize },
    InvalidBootSignature(u16),
    InvalidOemId([u8; 8]),
    InvalidBytesPerSector(u16),
    InvalidSectorsPerCluster(u8),
    InvalidFileRecordSize(i8),
    InvalidIndexRecordSize(i8),
    ArithmeticOverflow(&'static str),
}

/// The NTFS OEM id as a sequence.
pub open spec fn ntfs_oem() -> Seq<u8> {
    seq![0x4Eu8, 0x54, 0x46, 0x53, 0x20, 0x20, 0x20, 0x20]
}

/// Record size from its signed encoding: a positive value counts clusters,
/// a negative value `-n` means `2^n` bytes; `None` for zero or overflow.
pub open spec fn record_size_of(raw: i8, cluster_size: int) -> Option<u32> {
    if raw == 0 {
        None
    } else if raw > 0 {
        if cluster_size * raw <= u32::MAX {
            Some((cluster_size * raw) as u32)
        } else {
            None
        }
    } else if -raw < 32 {
        Some(pow2((-raw) as nat) as u32)
    } else {
        None
    }
}

/// Decodes an encoded file or index record size.
pub fn decode_record_size(raw: i8, cluster_size: u32) -> (r: Option<u32>)
    ensures
        r == record_size_of(raw, cluster_size as int),
{
    if raw == 0 {
        return None;
    }
    if raw > 0 {
        return cluster_size.checked_mul(raw as u32);
    }
    let shift: u32 = (0i16 - raw as i16) as u32;
    if shift >= 32 {
        return None;
    }
    Some(pow2_u32(shift))
}

/// The signed byte at `i`.
pub open spec fn signed_at(b: Seq<u8>, i: int) -> i8 {
    b[i] as i8
}

/// Cluster size of the sector in `b`.
pub open spec fn ntfs_cluster_size(b: Seq<u8>) -> int {
    le16(b, 0x0B) * b[0x0D]
}

/// The sector in `b` passes every check of `parse_boot_sector`.
pub open spec fn ntfs_boot_valid(b: Seq<u8>) -> bool {
    &&& b.len() >= 512
    &&& b.subrange(3, 11) == ntfs_oem()
    &&& le16(b, 0x1FE) == 0xAA55
    &&& is_pow2(le16(b, 0x0B) as nat)
    &&& is_pow2(b[0x0D] as nat)
    &&& record_size_of(signed_at(b, 0x40), ntfs_cluster_size(b)) is Some
    &&& record_size_of(signed_at(b, 0x44), ntfs_cluster_size(b)) is Some
}

/// The fields of a valid sector.
pub open spec fn ntfs_boot_of(b: Seq<u8>) -> NtfsBootSector {
    NtfsBootSector {
        bytes_per_sector: le16(b, 0x0B) as u16,
        sectors_per_cluster: b[0x0D],
        total_sectors: le64(b, 0x28) as u64,
        mft_cluster: le64(b, 0x30) as u64,
        mft_mirror_cluster: le64(b, 0x38) as u64,
        file_record_size_bytes: record_size_of(signed_at(b, 0x40), ntfs_cluster_size(b))->0,
        index_record_size_bytes: record_size_of(signed_at(b, 0x44), ntfs_cluster_size(b))->0,
        volume_serial: le64(b, 0x48) as u64,
    }
}

/// `e` is the error of the first check that the sector in `b` fails.
pub open spec fn ntfs_boot_error(b: Seq<u8>, e: BootSectorParseError) -> bool {
    if b.len() < 512 {
        e == BootSectorParseError::BufferTooSmall { expected: 512, actual: b.len() as usize }
    } else if b.subrange(3, 11) != ntfs_oem() {
        e matches BootSectorParseError::InvalidOemId(o) && o@ == b.subrange(3, 11)
    } else if le16(b, 0x1FE) != 0xAA55 {
        e == BootSectorParseError::InvalidBootSignature(le16(b, 0x1FE) as u16)
    } else if !is_pow2(le16(b, 0x0B) as nat) {
        e == BootSectorParseError::InvalidBytesPerSector(le16(b, 0x0B) as u16)
    } else if !is_pow2(b[0x0D] as nat) {
        e == BootSectorParseError::InvalidSectorsPerCluster(b[0x0D])
    } else if record_size_of(signed_at(b, 0x40), ntfs_cluster_size(b)) is None {
        e == BootSectorParseError::InvalidFileRecordSize(signed_at(b, 0x40))
    } else {
        e == BootSectorParseError::InvalidIndexRecordSize(signed_at(b, 0x44))
    }
}

/// Parses an NTFS boot sector.
pub fn parse_boot_sector(bytes: &[u8]) -> (r: Result<NtfsBootSector, BootSectorParseError>)
    ensures
        r is Ok <==> ntfs_boot_valid(bytes@),
        r matches Ok(bs) ==> bs == ntfs_boot_of(bytes@),
        r matches Err(e) ==> ntfs_boot_error(bytes@, e),
{
    if bytes.len() < 512 {
        return Err(BootSectorParseError::BufferTooSmall { expected: 512, actual: bytes.len() });
    }
    let oem_id: [u8; 8] = [
        bytes[3],
        bytes[4],
        bytes[5],
        bytes[6],
        bytes[7],
        bytes[8],
        bytes[9],
        bytes[10],
    ];
    assert(oem_id@ =~= bytes@.subrange(3, 11));
    let oem_ok = bytes_match_at(bytes, 3, &NTFS_OEM_ID);
    assert(NTFS_OEM_ID@ =~= ntfs_oem());
    if !oem_ok {
        return Err(BootSectorParseError::InvalidOemId(oem_id));
    }
    let boot_signature = read_u16_le(bytes, 0x1FE);
    if boot_signature != 0xAA55 {
        return Err(BootSectorParseError::InvalidBootSignature(boot_signature));
    }
    let bytes_per_sector = read_u16_le(bytes, 0x0B);
    if !is_power_of_two(bytes_per_sector as u64) {
        return Err(BootSectorParseError::InvalidBytesPerSector(bytes_per_sector));
    }
    let sectors_per_cluster = bytes[0x0D];
    if !is_power_of_two(sectors_per_cluster as u64) {
        return Err(BootSectorParseError::InvalidSectorsPerCluster(sectors_per_cluster));
    }
    assert(bytes_per_sector as int * sectors_per_cluster as int <= 65535 * 255) by (nonlinear_arith)
        requires
            bytes_per_sector <= 65535,
            sectors_per_cluster <= 255,
    ;
    let cluster_size: u32 = bytes_per_sector as u32 * sectors_per_cluster as u32;
    let file_raw = bytes[0x40] as i8;
    let file_record_size_bytes = match decode_record_size(file_raw, cluster_size) {
        Some(v) => v,
        None => return Err(BootSectorParseError::InvalidFileRecordSize(file_raw)),
    };
    let index_raw = bytes[0x44] as i8;
    let index_record_size_bytes = match decode_record_size(index_raw, cluster_size) {
        Some(v) => v,
        None => return Err(BootSectorParseError::InvalidIndexRecordSize(index_raw)),
    };
    Ok(NtfsBootSector {
        bytes_per_sector,
        sectors_per_cluster,
        total_sectors: read_u64_le(bytes, 0x28),
        mft_cluster: read_u64_le(bytes, 0x30),
        mft_mirror_cluster: read_u64_le(bytes, 0x38),
        file_record_size_bytes,
        index_record_size_bytes,
        volume_serial: read_u64_le(bytes, 0x48),
    })
}

} // verus!
