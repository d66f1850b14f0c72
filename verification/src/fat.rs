//! FAT32 and exFAT boot sector parsing, cluster chains, and the deleted-entry
//! walk over the whole directory tree.
use vstd::prelude::*;
use crate::bytes::{bytes_match_at, is_pow2, is_power_of_two, le16, le32, le64, read_u16_le, read_u32_le, read_u64_le};
use crate::ntfs::{checked_product, pow2, pow2_u32};
use crate::text::{
    char_of_ascii, chars_of, push_chars, string_from_chars, trim_nul, trim_nul_chars, trim_whitespace, trim_ws, utf16_decode_lossy,
    utf16_string_lossy,
};
use crate::types::{ModuleDescriptor, RecoverySourceKind};

verus! {

/// `"EXFAT   "`, the OEM id of an exFAT boot sector.
pub const EXFAT_OEM_ID: [u8; 8] = [0x45, 0x58, 0x46, 0x41, 0x54, 0x20, 0x20, 0x20];

/// Identity of the FAT module.
pub fn descriptor() -> (d: ModuleDescriptor)
    ensures
        d.name == "fr-fat",
        d.purpose == "FAT32/exFAT boot metadata parsing and deleted-entry full-tree scan.",
        d.source_kind == RecoverySourceKind::Volume,
{
    ModuleDescriptor {
        name: "fr-fat",
        purpose: "FAT32/exFAT boot metadata parsing and deleted-entry full-tree scan.",
        source_kind: RecoverySourceKind::Volume,
    }
}

/// FAT32 or exFAT.
#[derive(Debug, Clone, Copy, PartialEq, Eq, Structural)]
pub enum FatFilesystemKind {
    Fat32,
    ExFat,
}

/// Geometry of a FAT32 or exFAT volume.
#[derive(Debug, Clone, PartialEq, Eq, Structural)]
pub struct FatBootSector {
    pub filesystem: FatFilesystemKind,
    pub bytes_per_sector: u16,
    pub sectors_per_cluster: u8,
    pub fat_count: u8,
    pub total_sectors: u64,
    pub fat_offset_sectors: u32,
    pub fat_length_sectors: u32,
    pub data_region_offset_sectors: u32,
    pub root_dir_first_cluster: u32,
    pub volume_serial: u32,
}

/// Byte offset of cluster `n` (clusters are numbered from 2), when it fits.
pub open spec fn cluster_offset_of(boot: FatBootSector, n: u32) -> Option<u64> {
    if n < 2 {
        None
    } else {
        match checked_product(boot.data_region_offset_sectors as int, boot.bytes_per_sector as int) {
            None => None,
            Some(start) => match checked_product(
                (n - 2) as int,
                boot.bytes_per_sector * boot.sectors_per_cluster,
            ) {
                None => None,
                Some(delta) => if start + delta > u64::MAX {
                    None
                } else {
                    Some((start + delta) as u64)
                },
            },
        }
    }
}

impl FatBootSector {
    /// Bytes per cluster.
    pub fn cluster_size_bytes(&self) -> (v: u32)
        ensures
            v == self.bytes_per_sector * self.sectors_per_cluster,
    {
        assert(self.bytes_per_sector * self.sectors_per_cluster <= 65535 * 255) by (nonlinear_arith)
            requires
                self.bytes_per_sector <= 65535,
                self.sectors_per_cluster <= 255,
        ;
        (self.bytes_per_sector as u32) * (self.sectors_per_cluster as u32)
    }

    /// Byte offset of the first FAT, `None` when it does not fit in 64 bits.
    pub fn fat_offset_bytes(&self) -> (r: Option<u64>)
        ensures
            r == checked_product(self.fat_offset_sectors as int, self.bytes_per_sector as int),
    {
        (self.fat_offset_sectors as u64).checked_mul(self.bytes_per_sector as u64)
    }

    /// Byte offset of the data region, `None` when it does not fit in 64 bits.
    pub fn data_region_offset_bytes(&self) -> (r: Option<u64>)
        ensures
            r == checked_product(self.data_region_offset_sectors as int, self.bytes_per_sector as int),
    {
        (self.data_region_offset_sectors as u64).checked_mul(self.bytes_per_sector as u64)
    }

    /// Byte offset of cluster `cluster_number`; `None` below cluster 2 or
    /// when the offset does not fit in 64 bits.
    pub fn cluster_offset_bytes(&self, cluster_number: u32) -> (r: Option<u64>)
        ensures
            r == cluster_offset_of(*self, cluster_number),
    {
        if cluster_number < 2 {
            return None;
        }
        let cluster_index = (cluster_number - 2) as u64;
        let cluster_size = self.cluster_size_bytes() as u64;
        let data_start = match self.data_region_offset_bytes() {
            Some(v) => v,
            None => return None,
        };
        let cluster_delta = match cluster_index.checked_mul(cluster_size) {
            Some(v) => v,
            None => return None,
        };
        data_start.checked_add(cluster_delta)
    }
}

/// Why a boot sector was refused.
#[derive(Debug, Clone, PartialEq, Eq)]
pub enum BootSectorParseError {
    BufferTooSmall { expected: usize, actual: usize },
    InvalidBootSignature(u16),
    UnsupportedFilesystem,
    InvalidBytesPerSector(u16),
    InvalidSectorsPerCluster(u8),
    InvalidFatCount(u8),
    InvalidRootCluster(u32),
    InvalidShiftValue { field: &'static str, value: u8 },
    ArithmeticOverflow(&'static str),
}

/// A sector size of 512 to 4096 bytes that is a power of two.
pub open spec fn valid_sector_size(v: int) -> bool {
    512 <= v <= 4096 && is_pow2(v as nat)
}

/// A non-zero power of two.
pub open spec fn valid_cluster_factor(v: int) -> bool {
    v != 0 && is_pow2(v as nat)
}

fn is_valid_sector_size(value: u16) -> (b: bool)
    ensures
        b == valid_sector_size(value as int),
{
    value >= 512 && value <= 4096 && is_power_of_two(value as u64)
}

fn is_valid_cluster_factor(value: u8) -> (b: bool)
    ensures
        b == valid_cluster_factor(value as int),
{
    value != 0 && is_power_of_two(value as u64)
}

/// The FAT32 boot sector in `b`, or the first check it fails.
pub open spec fn fat32_boot_of(b: Seq<u8>) -> Result<FatBootSector, BootSectorParseError> {
    let bps = le16(b, 0x0B);
    let spc = b[0x0D];
    let fat_count = b[0x10];
    let spf32 = le32(b, 0x24);
    let root = le32(b, 0x2C);
    let reserved = le16(b, 0x0E);
    if le16(b, 0x1FE) != 0xAA55 {
        Err(BootSectorParseError::InvalidBootSignature(le16(b, 0x1FE) as u16))
    } else if !valid_sector_size(bps) {
        Err(BootSectorParseError::InvalidBytesPerSector(bps as u16))
    } else if !valid_cluster_factor(spc as int) {
        Err(BootSectorParseError::InvalidSectorsPerCluster(spc))
    } else if fat_count == 0 {
        Err(BootSectorParseError::InvalidFatCount(fat_count))
    } else if le16(b, 0x16) != 0 || spf32 == 0 {
        Err(BootSectorParseError::UnsupportedFilesystem)
    } else if root < 2 {
        Err(BootSectorParseError::InvalidRootCluster(root as u32))
    } else if fat_count * spf32 > u32::MAX {
        Err(BootSectorParseError::ArithmeticOverflow("FAT region sectors"))
    } else if reserved + fat_count * spf32 > u32::MAX {
        Err(BootSectorParseError::ArithmeticOverflow("data region offset sectors"))
    } else {
        Ok(
            FatBootSector {
                filesystem: FatFilesystemKind::Fat32,
                bytes_per_sector: bps as u16,
                sectors_per_cluster: spc,
                fat_count,
                total_sectors: if le16(b, 0x13) != 0 {
                    le16(b, 0x13) as u64
                } else {
                    le32(b, 0x20) as u64
                },
                fat_offset_sectors: reserved as u32,
                fat_length_sectors: spf32 as u32,
                data_region_offset_sectors: (reserved + fat_count * spf32) as u32,
                root_dir_first_cluster: root as u32,
                volume_serial: le32(b, 0x43) as u32,
            },
        )
    }
}

/// The exFAT boot sector in `b`, or the first check it fails.
pub open spec fn exfat_boot_of(b: Seq<u8>) -> Result<FatBootSector, BootSectorParseError> {
    let bss = b[0x6C];
    let scs = b[0x6D];
    let fat_count = b[0x6E];
    let root = le32(b, 0x60);
    if le16(b, 0x1FE) != 0xAA55 {
        Err(BootSectorParseError::InvalidBootSignature(le16(b, 0x1FE) as u16))
    } else if bss < 9 || bss > 12 {
        Err(BootSectorParseError::InvalidShiftValue { field: "bytes_per_sector_shift", value: bss })
    } else if scs >= 8 {
        Err(BootSectorParseError::InvalidShiftValue { field: "sectors_per_cluster_shift", value: scs })
    } else if fat_count == 0 {
        Err(BootSectorParseError::InvalidFatCount(fat_count))
    } else if root < 2 {
        Err(BootSectorParseError::InvalidRootCluster(root as u32))
    } else {
        Ok(
            FatBootSector {
                filesystem: FatFilesystemKind::ExFat,
                bytes_per_sector: pow2(bss as nat) as u16,
                sectors_per_cluster: pow2(scs as nat) as u8,
                fat_count,
                total_sectors: le64(b, 0x48) as u64,
                fat_offset_sectors: le32(b, 0x50) as u32,
                fat_length_sectors: le32(b, 0x54) as u32,
                data_region_offset_sectors: le32(b, 0x58) as u32,
                root_dir_first_cluster: root as u32,
                volume_serial: le32(b, 0x64) as u32,
            },
        )
    }
}

/// `"EXFAT   "` as a sequence.
pub open spec fn exfat_oem() -> Seq<u8> {
    seq![0x45u8, 0x58, 0x46, 0x41, 0x54, 0x20, 0x20, 0x20]
}

/// The boot sector of image `b`: exFAT when its OEM id says so, else FAT32.
pub open spec fn fat_boot_of(b: Seq<u8>) -> Result<FatBootSector, BootSectorParseError> {
    if b.len() < 512 {
        Err(BootSectorParseError::BufferTooSmall { expected: 512, actual: b.len() as usize })
    } else if b.subrange(3, 11) == exfat_oem() {
        exfat_boot_of(b)
    } else {
        fat32_boot_of(b)
    }
}

fn parse_fat32_boot_sector(bytes: &[u8]) -> (r: Result<FatBootSector, BootSectorParseError>)
    requires
        bytes@.len() >= 512,
    ensures
        r == fat32_boot_of(bytes@),
{
    let boot_signature = read_u16_le(bytes, 0x1FE);
    if boot_signature != 0xAA55 {
        return Err(BootSectorParseError::InvalidBootSignature(boot_signature));
    }
    let bytes_per_sector = read_u16_le(bytes, 0x0B);
    if !is_valid_sector_size(bytes_per_sector) {
        return Err(BootSectorParseError::InvalidBytesPerSector(bytes_per_sector));
    }
    let sectors_per_cluster = bytes[0x0D];
    if !is_valid_cluster_factor(sectors_per_cluster) {
        return Err(BootSectorParseError::InvalidSectorsPerCluster(sectors_per_cluster));
    }
    let reserved_sector_count = read_u16_le(bytes, 0x0E);
    let fat_count = bytes[0x10];
    if fat_count == 0 {
        return Err(BootSectorParseError::InvalidFatCount(fat_count));
    }
    let sectors_per_fat_16 = read_u16_le(bytes, 0x16);
    let sectors_per_fat_32 = read_u32_le(bytes, 0x24);
    if sectors_per_fat_16 != 0 || sectors_per_fat_32 == 0 {
        return Err(BootSectorParseError::UnsupportedFilesystem);
    }
    let total_sectors_16 = read_u16_le(bytes, 0x13) as u32;
    let total_sectors_32 = read_u32_le(bytes, 0x20);
    let total_sectors = if total_sectors_16 != 0 {
        total_sectors_16 as u64
    } else {
        total_sectors_32 as u64
    };
    let root_cluster = read_u32_le(bytes, 0x2C);
    if root_cluster < 2 {
        return Err(BootSectorParseError::InvalidRootCluster(root_cluster));
    }
    let fat_region_sectors = match (fat_count as u32).checked_mul(sectors_per_fat_32) {
        Some(v) => v,
        None => return Err(BootSectorParseError::ArithmeticOverflow("FAT region sectors")),
    };
    let data_region_offset_sectors = match (reserved_sector_count as u32).checked_add(fat_region_sectors) {
        Some(v) => v,
        None => return Err(BootSectorParseError::ArithmeticOverflow("data region offset sectors")),
    };
    Ok(FatBootSector {
        filesystem: FatFilesystemKind::Fat32,
        bytes_per_sector,
        sectors_per_cluster,
        fat_count,
        total_sectors,
        fat_offset_sectors: reserved_sector_count as u32,
        fat_length_sectors: sectors_per_fat_32,
        data_region_offset_sectors,
        root_dir_first_cluster: root_cluster,
        volume_serial: read_u32_le(bytes, 0x43),
    })
}

fn parse_exfat_boot_sector(bytes: &[u8]) -> (r: Result<FatBootSector, BootSectorParseError>)
    requires
        bytes@.len() >= 512,
    ensures
        r == exfat_boot_of(bytes@),
{
    let boot_signature = read_u16_le(bytes, 0x1FE);
    if boot_signature != 0xAA55 {
        return Err(BootSectorParseError::InvalidBootSignature(boot_signature));
    }
    let bytes_per_sector_shift = bytes[0x6C];
    if bytes_per_sector_shift < 9 || bytes_per_sector_shift > 12 {
        return Err(
            BootSectorParseError::InvalidShiftValue { field: "bytes_per_sector_shift", value: bytes_per_sector_shift },
        );
    }
    let sectors_per_cluster_shift = bytes[0x6D];
    if sectors_per_cluster_shift > 12 {
        return Err(
            BootSectorParseError::InvalidShiftValue {
                field: "sectors_per_cluster_shift",
                value: sectors_per_cluster_shift,
            },
        );
    }
    // A u8 cannot hold 1 << 8 or more.
    if sectors_per_cluster_shift >= 8 {
        return Err(
            BootSectorParseError::InvalidShiftValue {
                field: "sectors_per_cluster_shift",
                value: sectors_per_cluster_shift,
            },
        );
    }
    proof {
        reveal_with_fuel(pow2, 13);
    }
    let bytes_per_sector = pow2_u32(bytes_per_sector_shift as u32) as u16;
    let sectors_per_cluster = pow2_u32(sectors_per_cluster_shift as u32) as u8;
    if !is_valid_sector_size(bytes_per_sector) {
        proof {
            lemma_pow2_is_pow2(bytes_per_sector_shift as nat);
        }
        return Err(BootSectorParseError::InvalidBytesPerSector(bytes_per_sector));
    }
    if !is_valid_cluster_factor(sectors_per_cluster) {
        proof {
            lemma_pow2_is_pow2(sectors_per_cluster_shift as nat);
        }
        return Err(BootSectorParseError::InvalidSectorsPerCluster(sectors_per_cluster));
    }
    let fat_count = bytes[0x6E];
    if fat_count == 0 {
        return Err(BootSectorParseError::InvalidFatCount(fat_count));
    }
    let root_cluster = read_u32_le(bytes, 0x60);
    if root_cluster < 2 {
        return Err(BootSectorParseError::InvalidRootCluster(root_cluster));
    }
    Ok(FatBootSector {
        filesystem: FatFilesystemKind::ExFat,
        bytes_per_sector,
        sectors_per_cluster,
        fat_count,
        total_sectors: read_u64_le(bytes, 0x48),
        fat_offset_sectors: read_u32_le(bytes, 0x50),
        fat_length_sectors: read_u32_le(bytes, 0x54),
        data_region_offset_sectors: read_u32_le(bytes, 0x58),
        root_dir_first_cluster: root_cluster,
        volume_serial: read_u32_le(bytes, 0x64),
    })
}

proof fn lemma_pow2_is_pow2(n: nat)
    ensures
        is_pow2(pow2(n)),
        pow2(n) >= 1,
    decreases n,
{
    if n > 0 {
        lemma_pow2_is_pow2((n - 1) as nat);
        assert(pow2(n) == 2 * pow2((n - 1) as nat));
        assert(pow2(n) % 2 == 0);
        assert(pow2(n) / 2 == pow2((n - 1) as nat));
    }
}

/// Parses a FAT32 or exFAT boot sector.
pub fn parse_boot_sector(bytes: &[u8]) -> (r: Result<FatBootSector, BootSectorParseError>)
    ensures
        r == fat_boot_of(bytes@),
{
    if bytes.len() < 512 {
        return Err(BootSectorParseError::BufferTooSmall { expected: 512, actual: bytes.len() });
    }
    let is_exfat = bytes_match_at(bytes, 3, &EXFAT_OEM_ID);
    assert(EXFAT_OEM_ID@ =~= exfat_oem());
    if is_exfat {
        parse_exfat_boot_sector(bytes)
    } else {
        parse_fat32_boot_sector(bytes)
    }
}


// ---------------------------------------------------------------------------
// Reading the image
// ---------------------------------------------------------------------------

/// A deleted file or folder found in a directory.
#[derive(Debug, Clone, PartialEq, Eq)]
pub struct FatDeletedEntry {
    pub filesystem: FatFilesystemKind,
    pub name: String,
    pub path: String,
    pub is_directory: bool,
    pub start_cluster: u32,
    pub size_bytes: u64,
}

/// Why a scan stopped with an error.
#[derive(Debug, Clone, PartialEq, Eq)]
pub enum ScanError {
    Boot(BootSectorParseError),
    InvalidCluster(u32),
    ArithmeticOverflow(&'static str),
    OutOfBounds { offset: usize, length: usize, image_len: usize },
    ClusterLoop(u32),
    DirectoryEntryTruncated,
}

/// An entry with its strings as characters.
pub struct FatEntryView {
    pub filesystem: FatFilesystemKind,
    pub name: Seq<char>,
    pub path: Seq<char>,
    pub is_directory: bool,
    pub start_cluster: u32,
    pub size_bytes: u64,
}

impl View for FatDeletedEntry {
    type V = FatEntryView;

    open spec fn view(&self) -> FatEntryView {
        FatEntryView {
            filesystem: self.filesystem,
            name: self.name@,
            path: self.path@,
            is_directory: self.is_directory,
            start_cluster: self.start_cluster,
            size_bytes: self.size_bytes,
        }
    }
}

/// The views of entries.
pub open spec fn fat_views(v: Seq<FatDeletedEntry>) -> Seq<FatEntryView> {
    Seq::new(v.len(), |i: int| v[i]@)
}

/// The `length` bytes of `img` at `offset`, or why they cannot be read.
pub open spec fn slice_of(img: Seq<u8>, offset: int, length: int) -> Result<Seq<u8>, ScanError> {
    if offset + length > usize::MAX {
        Err(ScanError::ArithmeticOverflow("slice bounds"))
    } else if offset + length > img.len() {
        Err(ScanError::OutOfBounds { offset: offset as usize, length: length as usize, image_len: img.len() as usize })
    } else {
        Ok(img.subrange(offset, offset + length))
    }
}

/// The FAT entry of `cluster` (its low 28 bits).
pub open spec fn fat_entry_of(img: Seq<u8>, boot: FatBootSector, cluster: u32) -> Result<u32, ScanError> {
    match checked_product(boot.fat_offset_sectors as int, boot.bytes_per_sector as int) {
        None => Err(ScanError::ArithmeticOverflow("fat offset bytes")),
        Some(f) => {
            let at = f + cluster * 4;
            if at > u64::MAX {
                Err(ScanError::ArithmeticOverflow("fat entry absolute offset"))
            } else if at > usize::MAX {
                Err(ScanError::ArithmeticOverflow("fat entry usize conversion"))
            } else {
                match slice_of(img, at, 4) {
                    Err(e) => Err(e),
                    Ok(b) => Ok((le32(b, 0) % 0x1000_0000) as u32),
                }
            }
        },
    }
}

/// The bytes of `cluster`.
pub open spec fn cluster_bytes_of(img: Seq<u8>, boot: FatBootSector, cluster: u32) -> Result<Seq<u8>, ScanError> {
    match cluster_offset_of(boot, cluster) {
        None => Err(ScanError::InvalidCluster(cluster)),
        Some(o) => if o > usize::MAX {
            Err(ScanError::ArithmeticOverflow("cluster offset usize conversion"))
        } else {
            slice_of(img, o as int, boot.bytes_per_sector * boot.sectors_per_cluster)
        },
    }
}

/// A FAT entry that ends a chain: free (0) or end-of-chain.
pub open spec fn ends_chain(next: u32) -> bool {
    next == 0 || next >= 0x0FFF_FFF8
}

/// A FAT entry that cannot continue a chain: reserved, bad or below 2.
pub open spec fn breaks_chain(next: u32) -> bool {
    next < 2 || next == 0x0FFF_FFF7 || (0x0FFF_FFF0 <= next && next < 0x0FFF_FFF8)
}

/// The chain from `current`, with `seen` already visited and at most `fuel`
/// more clusters.
pub open spec fn chain_from(img: Seq<u8>, boot: FatBootSector, current: u32, seen: Set<u32>, fuel: nat) -> Result<
    Seq<u32>,
    ScanError,
>
    decreases fuel,
{
    if fuel == 0 {
        Err(ScanError::ArithmeticOverflow("directory cluster chain exceeded traversal cap"))
    } else if seen.contains(current) {
        Err(ScanError::ClusterLoop(current))
    } else {
        match fat_entry_of(img, boot, current) {
            Err(e) => Err(e),
            Ok(next) => if ends_chain(next) {
                Ok(seq![current])
            } else if breaks_chain(next) {
                Err(ScanError::InvalidCluster(next))
            } else {
                match chain_from(img, boot, next, seen.insert(current), (fuel - 1) as nat) {
                    Err(e) => Err(e),
                    Ok(rest) => Ok(seq![current] + rest),
                }
            },
        }
    }
}

/// The cluster chain of a directory starting at `start`, at most `max` long.
pub open spec fn cluster_chain(img: Seq<u8>, boot: FatBootSector, start: u32, max: nat) -> Result<Seq<u32>, ScanError> {
    if start < 2 {
        Err(ScanError::InvalidCluster(start))
    } else if max == 0 {
        Ok(Seq::empty())
    } else {
        chain_from(img, boot, start, Set::empty(), max)
    }
}

// ---------------------------------------------------------------------------
// Names and paths
// ---------------------------------------------------------------------------

/// The UTF-16 units of `count` slots from byte `start` of `e`, up to the first
/// `0x0000` or `0xFFFF`.
pub open spec fn lfn_units(e: Seq<u8>, start: int, count: nat) -> Seq<u16>
    decreases count,
{
    if count == 0 {
        Seq::empty()
    } else {
        let u = le16(e, start) as u16;
        if u == 0 || u == 0xFFFF {
            Seq::empty()
        } else {
            seq![u] + lfn_units(e, start + 2, (count - 1) as nat)
        }
    }
}

/// The part of a long name that a FAT32 long-name entry holds.
pub open spec fn lfn_part(e: Seq<u8>) -> Seq<char> {
    utf16_decode_lossy(lfn_units(e, 1, 5) + lfn_units(e, 14, 6) + lfn_units(e, 28, 2))
}

/// A printable ASCII byte as itself, anything else as `_`.
pub open spec fn ascii_component(b: u8) -> char {
    if 0x20 <= b <= 0x7E {
        b as char
    } else {
        '_'
    }
}

/// A short-name byte that ends its field.
pub open spec fn ends_short_field(b: u8) -> bool {
    b == 0x20 || b == 0
}

/// The characters of `e[i..n]` up to the first space or NUL; a deleted
/// marker in the first byte reads as `_`.
pub open spec fn short_field(e: Seq<u8>, i: int, n: int) -> Seq<char>
    decreases n - i,
{
    if i >= n || ends_short_field(e[i]) {
        Seq::empty()
    } else {
        seq![if i == 0 && e[i] == 0xE5 { '_' } else { ascii_component(e[i]) }] + short_field(e, i + 1, n)
    }
}

/// The 8.3 name of a FAT32 directory entry.
pub open spec fn short_name(e: Seq<u8>) -> Seq<char> {
    let base = short_field(e, 0, 8);
    let ext = short_field(e, 8, 11);
    if ext.len() == 0 {
        base
    } else {
        base + seq!['.'] + ext
    }
}

/// A name without surrounding NULs and white space.
pub open spec fn sanitized(name: Seq<char>) -> Seq<char> {
    trim_ws(trim_nul(name))
}

/// The path of `name` inside the directory at `parent`.
pub open spec fn child_path(parent: Seq<char>, name: Seq<char>) -> Seq<char> {
    if parent == seq!['.'] {
        seq!['.', '\\'] + name
    } else {
        parent + seq!['\\'] + name
    }
}

/// `.` or `..`.
pub open spec fn is_dot_name(name: Seq<char>) -> bool {
    name == seq!['.'] || name == seq!['.', '.']
}

/// The parts in order, concatenated.
pub open spec fn concat_parts(p: Seq<Seq<char>>) -> Seq<char>
    decreases p.len(),
{
    if p.len() == 0 {
        Seq::empty()
    } else {
        p[0] + concat_parts(p.drop_first())
    }
}

// ---------------------------------------------------------------------------
// FAT32 directories
// ---------------------------------------------------------------------------

/// Progress through the entries of one FAT32 directory.
pub struct Fat32Walk {
    pub long_name: Seq<Seq<char>>,
    pub subdirs: Seq<(u32, Seq<char>)>,
    pub entries: Seq<FatEntryView>,
    pub stop: bool,
    pub full: bool,
}

/// The walk after the 32-byte entry `e` of the directory at `path`: an end
/// marker stops it; long-name parts gather in reverse; a named entry
/// queues its sub-directory and, when deleted, becomes a candidate.
pub open spec fn fat32_entry(e: Seq<u8>, path: Seq<char>, max: nat, w: Fat32Walk) -> Fat32Walk {
    let attributes = e[11];
    if e[0] == 0 {
        Fat32Walk { stop: true, ..w }
    } else if attributes == 0x0F {
        if lfn_part(e).len() > 0 {
            Fat32Walk { long_name: seq![lfn_part(e)] + w.long_name, ..w }
        } else {
            w
        }
    } else {
        let raw = if w.long_name.len() > 0 {
            concat_parts(w.long_name)
        } else {
            short_name(e)
        };
        let name = sanitized(raw);
        let is_directory = attributes & 0x10 != 0;
        if attributes & 0x08 != 0 || name.len() == 0 {
            Fat32Walk { long_name: Seq::empty(), ..w }
        } else {
            let start = (le16(e, 20) * 0x10000 + le16(e, 26)) as u32;
            let child = child_path(path, name);
            let subdirs = if is_directory && start >= 2 && !is_dot_name(name) {
                w.subdirs.push((start, child))
            } else {
                w.subdirs
            };
            if e[0] != 0xE5 {
                Fat32Walk { long_name: Seq::empty(), subdirs, ..w }
            } else {
                let entries = w.entries.push(
                    FatEntryView {
                        filesystem: FatFilesystemKind::Fat32,
                        name,
                        path: child,
                        is_directory,
                        start_cluster: start,
                        size_bytes: le32(e, 28) as u64,
                    },
                );
                Fat32Walk { long_name: Seq::empty(), subdirs, entries, stop: w.stop, full: entries.len() >= max }
            }
        }
    }
}

/// The walk over the 32-byte entries `j..` of cluster bytes `b`.
pub open spec fn fat32_entries(b: Seq<u8>, path: Seq<char>, max: nat, w: Fat32Walk, j: int) -> Fat32Walk
    decreases b.len() - j * 32,
{
    if j < 0 || j * 32 + 32 > b.len() || w.stop || w.full {
        w
    } else {
        fat32_entries(b, path, max, fat32_entry(b.subrange(j * 32, j * 32 + 32), path, max, w), j + 1)
    }
}

/// The walk over clusters `k..` of a directory chain.
pub open spec fn fat32_clusters(
    img: Seq<u8>,
    boot: FatBootSector,
    chain: Seq<u32>,
    path: Seq<char>,
    max: nat,
    w: Fat32Walk,
    k: int,
) -> Result<Fat32Walk, ScanError>
    decreases chain.len() - k,
{
    if k < 0 || k >= chain.len() || w.stop || w.full {
        Ok(w)
    } else {
        match cluster_bytes_of(img, boot, chain[k]) {
            Err(e) => Err(e),
            Ok(b) => fat32_clusters(img, boot, chain, path, max, fat32_entries(b, path, max, w, 0), k + 1),
        }
    }
}

// ---------------------------------------------------------------------------
// exFAT directories
// ---------------------------------------------------------------------------

/// What the secondary entries of an exFAT entry set describe.
pub struct ExfatSet {
    pub stream_seen: bool,
    pub name_length: nat,
    pub start_cluster: u32,
    pub data_length: u64,
    pub units: Seq<u16>,
}

/// The name units of an exFAT file-name entry `s`, slots `i..15`, up to a
/// `0x0000`, without `0xFFFF` units.
pub open spec fn exfat_name_units(s: Seq<u8>, i: int) -> Seq<u16>
    decreases 15 - i,
{
    if i < 0 || i >= 15 {
        Seq::empty()
    } else {
        let u = le16(s, 2 + 2 * i) as u16;
        if u == 0 {
            Seq::empty()
        } else if u == 0xFFFF {
            exfat_name_units(s, i + 1)
        } else {
            seq![u] + exfat_name_units(s, i + 1)
        }
    }
}

/// The set after secondary entry `s`.
pub open spec fn exfat_secondary(s: Seq<u8>, st: ExfatSet) -> ExfatSet {
    if s[0] == 0x40 || s[0] == 0xC0 {
        ExfatSet {
            stream_seen: true,
            name_length: s[3] as nat,
            start_cluster: le32(s, 20) as u32,
            data_length: le64(s, 24) as u64,
            ..st
        }
    } else if s[0] == 0x41 || s[0] == 0xC1 {
        ExfatSet { units: st.units + exfat_name_units(s, 0), ..st }
    } else {
        st
    }
}

/// The first `k` secondary entries of the set at `off` in `db`, or
/// `DirectoryEntryTruncated` when one runs past the end.
pub open spec fn exfat_secondaries(db: Seq<u8>, off: int, k: nat) -> Result<ExfatSet, ScanError>
    decreases k,
{
    if k == 0 {
        Ok(ExfatSet { stream_seen: false, name_length: 0, start_cluster: 0, data_length: 0, units: Seq::empty() })
    } else {
        match exfat_secondaries(db, off, (k - 1) as nat) {
            Err(e) => Err(e),
            Ok(st) => {
                let so = off + k * 32;
                if so + 32 > db.len() {
                    Err(ScanError::DirectoryEntryTruncated)
                } else {
                    Ok(exfat_secondary(db.subrange(so, so + 32), st))
                }
            },
        }
    }
}

/// The name units cut to the stream's name length, when that is shorter.
pub open spec fn cut_units(u: Seq<u16>, n: nat) -> Seq<u16> {
    if n > 0 && u.len() > n {
        u.take(n as int)
    } else {
        u
    }
}

/// Progress through one exFAT directory.
pub struct ExfatWalk {
    pub subdirs: Seq<(u32, Seq<char>)>,
    pub entries: Seq<FatEntryView>,
    pub full: bool,
}

/// The walk over directory bytes `db` from byte `off`: file entry sets
/// (type 0x85, or 0x05 when deleted) with a stream extension and a
/// non-empty name queue their sub-directory and, when deleted, become
/// candidates; other entries are skipped; a zero type ends the directory.
pub open spec fn exfat_walk(db: Seq<u8>, path: Seq<char>, max: nat, w: ExfatWalk, off: int) -> Result<
    ExfatWalk,
    ScanError,
>
    decreases db.len() - off,
{
    if off < 0 || off + 32 > db.len() || w.full || db[off] == 0 {
        Ok(w)
    } else if db[off] != 0x05 && db[off] != 0x85 {
        exfat_walk(db, path, max, w, off + 32)
    } else {
        let count = db[off + 1] as nat;
        match exfat_secondaries(db, off, count) {
            Err(e) => Err(e),
            Ok(set) => {
                let next = off + (count + 1) * 32;
                if !set.stream_seen {
                    exfat_walk(db, path, max, w, next)
                } else {
                    let name = sanitized(utf16_decode_lossy(cut_units(set.units, set.name_length)));
                    if name.len() == 0 {
                        exfat_walk(db, path, max, w, next)
                    } else {
                        let is_directory = le16(db, off + 4) as u16 & 0x10 != 0;
                        let child = child_path(path, name);
                        let subdirs = if is_directory && set.start_cluster >= 2 {
                            w.subdirs.push((set.start_cluster, child))
                        } else {
                            w.subdirs
                        };
                        if db[off] != 0x05 {
                            exfat_walk(db, path, max, ExfatWalk { subdirs, ..w }, next)
                        } else {
                            let entries = w.entries.push(
                                FatEntryView {
                                    filesystem: FatFilesystemKind::ExFat,
                                    name,
                                    path: child,
                                    is_directory,
                                    start_cluster: set.start_cluster,
                                    size_bytes: set.data_length,
                                },
                            );
                            exfat_walk(
                                db,
                                path,
                                max,
                                ExfatWalk { subdirs, entries, full: entries.len() >= max },
                                next,
                            )
                        }
                    }
                }
            },
        }
    }
}

/// The bytes of the clusters `chain[k..]`, concatenated.
pub open spec fn chain_bytes(img: Seq<u8>, boot: FatBootSector, chain: Seq<u32>, k: int) -> Result<Seq<u8>, ScanError>
    decreases chain.len() - k,
{
    if k < 0 || k >= chain.len() {
        Ok(Seq::empty())
    } else {
        match cluster_bytes_of(img, boot, chain[k]) {
            Err(e) => Err(e),
            Ok(b) => match chain_bytes(img, boot, chain, k + 1) {
                Err(e) => Err(e),
                Ok(rest) => Ok(b + rest),
            },
        }
    }
}

// ---------------------------------------------------------------------------
// The tree walk
// ---------------------------------------------------------------------------

/// What one directory adds: its candidates (after those before it), its
/// sub-directories, and whether the candidate limit was reached.
pub open spec fn directory_scan(
    img: Seq<u8>,
    boot: FatBootSector,
    cluster: u32,
    path: Seq<char>,
    max: nat,
    max_clusters: nat,
    entries: Seq<FatEntryView>,
) -> Result<(Seq<FatEntryView>, Seq<(u32, Seq<char>)>, bool), ScanError> {
    match cluster_chain(img, boot, cluster, max_clusters) {
        Err(e) => Err(e),
        Ok(chain) => match boot.filesystem {
            FatFilesystemKind::Fat32 => {
                let w = Fat32Walk { long_name: Seq::empty(), subdirs: Seq::empty(), entries, stop: false, full: false };
                match fat32_clusters(img, boot, chain, path, max, w, 0) {
                    Err(e) => Err(e),
                    Ok(w) => Ok((w.entries, w.subdirs, w.full)),
                }
            },
            FatFilesystemKind::ExFat => match chain_bytes(img, boot, chain, 0) {
                Err(e) => Err(e),
                Ok(db) => match exfat_walk(db, path, max, ExfatWalk { subdirs: Seq::empty(), entries, full: false }, 0) {
                    Err(e) => Err(e),
                    Ok(w) => Ok((w.entries, w.subdirs, w.full)),
                },
            },
        },
    }
}

/// State of the breadth-first walk over directories.
pub enum TreeWalk {
    Running { queue: Seq<(u32, Seq<char>)>, head: nat, visited: Set<u32>, entries: Seq<FatEntryView> },
    Done(Seq<FatEntryView>),
    Failed(ScanError),
}

/// One step of the walk: take the next queued directory; skip it when
/// visited, else scan it, queue its sub-directories, and finish early when
/// the candidate limit is reached.
pub open spec fn tree_step(img: Seq<u8>, boot: FatBootSector, max: nat, max_clusters: nat, t: TreeWalk) -> TreeWalk {
    match t {
        TreeWalk::Running { queue, head, visited, entries } => if head >= queue.len() {
            TreeWalk::Done(entries)
        } else {
            let (cluster, path) = queue[head as int];
            if visited.contains(cluster) {
                TreeWalk::Running { queue, head: head + 1, visited, entries }
            } else {
                match directory_scan(img, boot, cluster, path, max, max_clusters, entries) {
                    Err(e) => TreeWalk::Failed(e),
                    Ok((found, subdirs, full)) => if full {
                        TreeWalk::Done(found)
                    } else {
                        TreeWalk::Running {
                            queue: queue + subdirs,
                            head: head + 1,
                            visited: visited.insert(cluster),
                            entries: found,
                        }
                    },
                }
            }
        },
        _ => t,
    }
}

/// The walk after `n` steps.
pub open spec fn tree_after(img: Seq<u8>, boot: FatBootSector, max: nat, max_clusters: nat, t: TreeWalk, n: nat) -> TreeWalk
    decreases n,
{
    if n == 0 {
        t
    } else {
        tree_step(img, boot, max, max_clusters, tree_after(img, boot, max, max_clusters, t, (n - 1) as nat))
    }
}

/// The walk's start: the root directory at path `.`.
pub open spec fn tree_start(boot: FatBootSector) -> TreeWalk {
    TreeWalk::Running {
        queue: seq![(boot.root_dir_first_cluster, seq!['.'])],
        head: 0,
        visited: Set::empty(),
        entries: Seq::empty(),
    }
}

/// `r` is how the walk of image `img` ends: some number of steps reaches an
/// end, and `r` is that end.
pub open spec fn tree_result(
    img: Seq<u8>,
    boot: FatBootSector,
    max: nat,
    max_clusters: nat,
    r: Result<Seq<FatEntryView>, ScanError>,
) -> bool {
    if max == 0 {
        r == Ok::<Seq<FatEntryView>, ScanError>(Seq::empty())
    } else {
        exists|n: nat|
            match #[trigger] tree_after(img, boot, max, max_clusters, tree_start(boot), n) {
                TreeWalk::Done(v) => r == Ok::<Seq<FatEntryView>, ScanError>(v),
                TreeWalk::Failed(e) => r == Err::<Seq<FatEntryView>, ScanError>(e),
                TreeWalk::Running { .. } => false,
            }
    }
}


// ---------------------------------------------------------------------------
// Reading the image (executable)
// ---------------------------------------------------------------------------

fn read_slice(image: &[u8], offset: usize, length: usize) -> (r: Result<&[u8], ScanError>)
    ensures
        match (r, slice_of(image@, offset as int, length as int)) {
            (Ok(b), Ok(t)) => b@ == t,
            (Err(e), Err(f)) => e == f,
            _ => false,
        },
{
    let end = match offset.checked_add(length) {
        Some(e) => e,
        None => return Err(ScanError::ArithmeticOverflow("slice bounds")),
    };
    if end > image.len() {
        return Err(ScanError::OutOfBounds { offset, length, image_len: image.len() });
    }
    Ok(&image[offset..end])
}

fn read_fat_entry(image: &[u8], boot: &FatBootSector, cluster: u32) -> (r: Result<u32, ScanError>)
    ensures
        r == fat_entry_of(image@, *boot, cluster),
{
    let fat_offset = match boot.fat_offset_bytes() {
        Some(v) => v,
        None => return Err(ScanError::ArithmeticOverflow("fat offset bytes")),
    };
    let cluster_offset = (cluster as u64) * 4;
    let entry_offset_u64 = match fat_offset.checked_add(cluster_offset) {
        Some(v) => v,
        None => return Err(ScanError::ArithmeticOverflow("fat entry absolute offset")),
    };
    if entry_offset_u64 > usize::MAX as u64 {
        return Err(ScanError::ArithmeticOverflow("fat entry usize conversion"));
    }
    let entry_offset = entry_offset_u64 as usize;
    match read_slice(image, entry_offset, 4) {
        Ok(b) => {
            let raw = read_u32_le(b, 0);
            assert(raw & 0x0FFF_FFFF == raw % 0x1000_0000) by (bit_vector);
            Ok(raw & 0x0FFF_FFFF)
        },
        Err(e) => Err(e),
    }
}

fn read_cluster<'a>(image: &'a [u8], boot: &FatBootSector, cluster: u32) -> (r: Result<&'a [u8], ScanError>)
    ensures
        match (r, cluster_bytes_of(image@, *boot, cluster)) {
            (Ok(b), Ok(t)) => b@ == t,
            (Err(e), Err(f)) => e == f,
            _ => false,
        },
{
    let cluster_offset_u64 = match boot.cluster_offset_bytes(cluster) {
        Some(v) => v,
        None => return Err(ScanError::InvalidCluster(cluster)),
    };
    if cluster_offset_u64 > usize::MAX as u64 {
        return Err(ScanError::ArithmeticOverflow("cluster offset usize conversion"));
    }
    let cluster_size = boot.cluster_size_bytes() as usize;
    read_slice(image, cluster_offset_u64 as usize, cluster_size)
}

/// `Ok(prefix + rest)` for `Ok(rest)`, errors unchanged.
pub open spec fn after_prefix(prefix: Seq<u32>, r: Result<Seq<u32>, ScanError>) -> Result<Seq<u32>, ScanError> {
    match r {
        Ok(rest) => Ok(prefix + rest),
        Err(e) => Err(e),
    }
}

fn collect_cluster_chain(image: &[u8], boot: &FatBootSector, start_cluster: u32, max_clusters: usize) -> (r: Result<
    Vec<u32>,
    ScanError,
>)
    ensures
        match (r, cluster_chain(image@, *boot, start_cluster, max_clusters as nat)) {
            (Ok(v), Ok(t)) => v@ == t,
            (Err(e), Err(f)) => e == f,
            _ => false,
        },
{
    if start_cluster < 2 {
        return Err(ScanError::InvalidCluster(start_cluster));
    }
    if max_clusters == 0 {
        return Ok(Vec::new());
    }
    let mut seen: Vec<u32> = Vec::new();
    let ghost mut seen_set: Set<u32> = Set::empty();
    let mut chain: Vec<u32> = Vec::new();
    let mut current = start_cluster;
    let mut k: usize = 0;
    assert(chain@ + Seq::<u32>::empty() =~= Seq::<u32>::empty());
    assert(after_prefix(chain@, chain_from(image@, *boot, current, seen_set, (max_clusters - k) as nat))
        =~= chain_from(image@, *boot, current, seen_set, (max_clusters - k) as nat)) by {
        match chain_from(image@, *boot, current, seen_set, (max_clusters - k) as nat) {
            Ok(rest) => assert(chain@ + rest =~= rest),
            Err(_) => {},
        }
    }
    while k < max_clusters
        invariant
            k <= max_clusters,
            forall|x: u32| seen@.contains(x) <==> seen_set.contains(x),
            cluster_chain(image@, *boot, start_cluster, max_clusters as nat) == after_prefix(
                chain@,
                chain_from(image@, *boot, current, seen_set, (max_clusters - k) as nat),
            ),
        decreases max_clusters - k,
    {
        let ghost fuel = (max_clusters - k) as nat;
        if contains_u32(&seen, current) {
            return Err(ScanError::ClusterLoop(current));
        }
        let ghost old_seen = seen@;
        let ghost old_chain = chain@;
        seen.push(current);
        chain.push(current);
        proof {
            seen_set = seen_set.insert(current);
            lemma_push_contains(old_seen, current, seen@, seen_set);
        }
        let next = match read_fat_entry(image, boot, current) {
            Ok(v) => v,
            Err(e) => return Err(e),
        };
        if next == 0 || next >= 0x0FFF_FFF8 {
            assert(old_chain + seq![current] =~= chain@);
            return Ok(chain);
        }
        if next < 2 || next == 0x0FFF_FFF7 || (0x0FFF_FFF0 <= next && next < 0x0FFF_FFF8) {
            return Err(ScanError::InvalidCluster(next));
        }
        proof {
            match chain_from(image@, *boot, next, seen_set, (fuel - 1) as nat) {
                Ok(rest) => {
                    assert(old_chain + (seq![current] + rest) =~= chain@ + rest);
                },
                Err(_) => {},
            }
        }
        current = next;
        k = k + 1;
    }
    Err(ScanError::ArithmeticOverflow("directory cluster chain exceeded traversal cap"))
}

proof fn lemma_push_contains<T>(before: Seq<T>, x: T, after: Seq<T>, set: Set<T>)
    requires
        after == before.push(x),
        forall|y: T| set.contains(y) <==> (before.contains(y) || y == x),
    ensures
        forall|y: T| after.contains(y) <==> set.contains(y),
{
    assert forall|y: T| after.contains(y) <==> set.contains(y) by {
        if after.contains(y) {
            let m = choose|m: int| 0 <= m < after.len() && after[m] == y;
            if m < before.len() {
                assert(before[m] == y);
            }
        }
        if before.contains(y) {
            let m = choose|m: int| 0 <= m < before.len() && before[m] == y;
            assert(after[m] == y);
        }
        if y == x {
            assert(after[before.len() as int] == y);
        }
    }
}

fn contains_u32(v: &Vec<u32>, x: u32) -> (b: bool)
    ensures
        b == v@.contains(x),
{
    let mut k: usize = 0;
    while k < v.len()
        invariant
            k <= v@.len(),
            forall|m: int| 0 <= m < k ==> v@[m] != x,
        decreases v@.len() - k,
    {
        if v[k] == x {
            return true;
        }
        k = k + 1;
    }
    false
}

// ---------------------------------------------------------------------------
// Names and paths (executable)
// ---------------------------------------------------------------------------

fn append_lfn_range(entry: &[u8], start: usize, count: usize, out: &mut Vec<u16>)
    requires
        start + 2 * count <= entry@.len(),
    ensures
        final(out)@ == old(out)@ + lfn_units(entry@, start as int, count as nat),
{
    let ghost target = old(out)@ + lfn_units(entry@, start as int, count as nat);
    let n = entry.len();
    let mut i: usize = 0;
    assert(out@ + lfn_units(entry@, start as int, count as nat) == target);
    while i < count
        invariant
            i <= count,
            n == entry@.len(),
            target == old(out)@ + lfn_units(entry@, start as int, count as nat),
            start + 2 * count <= entry@.len(),
            out@ + lfn_units(entry@, start + 2 * i, (count - i) as nat) == target,
        decreases count - i,
    {
        let code = read_u16_le(entry, start + 2 * i);
        if code == 0 || code == 0xFFFF {
            assert(lfn_units(entry@, start + 2 * i, (count - i) as nat) == Seq::<u16>::empty());
            assert(out@ + Seq::<u16>::empty() =~= out@);
            return;
        }
        let ghost rest = lfn_units(entry@, start + 2 * i + 2, (count - i - 1) as nat);
        assert(out@ + (seq![code] + rest) =~= out@.push(code) + rest);
        out.push(code);
        i = i + 1;
    }
    assert(out@ + Seq::<u16>::empty() =~= out@);
}

fn decode_lfn_part(entry: &[u8]) -> (r: Vec<char>)
    requires
        entry@.len() == 32,
    ensures
        r@ == lfn_part(entry@),
{
    let mut units: Vec<u16> = Vec::new();
    append_lfn_range(entry, 1, 5, &mut units);
    append_lfn_range(entry, 14, 6, &mut units);
    append_lfn_range(entry, 28, 2, &mut units);
    assert(units@ =~= lfn_units(entry@, 1, 5) + lfn_units(entry@, 14, 6) + lfn_units(entry@, 28, 2));
    let s = utf16_string_lossy(units.as_slice());
    chars_of(s.as_str())
}

fn ascii_component_of(b: u8) -> (c: char)
    ensures
        c == ascii_component(b),
{
    if 0x20 <= b && b <= 0x7E {
        char_of_ascii(b)
    } else {
        '_'
    }
}

fn short_field_of(entry: &[u8], from: usize, to: usize) -> (r: Vec<char>)
    requires
        from <= to <= entry@.len(),
    ensures
        r@ == short_field(entry@, from as int, to as int),
{
    let mut r: Vec<char> = Vec::new();
    let mut i = from;
    while i < to
        invariant
            from <= i <= to <= entry@.len(),
            r@ + short_field(entry@, i as int, to as int) == short_field(entry@, from as int, to as int),
        decreases to - i,
    {
        let value = entry[i];
        if value == 0x20 || value == 0 {
            assert(r@ + Seq::<char>::empty() =~= r@);
            return r;
        }
        let c = if i == 0 && value == 0xE5 {
            '_'
        } else {
            ascii_component_of(value)
        };
        let ghost rest = short_field(entry@, i + 1, to as int);
        assert(r@ + (seq![c] + rest) =~= r@.push(c) + rest);
        r.push(c);
        i = i + 1;
    }
    assert(r@ + Seq::<char>::empty() =~= r@);
    r
}

fn decode_short_name(entry: &[u8]) -> (r: Vec<char>)
    requires
        entry@.len() == 32,
    ensures
        r@ == short_name(entry@),
{
    let base = short_field_of(entry, 0, 8);
    let extension = short_field_of(entry, 8, 11);
    if extension.len() == 0 {
        base
    } else {
        let mut name = base;
        name.push('.');
        push_chars(&mut name, &extension);
        name
    }
}

fn sanitize_name(name: &Vec<char>) -> (r: Vec<char>)
    ensures
        r@ == sanitized(name@),
{
    let t = trim_nul_chars(name);
    trim_whitespace(&t)
}

fn join_candidate_path(parent: &Vec<char>, name: &Vec<char>) -> (r: Vec<char>)
    ensures
        r@ == child_path(parent@, name@),
{
    if parent.len() == 1 && parent[0] == '.' {
        assert(parent@ =~= seq!['.']);
        let mut r = vec!['.', '\\'];
        push_chars(&mut r, name);
        assert(r@ =~= seq!['.', '\\'] + name@);
        r
    } else {
        proof {
            if parent@ == seq!['.'] {
                assert(parent@[0] == '.');
            }
        }
        let mut r = parent.clone();
        r.push('\\');
        push_chars(&mut r, name);
        assert(r@ =~= parent@ + seq!['\\'] + name@);
        r
    }
}

fn is_dot_entry(name: &Vec<char>) -> (b: bool)
    ensures
        b == is_dot_name(name@),
{
    let n = name.len();
    let r = (n == 1 && name[0] == '.') || (n == 2 && name[0] == '.' && name[1] == '.');
    proof {
        if n == 1 && name@[0] == '.' {
            assert(name@ =~= seq!['.']);
        }
        if n == 2 && name@[0] == '.' && name@[1] == '.' {
            assert(name@ =~= seq!['.', '.']);
        }
        if name@ == seq!['.'] {
            assert(name@[0] == '.');
        }
        if name@ == seq!['.', '.'] {
            assert(name@[0] == '.' && name@[1] == '.');
        }
    }
    r
}


// ---------------------------------------------------------------------------
// FAT32 directories (executable)
// ---------------------------------------------------------------------------

/// The characters of each part.
pub open spec fn parts_view(v: Seq<Vec<char>>) -> Seq<Seq<char>> {
    Seq::new(v.len(), |i: int| v[i]@)
}

/// Queued directories with their paths as characters.
pub open spec fn subdirs_view(v: Seq<(u32, Vec<char>)>) -> Seq<(u32, Seq<char>)> {
    Seq::new(v.len(), |i: int| (v[i].0, v[i].1@))
}

struct Fat32State {
    long_name: Vec<Vec<char>>,
    subdirs: Vec<(u32, Vec<char>)>,
    entries: Vec<FatDeletedEntry>,
    stop: bool,
    full: bool,
}

spec fn fat32_view(s: Fat32State) -> Fat32Walk {
    Fat32Walk {
        long_name: parts_view(s.long_name@),
        subdirs: subdirs_view(s.subdirs@),
        entries: fat_views(s.entries@),
        stop: s.stop,
        full: s.full,
    }
}

fn concat_all(parts: &Vec<Vec<char>>) -> (r: Vec<char>)
    ensures
        r@ == concat_parts(parts_view(parts@)),
{
    let ghost v = parts_view(parts@);
    let n = parts.len();
    let mut r: Vec<char> = Vec::new();
    let mut k: usize = 0;
    assert(v.subrange(0, n as int) =~= v);
    while k < n
        invariant
            n == parts@.len() == v.len(),
            v == parts_view(parts@),
            k <= n,
            r@ + concat_parts(v.subrange(k as int, n as int)) == concat_parts(v),
        decreases n - k,
    {
        let ghost rest = v.subrange(k as int, n as int);
        assert(rest.drop_first() =~= v.subrange(k + 1, n as int));
        assert(rest[0] == parts@[k as int]@);
        let ghost before = r@;
        push_chars(&mut r, &parts[k]);
        assert(before + (parts@[k as int]@ + concat_parts(v.subrange(k + 1, n as int))) =~= r@ + concat_parts(
            v.subrange(k + 1, n as int),
        ));
        k = k + 1;
    }
    assert(v.subrange(n as int, n as int) =~= Seq::<Seq<char>>::empty());
    assert(r@ + Seq::<char>::empty() =~= r@);
    r
}

fn fat32_step(e: &[u8], path: &Vec<char>, max: usize, st: &mut Fat32State)
    requires
        e@.len() == 32,
    ensures
        fat32_view(*final(st)) == fat32_entry(e@, path@, max as nat, fat32_view(*old(st))),
{
    let ghost w = fat32_view(*st);
    let attributes = e[11];
    if e[0] == 0 {
        st.stop = true;
        return;
    }
    if attributes == 0x0F {
        let part = decode_lfn_part(e);
        if part.len() > 0 {
            let ghost before = st.long_name@;
            st.long_name.insert(0, part);
            assert(parts_view(st.long_name@) =~= seq![lfn_part(e@)] + parts_view(before));
        }
        return;
    }
    let raw = if st.long_name.len() > 0 {
        concat_all(&st.long_name)
    } else {
        decode_short_name(e)
    };
    st.long_name = Vec::new();
    assert(parts_view(st.long_name@) =~= Seq::<Seq<char>>::empty());
    let name = sanitize_name(&raw);
    let is_directory = attributes & 0x10 != 0;
    if attributes & 0x08 != 0 || name.len() == 0 {
        return;
    }
    let hi = read_u16_le(e, 20) as u32;
    let lo = read_u16_le(e, 26) as u32;
    let start = (hi << 16u32) | lo;
    assert((hi << 16u32) | lo == hi * 0x10000 + lo) by (bit_vector)
        requires
            hi < 0x10000,
            lo < 0x10000,
    ;
    let child = join_candidate_path(path, &name);
    if is_directory && start >= 2 && !is_dot_entry(&name) {
        let ghost before = st.subdirs@;
        let queued = join_candidate_path(path, &name);
        st.subdirs.push((start, queued));
        assert(subdirs_view(st.subdirs@) =~= subdirs_view(before).push((start, child@)));
    }
    if e[0] != 0xE5 {
        return;
    }
    let ghost before = st.entries@;
    let entry = FatDeletedEntry {
        filesystem: FatFilesystemKind::Fat32,
        name: string_from_chars(&name),
        path: string_from_chars(&child),
        is_directory,
        start_cluster: start,
        size_bytes: read_u32_le(e, 28) as u64,
    };
    st.entries.push(entry);
    assert(fat_views(st.entries@) =~= fat_views(before).push(entry@));
    st.full = st.entries.len() >= max;
}

fn fat32_scan_cluster(b: &[u8], path: &Vec<char>, max: usize, st: &mut Fat32State)
    ensures
        fat32_view(*final(st)) == fat32_entries(b@, path@, max as nat, fat32_view(*old(st)), 0),
{
    let n = b.len();
    let mut j: usize = 0;
    while j <= n / 32 && n - j * 32 >= 32 && !st.stop && !st.full
        invariant
            n == b@.len(),
            j * 32 <= n,
            fat32_entries(b@, path@, max as nat, fat32_view(*old(st)), 0) == fat32_entries(
                b@,
                path@,
                max as nat,
                fat32_view(*st),
                j as int,
            ),
        decreases n - j * 32,
    {
        let entry = &b[j * 32..j * 32 + 32];
        fat32_step(entry, path, max, st);
        j = j + 1;
    }
}

fn scan_fat32_directory(
    image: &[u8],
    boot: &FatBootSector,
    chain: &Vec<u32>,
    path: &Vec<char>,
    max: usize,
    st: &mut Fat32State,
) -> (r: Result<(), ScanError>)
    ensures
        match (r, fat32_clusters(image@, *boot, chain@, path@, max as nat, fat32_view(*old(st)), 0)) {
            (Ok(()), Ok(w)) => fat32_view(*final(st)) == w,
            (Err(e), Err(f)) => e == f,
            _ => false,
        },
{
    let n = chain.len();
    let mut k: usize = 0;
    while k < n && !st.stop && !st.full
        invariant
            n == chain@.len(),
            k <= n,
            fat32_clusters(image@, *boot, chain@, path@, max as nat, fat32_view(*old(st)), 0) == fat32_clusters(
                image@,
                *boot,
                chain@,
                path@,
                max as nat,
                fat32_view(*st),
                k as int,
            ),
        decreases n - k,
    {
        let bytes = match read_cluster(image, boot, chain[k]) {
            Ok(b) => b,
            Err(e) => return Err(e),
        };
        fat32_scan_cluster(bytes, path, max, st);
        k = k + 1;
    }
    Ok(())
}


// ---------------------------------------------------------------------------
// exFAT directories (executable)
// ---------------------------------------------------------------------------

/// `Ok(prefix + rest)` for `Ok(rest)`, errors unchanged.
pub open spec fn after_bytes(prefix: Seq<u8>, r: Result<Seq<u8>, ScanError>) -> Result<Seq<u8>, ScanError> {
    match r {
        Ok(rest) => Ok(prefix + rest),
        Err(e) => Err(e),
    }
}

fn read_directory_bytes(image: &[u8], boot: &FatBootSector, chain: &Vec<u32>) -> (r: Result<Vec<u8>, ScanError>)
    ensures
        match (r, chain_bytes(image@, *boot, chain@, 0)) {
            (Ok(v), Ok(t)) => v@ == t,
            (Err(e), Err(f)) => e == f,
            _ => false,
        },
{
    let n = chain.len();
    let mut out: Vec<u8> = Vec::new();
    let mut k: usize = 0;
    proof {
        match chain_bytes(image@, *boot, chain@, 0) {
            Ok(t) => assert(out@ + t =~= t),
            Err(_) => {},
        }
    }
    while k < n
        invariant
            n == chain@.len(),
            k <= n,
            chain_bytes(image@, *boot, chain@, 0) == after_bytes(out@, chain_bytes(image@, *boot, chain@, k as int)),
        decreases n - k,
    {
        let bytes = match read_cluster(image, boot, chain[k]) {
            Ok(b) => b,
            Err(e) => return Err(e),
        };
        let ghost before = out@;
        let mut i: usize = 0;
        while i < bytes.len()
            invariant
                i <= bytes@.len(),
                out@ == before + bytes@.subrange(0, i as int),
            decreases bytes@.len() - i,
        {
            out.push(bytes[i]);
            assert(before + bytes@.subrange(0, i + 1) =~= (before + bytes@.subrange(0, i as int)).push(bytes@[i as int]));
            i = i + 1;
        }
        assert(bytes@.subrange(0, bytes@.len() as int) =~= bytes@);
        proof {
            match chain_bytes(image@, *boot, chain@, k + 1) {
                Ok(rest) => assert(before + (bytes@ + rest) =~= out@ + rest),
                Err(_) => {},
            }
        }
        k = k + 1;
    }
    assert(out@ + Seq::<u8>::empty() =~= out@);
    Ok(out)
}

struct ExfatSetState {
    stream_seen: bool,
    name_length: usize,
    start_cluster: u32,
    data_length: u64,
    units: Vec<u16>,
}

spec fn set_view(s: ExfatSetState) -> ExfatSet {
    ExfatSet {
        stream_seen: s.stream_seen,
        name_length: s.name_length as nat,
        start_cluster: s.start_cluster,
        data_length: s.data_length,
        units: s.units@,
    }
}

proof fn lemma_secondaries_failed(db: Seq<u8>, off: int, k: nat, m: nat)
    requires
        k <= m,
        exfat_secondaries(db, off, k) is Err,
    ensures
        exfat_secondaries(db, off, m) == exfat_secondaries(db, off, k),
    decreases m - k,
{
    if k < m {
        lemma_secondaries_failed(db, off, k, (m - 1) as nat);
    }
}

fn exfat_name_units_of(s: &[u8], units: &mut Vec<u16>)
    requires
        s@.len() == 32,
    ensures
        final(units)@ == old(units)@ + exfat_name_units(s@, 0),
{
    let ghost target = old(units)@ + exfat_name_units(s@, 0);
    let mut ci: usize = 0;
    while ci < 15
        invariant
            ci <= 15,
            s@.len() == 32,
            target == old(units)@ + exfat_name_units(s@, 0),
            units@ + exfat_name_units(s@, ci as int) == target,
        decreases 15 - ci,
    {
        let code = read_u16_le(s, 2 + ci * 2);
        if code == 0 {
            assert(exfat_name_units(s@, ci as int) == Seq::<u16>::empty());
            assert(units@ + Seq::<u16>::empty() =~= units@);
            return;
        }
        if code != 0xFFFF {
            let ghost rest = exfat_name_units(s@, ci + 1);
            assert(units@ + (seq![code] + rest) =~= units@.push(code) + rest);
            units.push(code);
        }
        ci = ci + 1;
    }
    assert(units@ + Seq::<u16>::empty() =~= units@);
}

fn exfat_entry_set(db: &Vec<u8>, off: usize, count: usize) -> (r: Result<ExfatSetState, ScanError>)
    requires
        off + 32 <= db@.len(),
    ensures
        match (r, exfat_secondaries(db@, off as int, count as nat)) {
            (Ok(st), Ok(t)) => set_view(st) == t,
            (Err(e), Err(f)) => e == f,
            _ => false,
        },
        r is Ok ==> off + count * 32 + 32 <= db@.len(),
{
    let len = db.len();
    let mut st = ExfatSetState { stream_seen: false, name_length: 0, start_cluster: 0, data_length: 0, units: Vec::new() };
    assert(set_view(st) == exfat_secondaries(db@, off as int, 0)->Ok_0) by {
        assert(st.units@ =~= Seq::<u16>::empty());
    }
    let mut index: usize = 0;
    while index < count
        invariant
            len == db@.len(),
            index <= count,
            off + index * 32 + 32 <= len,
            exfat_secondaries(db@, off as int, index as nat) == Ok::<ExfatSet, ScanError>(set_view(st)),
        decreases count - index,
    {
        let so = off + (index + 1) * 32;
        if len - so < 32 {
            proof {
                lemma_secondaries_failed(db@, off as int, (index + 1) as nat, count as nat);
            }
            return Err(ScanError::DirectoryEntryTruncated);
        }
        let secondary = &db[so..so + 32];
        let kind = secondary[0];
        if kind == 0x40 || kind == 0xC0 {
            st.stream_seen = true;
            st.name_length = secondary[3] as usize;
            st.start_cluster = read_u32_le(secondary, 20);
            st.data_length = read_u64_le(secondary, 24);
        } else if kind == 0x41 || kind == 0xC1 {
            exfat_name_units_of(secondary, &mut st.units);
        }
        index = index + 1;
    }
    Ok(st)
}

fn cut_units_of(units: &Vec<u16>, n: usize) -> (r: Vec<u16>)
    ensures
        r@ == cut_units(units@, n as nat),
{
    let keep = if n > 0 && units.len() > n {
        n
    } else {
        units.len()
    };
    let mut r: Vec<u16> = Vec::new();
    let mut i: usize = 0;
    while i < keep
        invariant
            keep <= units@.len(),
            i <= keep,
            r@ == units@.subrange(0, i as int),
        decreases keep - i,
    {
        r.push(units[i]);
        assert(units@.subrange(0, i + 1) =~= units@.subrange(0, i as int).push(units@[i as int]));
        i = i + 1;
    }
    assert(units@.subrange(0, units@.len() as int) =~= units@);
    r
}

struct ExfatState {
    subdirs: Vec<(u32, Vec<char>)>,
    entries: Vec<FatDeletedEntry>,
    full: bool,
}

spec fn exfat_view(s: ExfatState) -> ExfatWalk {
    ExfatWalk { subdirs: subdirs_view(s.subdirs@), entries: fat_views(s.entries@), full: s.full }
}

fn exfat_scan_directory(db: &Vec<u8>, path: &Vec<char>, max: usize, st: &mut ExfatState) -> (r: Result<(), ScanError>)
    ensures
        match (r, exfat_walk(db@, path@, max as nat, exfat_view(*old(st)), 0)) {
            (Ok(()), Ok(w)) => exfat_view(*final(st)) == w,
            (Err(e), Err(f)) => e == f,
            _ => false,
        },
{
    let len = db.len();
    let mut offset: usize = 0;
    while len - offset >= 32 && !st.full
        invariant
            len == db@.len(),
            offset <= len,
            exfat_walk(db@, path@, max as nat, exfat_view(*old(st)), 0) == exfat_walk(
                db@,
                path@,
                max as nat,
                exfat_view(*st),
                offset as int,
            ),
        decreases len - offset,
    {
        let entry_type = db[offset];
        if entry_type == 0 {
            return Ok(());
        }
        if entry_type != 0x05 && entry_type != 0x85 {
            offset = offset + 32;
            continue;
        }
        let count = db[offset + 1] as usize;
        let set = match exfat_entry_set(db, offset, count) {
            Ok(s) => s,
            Err(e) => return Err(e),
        };
        let next = offset + (count + 1) * 32;
        if !set.stream_seen {
            offset = next;
            continue;
        }
        let units = cut_units_of(&set.units, set.name_length);
        let decoded = utf16_string_lossy(units.as_slice());
        let name = sanitize_name(&chars_of(decoded.as_str()));
        if name.len() == 0 {
            offset = next;
            continue;
        }
        let attributes = read_u16_le(db.as_slice(), offset + 4);
        let is_directory = attributes & 0x10 != 0;
        let child = join_candidate_path(path, &name);
        if is_directory && set.start_cluster >= 2 {
            let ghost before = st.subdirs@;
            let queued = join_candidate_path(path, &name);
            st.subdirs.push((set.start_cluster, queued));
            assert(subdirs_view(st.subdirs@) =~= subdirs_view(before).push((set.start_cluster, child@)));
        }
        if entry_type == 0x05 {
            let ghost before = st.entries@;
            let entry = FatDeletedEntry {
                filesystem: FatFilesystemKind::ExFat,
                name: string_from_chars(&name),
                path: string_from_chars(&child),
                is_directory,
                start_cluster: set.start_cluster,
                size_bytes: set.data_length,
            };
            st.entries.push(entry);
            assert(fat_views(st.entries@) =~= fat_views(before).push(entry@));
            st.full = st.entries.len() >= max;
        }
        offset = next;
    }
    Ok(())
}


// ---------------------------------------------------------------------------
// The tree walk (executable)
// ---------------------------------------------------------------------------

fn scan_directory(
    image: &[u8],
    boot: &FatBootSector,
    cluster: u32,
    path: &Vec<char>,
    max: usize,
    max_clusters: usize,
    entries: Vec<FatDeletedEntry>,
) -> (r: Result<(Vec<FatDeletedEntry>, Vec<(u32, Vec<char>)>, bool), ScanError>)
    ensures
        match (r, directory_scan(image@, *boot, cluster, path@, max as nat, max_clusters as nat, fat_views(entries@))) {
            (Ok((found, subdirs, full)), Ok((f, s, b))) => fat_views(found@) == f && subdirs_view(subdirs@) == s
                && full == b,
            (Err(e), Err(g)) => e == g,
            _ => false,
        },
{
    let chain = match collect_cluster_chain(image, boot, cluster, max_clusters) {
        Ok(c) => c,
        Err(e) => return Err(e),
    };
    match boot.filesystem {
        FatFilesystemKind::Fat32 => {
            let mut st = Fat32State { long_name: Vec::new(), subdirs: Vec::new(), entries, stop: false, full: false };
            assert(parts_view(st.long_name@) =~= Seq::<Seq<char>>::empty());
            assert(subdirs_view(st.subdirs@) =~= Seq::<(u32, Seq<char>)>::empty());
            match scan_fat32_directory(image, boot, &chain, path, max, &mut st) {
                Ok(()) => Ok((st.entries, st.subdirs, st.full)),
                Err(e) => Err(e),
            }
        },
        FatFilesystemKind::ExFat => {
            let db = match read_directory_bytes(image, boot, &chain) {
                Ok(b) => b,
                Err(e) => return Err(e),
            };
            let mut st = ExfatState { subdirs: Vec::new(), entries, full: false };
            assert(subdirs_view(st.subdirs@) =~= Seq::<(u32, Seq<char>)>::empty());
            match exfat_scan_directory(&db, path, max, &mut st) {
                Ok(()) => Ok((st.entries, st.subdirs, st.full)),
                Err(e) => Err(e),
            }
        },
    }
}

proof fn lemma_distinct_u32_bound(s: Seq<u32>)
    requires
        s.no_duplicates(),
    ensures
        s.len() <= 0x1_0000_0000,
{
    let t = s.map_values(|x: u32| x as int);
    assert(t.no_duplicates()) by {
        assert forall|i: int, j: int| 0 <= i < t.len() && 0 <= j < t.len() && i != j implies t[i] != t[j] by {
            assert(s[i] != s[j]);
        }
    }
    t.unique_seq_to_set();
    vstd::set_lib::lemma_int_range(0, 0x1_0000_0000);
    assert(t.to_set().subset_of(vstd::set_lib::set_int_range(0, 0x1_0000_0000))) by {
        assert forall|x: int| t.to_set().contains(x) implies vstd::set_lib::set_int_range(0, 0x1_0000_0000).contains(x) by {
            let i = choose|i: int| 0 <= i < t.len() && t[i] == x;
            assert(t[i] == s[i] as int);
        }
    }
    vstd::set_lib::lemma_len_subset(t.to_set(), vstd::set_lib::set_int_range(0, 0x1_0000_0000));
}

/// Walks the directory tree of a FAT32 or exFAT image breadth-first from the
/// root and gathers up to `max_entries` deleted entries; each directory is
/// read once, through at most `max_directory_clusters` clusters.
pub fn scan_deleted_entries_with_boot(
    image: &[u8],
    boot: &FatBootSector,
    max_entries: usize,
    max_directory_clusters: usize,
) -> (r: Result<Vec<FatDeletedEntry>, ScanError>)
    ensures
        tree_result(
            image@,
            *boot,
            max_entries as nat,
            max_directory_clusters as nat,
            match r {
                Ok(v) => Ok(fat_views(v@)),
                Err(e) => Err(e),
            },
        ),
{
    if max_entries == 0 {
        let empty: Vec<FatDeletedEntry> = Vec::new();
        assert(fat_views(empty@) =~= Seq::<FatEntryView>::empty());
        return Ok(empty);
    }
    let ghost img = image@;
    let ghost max = max_entries as nat;
    let ghost mdc = max_directory_clusters as nat;
    let mut queue: Vec<(u32, Vec<char>)> = Vec::new();
    let root_path = vec!['.'];
    assert(root_path@ =~= seq!['.']);
    queue.push((boot.root_dir_first_cluster, root_path));
    let mut head: usize = 0;
    let mut visited: Vec<u32> = Vec::new();
    let ghost mut visited_set: Set<u32> = Set::empty();
    let mut entries: Vec<FatDeletedEntry> = Vec::new();
    let ghost mut steps: nat = 0;
    assert(subdirs_view(queue@) =~= seq![(boot.root_dir_first_cluster, seq!['.'])]);
    assert(fat_views(entries@) =~= Seq::<FatEntryView>::empty());
    while head < queue.len()
        invariant
            img == image@,
            max == max_entries,
            max_entries > 0,
            mdc == max_directory_clusters,
            head <= queue@.len(),
            visited@.no_duplicates(),
            visited@.len() <= 0x1_0000_0000,
            forall|x: u32| visited@.contains(x) <==> visited_set.contains(x),
            tree_after(img, *boot, max, mdc, tree_start(*boot), steps) == (TreeWalk::Running {
                queue: subdirs_view(queue@),
                head: head as nat,
                visited: visited_set,
                entries: fat_views(entries@),
            }),
        decreases 0x1_0000_0000 - visited@.len(), queue@.len() - head,
    {
        let ghost t = tree_after(img, *boot, max, mdc, tree_start(*boot), steps);
        let cluster = queue[head].0;
        let path = queue[head].1.clone();
        assert(subdirs_view(queue@)[head as int] == (cluster, path@));
        head = head + 1;
        if contains_u32(&visited, cluster) {
            proof {
                steps = steps + 1;
            }
            continue;
        }
        let ghost old_visited = visited@;
        visited.push(cluster);
        proof {
            visited_set = visited_set.insert(cluster);
            lemma_push_contains(old_visited, cluster, visited@, visited_set);
            assert(visited@.no_duplicates()) by {
                assert forall|i: int, j: int| 0 <= i < visited@.len() && 0 <= j < visited@.len() && i != j implies visited@[i]
                    != visited@[j] by {
                    if i < old_visited.len() && j < old_visited.len() {
                        assert(old_visited[i] != old_visited[j]);
                    } else if i < old_visited.len() {
                        assert(old_visited.contains(old_visited[i]));
                    } else {
                        assert(old_visited.contains(old_visited[j]));
                    }
                }
            }
            lemma_distinct_u32_bound(visited@);
        }
        match scan_directory(image, boot, cluster, &path, max_entries, max_directory_clusters, entries) {
            Err(e) => {
                proof {
                    steps = steps + 1;
                }
                assert(tree_after(img, *boot, max, mdc, tree_start(*boot), steps) == TreeWalk::Failed(e));
                return Err(e);
            },
            Ok((found, mut subdirs, full)) => {
                if full {
                    proof {
                        steps = steps + 1;
                    }
                    assert(tree_after(img, *boot, max, mdc, tree_start(*boot), steps) == TreeWalk::Done(
                        fat_views(found@),
                    ));
                    return Ok(found);
                }
                entries = found;
                let ghost before = queue@;
                let ghost added = subdirs@;
                queue.append(&mut subdirs);
                assert(subdirs_view(queue@) =~= subdirs_view(before) + subdirs_view(added));
                proof {
                    steps = steps + 1;
                }
            },
        }
    }
    proof {
        steps = steps + 1;
    }
    assert(tree_after(img, *boot, max, mdc, tree_start(*boot), steps) == TreeWalk::Done(fat_views(entries@)));
    Ok(entries)
}

/// The same walk as `scan_deleted_entries_with_boot`.
pub fn scan_deleted_root_entries_with_boot(
    image: &[u8],
    boot: &FatBootSector,
    max_entries: usize,
    max_directory_clusters: usize,
) -> (r: Result<Vec<FatDeletedEntry>, ScanError>)
    ensures
        tree_result(
            image@,
            *boot,
            max_entries as nat,
            max_directory_clusters as nat,
            match r {
                Ok(v) => Ok(fat_views(v@)),
                Err(e) => Err(e),
            },
        ),
{
    scan_deleted_entries_with_boot(image, boot, max_entries, max_directory_clusters)
}

/// Parses the boot sector of `image` and walks its directory tree for at
/// most `max_entries` deleted entries, reading up to 256 clusters per
/// directory.
pub fn quick_scan_deleted_root_entries(image: &[u8], max_entries: usize) -> (r: Result<
    (FatBootSector, Vec<FatDeletedEntry>),
    ScanError,
>)
    ensures
        match fat_boot_of(image@) {
            Err(e) => r == Err::<(FatBootSector, Vec<FatDeletedEntry>), ScanError>(ScanError::Boot(e)),
            Ok(boot) => match r {
                Ok((b, v)) => b == boot && tree_result(image@, boot, max_entries as nat, 256, Ok(fat_views(v@))),
                Err(e) => tree_result(image@, boot, max_entries as nat, 256, Err(e)),
            },
        },
{
    let boot = match parse_boot_sector(image) {
        Ok(b) => b,
        Err(e) => return Err(ScanError::Boot(e)),
    };
    match scan_deleted_entries_with_boot(image, &boot, max_entries, 256) {
        Ok(entries) => Ok((boot, entries)),
        Err(e) => Err(e),
    }
}


proof fn lemma_tree_settled(img: Seq<u8>, boot: FatBootSector, max: nat, mdc: nat, n: nat, m: nat)
    requires
        n <= m,
        !(tree_after(img, boot, max, mdc, tree_start(boot), n) is Running),
    ensures
        tree_after(img, boot, max, mdc, tree_start(boot), m) == tree_after(img, boot, max, mdc, tree_start(boot), n),
    decreases m - n,
{
    if n < m {
        lemma_tree_settled(img, boot, max, mdc, n, (m - 1) as nat);
    }
}

/// The tree walk has one outcome: two results that both describe how the
/// walk of the same image ends are equal.
pub proof fn law_tree_result_unique(
    img: Seq<u8>,
    boot: FatBootSector,
    max: nat,
    mdc: nat,
    r1: Result<Seq<FatEntryView>, ScanError>,
    r2: Result<Seq<FatEntryView>, ScanError>,
)
    requires
        tree_result(img, boot, max, mdc, r1),
        tree_result(img, boot, max, mdc, r2),
    ensures
        r1 == r2,
{
    if max > 0 {
        let n1 = choose|n: nat|
            match #[trigger] tree_after(img, boot, max, mdc, tree_start(boot), n) {
                TreeWalk::Done(v) => r1 == Ok::<Seq<FatEntryView>, ScanError>(v),
                TreeWalk::Failed(e) => r1 == Err::<Seq<FatEntryView>, ScanError>(e),
                TreeWalk::Running { .. } => false,
            };
        let n2 = choose|n: nat|
            match #[trigger] tree_after(img, boot, max, mdc, tree_start(boot), n) {
                TreeWalk::Done(v) => r2 == Ok::<Seq<FatEntryView>, ScanError>(v),
                TreeWalk::Failed(e) => r2 == Err::<Seq<FatEntryView>, ScanError>(e),
                TreeWalk::Running { .. } => false,
            };
        if n1 <= n2 {
            lemma_tree_settled(img, boot, max, mdc, n1, n2);
        } else {
            lemma_tree_settled(img, boot, max, mdc, n2, n1);
        }
    }
}

} // verus!
